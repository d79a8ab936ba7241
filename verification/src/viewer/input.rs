//! Input for the guest: what arrives, and what is sent to QEMU for it.

use vstd::prelude::*;

use crate::numeral;
use crate::numeral::{push_decimal, push_signed};

verus! {

/// How the guest takes pointer motion.
#[derive(Copy, Clone, Debug, PartialEq, Eq, Structural)]
pub enum MouseMode {
    Absolute,
    Relative,
}

/// A button of the guest's mouse.
#[derive(Copy, Clone, Debug, PartialEq, Eq, Structural)]
pub enum MouseButton {
    Left,
    Middle,
    Right,
    WheelUp,
    WheelDown,
    Side,
    Extra,
}

impl MouseButton {
    /// The name of the button.
    pub open spec fn name(self) -> Seq<char> {
        match self {
            MouseButton::Left => "Left"@,
            MouseButton::Middle => "Middle"@,
            MouseButton::Right => "Right"@,
            MouseButton::WheelUp => "WheelUp"@,
            MouseButton::WheelDown => "WheelDown"@,
            MouseButton::Side => "Side"@,
            MouseButton::Extra => "Extra"@,
        }
    }

    fn label(self) -> (r: &'static str)
        ensures
            r@ == self.name(),
    {
        match self {
            MouseButton::Left => "Left",
            MouseButton::Middle => "Middle",
            MouseButton::Right => "Right",
            MouseButton::WheelUp => "WheelUp",
            MouseButton::WheelDown => "WheelDown",
            MouseButton::Side => "Side",
            MouseButton::Extra => "Extra",
        }
    }
}

/// Something that the user did.
#[derive(Copy, Clone, Debug, PartialEq, Eq, Structural)]
pub enum InputEvent {
    KeyPress(u32),
    KeyRelease(u32),
    ClipboardViewerFocused,
    ClipboardHostChanged,
    MousePress(MouseButton),
    MouseRelease(MouseButton),
    MouseAbs { x: i32, y: i32 },
    MouseRel { dx: i32, dy: i32 },
    MouseWheel(MouseButton),
}

/// One thing to do for an event. `next_move` says in which order the steps of an event are done,
/// and what a step that fails means for the others.
#[derive(Copy, Clone, Debug, PartialEq, Eq, Structural)]
pub enum InputStep {
    /// Read the sizes of all heads again.
    RefreshHeadMap,
    PressKey(u32),
    ReleaseKey(u32),
    PressButton(MouseButton),
    ReleaseButton(MouseButton),
    /// Move the pointer to this position of the window, mapped for QEMU when the step is done.
    SetAbsPosition { x: i32, y: i32 },
    RelMotion { dx: i32, dy: i32 },
    PressWheel(MouseButton),
    ReleaseWheel(MouseButton),
}

/// How many nanoseconds a second has.
pub const SECOND: u64 = 1_000_000_000;

/// Whether the sizes of the heads were never asked for, or a second ago or longer. `asked` is when
/// they were last asked for, whether or not an answer came, and `now` is the time, both in
/// nanoseconds on one clock.
pub open spec fn is_stale(asked: Option<u64>, now: u64) -> bool {
    match asked {
        Some(at) => now - at >= SECOND,
        None => true,
    }
}

/// The steps for an event. `heads` is how many consoles the guest has.
pub open spec fn steps_for(event: InputEvent, heads: nat, asked: Option<u64>, now: u64) -> Seq<
    InputStep,
> {
    match event {
        InputEvent::KeyPress(key) => seq![InputStep::PressKey(key)],
        InputEvent::KeyRelease(key) => seq![InputStep::ReleaseKey(key)],
        InputEvent::ClipboardViewerFocused => Seq::empty(),
        InputEvent::ClipboardHostChanged => Seq::empty(),
        InputEvent::MousePress(button) => if heads > 0 {
            seq![InputStep::RefreshHeadMap, InputStep::PressButton(button)]
        } else {
            seq![InputStep::PressButton(button)]
        },
        InputEvent::MouseRelease(button) => seq![InputStep::ReleaseButton(button)],
        InputEvent::MouseAbs { x, y } => if is_stale(asked, now) && heads > 0 {
            seq![InputStep::RefreshHeadMap, InputStep::SetAbsPosition { x, y }]
        } else {
            seq![InputStep::SetAbsPosition { x, y }]
        },
        InputEvent::MouseRel { dx, dy } => seq![InputStep::RelMotion { dx, dy }],
        InputEvent::MouseWheel(button) => seq![
            InputStep::PressWheel(button),
            InputStep::ReleaseWheel(button),
        ],
    }
}

/// Whether the sizes of the heads are asked for in these steps.
pub open spec fn asks(steps: Seq<InputStep>) -> bool {
    steps.contains(InputStep::RefreshHeadMap)
}

/// When the sizes were last asked for, once an event at `now` was taken.
pub open spec fn asked_after(event: InputEvent, heads: nat, asked: Option<u64>, now: u64) -> Option<
    u64,
> {
    if asks(steps_for(event, heads, asked, now)) {
        Some(now)
    } else {
        asked
    }
}

/// The steps for an event.
pub fn input_steps(event: InputEvent, heads: usize, asked: Option<u64>, now: u64) -> (r: Vec<
    InputStep,
>)
    ensures
        r@ == steps_for(event, heads as nat, asked, now),
{
    let mut steps: Vec<InputStep> = Vec::new();
    match event {
        InputEvent::KeyPress(key) => {
            steps.push(InputStep::PressKey(key));
        },
        InputEvent::KeyRelease(key) => {
            steps.push(InputStep::ReleaseKey(key));
        },
        InputEvent::ClipboardViewerFocused => {},
        InputEvent::ClipboardHostChanged => {},
        InputEvent::MousePress(button) => {
            if heads > 0 {
                steps.push(InputStep::RefreshHeadMap);
            }
            steps.push(InputStep::PressButton(button));
        },
        InputEvent::MouseRelease(button) => {
            steps.push(InputStep::ReleaseButton(button));
        },
        InputEvent::MouseAbs { x, y } => {
            let stale: bool = match asked {
                Some(at) => now >= at && now - at >= SECOND,
                None => true,
            };
            if stale && heads > 0 {
                steps.push(InputStep::RefreshHeadMap);
            }
            steps.push(InputStep::SetAbsPosition { x, y });
        },
        InputEvent::MouseRel { dx, dy } => {
            steps.push(InputStep::RelMotion { dx, dy });
        },
        InputEvent::MouseWheel(button) => {
            steps.push(InputStep::PressWheel(button));
            steps.push(InputStep::ReleaseWheel(button));
        },
    }
    assert(steps@ =~= steps_for(event, heads as nat, asked, now));
    steps
}

impl InputStep {
    /// What is reported where the step fails; nothing for a head map that cannot be refreshed.
    pub open spec fn failure(self) -> Option<Seq<char>> {
        match self {
            InputStep::RefreshHeadMap => None,
            InputStep::PressKey(key) => Some(
                "failed to send key press for qnum "@ + numeral::decimal(key as nat),
            ),
            InputStep::ReleaseKey(key) => Some(
                "failed to send key release for qnum "@ + numeral::decimal(key as nat),
            ),
            InputStep::PressButton(button) => Some(
                "failed to send mouse press for "@ + button.name(),
            ),
            InputStep::ReleaseButton(button) => Some(
                "failed to send mouse release for "@ + button.name(),
            ),
            InputStep::SetAbsPosition { x, y } => Some(
                "failed to move the absolute mouse to "@ + numeral::signed_decimal(x as int) + ","@
                    + numeral::signed_decimal(y as int),
            ),
            InputStep::RelMotion { dx, dy } => Some(
                "failed to move the relative mouse by "@ + numeral::signed_decimal(dx as int)
                    + ","@ + numeral::signed_decimal(dy as int),
            ),
            InputStep::PressWheel(button) => Some(
                "failed to send mouse wheel press for "@ + button.name(),
            ),
            InputStep::ReleaseWheel(button) => Some(
                "failed to send mouse wheel release for "@ + button.name(),
            ),
        }
    }

    /// The message for a step that failed; nothing where the failure does not matter.
    pub fn failure_message(&self) -> (r: Option<String>)
        ensures
            match r {
                Some(text) => self.failure() == Some(text@),
                None => self.failure() is None,
            },
    {
        let mut out: String = String::new();
        match *self {
            InputStep::RefreshHeadMap => {
                return None;
            },
            InputStep::PressKey(key) => {
                out = "failed to send key press for qnum ".to_owned();
                push_decimal(&mut out, key as u64);
            },
            InputStep::ReleaseKey(key) => {
                out = "failed to send key release for qnum ".to_owned();
                push_decimal(&mut out, key as u64);
            },
            InputStep::PressButton(button) => {
                out = "failed to send mouse press for ".to_owned();
                out.append(button.label());
            },
            InputStep::ReleaseButton(button) => {
                out = "failed to send mouse release for ".to_owned();
                out.append(button.label());
            },
            InputStep::SetAbsPosition { x, y } => {
                out = "failed to move the absolute mouse to ".to_owned();
                push_signed(&mut out, x as i64);
                out.append(",");
                push_signed(&mut out, y as i64);
            },
            InputStep::RelMotion { dx, dy } => {
                out = "failed to move the relative mouse by ".to_owned();
                push_signed(&mut out, dx as i64);
                out.append(",");
                push_signed(&mut out, dy as i64);
            },
            InputStep::PressWheel(button) => {
                out = "failed to send mouse wheel press for ".to_owned();
                out.append(button.label());
            },
            InputStep::ReleaseWheel(button) => {
                out = "failed to send mouse wheel release for ".to_owned();
                out.append(button.label());
            },
        }
        Some(out)
    }
}

/// What to do next for an event.
#[derive(Clone, Debug, PartialEq, Eq)]
pub enum NextMove {
    /// Do this step.
    Perform(InputStep),
    /// Stop, and report this.
    Report(String),
    /// Nothing is left to do, and nothing to report.
    Finished,
}

/// What a `NextMove` is.
pub enum Move {
    Perform(InputStep),
    Report(Seq<char>),
    Finished,
}

impl View for NextMove {
    type V = Move;

    open spec fn view(&self) -> Move {
        match self {
            NextMove::Perform(step) => Move::Perform(*step),
            NextMove::Report(text) => Move::Report(text@),
            NextMove::Finished => Move::Finished,
        }
    }
}

/// What comes once the first `done` steps were done; `failed` tells whether the last of them
/// failed. A failure that is to be reported ends the event; otherwise the next step comes.
pub open spec fn move_after(steps: Seq<InputStep>, done: int, failed: bool) -> Move {
    if failed && steps[done - 1].failure() is Some {
        Move::Report(steps[done - 1].failure()->0)
    } else if done < steps.len() {
        Move::Perform(steps[done])
    } else {
        Move::Finished
    }
}

/// What to do once the first `done` steps of an event were done; `failed` tells whether the last
/// of them failed.
pub fn next_move(steps: &Vec<InputStep>, done: usize, failed: bool) -> (r: NextMove)
    requires
        done <= steps@.len(),
        failed ==> done > 0,
    ensures
        r@ == move_after(steps@, done as int, failed),
{
    if failed {
        if let Some(text) = steps[done - 1].failure_message() {
            return NextMove::Report(text);
        }
    }
    if done < steps.len() {
        NextMove::Perform(steps[done])
    } else {
        NextMove::Finished
    }
}

/// How an event goes on once its first `done` steps were done, where `failed` tells whether the
/// last of them failed and `fails` which of the steps fail: how many steps are done in all, and
/// what is reported at the end.
pub open spec fn run(steps: Seq<InputStep>, fails: Seq<bool>, done: int, failed: bool) -> (
    int,
    Option<Seq<char>>,
)
    decreases steps.len() - done,
{
    match move_after(steps, done, failed) {
        Move::Perform(_) => run(steps, fails, done + 1, fails[done]),
        Move::Report(text) => (done, Some(text)),
        Move::Finished => (done, None),
    }
}

proof fn lemma_run(steps: Seq<InputStep>, fails: Seq<bool>, done: int, failed: bool)
    requires
        fails.len() == steps.len(),
        0 <= done <= steps.len(),
        failed == (done > 0 && fails[done - 1]),
        forall|i: int|
            0 <= i < done - 1 && #[trigger] fails[i] ==> steps[i] == InputStep::RefreshHeadMap,
    ensures
        ({
            let (n, report) = run(steps, fails, done, failed);
            match report {
                Some(text) => {
                    &&& 0 < n <= steps.len()
                    &&& fails[n - 1]
                    &&& steps[n - 1].failure() == Some(text)
                    &&& forall|i: int|
                        0 <= i < n - 1 && #[trigger] fails[i] ==> steps[i]
                            == InputStep::RefreshHeadMap
                },
                None => {
                    &&& n == steps.len()
                    &&& forall|i: int|
                        0 <= i < n && #[trigger] fails[i] ==> steps[i] == InputStep::RefreshHeadMap
                },
            }
        }),
    decreases steps.len() - done,
{
    if move_after(steps, done, failed) is Perform {
        lemma_run(steps, fails, done + 1, fails[done]);
    }
}

/// An event ends at the first step that fails, which is reported; steps behind it are not done. A
/// head map that cannot be refreshed is no failure. Where nothing else fails, every step is done
/// and nothing is reported.
pub proof fn law_event_ends_at_the_first_failure(steps: Seq<InputStep>, fails: Seq<bool>)
    requires
        fails.len() == steps.len(),
    ensures
        ({
            let (n, report) = run(steps, fails, 0, false);
            match report {
                Some(text) => {
                    &&& 0 < n <= steps.len()
                    &&& fails[n - 1]
                    &&& steps[n - 1].failure() == Some(text)
                    &&& forall|i: int|
                        0 <= i < n - 1 && #[trigger] fails[i] ==> steps[i]
                            == InputStep::RefreshHeadMap
                },
                None => {
                    &&& n == steps.len()
                    &&& forall|i: int|
                        0 <= i < n && #[trigger] fails[i] ==> steps[i] == InputStep::RefreshHeadMap
                },
            }
        }),
{
    lemma_run(steps, fails, 0, false);
}

/// The wheel is released only after it was pressed: after a press that failed, that is reported
/// and nothing else is sent; otherwise the release is sent, and reported where it fails.
pub proof fn law_wheel_is_released_after_its_press(
    button: MouseButton,
    heads: nat,
    asked: Option<u64>,
    now: u64,
    fails: Seq<bool>,
)
    requires
        fails.len() == 2,
    ensures
        run(steps_for(InputEvent::MouseWheel(button), heads, asked, now), fails, 0, false)
            == if fails[0] {
            (1int, InputStep::PressWheel(button).failure())
        } else if fails[1] {
            (2int, InputStep::ReleaseWheel(button).failure())
        } else {
            (2int, None)
        },
{
    reveal_with_fuel(run, 3);
}

/// Where the guest has a console, a press of a button first asks for the sizes and is then sent,
/// whether or not they came; what is reported depends on the press alone.
pub proof fn law_press_is_sent_whatever_the_sizes(
    button: MouseButton,
    heads: nat,
    asked: Option<u64>,
    now: u64,
    fails: Seq<bool>,
)
    requires
        heads > 0,
        fails.len() == 2,
    ensures
        steps_for(InputEvent::MousePress(button), heads, asked, now) == seq![
            InputStep::RefreshHeadMap,
            InputStep::PressButton(button),
        ],
        run(steps_for(InputEvent::MousePress(button), heads, asked, now), fails, 0, false) == (
            2int,
            if fails[1] {
                InputStep::PressButton(button).failure()
            } else {
                None
            },
        ),
{
    reveal_with_fuel(run, 3);
}

/// An event has at most two steps. A refresh of the head map is the first of two, and never comes
/// for a guest without consoles; the only other event with two steps is the wheel, which is
/// pressed and then released.
pub proof fn law_refresh_comes_before_what_is_sent(
    event: InputEvent,
    heads: nat,
    asked: Option<u64>,
    now: u64,
)
    ensures
        ({
            let steps = steps_for(event, heads, asked, now);
            &&& steps.len() <= 2
            &&& forall|i: int|
                0 <= i < steps.len() && (#[trigger] steps[i]) == InputStep::RefreshHeadMap ==> i
                    == 0 && steps.len() == 2 && heads > 0
            &&& steps.len() == 2 && steps[0] != InputStep::RefreshHeadMap ==> (event matches
                InputEvent::MouseWheel(button) && steps == seq![
                InputStep::PressWheel(button),
                InputStep::ReleaseWheel(button),
            ])
        }),
{
}

/// Every press of a button asks for the sizes of the heads, where the guest has any; a motion of
/// the pointer does exactly where they were not asked for within the last second.
pub proof fn law_refresh_is_timely(
    x: i32,
    y: i32,
    button: MouseButton,
    heads: nat,
    asked: Option<u64>,
    now: u64,
)
    ensures
        heads > 0 ==> steps_for(InputEvent::MousePress(button), heads, asked, now)[0]
            == InputStep::RefreshHeadMap,
        asks(steps_for(InputEvent::MouseAbs { x, y }, heads, asked, now)) <==> heads > 0
            && is_stale(asked, now),
{
    let steps = steps_for(InputEvent::MouseAbs { x, y }, heads, asked, now);
    if heads > 0 && is_stale(asked, now) {
        assert(steps[0] == InputStep::RefreshHeadMap);
    }
}

/// When the sizes were last asked for before the event at `n`, for events and their times, where
/// `asked` is when that was before all of them.
pub open spec fn asked_before(
    events: Seq<(InputEvent, u64)>,
    heads: nat,
    asked: Option<u64>,
    n: int,
) -> Option<u64>
    decreases n,
{
    if n <= 0 {
        asked
    } else {
        asked_after(
            events[n - 1].0,
            heads,
            asked_before(events, heads, asked, n - 1),
            events[n - 1].1,
        )
    }
}

/// Whether the sizes are asked for at the event at `i`.
pub open spec fn asks_at(
    events: Seq<(InputEvent, u64)>,
    heads: nat,
    asked: Option<u64>,
    i: int,
) -> bool {
    asks(steps_for(events[i].0, heads, asked_before(events, heads, asked, i), events[i].1))
}

/// Whether no event comes before one that stands before it, nor before the sizes were asked for.
pub open spec fn in_time(events: Seq<(InputEvent, u64)>, asked: Option<u64>) -> bool {
    &&& forall|i: int, j: int| 0 <= i < j < events.len() ==> events[i].1 <= events[j].1
    &&& asked matches Some(at) ==> forall|i: int| 0 <= i < events.len() ==> at <= events[i].1
}

proof fn lemma_asked_before(
    events: Seq<(InputEvent, u64)>,
    heads: nat,
    asked: Option<u64>,
    i: int,
    n: int,
)
    requires
        in_time(events, asked),
        0 <= i <= n <= events.len(),
    ensures
        i < n && asks_at(events, heads, asked, i) ==> (asked_before(events, heads, asked, n) matches
            Some(at) && events[i].1 <= at),
        asked matches Some(first) ==> (asked_before(events, heads, asked, n) matches Some(at)
            && first <= at),
    decreases n,
{
    if n > 0 {
        if i < n {
            lemma_asked_before(events, heads, asked, i, n - 1);
        } else {
            lemma_asked_before(events, heads, asked, n - 1, n - 1);
        }
    }
}

/// While the pointer moves, the sizes are asked for at most once per second, whether or not the
/// answers come: a motion that asks for them comes a second or more after every event that asked
/// before it, and after they were asked for before all events.
pub proof fn law_motion_asks_once_per_second(
    events: Seq<(InputEvent, u64)>,
    heads: nat,
    asked: Option<u64>,
    i: int,
    j: int,
)
    requires
        in_time(events, asked),
        0 <= i <= j < events.len(),
        events[j].0 is MouseAbs,
        asks_at(events, heads, asked, j),
    ensures
        i < j && asks_at(events, heads, asked, i) ==> events[j].1 - events[i].1 >= SECOND,
        asked matches Some(first) ==> events[j].1 - first >= SECOND,
{
    lemma_asked_before(events, heads, asked, i, j);
}

/// A key is pressed and released as the event says: one step, with the very key of the event. A
/// released button and a relative motion are sent with the very values of the event too, and what
/// happens to the clipboard sends nothing.
pub proof fn law_events_are_sent_as_they_are(
    key: u32,
    button: MouseButton,
    dx: i32,
    dy: i32,
    heads: nat,
    asked: Option<u64>,
    now: u64,
)
    ensures
        steps_for(InputEvent::KeyPress(key), heads, asked, now) == seq![InputStep::PressKey(key)],
        steps_for(InputEvent::KeyRelease(key), heads, asked, now) == seq![
            InputStep::ReleaseKey(key),
        ],
        steps_for(InputEvent::MouseRelease(button), heads, asked, now) == seq![
            InputStep::ReleaseButton(button),
        ],
        steps_for(InputEvent::MouseRel { dx, dy }, heads, asked, now) == seq![
            InputStep::RelMotion { dx, dy },
        ],
        steps_for(InputEvent::ClipboardViewerFocused, heads, asked, now).len() == 0,
        steps_for(InputEvent::ClipboardHostChanged, heads, asked, now).len() == 0,
{
}

/// What a pointer, a button or the wheel does is sent last, with the very values of the event, and
/// nothing is sent before it but the press of the wheel before its release; the sizes are asked
/// for before a press of a button wherever the guest has a console, and before a motion exactly
/// where that was not done within the last thousand million nanoseconds.
pub proof fn law_pointer_is_sent_as_it_is(
    x: i32,
    y: i32,
    button: MouseButton,
    heads: nat,
    asked: Option<u64>,
    now: u64,
)
    ensures
        ({
            let pressed = steps_for(InputEvent::MousePress(button), heads, asked, now);
            let moved = steps_for(InputEvent::MouseAbs { x, y }, heads, asked, now);
            let wheeled = steps_for(InputEvent::MouseWheel(button), heads, asked, now);
            &&& pressed.last() == InputStep::PressButton(button)
            &&& heads == 0 ==> pressed.len() == 1
            &&& heads > 0 ==> pressed.len() == 2 && pressed[0] == InputStep::RefreshHeadMap
            &&& moved.last() == (InputStep::SetAbsPosition { x, y })
            &&& moved.len() == 1 || moved.len() == 2 && moved[0] == InputStep::RefreshHeadMap
            &&& moved.len() == 2 <==> heads > 0 && (asked matches Some(at) ==> now - at
                >= 1_000_000_000)
            &&& wheeled.len() == 2
            &&& wheeled[0] == InputStep::PressWheel(button)
            &&& wheeled[1] == InputStep::ReleaseWheel(button)
        }),
{
}

/// An event at which the sizes are asked for makes its time the one at which that was last done;
/// another event leaves that time alone.
pub proof fn law_asking_is_remembered(
    event: InputEvent,
    heads: nat,
    asked: Option<u64>,
    now: u64,
)
    ensures
        ({
            let steps = steps_for(event, heads, asked, now);
            if exists|i: int|
                0 <= i < steps.len() && #[trigger] steps[i] == InputStep::RefreshHeadMap {
                asked_after(event, heads, asked, now) == Some(now)
            } else {
                asked_after(event, heads, asked, now) == asked
            }
        }),
{
}

/// The steps of an event are done one after the other, each of them once: after a step that did
/// not fail, or whose failure does not matter, the next one comes, and nothing where it was the
/// last. A failure that matters is reported and nothing else comes.
pub proof fn law_steps_come_one_after_the_other(steps: Seq<InputStep>, done: int, failed: bool)
    requires
        0 <= done <= steps.len(),
        failed ==> done > 0,
    ensures
        move_after(steps, done, failed) matches Move::Perform(step) ==> done < steps.len() && step
            == steps[done],
        move_after(steps, done, failed) is Report <==> failed && steps[done - 1]
            != InputStep::RefreshHeadMap,
        move_after(steps, done, failed) matches Move::Report(text) ==> steps[done - 1].failure()
            == Some(text),
        move_after(steps, done, failed) is Finished <==> done == steps.len() && (!failed
            || steps[done - 1] == InputStep::RefreshHeadMap),
{
}

/// A move is handed out as it is decided.
pub proof fn law_move_is_handed_out_as_decided(step: InputStep, text: String)
    ensures
        NextMove::Perform(step)@ == Move::Perform(step),
        NextMove::Report(text)@ == Move::Report(text@),
        NextMove::Finished@ == Move::Finished,
{
}

/// Every step but a refresh of the head map has a message of its own that names what failed and
/// the values of the event.
pub proof fn law_failures_are_named(key: u32, button: MouseButton, x: i32, y: i32)
    ensures
        InputStep::RefreshHeadMap.failure() is None,
        InputStep::PressKey(key).failure() == Some(
            "failed to send key press for qnum "@ + numeral::decimal(key as nat),
        ),
        InputStep::ReleaseKey(key).failure() == Some(
            "failed to send key release for qnum "@ + numeral::decimal(key as nat),
        ),
        InputStep::PressButton(button).failure() == Some(
            "failed to send mouse press for "@ + button.name(),
        ),
        InputStep::ReleaseButton(button).failure() == Some(
            "failed to send mouse release for "@ + button.name(),
        ),
        (InputStep::SetAbsPosition { x, y }).failure() == Some(
            "failed to move the absolute mouse to "@ + numeral::signed_decimal(x as int) + ","@
                + numeral::signed_decimal(y as int),
        ),
        (InputStep::RelMotion { dx: x, dy: y }).failure() == Some(
            "failed to move the relative mouse by "@ + numeral::signed_decimal(x as int) + ","@
                + numeral::signed_decimal(y as int),
        ),
        InputStep::PressWheel(button).failure() == Some(
            "failed to send mouse wheel press for "@ + button.name(),
        ),
        InputStep::ReleaseWheel(button).failure() == Some(
            "failed to send mouse wheel release for "@ + button.name(),
        ),
{
}

} // verus!
