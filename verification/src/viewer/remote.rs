//! The remote console: where it sits in the guest's desktop, and whether QEMU is still there.

use vstd::prelude::*;

use crate::viewer::head_map;
use crate::viewer::head_map::{clamp_to_console, compute_head_map, map_abs_position, HeadMap};
use crate::viewer::head_map_laws;
use crate::viewer::input;
use crate::viewer::input::{input_steps, InputEvent, InputStep};

verus! {

/// One console of a guest.
#[derive(Clone, Debug)]
pub struct RemoteConsole {
    pub console_id: u32,
    /// Every console of the guest (including this one), for reading head sizes.
    pub siblings: Vec<u32>,
    pub explicit_layout: Vec<(u32, i32, i32)>,
    pub head_map: Option<HeadMap>,
    /// The console's own size, for positions on a single head.
    pub self_size: Option<(u32, u32)>,
    /// When the sizes of the heads were last asked for, whether or not an answer came, in
    /// nanoseconds on the caller's clock.
    pub asked: Option<u64>,
}

/// The size that was read for the console `id`, if one was.
pub open spec fn size_of_console(sizes: Seq<(u32, u32, u32)>, id: u32) -> Option<(u32, u32)> {
    let i = head_map::index_of_id(sizes, id);
    if i < sizes.len() {
        Some((sizes[i].1, sizes[i].2))
    } else {
        None
    }
}

/// Where a position of the window goes: through the head map, where there is one, and else into
/// the console.
pub open spec fn pointer_position(
    map: Option<HeadMap>,
    self_size: Option<(u32, u32)>,
    x: int,
    y: int,
) -> (u32, u32) {
    match map {
        Some(map) => map.mapped(x, y),
        None => head_map::clamped_to_console(self_size, x, y),
    }
}

impl RemoteConsole {
    /// A console whose size and place are not known yet.
    pub fn new(
        console_id: u32,
        console_ids: &[u32],
        explicit_layout: Vec<(u32, i32, i32)>,
    ) -> (r: RemoteConsole)
        ensures
            r.console_id == console_id,
            r.siblings@ == console_ids@,
            r.explicit_layout == explicit_layout,
            r.head_map is None,
            r.self_size is None,
            r.asked is None,
    {
        let mut siblings: Vec<u32> = Vec::new();
        let mut i: usize = 0;
        while i < console_ids.len()
            invariant
                i <= console_ids@.len(),
                siblings@ == console_ids@.take(i as int),
            decreases console_ids.len() - i,
        {
            siblings.push(console_ids[i]);
            proof {
                assert(console_ids@.take(i + 1) =~= console_ids@.take(i as int).push(
                    console_ids@[i as int],
                ));
            }
            i += 1;
        }
        proof {
            assert(console_ids@.take(i as int) =~= console_ids@);
        }
        RemoteConsole {
            console_id,
            siblings,
            explicit_layout,
            head_map: None,
            self_size: None,
            asked: None,
        }
    }

    /// Takes over the sizes `(id, width, height)` of all heads, and finds out again where the
    /// console sits in the desktop. Where its own size is not among them, the one known before
    /// stays.
    pub fn refresh_head_map(&mut self, sizes: &[(u32, u32, u32)])
        requires
            head_map::desktop_fits(sizes@, old(self).explicit_layout@),
        ensures
            final(self).head_map == head_map::head_map_of(
                sizes@,
                old(self).explicit_layout@,
                old(self).console_id,
            ),
            final(self).self_size == (match size_of_console(sizes@, old(self).console_id) {
                Some(size) => Some(size),
                None => old(self).self_size,
            }),
            final(self).console_id == old(self).console_id,
            final(self).siblings == old(self).siblings,
            final(self).explicit_layout == old(self).explicit_layout,
            final(self).asked == old(self).asked,
    {
        let mut i: usize = 0;
        proof {
            assert(sizes@.skip(0) =~= sizes@);
        }
        while i < sizes.len() && sizes[i].0 != self.console_id
            invariant
                i <= sizes@.len(),
                head_map::index_of_id(sizes@, self.console_id) == i + head_map::index_of_id(
                    sizes@.skip(i as int),
                    self.console_id,
                ),
                *self == *old(self),
            decreases sizes.len() - i,
        {
            proof {
                assert(sizes@.skip(i as int).drop_first() =~= sizes@.skip(i + 1));
            }
            i += 1;
        }
        if i < sizes.len() {
            let (_, w, h): (u32, u32, u32) = sizes[i];
            self.self_size = Some((w, h));
        }
        self.head_map = compute_head_map(sizes, self.explicit_layout.as_slice(), self.console_id);
    }

    /// Takes note that the sizes of the heads are asked for at `now`.
    pub fn ask_for_sizes(&mut self, now: u64)
        ensures
            *final(self) == (RemoteConsole { asked: Some(now), ..*old(self) }),
    {
        self.asked = Some(now);
    }

    /// What to do for an event that comes at `now`. Where the sizes of the heads are asked for in
    /// it, that is taken note of before they are read.
    pub fn handle_input(&mut self, event: InputEvent, now: u64) -> (r: Vec<InputStep>)
        ensures
            r@ == input::steps_for(event, old(self).siblings@.len(), old(self).asked, now),
            *final(self) == (RemoteConsole {
                asked: input::asked_after(event, old(self).siblings@.len(), old(self).asked, now),
                ..*old(self)
            }),
    {
        let steps: Vec<InputStep> = input_steps(event, self.siblings.len(), self.asked, now);
        proof {
            input::law_refresh_comes_before_what_is_sent(
                event,
                self.siblings@.len(),
                self.asked,
                now,
            );
        }
        if steps.len() > 0 && steps[0] == InputStep::RefreshHeadMap {
            assert(steps@[0] == InputStep::RefreshHeadMap);
            self.ask_for_sizes(now);
        }
        steps
    }

    /// The position to hand to QEMU for a position of the window.
    pub fn map_abs(&self, x: i32, y: i32) -> (r: (u32, u32))
        ensures
            r == pointer_position(self.head_map, self.self_size, x as int, y as int),
    {
        let (x, y): (i64, i64) = (x as i64, y as i64);
        match &self.head_map {
            Some(map) => map_abs_position(map, x, y),
            None => clamp_to_console(self.self_size, x, y),
        }
    }
}

/// A guest with a single head needs no mapping: a position on the console is handed on as it is,
/// and one outside as the nearest one inside.
pub proof fn law_single_head_is_identity(
    id: u32,
    w: u32,
    h: u32,
    explicit: Seq<(u32, i32, i32)>,
    x: int,
    y: int,
)
    requires
        w > 0,
        h > 0,
    ensures
        ({
            let sizes = seq![(id, w, h)];
            let at = pointer_position(
                head_map::head_map_of(sizes, explicit, id),
                size_of_console(sizes, id),
                x,
                y,
            );
            &&& at.0 == head_map::clamp(x, 0, w - 1)
            &&& at.1 == head_map::clamp(y, 0, h - 1)
        }),
{
}

/// Wherever the pointer is, QEMU is handed a position on the console, provided that the console
/// has pixels and that some part of the desktop lies right of its left edge and below its top.
pub proof fn law_pointer_stays_on_the_console(
    sizes: Seq<(u32, u32, u32)>,
    explicit: Seq<(u32, i32, i32)>,
    id: u32,
    x: int,
    y: int,
)
    requires
        head_map::desktop_fits(sizes, explicit),
        size_of_console(sizes, id) matches Some((w, h)) && w > 0 && h > 0,
        head_map::head_map_of(sizes, explicit, id) matches Some(map) ==> map.total_width > 0
            && map.total_height > 0,
    ensures
        size_of_console(sizes, id) matches Some((w, h)) && {
            let at = pointer_position(
                head_map::head_map_of(sizes, explicit, id),
                Some((w, h)),
                x,
                y,
            );
            at.0 < w && at.1 < h
        },
{
    head_map_laws::law_map_is_for_the_own_console(sizes, explicit, id);
    if let Some(map) = head_map::head_map_of(sizes, explicit, id) {
        head_map_laws::law_mapped_position_is_inside(map, x, y);
    }
}

/// What the listeners that QEMU calls share: whether the end of the connection was reported.
#[derive(Clone, Copy, Debug, PartialEq, Eq, Structural)]
pub struct SharedListenerState {
    pub disconnected: bool,
}

impl SharedListenerState {
    /// A connection that has not ended.
    pub fn new() -> (r: SharedListenerState)
        ensures
            !r.disconnected,
    {
        SharedListenerState { disconnected: false }
    }

    /// Takes note that a listener is gone, and tells whether that is to be reported: it is for
    /// the first one only.
    pub fn disconnected(&mut self) -> (report: bool)
        ensures
            report == !old(self).disconnected,
            final(self).disconnected,
    {
        let report: bool = !self.disconnected;
        self.disconnected = true;
        report
    }
}

/// The size of a console is the one that stands first for it in the list; there is none exactly
/// where the console is not in the list.
pub proof fn law_size_is_the_first_listed(sizes: Seq<(u32, u32, u32)>, id: u32)
    ensures
        match size_of_console(sizes, id) {
            Some((w, h)) => exists|k: int|
                {
                    &&& 0 <= k < sizes.len()
                    &&& #[trigger] sizes[k] == (id, w, h)
                    &&& forall|j: int| 0 <= j < k ==> (#[trigger] sizes[j]).0 != id
                },
            None => forall|k: int| 0 <= k < sizes.len() ==> (#[trigger] sizes[k]).0 != id,
        },
{
    head_map_laws::lemma_index_of_id(sizes, id);
    let k = head_map::index_of_id(sizes, id);
    if k < sizes.len() {
        assert(sizes[k] == (id, sizes[k].1, sizes[k].2));
    }
}

/// Where there is a head map, what is handed to QEMU stands for the point of the desktop that the
/// pointer is at: the offset of the console and the position together, moved into the whole
/// desktop and not into the console, and scaled to the console. That holds for every position,
/// also outside the head, where the pointer is on a neighbouring one.
pub proof fn law_pointer_lands_on_the_desktop(
    map: HeadMap,
    self_size: Option<(u32, u32)>,
    x: int,
    y: int,
)
    requires
        0 < map.width <= u32::MAX,
        0 < map.height <= u32::MAX,
        map.total_width > 0,
        map.total_height > 0,
    ensures
        ({
            let (px, py) = pointer_position(Some(map), self_size, x, y);
            let at_x = map.offset_x + x;
            let at_y = map.offset_y + y;
            let last_x = map.total_width - 1;
            let last_y = map.total_height - 1;
            &&& at_x < 0 ==> px == 0
            &&& 0 <= at_x <= last_x ==> px * map.total_width <= at_x * map.width < (px + 1)
                * map.total_width
            &&& at_x > last_x ==> px * map.total_width <= last_x * map.width < (px + 1)
                * map.total_width
            &&& at_y < 0 ==> py == 0
            &&& 0 <= at_y <= last_y ==> py * map.total_height <= at_y * map.height < (py + 1)
                * map.total_height
            &&& at_y > last_y ==> py * map.total_height <= last_y * map.height < (py + 1)
                * map.total_height
            &&& px < map.width
            &&& py < map.height
        }),
{
    head_map_laws::law_mapped_position_is_inside(map, x, y);
    head_map_laws::law_mapped_position_lands(map, x, y);
    head_map_laws::lemma_first_point(map.width as int, map.total_width as int);
    head_map_laws::lemma_first_point(map.height as int, map.total_height as int);
}

/// Without a head map a position is handed to QEMU as the nearest one on the console, where its
/// size is known, and else as it is, but for what is negative.
pub proof fn law_pointer_without_a_map(self_size: Option<(u32, u32)>, x: i32, y: i32)
    ensures
        ({
            let (px, py) = pointer_position(None, self_size, x as int, y as int);
            match self_size {
                Some((w, h)) => if w > 0 && h > 0 {
                    &&& x < 0 ==> px == 0
                    &&& 0 <= x < w ==> px == x
                    &&& x >= w ==> px == w - 1
                    &&& y < 0 ==> py == 0
                    &&& 0 <= y < h ==> py == y
                    &&& y >= h ==> py == h - 1
                } else {
                    &&& x < 0 ==> px == 0
                    &&& x >= 0 ==> px == x
                    &&& y < 0 ==> py == 0
                    &&& y >= 0 ==> py == y
                },
                None => {
                    &&& x < 0 ==> px == 0
                    &&& x >= 0 ==> px == x
                    &&& y < 0 ==> py == 0
                    &&& y >= 0 ==> py == y
                },
            }
        }),
{
}

} // verus!
