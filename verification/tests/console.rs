use qd2::bus::{console_path, object_path, InvalidObjectPath, LISTENER_PATH};
use qd2::viewer::cursor_scene::{CursorDraw, SceneState};
use qd2::viewer::grab::{
    activate, capture_hidden, ensure_inhibited, is_active, new_state, release,
};
use qd2::viewer::input::{
    next_move, InputEvent, InputStep, MouseButton, MouseMode, NextMove, SECOND,
};
use qd2::viewer::remote::{RemoteConsole, SharedListenerState};

#[test]
fn consoles_have_paths_of_their_own() {
    assert_eq!(console_path(0), "/org/qemu/Display1/Console_0");
    assert_eq!(console_path(12), "/org/qemu/Display1/Console_12");
    assert_eq!(console_path(u32::MAX), "/org/qemu/Display1/Console_4294967295");
    assert_eq!(LISTENER_PATH, "/org/qemu/Display1/Listener");
}

#[test]
fn object_paths_follow_the_grammar() {
    for path in ["/", "/a", "/org/qemu/Display1/Console_7", "/_/0", "/Az/09_"] {
        assert_eq!(object_path(path.to_string()), Ok(path.to_string()));
    }
    for path in ["", "a", "//", "/a/", "/a//b", "/a-b", "/\u{e9}", "/a b", "/a.b", "a/b"] {
        assert_eq!(object_path(path.to_string()), Err(InvalidObjectPath));
    }
    assert_eq!(object_path(LISTENER_PATH.to_string()), Ok(LISTENER_PATH.to_string()));
    let path = console_path(3);
    let owned = zbus::zvariant::OwnedObjectPath::try_from(path.clone()).unwrap();
    assert_eq!(owned.as_str(), path);
}

#[test]
fn single_head_positions_are_left_alone() {
    let mut console = RemoteConsole::new(4, &[4], Vec::new());
    assert_eq!(console.map_abs(-3, 9), (0, 9));
    console.refresh_head_map(&[(4, 640, 480)]);
    assert!(console.head_map.is_none());
    assert_eq!(console.self_size, Some((640, 480)));
    assert_eq!(console.map_abs(100, 200), (100, 200));
    assert_eq!(console.map_abs(-7, 500), (0, 479));
    // A reading without the own console keeps the size.
    console.refresh_head_map(&[(5, 1, 1)]);
    assert_eq!(console.self_size, Some((640, 480)));
}

#[test]
fn several_heads_are_mapped_through_the_desktop() {
    let mut console = RemoteConsole::new(1, &[0, 1], vec![(1, 0, 1080)]);
    console.refresh_head_map(&[(0, 1920, 1080), (1, 1920, 1080)]);
    assert_eq!(console.map_abs(100, 100), (100, (1080 + 100) * 1080 / 2160));
    assert_eq!(console.map_abs(i32::MIN, i32::MAX), (0, 1079));
    console.refresh_head_map(&[(1, 800, 600)]);
    assert_eq!(console.map_abs(900, 100), (799, 100));
}

#[test]
fn input_becomes_steps() {
    let mut one = RemoteConsole::new(0, &[0], Vec::new());
    let mut none = RemoteConsole::new(0, &[], Vec::new());
    assert_eq!(one.handle_input(InputEvent::KeyPress(30), 5), vec![InputStep::PressKey(30)]);
    assert_eq!(one.handle_input(InputEvent::KeyRelease(30), 5), vec![InputStep::ReleaseKey(30)]);
    assert!(one.handle_input(InputEvent::ClipboardViewerFocused, 5).is_empty());
    assert!(one.handle_input(InputEvent::ClipboardHostChanged, 5).is_empty());
    assert_eq!(
        one.handle_input(InputEvent::MouseRelease(MouseButton::Left), 5),
        vec![InputStep::ReleaseButton(MouseButton::Left)]
    );
    assert_eq!(
        one.handle_input(InputEvent::MouseRel { dx: 1, dy: 2 }, 5),
        vec![InputStep::RelMotion { dx: 1, dy: 2 }]
    );
    assert_eq!(
        one.handle_input(InputEvent::MouseWheel(MouseButton::WheelUp), 5),
        vec![
            InputStep::PressWheel(MouseButton::WheelUp),
            InputStep::ReleaseWheel(MouseButton::WheelUp)
        ]
    );
    assert_eq!(one.asked, None);
    let set = InputStep::SetAbsPosition { x: 3, y: -4 };
    assert_eq!(none.handle_input(InputEvent::MouseAbs { x: 3, y: -4 }, 5), vec![set]);
    assert_eq!(none.asked, None);
}

#[test]
fn every_button_press_asks_for_the_sizes() {
    let left = MouseButton::Left;
    let press = InputEvent::MousePress(left);
    let both = vec![InputStep::RefreshHeadMap, InputStep::PressButton(left)];
    let mut one = RemoteConsole::new(0, &[0], Vec::new());
    let mut two = RemoteConsole::new(0, &[0, 1], Vec::new());
    let mut none = RemoteConsole::new(0, &[], Vec::new());
    assert_eq!(one.handle_input(press, 7), both);
    assert_eq!(one.asked, Some(7));
    assert_eq!(one.handle_input(press, 8), both);
    assert_eq!(one.asked, Some(8));
    assert_eq!(two.handle_input(press, 7), both);
    assert_eq!(none.handle_input(press, 7), vec![InputStep::PressButton(left)]);
    assert_eq!(none.asked, None);
}

#[test]
fn motion_asks_for_the_sizes_once_per_second() {
    let abs = InputEvent::MouseAbs { x: 3, y: -4 };
    let set = InputStep::SetAbsPosition { x: 3, y: -4 };
    let mut console = RemoteConsole::new(0, &[0], Vec::new());
    assert_eq!(console.handle_input(abs, 10), vec![InputStep::RefreshHeadMap, set]);
    // No sizes came, and yet they are not asked for again before a second has passed.
    assert_eq!(console.handle_input(abs, 11), vec![set]);
    assert_eq!(console.handle_input(abs, 9 + SECOND), vec![set]);
    assert_eq!(console.asked, Some(10));
    assert_eq!(console.handle_input(abs, 10 + SECOND), vec![InputStep::RefreshHeadMap, set]);
    assert_eq!(console.asked, Some(10 + SECOND));
    // A clock that stands before the last time does not count as a second.
    assert_eq!(console.handle_input(abs, 0), vec![set]);
    // Asking at another time counts as well, and so does a press.
    console.ask_for_sizes(5 * SECOND);
    assert_eq!(console.handle_input(abs, 6 * SECOND - 1), vec![set]);
    console.handle_input(InputEvent::MousePress(MouseButton::Left), 6 * SECOND);
    assert_eq!(console.handle_input(abs, 7 * SECOND - 1), vec![set]);
    assert_eq!(console.handle_input(abs, 7 * SECOND), vec![InputStep::RefreshHeadMap, set]);
}

#[test]
fn wheel_is_not_released_after_a_failed_press() {
    let up = MouseButton::WheelUp;
    let mut console = RemoteConsole::new(0, &[0], Vec::new());
    let steps = console.handle_input(InputEvent::MouseWheel(up), 0);
    assert_eq!(next_move(&steps, 0, false), NextMove::Perform(InputStep::PressWheel(up)));
    assert_eq!(
        next_move(&steps, 1, true),
        NextMove::Report("failed to send mouse wheel press for WheelUp".to_string())
    );
    assert_eq!(next_move(&steps, 1, false), NextMove::Perform(InputStep::ReleaseWheel(up)));
    assert_eq!(
        next_move(&steps, 2, true),
        NextMove::Report("failed to send mouse wheel release for WheelUp".to_string())
    );
    assert_eq!(next_move(&steps, 2, false), NextMove::Finished);
}

#[test]
fn press_is_sent_after_a_failed_refresh() {
    let left = MouseButton::Left;
    let mut console = RemoteConsole::new(0, &[0], Vec::new());
    let steps = console.handle_input(InputEvent::MousePress(left), 0);
    assert_eq!(next_move(&steps, 0, false), NextMove::Perform(InputStep::RefreshHeadMap));
    for failed in [true, false] {
        assert_eq!(
            next_move(&steps, 1, failed),
            NextMove::Perform(InputStep::PressButton(left))
        );
    }
    assert_eq!(
        next_move(&steps, 2, true),
        NextMove::Report("failed to send mouse press for Left".to_string())
    );
    assert_eq!(next_move(&steps, 2, false), NextMove::Finished);
    assert_eq!(next_move(&Vec::new(), 0, false), NextMove::Finished);
}

#[test]
fn failed_steps_are_reported() {
    let message = |step: InputStep| step.failure_message();
    assert_eq!(message(InputStep::RefreshHeadMap), None);
    assert_eq!(
        message(InputStep::PressKey(30)).unwrap(),
        "failed to send key press for qnum 30"
    );
    assert_eq!(
        message(InputStep::ReleaseKey(0)).unwrap(),
        "failed to send key release for qnum 0"
    );
    for button in [
        MouseButton::Left,
        MouseButton::Middle,
        MouseButton::Right,
        MouseButton::WheelUp,
        MouseButton::WheelDown,
        MouseButton::Side,
        MouseButton::Extra,
    ] {
        assert_eq!(
            message(InputStep::PressButton(button)).unwrap(),
            format!("failed to send mouse press for {button:?}")
        );
        assert_eq!(
            message(InputStep::ReleaseButton(button)).unwrap(),
            format!("failed to send mouse release for {button:?}")
        );
        assert_eq!(
            message(InputStep::PressWheel(button)).unwrap(),
            format!("failed to send mouse wheel press for {button:?}")
        );
        assert_eq!(
            message(InputStep::ReleaseWheel(button)).unwrap(),
            format!("failed to send mouse wheel release for {button:?}")
        );
    }
    assert_eq!(
        message(InputStep::SetAbsPosition { x: 3, y: -4 }).unwrap(),
        "failed to move the absolute mouse to 3,-4"
    );
    assert_eq!(
        message(InputStep::RelMotion { dx: i32::MIN, dy: 0 }).unwrap(),
        "failed to move the relative mouse by -2147483648,0"
    );
}

#[test]
fn the_end_is_reported_once() {
    let mut shared = SharedListenerState::new();
    assert!(shared.disconnected());
    assert!(!shared.disconnected());
    assert!(!shared.disconnected());
}

#[test]
fn every_click_asks_for_the_shortcuts() {
    let mut state = new_state();
    assert!(!is_active(&state));
    assert!(!ensure_inhibited(&state, true, Some(false)));
    assert_eq!(activate(&mut state, true, Some(false)), (true, true));
    assert!(is_active(&state));
    assert_eq!(activate(&mut state, true, Some(false)), (false, true));
    assert_eq!(activate(&mut state, true, Some(true)), (false, false));
    assert_eq!(activate(&mut state, false, Some(false)), (false, false));
    assert_eq!(activate(&mut state, true, None), (false, false));
    assert!(ensure_inhibited(&state, true, Some(false)));
    assert!(capture_hidden(&state, MouseMode::Relative));
    assert!(!capture_hidden(&state, MouseMode::Absolute));
    assert!(release(&mut state));
    assert!(!release(&mut state));
    assert!(!is_active(&state));
    assert!(!capture_hidden(&state, MouseMode::Relative));
}

#[test]
fn cursor_is_drawn_only_where_it_is_known() {
    let absolute = Some(MouseMode::Absolute);
    let size = Some((640, 480));
    let mut scene = SceneState::default();
    assert_eq!(scene.draw(absolute, size, true), None);
    scene.set_shape(Some((3, 4)));
    assert_eq!(scene.draw(absolute, size, true), None);
    scene.set_pointer(true);
    let drawn = Some(CursorDraw { hotspot: (3, 4), frame_size: (640, 480) });
    assert_eq!(scene.draw(absolute, size, true), drawn);
    assert_eq!(scene.draw(Some(MouseMode::Relative), size, true), None);
    assert_eq!(scene.draw(None, size, true), None);
    assert_eq!(scene.draw(absolute, None, true), None);
    assert_eq!(scene.draw(absolute, size, false), None);
    scene.set_cursor_visible(false);
    assert_eq!(scene.draw(absolute, size, true), None);
    scene.set_cursor_visible(true);
    scene.set_shape(None);
    assert_eq!(scene.draw(absolute, size, true), None);
    assert_eq!(scene.hotspot, (3, 4));
}
