use qd2::viewer::damage::{
    dmabuf_update_rectangle, dmabuf_update_region, shift_update_into_backing, RectangleInt,
    UpdateDmabuf,
};
use qd2::viewer::dmabuf::{
    dmabuf_needs_vertical_flip, plan_import, DmabufFrame, DmabufPresentation, DmabufView,
    DmabufViewTransform, Extent, FrameError, ImportError, PaintableState, PlaneLayout,
    ScanoutDmabuf, Turn,
};

fn view_scale(view: DmabufView, dest_width: f32, dest_height: f32) -> (f32, f32) {
    let (across, down) = view.scale_divisors();
    (
        across.map_or(1.0, |width| dest_width / width as f32),
        down.map_or(1.0, |height| dest_height / height as f32),
    )
}

#[test]
fn full_view_is_identity() {
    let view = DmabufView::full(2560, 1440);
    assert_eq!(view_scale(view, 2560.0, 1440.0), (1.0, 1.0));
    assert_eq!(view_scale(view, 1280.0, 720.0), (0.5, 0.5));
    let update = UpdateDmabuf {
        x: 10,
        y: 20,
        w: 30,
        h: 40,
    };
    let shifted = shift_update_into_backing(update, view);
    assert_eq!((shifted.x, shifted.y), (10, 20));
}

#[test]
fn second_head_of_an_x11_screen() {
    // 4480x1440 X screen: head 1 shows 1920x1080 at (2560, 360).
    let view = DmabufView {
        x: 2560,
        y: 360,
        width: 1920,
        height: 1080,
    }
    .clamped(4480, 1440);
    assert_eq!((view.x, view.y, view.width, view.height), (2560, 360, 1920, 1080));
    let shifted = shift_update_into_backing(
        UpdateDmabuf {
            x: 0,
            y: 0,
            w: 1920,
            h: 1080,
        },
        view,
    );
    assert_eq!((shifted.x, shifted.y), (2560, 360));
}

#[test]
fn nonsense_views_fall_back_to_the_whole_buffer() {
    let full = DmabufView::full(4480, 1440);
    assert_eq!(DmabufView { x: 5000, y: 0, width: 10, height: 10 }.clamped(4480, 1440), full);
    assert_eq!(DmabufView { x: 0, y: 0, width: 0, height: 10 }.clamped(4480, 1440), full);
    let oversize = DmabufView { x: 2560, y: 360, width: 5000, height: 5000 }.clamped(4480, 1440);
    assert_eq!((oversize.width, oversize.height), (1920, 1080));
}

#[test]
fn dmabuf_transform_describe_handles_all_quarter_turns() {
    let mut transform = DmabufViewTransform::default();

    assert!(transform.describe().contains("rotate=0"));

    transform.rotate_clockwise();
    assert!(transform.describe().contains("rotate=90"));

    transform.rotate_clockwise();
    assert!(transform.describe().contains("rotate=180"));

    transform.rotate_clockwise();
    assert!(transform.describe().contains("rotate=270"));

    transform.rotate_clockwise();
    assert!(transform.describe().contains("rotate=0"));
}

#[test]
fn transform_is_described_in_full() {
    let mut transform = DmabufViewTransform::default();
    assert_eq!(transform.describe(), "DMABUF transform: rotate=0 extra-flip-y=on");
    transform.toggle_vertical_flip();
    transform.rotate_clockwise();
    assert_eq!(transform.describe(), "DMABUF transform: rotate=90 extra-flip-y=off");
    assert_eq!(transform.rotation_degrees(), 90);
    transform.reset();
    assert_eq!(transform, DmabufViewTransform::default());
}

#[test]
fn turns_and_flips_come_round() {
    let start = DmabufViewTransform::default();
    let mut transform = start;
    let mut turns = Vec::new();
    for _ in 0..4 {
        turns.push(transform.turn());
        transform.rotate_clockwise();
    }
    assert_eq!(transform, start);
    assert_eq!(
        turns,
        vec![
            Turn { degrees: 0, shift_x: Extent::Zero, shift_y: Extent::Zero },
            Turn { degrees: 90, shift_x: Extent::Height, shift_y: Extent::Zero },
            Turn { degrees: 180, shift_x: Extent::Width, shift_y: Extent::Height },
            Turn { degrees: 270, shift_x: Extent::Zero, shift_y: Extent::Width },
        ]
    );
    // The transform starts out flipped.
    assert!(dmabuf_needs_vertical_flip(true, transform));
    assert!(!dmabuf_needs_vertical_flip(false, transform));
    transform.toggle_vertical_flip();
    assert!(!dmabuf_needs_vertical_flip(true, transform));
    assert!(dmabuf_needs_vertical_flip(false, transform));
    transform.toggle_vertical_flip();
    assert_eq!(transform, start);
}

#[test]
fn clamped_views_lie_within_the_buffer() {
    for x in [0, 1, 9, 10, u32::MAX] {
        for width in [0, 1, 9, 10, u32::MAX] {
            let view = DmabufView { x, y: 3, width, height: 4 }.clamped(10, 7);
            assert!(u64::from(view.x) + u64::from(view.width) <= 10);
            assert!(view.width > 0 && view.height > 0);
            assert_eq!(view.clamped(10, 7), view);
        }
    }
    assert_eq!(DmabufView::full(5, 5).clamped(0, 7), DmabufView::full(0, 7));
    assert_eq!(DmabufView::full(0, 3).scale_divisors(), (None, Some(3)));
}

fn two_planes(fd: [i32; 4], num_planes: u32) -> ScanoutDmabuf {
    ScanoutDmabuf {
        fd,
        width: 64,
        height: 32,
        offset: [0, 8192, 0, 0],
        stride: [256, 128, 0, 0],
        fourcc: 0x34325258,
        modifier: 1,
        y0_top: true,
        num_planes,
    }
}

#[test]
fn frames_need_all_their_planes() {
    let frame = DmabufFrame::try_from_scanout(two_planes([7, 8, -1, -1], 2)).unwrap();
    assert_eq!(frame.fds, vec![7, 8]);
    assert_eq!((frame.width, frame.height, frame.num_planes), (64, 32, 2));
    assert_eq!((frame.offset, frame.stride), ([0, 8192, 0, 0], [256, 128, 0, 0]));
    assert_eq!(frame.view, DmabufView::full(64, 32));

    let refused = DmabufFrame::try_from_scanout(two_planes([7, -1, 9, -1], 4)).unwrap_err();
    assert_eq!(refused, FrameError::PlaneDescriptor(1));
    assert_eq!(refused.message(), "DMABUF plane 1 did not provide a valid file descriptor");
    let refused = DmabufFrame::try_from_scanout(two_planes([7, 8, 9, 10], 5)).unwrap_err();
    assert_eq!(refused, FrameError::PlaneCount(5));
    assert_eq!(refused.message(), "DMABUF plane count 5 is not supported");
    assert_eq!(
        refused.status(),
        "Unsupported DMABUF scanout: DMABUF plane count 5 is not supported"
    );
    let refused = DmabufFrame::try_from_scanout(two_planes([7, 8, 9, 10], 0)).unwrap_err();
    assert_eq!(refused, FrameError::PlaneCount(0));
}

#[test]
fn single_plane_scanouts_fill_the_missing_planes() {
    let scanout = ScanoutDmabuf::single_plane(5, 640, 480, 2560, 0x34325241, 9, false);
    assert_eq!(scanout.fd, [5, -1, -1, -1]);
    assert_eq!((scanout.offset, scanout.stride), ([0; 4], [2560, 0, 0, 0]));
    let frame = DmabufFrame::try_from_scanout(scanout).unwrap();
    assert_eq!((frame.fds, frame.num_planes, frame.y0_top), (vec![5], 1, false));
    assert_eq!((frame.fourcc, frame.modifier), (0x34325241, 9));
}

#[test]
fn windows_into_a_backing_buffer_keep_its_size() {
    let frame = DmabufFrame::try_from_window(
        &[3, 4],
        2560,
        360,
        1920,
        1080,
        &[0, 16, 32, 48, 64],
        &[17920],
        2,
        0x34325258,
        4480,
        1440,
        77,
        true,
    )
    .unwrap();
    assert_eq!((frame.width, frame.height), (4480, 1440));
    assert_eq!(frame.view, DmabufView { x: 2560, y: 360, width: 1920, height: 1080 });
    assert_eq!(frame.fds, vec![3, 4]);
    assert_eq!((frame.offset, frame.stride), ([0, 16, 32, 48], [17920, 0, 0, 0]));

    let refused = DmabufFrame::try_from_window(
        &[3],
        0,
        0,
        8,
        8,
        &[],
        &[],
        2,
        0,
        8,
        8,
        0,
        true,
    )
    .unwrap_err();
    assert_eq!(refused, FrameError::PlaneDescriptor(1));
}

#[test]
fn imports_are_planned_plane_by_plane() {
    let planes = plan_import(true, 1, 2, 2, 2, &[1, 2, 3, 4], &[5, 6, 7, 8]).unwrap();
    assert_eq!(
        planes,
        vec![
            PlaneLayout { plane: 0, offset: 1, stride: 5 },
            PlaneLayout { plane: 1, offset: 2, stride: 6 },
        ]
    );
    let refused = plan_import(false, 0x34325258, 0x1_0000_0000_0001, 1, 3, &[0; 4], &[0; 4]);
    let refused = refused.unwrap_err();
    assert_eq!(
        refused,
        ImportError::Format { fourcc: 0x34325258, modifier: 0x1_0000_0000_0001 }
    );
    assert_eq!(
        refused.message(),
        "GTK does not support DMABUF fourcc 0x34325258 with modifier 0x1000000000001"
    );
    let refused = plan_import(true, 0, 0, 2, 1, &[0; 4], &[0; 4]).unwrap_err();
    assert_eq!(refused, ImportError::Descriptors { num_planes: 2, descriptors: 1 });
    assert_eq!(
        refused.message(),
        "DMABUF reported 2 planes but provided 1 file descriptors"
    );
}

fn update(x: i32, y: i32, w: i32, h: i32) -> UpdateDmabuf {
    UpdateDmabuf { x, y, w, h }
}

#[test]
fn damage_is_cut_to_the_buffer() {
    assert_eq!(
        dmabuf_update_rectangle(update(-10, 5, 30, 100), 100, 50),
        Some(RectangleInt { x: 0, y: 5, width: 20, height: 45 })
    );
    assert_eq!(dmabuf_update_rectangle(update(0, 0, 0, 5), 100, 50), None);
    assert_eq!(dmabuf_update_rectangle(update(0, 0, 5, -1), 100, 50), None);
    assert_eq!(dmabuf_update_rectangle(update(100, 0, 5, 5), 100, 50), None);
    assert_eq!(dmabuf_update_rectangle(update(-5, 0, 5, 5), 100, 50), None);
    assert_eq!(
        dmabuf_update_rectangle(update(1, 2, i32::MAX, i32::MAX), 100, 50),
        Some(RectangleInt { x: 1, y: 2, width: 99, height: 48 })
    );
    // An end beyond the largest coordinate wraps, and nothing is left.
    assert_eq!(
        dmabuf_update_rectangle(update(i32::MAX - 1, 0, 5, 5), u32::MAX, 50),
        None
    );
}

#[test]
fn region_is_what_changed() {
    let updates = [update(-3, -3, 5, 5), update(0, 0, 0, 9), update(7, 8, 90, 1)];
    let region = dmabuf_update_region(&updates, 10, 12).unwrap();
    assert_eq!(region.len(), 2);
    for x in 0..10 {
        for y in 0..12 {
            let redrawn = region
                .iter()
                .any(|r| r.x <= x && x < r.x + r.width && r.y <= y && y < r.y + r.height);
            let changed = updates
                .iter()
                .any(|u| u.x <= x && x < u.x + u.w && u.y <= y && y < u.y + u.h);
            assert_eq!(redrawn, changed);
        }
    }
    assert!(dmabuf_update_region(&[update(20, 0, 1, 1)], 10, 12).is_none());
    assert!(dmabuf_update_region(&[], 10, 12).is_none());
}

#[test]
fn damage_follows_the_view() {
    let frame = DmabufFrame::try_from_window(
        &[1],
        100,
        50,
        20,
        10,
        &[0],
        &[0],
        1,
        0,
        200,
        100,
        0,
        true,
    )
    .unwrap();
    let presentation = DmabufPresentation::new(&frame);
    assert_eq!((presentation.shown_width(), presentation.shown_height()), (20, 10));
    let plan = presentation.refresh(&[update(1, 2, 3, 4)], true);
    assert!(plan.from_previous);
    assert_eq!(
        plan.region,
        Some(vec![RectangleInt { x: 101, y: 52, width: 3, height: 4 }])
    );
    let plan = presentation.refresh(&[update(1, 2, 3, 4)], false);
    assert!(!plan.from_previous && plan.region.is_none());
    let plan = presentation.refresh(&[update(500, 2, 3, 4)], true);
    assert!(plan.from_previous && plan.region.is_none());
}

#[test]
fn shifted_damage_saturates() {
    let view = DmabufView { x: u32::MAX, y: 5, width: 1, height: 1 };
    let shifted = shift_update_into_backing(update(1, i32::MIN, 2, 3), view);
    assert_eq!(shifted, update(i32::MAX, i32::MIN + 5, 2, 3));
}

#[test]
fn paintable_follows_the_presentation() {
    let mut state = PaintableState::default();
    assert!(state.paint_plan(false).is_none());
    assert_eq!((state.intrinsic_width(), state.intrinsic_height()), (0, 0));
    assert_eq!(state.intrinsic_aspect(), None);

    let frame = DmabufFrame::try_from_scanout(two_planes([7, 8, -1, -1], 2)).unwrap();
    let presentation = DmabufPresentation::new(&frame);
    let mut transform = DmabufViewTransform::default();
    assert!(state.update_from_presentation(&presentation, transform));
    transform.rotate_clockwise();
    assert!(!state.update_from_presentation(&presentation, transform));
    assert_eq!((state.intrinsic_width(), state.intrinsic_height()), (64, 32));
    assert_eq!(state.intrinsic_aspect(), Some((64, 32)));

    assert!(state.paint_plan(true).is_none());
    let plan = state.paint_plan(false).unwrap();
    assert_eq!(plan.turn.degrees, 90);
    assert!(plan.flip);
    assert_eq!((plan.view, plan.width, plan.height), (DmabufView::full(64, 32), 64, 32));

    let huge = DmabufPresentation { view: DmabufView::full(u32::MAX, 1), ..presentation };
    assert!(state.update_from_presentation(&huge, transform));
    assert_eq!((state.intrinsic_width(), state.intrinsic_height()), (i32::MAX, 1));
}
