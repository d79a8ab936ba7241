//! DMABUF scanouts: which part of a buffer a console shows, how it is turned on screen, and which
//! buffers can be imported.

use vstd::prelude::*;

use crate::numeral;
use crate::numeral::{push_decimal, push_hexadecimal};
use crate::viewer::damage;
use crate::viewer::damage::{dmabuf_update_region, shift_updates, RectangleInt, UpdateDmabuf};

verus! {

/// The part of a DMABUF that a console actually shows, in texture pixels.
///
/// X11 guests render every output into one framebuffer and scan each head out of a sub-rectangle
/// of it, so QEMU hands over the whole backing buffer plus this window into it. The texture must
/// be imported at its real backing size: describing a tiled buffer with the width of the
/// sub-rectangle but the backing stride makes Mesa reject the import.
#[derive(Copy, Clone, Debug, PartialEq, Eq, Structural)]
pub struct DmabufView {
    pub x: u32,
    pub y: u32,
    pub width: u32,
    pub height: u32,
}

/// The smaller one.
pub open spec fn smaller(a: int, b: int) -> int {
    if a < b {
        a
    } else {
        b
    }
}

impl DmabufView {
    /// The view of a whole buffer.
    pub open spec fn whole(width: u32, height: u32) -> DmabufView {
        DmabufView { x: 0, y: 0, width, height }
    }

    /// Whether the view has pixels and begins inside the buffer.
    pub open spec fn sensible(self, backing_width: u32, backing_height: u32) -> bool {
        &&& self.width > 0
        &&& self.height > 0
        &&& self.x < backing_width
        &&& self.y < backing_height
    }

    /// Whether no part of the view lies outside the buffer.
    pub open spec fn lies_within(self, backing_width: u32, backing_height: u32) -> bool {
        &&& self.x + self.width <= backing_width
        &&& self.y + self.height <= backing_height
    }

    /// What is left of the view inside the buffer; the whole buffer, where the view makes no
    /// sense.
    pub open spec fn cut_to(self, backing_width: u32, backing_height: u32) -> DmabufView {
        if self.sensible(backing_width, backing_height) {
            DmabufView {
                x: self.x,
                y: self.y,
                width: smaller(self.width as int, backing_width - self.x) as u32,
                height: smaller(self.height as int, backing_height - self.y) as u32,
            }
        } else {
            DmabufView::whole(backing_width, backing_height)
        }
    }

    /// The view of a whole buffer.
    pub fn full(width: u32, height: u32) -> (r: DmabufView)
        ensures
            r == DmabufView::whole(width, height),
    {
        DmabufView { x: 0, y: 0, width, height }
    }

    /// Clamps a view to the backing buffer; a nonsensical view degrades to the whole buffer
    /// instead of an empty picture.
    pub fn clamped(self, backing_width: u32, backing_height: u32) -> (r: DmabufView)
        ensures
            r == self.cut_to(backing_width, backing_height),
    {
        if self.width == 0 || self.height == 0 || self.x >= backing_width || self.y
            >= backing_height {
            return DmabufView::full(backing_width, backing_height);
        }
        let room_x: u32 = backing_width - self.x;
        let room_y: u32 = backing_height - self.y;
        DmabufView {
            x: self.x,
            y: self.y,
            width: if self.width < room_x {
                self.width
            } else {
                room_x
            },
            height: if self.height < room_y {
                self.height
            } else {
                room_y
            },
        }
    }

    /// What to divide the size of the destination by for the scale of the picture, across and
    /// down; nothing where the view has no pixels that way, and the picture is not scaled.
    pub fn scale_divisors(self) -> (r: (Option<u32>, Option<u32>))
        ensures
            r.0 == (if self.width == 0 {
                None
            } else {
                Some(self.width)
            }),
            r.1 == (if self.height == 0 {
                None
            } else {
                Some(self.height)
            }),
    {
        (
            if self.width == 0 {
                None
            } else {
                Some(self.width)
            },
            if self.height == 0 {
                None
            } else {
                Some(self.height)
            },
        )
    }
}

/// A clamped view lies within the buffer and has pixels wherever the buffer has any; clamping it
/// again changes nothing.
pub proof fn law_clamped_view_is_within(view: DmabufView, backing_width: u32, backing_height: u32)
    ensures
        view.cut_to(backing_width, backing_height).lies_within(backing_width, backing_height),
        backing_width > 0 && backing_height > 0 ==> view.cut_to(
            backing_width,
            backing_height,
        ).sensible(backing_width, backing_height),
        view.cut_to(backing_width, backing_height).cut_to(backing_width, backing_height)
            == view.cut_to(backing_width, backing_height),
{
}

/// A view that has pixels and lies within the buffer is not changed.
pub proof fn law_view_within_is_kept(view: DmabufView, backing_width: u32, backing_height: u32)
    requires
        view.lies_within(backing_width, backing_height),
        view.width > 0,
        view.height > 0,
    ensures
        view.cut_to(backing_width, backing_height) == view,
{
}

/// How the picture is turned on screen.
#[derive(Copy, Clone, Debug, PartialEq, Eq)]
pub struct DmabufViewTransform {
    rotation_quarters: u8,
    extra_vertical_flip: bool,
}

/// What a transform is: quarter turns clockwise, fewer than four, and whether the picture is
/// flipped once more.
pub struct Orientation {
    pub quarters: int,
    pub flipped: bool,
}

impl Orientation {
    /// Fewer than four quarter turns.
    pub open spec fn wf(self) -> bool {
        0 <= self.quarters < 4
    }

    /// No turn, flipped.
    pub open spec fn initial() -> Orientation {
        Orientation { quarters: 0, flipped: true }
    }

    /// One quarter turn further.
    pub open spec fn turned(self) -> Orientation {
        Orientation { quarters: (self.quarters + 1) % 4, flipped: self.flipped }
    }

    /// Flipped once more.
    pub open spec fn toggled(self) -> Orientation {
        Orientation { quarters: self.quarters, flipped: !self.flipped }
    }
}

impl View for DmabufViewTransform {
    type V = Orientation;

    closed spec fn view(&self) -> Orientation {
        Orientation {
            quarters: self.rotation_quarters as int,
            flipped: self.extra_vertical_flip,
        }
    }
}

/// One side of the area that is painted into, or nothing.
#[derive(Copy, Clone, Debug, PartialEq, Eq, Structural)]
pub enum Extent {
    Zero,
    Width,
    Height,
}

impl Extent {
    /// How long it is for an area of this size.
    pub open spec fn length(self, width: int, height: int) -> int {
        match self {
            Extent::Zero => 0,
            Extent::Width => width,
            Extent::Height => height,
        }
    }
}

/// How to turn the picture: move the origin, then rotate.
#[derive(Copy, Clone, Debug, PartialEq, Eq, Structural)]
pub struct Turn {
    pub degrees: u16,
    pub shift_x: Extent,
    pub shift_y: Extent,
}

impl Turn {
    /// The turn for a number of quarters.
    pub open spec fn of_quarters(quarters: int) -> Turn {
        if quarters == 1 {
            Turn { degrees: 90, shift_x: Extent::Height, shift_y: Extent::Zero }
        } else if quarters == 2 {
            Turn { degrees: 180, shift_x: Extent::Width, shift_y: Extent::Height }
        } else if quarters == 3 {
            Turn { degrees: 270, shift_x: Extent::Zero, shift_y: Extent::Width }
        } else {
            Turn { degrees: 0, shift_x: Extent::Zero, shift_y: Extent::Zero }
        }
    }

    /// Where a point of an area of this size lands, the vertical axis pointing down.
    pub open spec fn image(self, width: int, height: int, x: int, y: int) -> (int, int) {
        let (rx, ry) = if self.degrees == 90 {
            (-y, x)
        } else if self.degrees == 180 {
            (-x, -y)
        } else if self.degrees == 270 {
            (y, -x)
        } else {
            (x, y)
        };
        (
            rx + self.shift_x.length(width, height),
            ry + self.shift_y.length(width, height),
        )
    }
}

/// What `describe` says.
pub open spec fn described(o: Orientation) -> Seq<char> {
    "DMABUF transform: rotate="@ + numeral::decimal((o.quarters * 90) as nat) + " extra-flip-y="@
        + if o.flipped {
        "on"@
    } else {
        "off"@
    }
}

/// Whether the picture has to be flipped: where its first row is the bottom one or the transform
/// flips it, but not where both hold.
pub open spec fn flips(y0_top: bool, o: Orientation) -> bool {
    !y0_top != o.flipped
}

impl Default for DmabufViewTransform {
    fn default() -> (r: DmabufViewTransform)
        ensures
            r@ == Orientation::initial(),
    {
        DmabufViewTransform { rotation_quarters: 0, extra_vertical_flip: true }
    }
}

impl DmabufViewTransform {
    #[verifier::type_invariant]
    closed spec fn inv(self) -> bool {
        self.rotation_quarters < 4
    }

    /// One quarter turn clockwise.
    pub fn rotate_clockwise(&mut self)
        ensures
            final(self)@ == old(self)@.turned(),
    {
        proof {
            use_type_invariant(&*self);
        }
        self.rotation_quarters = (self.rotation_quarters + 1) % 4;
    }

    /// Flips the picture, or stops flipping it.
    pub fn toggle_vertical_flip(&mut self)
        ensures
            final(self)@ == old(self)@.toggled(),
    {
        proof {
            use_type_invariant(&*self);
        }
        self.extra_vertical_flip = !self.extra_vertical_flip;
    }

    /// Back to where it started.
    pub fn reset(&mut self)
        ensures
            final(self)@ == Orientation::initial(),
    {
        *self = DmabufViewTransform::default();
    }

    /// The turn in degrees.
    pub fn rotation_degrees(self) -> (r: u16)
        ensures
            r == self@.quarters * 90,
            self@.wf(),
    {
        proof {
            use_type_invariant(&self);
        }
        self.rotation_quarters as u16 * 90
    }

    /// The transform in words.
    pub fn describe(self) -> (r: String)
        ensures
            r@ == described(self@),
            self@.wf(),
    {
        let mut out: String = "DMABUF transform: rotate=".to_owned();
        push_decimal(&mut out, self.rotation_degrees() as u64);
        out.append(" extra-flip-y=");
        out.append(
            if self.extra_vertical_flip {
                "on"
            } else {
                "off"
            },
        );
        out
    }

    /// How to turn the picture.
    pub fn turn(self) -> (r: Turn)
        ensures
            r == Turn::of_quarters(self@.quarters),
            self@.wf(),
    {
        proof {
            use_type_invariant(&self);
        }
        match self.rotation_quarters {
            1 => Turn { degrees: 90, shift_x: Extent::Height, shift_y: Extent::Zero },
            2 => Turn { degrees: 180, shift_x: Extent::Width, shift_y: Extent::Height },
            3 => Turn { degrees: 270, shift_x: Extent::Zero, shift_y: Extent::Width },
            _ => Turn { degrees: 0, shift_x: Extent::Zero, shift_y: Extent::Zero },
        }
    }
}

/// Whether the picture has to be flipped.
pub fn dmabuf_needs_vertical_flip(y0_top: bool, transform: DmabufViewTransform) -> (r: bool)
    ensures
        r == flips(y0_top, transform@),
{
    !y0_top != transform.extra_vertical_flip
}

/// Four quarter turns, and two flips, leave the picture as it was; a turn and a flip can change
/// places.
pub proof fn law_turns_and_flips_come_round(o: Orientation)
    requires
        o.wf(),
    ensures
        o.turned().turned().turned().turned() == o,
        o.toggled().toggled() == o,
        o.turned().toggled() == o.toggled().turned(),
        o.turned().wf(),
        o.toggled().wf(),
        Orientation::initial().wf(),
{
}

/// A flip of the transform flips the picture, whichever way up the buffer is.
pub proof fn law_toggle_flips_the_picture(y0_top: bool, o: Orientation)
    ensures
        flips(y0_top, o.toggled()) == !flips(y0_top, o),
        flips(!y0_top, o) == !flips(y0_top, o),
{
}

/// A turned picture begins at the origin and fills the turned area: no point of it gets a
/// negative coordinate, and the sides change places where the turn is an odd number of quarters.
pub proof fn law_turned_picture_stays_in_place(
    quarters: int,
    width: int,
    height: int,
    x: int,
    y: int,
)
    requires
        0 <= quarters < 4,
        0 <= x <= width,
        0 <= y <= height,
    ensures
        ({
            let (px, py) = Turn::of_quarters(quarters).image(width, height, x, y);
            if quarters % 2 == 0 {
                0 <= px <= width && 0 <= py <= height
            } else {
                0 <= px <= height && 0 <= py <= width
            }
        }),
{
}

/// A DMABUF as QEMU hands it over: up to four planes, the descriptors of the missing ones
/// negative.
#[derive(Copy, Clone, Debug)]
pub struct ScanoutDmabuf {
    pub fd: [i32; 4],
    pub width: u32,
    pub height: u32,
    pub offset: [u32; 4],
    pub stride: [u32; 4],
    pub fourcc: u32,
    pub modifier: u64,
    pub y0_top: bool,
    pub num_planes: u32,
}

impl ScanoutDmabuf {
    /// A buffer with a single plane.
    pub fn single_plane(
        fd: i32,
        width: u32,
        height: u32,
        stride: u32,
        fourcc: u32,
        modifier: u64,
        y0_top: bool,
    ) -> (r: ScanoutDmabuf)
        ensures
            r.fd@ == seq![fd, -1i32, -1i32, -1i32],
            r.width == width,
            r.height == height,
            r.offset@ == seq![0u32, 0u32, 0u32, 0u32],
            r.stride@ == seq![stride, 0u32, 0u32, 0u32],
            r.fourcc == fourcc,
            r.modifier == modifier,
            r.y0_top == y0_top,
            r.num_planes == 1,
    {
        ScanoutDmabuf {
            fd: [fd, -1, -1, -1],
            width,
            height,
            offset: [0, 0, 0, 0],
            stride: [stride, 0, 0, 0],
            fourcc,
            modifier,
            y0_top,
            num_planes: 1,
        }
    }
}

/// A DMABUF whose planes are all there.
#[derive(Clone, Debug)]
pub struct DmabufFrame {
    /// The descriptors of the planes.
    pub fds: Vec<i32>,
    pub width: u32,
    pub height: u32,
    pub offset: [u32; 4],
    pub stride: [u32; 4],
    pub fourcc: u32,
    pub modifier: u64,
    pub y0_top: bool,
    pub num_planes: u32,
    /// The part of the buffer that the console shows.
    pub view: DmabufView,
}

/// Why a DMABUF cannot be shown.
#[derive(Copy, Clone, Debug, PartialEq, Eq, Structural)]
pub enum FrameError {
    /// It has no planes, or more than four.
    PlaneCount(u32),
    /// This plane has no descriptor.
    PlaneDescriptor(usize),
}

/// The first of the `n` planes that has no descriptor, or `n`.
pub open spec fn first_missing(raw_fds: Seq<i32>, n: int) -> int
    decreases n,
{
    if n <= 0 {
        0
    } else {
        let before = first_missing(raw_fds, n - 1);
        if before < n - 1 || raw_fds[n - 1] < 0 {
            before
        } else {
            n
        }
    }
}

/// What is wrong with a DMABUF of so many planes, if anything is.
pub open spec fn frame_fault(raw_fds: Seq<i32>, num_planes: u32) -> Option<FrameError> {
    if num_planes == 0 || num_planes > 4 {
        Some(FrameError::PlaneCount(num_planes))
    } else if first_missing(raw_fds, num_planes as int) < num_planes {
        Some(FrameError::PlaneDescriptor(first_missing(raw_fds, num_planes as int) as usize))
    } else {
        None
    }
}

/// The first missing plane is one without a descriptor, and every plane before it has one.
pub proof fn lemma_first_missing(raw_fds: Seq<i32>, n: int)
    requires
        0 <= n <= raw_fds.len(),
    ensures
        0 <= first_missing(raw_fds, n) <= n,
        first_missing(raw_fds, n) < n ==> raw_fds[first_missing(raw_fds, n)] < 0,
        forall|i: int| 0 <= i < first_missing(raw_fds, n) ==> raw_fds[i] >= 0,
    decreases n,
{
    if n > 0 {
        lemma_first_missing(raw_fds, n - 1);
    }
}

impl FrameError {
    /// What the message says.
    pub open spec fn text(self) -> Seq<char> {
        match self {
            FrameError::PlaneCount(n) => "DMABUF plane count "@ + numeral::decimal(n as nat)
                + " is not supported"@,
            FrameError::PlaneDescriptor(i) => "DMABUF plane "@ + numeral::decimal(i as nat)
                + " did not provide a valid file descriptor"@,
        }
    }

    /// The message for the user.
    pub fn message(&self) -> (r: String)
        ensures
            r@ == self.text(),
    {
        match self {
            FrameError::PlaneCount(n) => {
                let mut out: String = "DMABUF plane count ".to_owned();
                push_decimal(&mut out, *n as u64);
                out.append(" is not supported");
                out
            },
            FrameError::PlaneDescriptor(i) => {
                let mut out: String = "DMABUF plane ".to_owned();
                push_decimal(&mut out, *i as u64);
                out.append(" did not provide a valid file descriptor");
                out
            },
        }
    }

    /// The status line for a scanout that is refused.
    pub fn status(&self) -> (r: String)
        ensures
            r@ == "Unsupported DMABUF scanout: "@ + self.text(),
    {
        let mut out: String = "Unsupported DMABUF scanout: ".to_owned();
        out.append(self.message().as_str());
        out
    }
}

/// The first four of `values`, `fill` in place of those that are missing.
pub open spec fn four_of<T>(values: Seq<T>, fill: T) -> Seq<T> {
    Seq::new(
        4,
        |i: int|
            if i < values.len() {
                values[i]
            } else {
                fill
            },
    )
}

/// The first four of `values`, `fill` in place of those that are missing.
fn first_four<T: Copy>(values: &[T], fill: T) -> (r: [T; 4])
    ensures
        r@ == four_of(values@, fill),
{
    let n: usize = values.len();
    let r: [T; 4] = [
        if n > 0 {
            values[0]
        } else {
            fill
        },
        if n > 1 {
            values[1]
        } else {
            fill
        },
        if n > 2 {
            values[2]
        } else {
            fill
        },
        if n > 3 {
            values[3]
        } else {
            fill
        },
    ];
    assert(r@ =~= four_of(values@, fill));
    r
}

impl DmabufFrame {
    /// As many descriptors as planes, between one and four, all of them valid, and a view that
    /// lies within the buffer.
    pub open spec fn wf(self) -> bool {
        &&& 1 <= self.num_planes <= 4
        &&& self.fds@.len() == self.num_planes
        &&& forall|i: int| 0 <= i < self.fds@.len() ==> (#[trigger] self.fds@[i]) >= 0
        &&& self.view.lies_within(self.width, self.height)
    }

    /// Takes over a buffer that the console shows as a whole.
    pub fn try_from_scanout(scanout: ScanoutDmabuf) -> (r: Result<DmabufFrame, FrameError>)
        ensures
            match r {
                Ok(frame) => {
                    &&& frame_fault(scanout.fd@, scanout.num_planes) is None
                    &&& frame.wf()
                    &&& frame.fds@ == scanout.fd@.take(scanout.num_planes as int)
                    &&& frame.width == scanout.width
                    &&& frame.height == scanout.height
                    &&& frame.offset == scanout.offset
                    &&& frame.stride == scanout.stride
                    &&& frame.fourcc == scanout.fourcc
                    &&& frame.modifier == scanout.modifier
                    &&& frame.y0_top == scanout.y0_top
                    &&& frame.num_planes == scanout.num_planes
                    &&& frame.view == DmabufView::whole(scanout.width, scanout.height)
                },
                Err(e) => frame_fault(scanout.fd@, scanout.num_planes) == Some(e),
            },
    {
        DmabufFrame::try_from_raw_parts(
            scanout.fd,
            scanout.width,
            scanout.height,
            scanout.offset,
            scanout.stride,
            scanout.fourcc,
            scanout.modifier,
            scanout.y0_top,
            scanout.num_planes,
            DmabufView::full(scanout.width, scanout.height),
        )
    }

    /// Takes over a backing buffer of which the console shows the part of `width` by `height`
    /// pixels at `(x, y)`. Of the lists no more than four values count; missing ones stand for
    /// no descriptor and for 0.
    pub fn try_from_window(
        fd: &[i32],
        x: u32,
        y: u32,
        width: u32,
        height: u32,
        offset: &[u32],
        stride: &[u32],
        num_planes: u32,
        fourcc: u32,
        backing_width: u32,
        backing_height: u32,
        modifier: u64,
        y0_top: bool,
    ) -> (r: Result<DmabufFrame, FrameError>)
        ensures
            match r {
                Ok(frame) => {
                    &&& frame_fault(four_of(fd@, -1i32), num_planes) is None
                    &&& frame.wf()
                    &&& frame.fds@ == fd@.take(num_planes as int)
                    &&& frame.width == backing_width
                    &&& frame.height == backing_height
                    &&& frame.offset@ == four_of(offset@, 0u32)
                    &&& frame.stride@ == four_of(stride@, 0u32)
                    &&& frame.fourcc == fourcc
                    &&& frame.modifier == modifier
                    &&& frame.y0_top == y0_top
                    &&& frame.num_planes == num_planes
                    &&& frame.view == (DmabufView { x, y, width, height }).cut_to(
                        backing_width,
                        backing_height,
                    )
                },
                Err(e) => frame_fault(four_of(fd@, -1i32), num_planes) == Some(e),
            },
    {
        let fds: [i32; 4] = first_four(fd, -1);
        let r: Result<DmabufFrame, FrameError> = DmabufFrame::try_from_raw_parts(
            fds,
            backing_width,
            backing_height,
            first_four(offset, 0),
            first_four(stride, 0),
            fourcc,
            modifier,
            y0_top,
            num_planes,
            DmabufView { x, y, width, height },
        );
        proof {
            if r is Ok {
                lemma_first_missing(fds@, num_planes as int);
                assert(fds@[num_planes - 1] >= 0);
                assert(fds@.take(num_planes as int) =~= fd@.take(num_planes as int));
            }
        }
        r
    }

    /// `width` and `height` are the dimensions of the backing buffer; `view` selects the part of
    /// it that the console scans out, and is clamped to the buffer.
    pub fn try_from_raw_parts(
        raw_fds: [i32; 4],
        width: u32,
        height: u32,
        offset: [u32; 4],
        stride: [u32; 4],
        fourcc: u32,
        modifier: u64,
        y0_top: bool,
        num_planes: u32,
        view: DmabufView,
    ) -> (r: Result<DmabufFrame, FrameError>)
        ensures
            match r {
                Ok(frame) => {
                    &&& frame_fault(raw_fds@, num_planes) is None
                    &&& frame.wf()
                    &&& frame.fds@ == raw_fds@.take(num_planes as int)
                    &&& frame.width == width
                    &&& frame.height == height
                    &&& frame.offset == offset
                    &&& frame.stride == stride
                    &&& frame.fourcc == fourcc
                    &&& frame.modifier == modifier
                    &&& frame.y0_top == y0_top
                    &&& frame.num_planes == num_planes
                    &&& frame.view == view.cut_to(width, height)
                },
                Err(e) => frame_fault(raw_fds@, num_planes) == Some(e),
            },
    {
        if num_planes == 0 || num_planes > 4 {
            return Err(FrameError::PlaneCount(num_planes));
        }
        let plane_count: usize = num_planes as usize;
        let mut fds: Vec<i32> = Vec::new();
        let mut index: usize = 0;
        proof {
            lemma_first_missing(raw_fds@, num_planes as int);
        }
        while index < plane_count
            invariant
                1 <= num_planes <= 4,
                plane_count == num_planes,
                index <= plane_count,
                fds@ == raw_fds@.take(index as int),
                forall|i: int| 0 <= i < index ==> raw_fds@[i] >= 0,
                0 <= first_missing(raw_fds@, num_planes as int) <= num_planes,
                first_missing(raw_fds@, num_planes as int) < num_planes
                    ==> raw_fds@[first_missing(raw_fds@, num_planes as int)] < 0,
                forall|i: int|
                    0 <= i < first_missing(raw_fds@, num_planes as int) ==> raw_fds@[i] >= 0,
            decreases plane_count - index,
        {
            let raw_fd: i32 = raw_fds[index];
            if raw_fd < 0 {
                proof {
                    let k = first_missing(raw_fds@, num_planes as int);
                    assert(raw_fds@[index as int] < 0);
                    assert(k == index);
                }
                return Err(FrameError::PlaneDescriptor(index));
            }
            fds.push(raw_fd);
            proof {
                assert(raw_fds@.take(index + 1) =~= raw_fds@.take(index as int).push(raw_fd));
            }
            index += 1;
        }
        Ok(
            DmabufFrame {
                fds,
                width,
                height,
                offset,
                stride,
                fourcc,
                modifier,
                y0_top,
                num_planes,
                view: view.clamped(width, height),
            },
        )
    }
}

/// A buffer is refused exactly where it has no planes, more than four, or one without a
/// descriptor, and then for the first reason that applies.
pub proof fn law_frame_is_refused_for_its_planes(raw_fds: Seq<i32>, num_planes: u32)
    requires
        raw_fds.len() == 4,
    ensures
        frame_fault(raw_fds, num_planes) is None <==> 1 <= num_planes <= 4 && (forall|i: int|
            0 <= i < num_planes ==> raw_fds[i] >= 0),
        frame_fault(raw_fds, num_planes) matches Some(FrameError::PlaneDescriptor(i)) ==> i
            < num_planes && raw_fds[i as int] < 0 && (forall|j: int|
            0 <= j < i ==> raw_fds[j] >= 0),
{
    if 1 <= num_planes <= 4 {
        lemma_first_missing(raw_fds, num_planes as int);
    }
}

/// Where one plane of a buffer lies.
#[derive(Copy, Clone, Debug, PartialEq, Eq, Structural)]
pub struct PlaneLayout {
    pub plane: u32,
    pub offset: u32,
    pub stride: u32,
}

/// Why a buffer cannot be imported as a texture.
#[derive(Copy, Clone, Debug, PartialEq, Eq, Structural)]
pub enum ImportError {
    /// The display does not take this format.
    Format { fourcc: u32, modifier: u64 },
    /// There are not as many descriptors as planes.
    Descriptors { num_planes: u32, descriptors: usize },
}

impl ImportError {
    /// What the message says.
    pub open spec fn text(self) -> Seq<char> {
        match self {
            ImportError::Format { fourcc, modifier } => "GTK does not support DMABUF fourcc 0x"@
                + numeral::hexadecimal(fourcc as nat) + " with modifier 0x"@
                + numeral::hexadecimal(modifier as nat),
            ImportError::Descriptors { num_planes, descriptors } => "DMABUF reported "@
                + numeral::decimal(num_planes as nat) + " planes but provided "@
                + numeral::decimal(descriptors as nat) + " file descriptors"@,
        }
    }

    /// The message for the user.
    pub fn message(&self) -> (r: String)
        ensures
            r@ == self.text(),
    {
        match self {
            ImportError::Format { fourcc, modifier } => {
                let mut out: String = "GTK does not support DMABUF fourcc 0x".to_owned();
                push_hexadecimal(&mut out, *fourcc as u64);
                out.append(" with modifier 0x");
                push_hexadecimal(&mut out, *modifier);
                out
            },
            ImportError::Descriptors { num_planes, descriptors } => {
                let mut out: String = "DMABUF reported ".to_owned();
                push_decimal(&mut out, *num_planes as u64);
                out.append(" planes but provided ");
                push_decimal(&mut out, *descriptors as u64);
                out.append(" file descriptors");
                out
            },
        }
    }
}

/// What is wrong with importing a buffer, if anything is.
pub open spec fn import_fault(
    format_supported: bool,
    fourcc: u32,
    modifier: u64,
    num_planes: u32,
    descriptors: usize,
) -> Option<ImportError> {
    if !format_supported {
        Some(ImportError::Format { fourcc, modifier })
    } else if num_planes != descriptors {
        Some(ImportError::Descriptors { num_planes, descriptors })
    } else {
        None
    }
}

/// Where the planes lie that a texture is built from. `format_supported` says whether the display
/// takes the format.
pub fn plan_import(
    format_supported: bool,
    fourcc: u32,
    modifier: u64,
    num_planes: u32,
    descriptors: usize,
    offset: &[u32; 4],
    stride: &[u32; 4],
) -> (r: Result<Vec<PlaneLayout>, ImportError>)
    requires
        import_fault(format_supported, fourcc, modifier, num_planes, descriptors) is None
            ==> num_planes <= 4,
    ensures
        match r {
            Ok(planes) => {
                &&& import_fault(
                    format_supported,
                    fourcc,
                    modifier,
                    num_planes,
                    descriptors,
                ) is None
                &&& planes@ == Seq::new(
                    num_planes as nat,
                    |i: int|
                        PlaneLayout { plane: i as u32, offset: offset@[i], stride: stride@[i] },
                )
            },
            Err(e) => import_fault(format_supported, fourcc, modifier, num_planes, descriptors)
                == Some(e),
        },
        r is Ok <==> format_supported && num_planes == descriptors,
        !format_supported ==> (r matches Err(e) && e == (ImportError::Format { fourcc, modifier })),
        format_supported && num_planes != descriptors ==> (r matches Err(e) && e == (
        ImportError::Descriptors { num_planes, descriptors })),
{
    if !format_supported {
        return Err(ImportError::Format { fourcc, modifier });
    }
    if num_planes as usize != descriptors {
        return Err(ImportError::Descriptors { num_planes, descriptors });
    }
    let mut planes: Vec<PlaneLayout> = Vec::new();
    let mut plane: usize = 0;
    while plane < descriptors
        invariant
            plane <= descriptors,
            descriptors == num_planes,
            num_planes <= 4,
            planes@ == Seq::new(
                plane as nat,
                |i: int| PlaneLayout { plane: i as u32, offset: offset@[i], stride: stride@[i] },
            ),
        decreases descriptors - plane,
    {
        planes.push(
            PlaneLayout { plane: plane as u32, offset: offset[plane], stride: stride[plane] },
        );
        plane += 1;
    }
    Ok(planes)
}

/// A frame whose format the display takes can always be imported.
pub proof fn law_accepted_frame_can_be_imported(frame: DmabufFrame)
    requires
        frame.wf(),
    ensures
        import_fault(
            true,
            frame.fourcc,
            frame.modifier,
            frame.num_planes,
            frame.fds@.len() as usize,
        ) is None,
        frame.num_planes <= 4,
{
}

/// A frame on screen, but for its texture.
#[derive(Copy, Clone, Debug)]
pub struct DmabufPresentation {
    pub width: u32,
    pub height: u32,
    pub view: DmabufView,
    pub offset: [u32; 4],
    pub stride: [u32; 4],
    pub fourcc: u32,
    pub modifier: u64,
    pub y0_top: bool,
    pub num_planes: u32,
}

/// What to build the next texture from: the part that changed, where that is known, and whether
/// the texture before it holds the rest.
#[derive(Clone, Debug)]
pub struct RefreshPlan {
    pub region: Option<Vec<RectangleInt>>,
    pub from_previous: bool,
}

impl DmabufPresentation {
    /// The presentation of a frame.
    pub fn new(frame: &DmabufFrame) -> (r: DmabufPresentation)
        ensures
            r.width == frame.width,
            r.height == frame.height,
            r.view == frame.view,
            r.offset == frame.offset,
            r.stride == frame.stride,
            r.fourcc == frame.fourcc,
            r.modifier == frame.modifier,
            r.y0_top == frame.y0_top,
            r.num_planes == frame.num_planes,
    {
        DmabufPresentation {
            width: frame.width,
            height: frame.height,
            view: frame.view,
            offset: frame.offset,
            stride: frame.stride,
            fourcc: frame.fourcc,
            modifier: frame.modifier,
            y0_top: frame.y0_top,
            num_planes: frame.num_planes,
        }
    }

    /// How to build the next texture. Damage counts only where partial updates are wanted; damage
    /// that leaves nothing of the buffer to redraw counts as none.
    pub fn refresh(&self, updates: &[UpdateDmabuf], partial_updates: bool) -> (r: RefreshPlan)
        ensures
            r.from_previous == partial_updates,
            ({
                let damage = damage::damage_of_all(
                    damage::shifted_all(updates@, self.view),
                    self.width,
                    self.height,
                );
                match r.region {
                    Some(region) => partial_updates && damage.len() > 0 && region@ == damage,
                    None => !partial_updates || damage.len() == 0,
                }
            }),
    {
        if !partial_updates {
            return RefreshPlan { region: None, from_previous: false };
        }
        let shifted: Vec<UpdateDmabuf> = shift_updates(updates, self.view);
        RefreshPlan {
            region: dmabuf_update_region(
                shifted.as_slice(),
                self.width,
                self.height,
            ),
            from_previous: true,
        }
    }

    /// The width of what the console shows, not of the backing texture.
    pub fn shown_width(&self) -> (r: u32)
        ensures
            r == self.view.width,
    {
        self.view.width
    }

    /// The height of what the console shows, not of the backing texture.
    pub fn shown_height(&self) -> (r: u32)
        ensures
            r == self.view.height,
    {
        self.view.height
    }
}

/// What is painted, but for the texture itself.
#[derive(Copy, Clone, Debug)]
pub struct PaintableState {
    /// Whether there is a texture.
    pub textured: bool,
    pub width: u32,
    pub height: u32,
    pub view: DmabufView,
    pub y0_top: bool,
    pub transform: DmabufViewTransform,
}

/// How to paint: turn, then place the buffer of `width` by `height` pixels so that its view fills
/// the area, flipped or not.
#[derive(Copy, Clone, Debug)]
pub struct PaintPlan {
    pub turn: Turn,
    pub flip: bool,
    pub view: DmabufView,
    pub width: u32,
    pub height: u32,
}

/// A number of pixels as a toolkit counts them.
pub open spec fn pixels(n: u32) -> i32 {
    smaller(n as int, i32::MAX as int) as i32
}

/// A number of pixels as a toolkit counts them; what is too large counts as the largest.
fn to_pixels(n: u32) -> (r: i32)
    ensures
        r == pixels(n),
{
    if n > i32::MAX as u32 {
        i32::MAX
    } else {
        n as i32
    }
}

impl Default for PaintableState {
    fn default() -> (r: PaintableState)
        ensures
            !r.textured,
            r.width == 0,
            r.height == 0,
            r.view == DmabufView::whole(0, 0),
            r.y0_top,
            r.transform@ == Orientation::initial(),
    {
        PaintableState {
            textured: false,
            width: 0,
            height: 0,
            view: DmabufView::full(0, 0),
            y0_top: true,
            transform: DmabufViewTransform::default(),
        }
    }
}

impl PaintableState {
    /// Takes over what is on screen now, and tells whether its size changed.
    pub fn update_from_presentation(
        &mut self,
        presentation: &DmabufPresentation,
        transform: DmabufViewTransform,
    ) -> (size_changed: bool)
        ensures
            size_changed == (old(self).view.width != presentation.view.width || old(
                self,
            ).view.height != presentation.view.height),
            final(self).textured,
            final(self).width == presentation.width,
            final(self).height == presentation.height,
            final(self).view == presentation.view,
            final(self).y0_top == presentation.y0_top,
            final(self).transform == transform,
    {
        let size_changed: bool = self.view.width != presentation.view.width || self.view.height
            != presentation.view.height;
        self.textured = true;
        self.width = presentation.width;
        self.height = presentation.height;
        self.view = presentation.view;
        self.y0_top = presentation.y0_top;
        self.transform = transform;
        size_changed
    }

    /// The width of the picture.
    pub fn intrinsic_width(&self) -> (r: i32)
        ensures
            r == pixels(self.view.width),
    {
        to_pixels(self.view.width)
    }

    /// The height of the picture.
    pub fn intrinsic_height(&self) -> (r: i32)
        ensures
            r == pixels(self.view.height),
    {
        to_pixels(self.view.height)
    }

    /// The sides of the picture whose quotient is its aspect ratio; a picture without height has
    /// none.
    pub fn intrinsic_aspect(&self) -> (r: Option<(u32, u32)>)
        ensures
            r == (if self.view.height == 0 {
                None
            } else {
                Some((self.view.width, self.view.height))
            }),
    {
        if self.view.height == 0 {
            None
        } else {
            Some((self.view.width, self.view.height))
        }
    }

    /// How to paint, if there is anything to paint: a texture, and an area that is not empty.
    pub fn paint_plan(&self, area_is_empty: bool) -> (r: Option<PaintPlan>)
        ensures
            match r {
                Some(plan) => {
                    &&& self.textured
                    &&& !area_is_empty
                    &&& plan.turn == Turn::of_quarters(self.transform@.quarters)
                    &&& plan.flip == flips(self.y0_top, self.transform@)
                    &&& plan.view == self.view
                    &&& plan.width == self.width
                    &&& plan.height == self.height
                },
                None => !self.textured || area_is_empty,
            },
    {
        if !self.textured || area_is_empty {
            return None;
        }
        Some(
            PaintPlan {
                turn: self.transform.turn(),
                flip: dmabuf_needs_vertical_flip(self.y0_top, self.transform),
                view: self.view,
                width: self.width,
                height: self.height,
            },
        )
    }
}

/// A view that has pixels and begins inside the buffer keeps its corner, and as much of each side
/// as the buffer has room for; any other view becomes the whole buffer.
pub proof fn law_view_is_cut_to_the_buffer(
    view: DmabufView,
    backing_width: u32,
    backing_height: u32,
)
    ensures
        ({
            let r = view.cut_to(backing_width, backing_height);
            if view.width > 0 && view.height > 0 && view.x < backing_width && view.y
                < backing_height {
                &&& r.x == view.x
                &&& r.y == view.y
                &&& view.x + view.width <= backing_width ==> r.width == view.width
                &&& view.x + view.width > backing_width ==> r.x + r.width == backing_width
                &&& view.y + view.height <= backing_height ==> r.height == view.height
                &&& view.y + view.height > backing_height ==> r.y + r.height == backing_height
            } else {
                &&& r.x == 0
                &&& r.y == 0
                &&& r.width == backing_width
                &&& r.height == backing_height
            }
        }),
        DmabufView::whole(backing_width, backing_height).x == 0,
        DmabufView::whole(backing_width, backing_height).y == 0,
        DmabufView::whole(backing_width, backing_height).width == backing_width,
        DmabufView::whole(backing_width, backing_height).height == backing_height,
{
}

/// A view lies within a buffer exactly where each of its pixels does.
pub proof fn law_view_within_has_its_pixels_within(
    view: DmabufView,
    backing_width: u32,
    backing_height: u32,
)
    requires
        view.width > 0,
        view.height > 0,
    ensures
        view.lies_within(backing_width, backing_height) <==> forall|x: int, y: int|
            view.x <= x < view.x + view.width && view.y <= y < view.y + view.height
                ==> #[trigger] inside(x, y, backing_width as int, backing_height as int),
{
    let x = view.x + view.width - 1;
    let y = view.y + view.height - 1;
    if !view.lies_within(backing_width, backing_height) {
        assert(!inside(x, y, backing_width as int, backing_height as int));
    }
}

/// Whether a pixel lies in a buffer of this size.
pub open spec fn inside(x: int, y: int, width: int, height: int) -> bool {
    0 <= x < width && 0 <= y < height
}

/// A transform starts unturned and flipped. A turn adds a quarter and begins anew after the fourth
/// one; a flip changes nothing but the flip.
pub proof fn law_turn_adds_a_quarter(o: Orientation)
    requires
        0 <= o.quarters < 4,
    ensures
        Orientation::initial().quarters == 0,
        Orientation::initial().flipped,
        o.quarters < 3 ==> o.turned().quarters == o.quarters + 1,
        o.quarters == 3 ==> o.turned().quarters == 0,
        o.turned().flipped == o.flipped,
        o.toggled().quarters == o.quarters,
        o.toggled().flipped != o.flipped,
        o.wf(),
{
}

/// A point after some quarter turns clockwise round the origin, the vertical axis pointing down.
pub open spec fn turned_point(x: int, y: int, quarters: nat) -> (int, int)
    decreases quarters,
{
    if quarters == 0 {
        (x, y)
    } else {
        let (px, py) = turned_point(x, y, (quarters - 1) as nat);
        (-py, px)
    }
}

/// A turn is a quarter clockwise, 90 degrees, for each quarter of the transform, and then a move by
/// which the turned area begins at the origin: no corner of it gets a negative coordinate, and one
/// gets 0 in each direction.
pub proof fn law_turn_goes_clockwise(quarters: nat, width: int, height: int, x: int, y: int)
    requires
        quarters < 4,
        width >= 0,
        height >= 0,
    ensures
        ({
            let turn = Turn::of_quarters(quarters as int);
            let move_x = turn.shift_x.length(width, height);
            let move_y = turn.shift_y.length(width, height);
            let (ax, ay) = turned_point(0, 0, quarters);
            let (bx, by) = turned_point(width, 0, quarters);
            let (cx, cy) = turned_point(0, height, quarters);
            let (dx, dy) = turned_point(width, height, quarters);
            &&& turn.degrees == 90 * quarters
            &&& turn.image(width, height, x, y).0 == turned_point(x, y, quarters).0 + move_x
            &&& turn.image(width, height, x, y).1 == turned_point(x, y, quarters).1 + move_y
            &&& ax + move_x >= 0 && bx + move_x >= 0 && cx + move_x >= 0 && dx + move_x >= 0
            &&& ax + move_x == 0 || bx + move_x == 0 || cx + move_x == 0 || dx + move_x == 0
            &&& ay + move_y >= 0 && by + move_y >= 0 && cy + move_y >= 0 && dy + move_y >= 0
            &&& ay + move_y == 0 || by + move_y == 0 || cy + move_y == 0 || dy + move_y == 0
        }),
        Extent::Zero.length(width, height) == 0,
        Extent::Width.length(width, height) == width,
        Extent::Height.length(width, height) == height,
{
    reveal_with_fuel(turned_point, 4);
}

/// A buffer whose first row is the top one is flipped where the transform says so; one whose first
/// row is the bottom one is flipped where the transform does not.
pub proof fn law_flip_makes_up_for_the_first_row(o: Orientation)
    ensures
        flips(true, o) == o.flipped,
        flips(false, o) == !o.flipped,
{
}

/// A transform is described by its degrees and by whether it flips.
pub proof fn law_description_names_degrees_and_flip(quarters: nat)
    ensures
        described(Orientation { quarters: quarters as int, flipped: true })
            == "DMABUF transform: rotate="@ + numeral::decimal(quarters * 90) + " extra-flip-y="@
            + "on"@,
        described(Orientation { quarters: quarters as int, flipped: false })
            == "DMABUF transform: rotate="@ + numeral::decimal(quarters * 90) + " extra-flip-y="@
            + "off"@,
{
}

/// A buffer is refused for the number of its planes exactly where it has none or more than four,
/// and the number is reported; no plane behind the last one counts.
pub proof fn law_plane_count_is_reported(raw_fds: Seq<i32>, num_planes: u32)
    requires
        raw_fds.len() == 4,
    ensures
        frame_fault(raw_fds, num_planes) is Some && frame_fault(raw_fds, num_planes)->0
            == FrameError::PlaneCount(num_planes) <==> num_planes == 0 || num_planes > 4,
        frame_fault(raw_fds, num_planes) matches Some(FrameError::PlaneCount(n)) ==> n
            == num_planes,
        1 <= num_planes <= 4 && (forall|i: int| 0 <= i < num_planes ==> #[trigger] raw_fds[i] >= 0)
            ==> frame_fault(raw_fds, num_planes) is None,
        forall|i: int|
            0 <= i < num_planes <= 4 && (#[trigger] raw_fds[i]) < 0 && (forall|j: int|
                0 <= j < i ==> raw_fds[j] >= 0) ==> frame_fault(raw_fds, num_planes) == Some(
                FrameError::PlaneDescriptor(i as usize),
            ),
{
    if 1 <= num_planes <= 4 {
        lemma_first_missing(raw_fds, num_planes as int);
    }
}

/// What is wrong with a buffer is told in words, with the number of planes or of the plane.
pub proof fn law_frame_faults_are_named(n: u32, i: usize)
    ensures
        FrameError::PlaneCount(n).text() == "DMABUF plane count "@ + numeral::decimal(n as nat)
            + " is not supported"@,
        FrameError::PlaneDescriptor(i).text() == "DMABUF plane "@ + numeral::decimal(i as nat)
            + " did not provide a valid file descriptor"@,
{
}

/// Of a list the first four values are taken in their order, and the filling stands for those that
/// are missing.
pub proof fn law_first_four_are_taken_in_order<T>(values: Seq<T>, fill: T, i: int)
    requires
        0 <= i < 4,
    ensures
        four_of(values, fill).len() == 4,
        i < values.len() ==> four_of(values, fill)[i] == values[i],
        i >= values.len() ==> four_of(values, fill)[i] == fill,
{
}

/// A frame is accepted with one to four planes, a descriptor that is not negative for each of
/// them, and a view that lies within the buffer.
pub proof fn law_accepted_frame_is_complete(frame: DmabufFrame)
    ensures
        frame.wf() <==> {
            &&& 1 <= frame.num_planes <= 4
            &&& frame.fds@.len() == frame.num_planes
            &&& forall|i: int| 0 <= i < frame.fds@.len() ==> (#[trigger] frame.fds@[i]) >= 0
            &&& frame.view.x + frame.view.width <= frame.width
            &&& frame.view.y + frame.view.height <= frame.height
        },
{
}

/// A buffer can be imported exactly where the display takes its format and there are as many
/// descriptors as planes. Where the display does not take the format, that is what is reported,
/// however many planes and descriptors there are.
pub proof fn law_import_needs_format_and_descriptors(
    format_supported: bool,
    fourcc: u32,
    modifier: u64,
    num_planes: u32,
    descriptors: usize,
)
    ensures
        ({
            let fault = import_fault(format_supported, fourcc, modifier, num_planes, descriptors);
            &&& fault is None <==> format_supported && num_planes == descriptors
            &&& !format_supported ==> fault == Some(ImportError::Format { fourcc, modifier })
            &&& format_supported && num_planes != descriptors ==> fault == Some(
                ImportError::Descriptors { num_planes, descriptors },
            )
        }),
{
}

/// What is wrong with an import is told in words, with the format in hexadecimal or the two
/// numbers.
pub proof fn law_import_faults_are_named(
    fourcc: u32,
    modifier: u64,
    num_planes: u32,
    descriptors: usize,
)
    ensures
        (ImportError::Format { fourcc, modifier }).text() == "GTK does not support DMABUF fourcc 0x"@
            + numeral::hexadecimal(fourcc as nat) + " with modifier 0x"@ + numeral::hexadecimal(
            modifier as nat,
        ),
        (ImportError::Descriptors { num_planes, descriptors }).text() == "DMABUF reported "@
            + numeral::decimal(num_planes as nat) + " planes but provided "@ + numeral::decimal(
            descriptors as nat,
        ) + " file descriptors"@,
{
}

/// A toolkit is told the very number of pixels, and the largest that it can count where there are
/// more.
pub proof fn law_pixels_are_counted_as_far_as_they_go(n: u32)
    ensures
        n <= 0x7fff_ffff ==> pixels(n) == n,
        n > 0x7fff_ffff ==> pixels(n) == 0x7fff_ffff,
{
}

} // verus!
