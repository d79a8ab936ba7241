//! Damage: which part of a buffer has to be redrawn.

use vstd::prelude::*;

use crate::viewer::dmabuf::DmabufView;
use crate::viewer::head_map;

verus! {

/// A rectangle that changed, as QEMU reports it.
#[derive(Copy, Clone, Debug, PartialEq, Eq, Structural)]
pub struct UpdateDmabuf {
    pub x: i32,
    pub y: i32,
    pub w: i32,
    pub h: i32,
}

/// A rectangle of a region.
#[derive(Copy, Clone, Debug, PartialEq, Eq, Structural)]
pub struct RectangleInt {
    pub x: i32,
    pub y: i32,
    pub width: i32,
    pub height: i32,
}

impl UpdateDmabuf {
    /// Whether a pixel changed.
    pub open spec fn covers(self, x: int, y: int) -> bool {
        self.x <= x < self.x + self.w && self.y <= y < self.y + self.h
    }
}

impl RectangleInt {
    /// Whether a pixel lies in the rectangle.
    pub open spec fn covers(self, x: int, y: int) -> bool {
        self.x <= x < self.x + self.width && self.y <= y < self.y + self.height
    }
}

/// The sum of a coordinate and an offset, as far as an `i32` holds them.
pub open spec fn saturated(at: i32, offset: u32) -> i32 {
    head_map::clamp(
        at + head_map::clamp(offset as int, 0, i32::MAX as int),
        i32::MIN as int,
        i32::MAX as int,
    ) as i32
}

/// A rectangle of the view as a rectangle of the buffer.
pub open spec fn shifted(update: UpdateDmabuf, view: DmabufView) -> UpdateDmabuf {
    UpdateDmabuf {
        x: saturated(update.x, view.x),
        y: saturated(update.y, view.y),
        w: update.w,
        h: update.h,
    }
}

/// Rectangles of the view as rectangles of the buffer.
pub open spec fn shifted_all(updates: Seq<UpdateDmabuf>, view: DmabufView) -> Seq<UpdateDmabuf> {
    Seq::new(updates.len(), |i: int| shifted(updates[i], view))
}

/// The `i32` with the 32 bits of `n`, which is not negative and below 2^32.
pub open spec fn signed_bits(n: int) -> int {
    if n > i32::MAX {
        n - 0x1_0000_0000
    } else {
        n
    }
}

/// Where the changed pixels of a row of `size` begin, for a change at `at`.
pub open spec fn span_start(at: i32, size: u32) -> int {
    head_map::clamp(at as int, 0, head_map::clamp(size as int, 0, i32::MAX as int))
}

/// Where the changed pixels of a row of `size` end, for a change of `len` pixels at `at`.
pub open spec fn span_end(at: i32, len: i32, size: u32) -> int {
    signed_bits(head_map::clamp(at + len, 0, size as int))
}

/// The part of a buffer of this size that a rectangle covers, if it covers any.
pub open spec fn damage_of(update: UpdateDmabuf, width: u32, height: u32) -> Option<RectangleInt> {
    let x0 = span_start(update.x, width);
    let y0 = span_start(update.y, height);
    let x1 = span_end(update.x, update.w, width);
    let y1 = span_end(update.y, update.h, height);
    if update.w <= 0 || update.h <= 0 || x1 <= x0 || y1 <= y0 {
        None
    } else {
        Some(
            RectangleInt {
                x: x0 as i32,
                y: y0 as i32,
                width: (x1 - x0) as i32,
                height: (y1 - y0) as i32,
            },
        )
    }
}

/// The parts of a buffer that some rectangles cover, in their order.
pub open spec fn damage_of_all(updates: Seq<UpdateDmabuf>, width: u32, height: u32) -> Seq<
    RectangleInt,
>
    decreases updates.len(),
{
    if updates.len() == 0 {
        Seq::empty()
    } else {
        let before = damage_of_all(updates.drop_last(), width, height);
        match damage_of(updates.last(), width, height) {
            Some(rectangle) => before.push(rectangle),
            None => before,
        }
    }
}

/// `at + offset`, as far as an `i32` holds them.
fn saturating_offset(at: i32, offset: u32) -> (r: i32)
    ensures
        r == saturated(at, offset),
{
    let offset: i64 = if offset > i32::MAX as u32 {
        i32::MAX as i64
    } else {
        offset as i64
    };
    let sum: i64 = at as i64 + offset;
    if sum > i32::MAX as i64 {
        i32::MAX
    } else {
        sum as i32
    }
}

/// Damage arrives in coordinates of the console's view; the region to redraw is in coordinates of
/// the texture.
pub fn shift_update_into_backing(update: UpdateDmabuf, view: DmabufView) -> (r: UpdateDmabuf)
    ensures
        r == shifted(update, view),
{
    UpdateDmabuf {
        x: saturating_offset(update.x, view.x),
        y: saturating_offset(update.y, view.y),
        w: update.w,
        h: update.h,
    }
}

/// Shifts each of some rectangles.
pub fn shift_updates(updates: &[UpdateDmabuf], view: DmabufView) -> (r: Vec<UpdateDmabuf>)
    ensures
        r@ == shifted_all(updates@, view),
{
    let mut out: Vec<UpdateDmabuf> = Vec::new();
    let mut i: usize = 0;
    while i < updates.len()
        invariant
            i <= updates@.len(),
            out@ == shifted_all(updates@.take(i as int), view),
        decreases updates.len() - i,
    {
        out.push(shift_update_into_backing(updates[i], view));
        proof {
            assert(out@ =~= shifted_all(updates@.take(i + 1), view));
        }
        i += 1;
    }
    proof {
        assert(updates@.take(i as int) =~= updates@);
    }
    out
}

fn start_of(at: i32, size: u32) -> (r: i32)
    ensures
        r == span_start(at, size),
{
    let size: i32 = if size > i32::MAX as u32 {
        i32::MAX
    } else {
        size as i32
    };
    if at < 0 {
        0
    } else if at > size {
        size
    } else {
        at
    }
}

fn end_of(at: i32, len: i32, size: u32) -> (r: i32)
    ensures
        r == span_end(at, len, size),
{
    let end: i64 = at as i64 + len as i64;
    let end: i64 = if end < 0 {
        0
    } else if end > size as i64 {
        size as i64
    } else {
        end
    };
    assert(0 <= end <= 0xffff_ffff ==> (end as i32) == (if end > 0x7fff_ffff {
        end - 0x1_0000_0000
    } else {
        end as int
    })) by (bit_vector);
    #[verifier::truncate]
    (end as i32)
}

/// The part of a buffer of this size that a rectangle covers.
pub fn dmabuf_update_rectangle(update: UpdateDmabuf, width: u32, height: u32) -> (r: Option<
    RectangleInt,
>)
    ensures
        r == damage_of(update, width, height),
{
    if update.w <= 0 || update.h <= 0 {
        return None;
    }
    let x0: i32 = start_of(update.x, width);
    let y0: i32 = start_of(update.y, height);
    let x1: i32 = end_of(update.x, update.w, width);
    let y1: i32 = end_of(update.y, update.h, height);
    if x1 <= x0 || y1 <= y0 {
        return None;
    }
    Some(RectangleInt { x: x0, y: y0, width: x1 - x0, height: y1 - y0 })
}

/// The region of a buffer of this size that some rectangles cover; nothing where they cover none
/// of it.
pub fn dmabuf_update_region(updates: &[UpdateDmabuf], width: u32, height: u32) -> (r: Option<
    Vec<RectangleInt>,
>)
    ensures
        match r {
            Some(region) => region@.len() > 0 && region@ == damage_of_all(updates@, width, height),
            None => damage_of_all(updates@, width, height).len() == 0,
        },
{
    let mut out: Vec<RectangleInt> = Vec::new();
    let mut i: usize = 0;
    while i < updates.len()
        invariant
            i <= updates@.len(),
            out@ == damage_of_all(updates@.take(i as int), width, height),
        decreases updates.len() - i,
    {
        proof {
            assert(updates@.take(i + 1).drop_last() =~= updates@.take(i as int));
        }
        if let Some(rectangle) = dmabuf_update_rectangle(updates[i], width, height) {
            out.push(rectangle);
        }
        i += 1;
    }
    proof {
        assert(updates@.take(i as int) =~= updates@);
    }
    if out.len() == 0 {
        None
    } else {
        Some(out)
    }
}

/// For a buffer whose sides fit in an `i32`, the damage is what the rectangle and the buffer have
/// in common.
pub proof fn law_damage_is_the_common_part(
    update: UpdateDmabuf,
    width: u32,
    height: u32,
    x: int,
    y: int,
)
    requires
        width <= i32::MAX,
        height <= i32::MAX,
    ensures
        (damage_of(update, width, height) matches Some(rectangle) && rectangle.covers(x, y))
            <==> (update.covers(x, y) && 0 <= x < width && 0 <= y < height),
{
}

/// Whether one of some rectangles covers a pixel.
pub open spec fn region_covers(region: Seq<RectangleInt>, x: int, y: int) -> bool {
    exists|i: int| 0 <= i < region.len() && (#[trigger] region[i]).covers(x, y)
}

/// Whether a pixel changed by one of some updates.
pub open spec fn updates_cover(updates: Seq<UpdateDmabuf>, x: int, y: int) -> bool {
    exists|i: int| 0 <= i < updates.len() && (#[trigger] updates[i]).covers(x, y)
}

/// For a buffer whose sides fit in an `i32`, the region to redraw holds the pixels of the buffer
/// that changed, and no others.
pub proof fn law_region_is_what_changed(
    updates: Seq<UpdateDmabuf>,
    width: u32,
    height: u32,
    x: int,
    y: int,
)
    requires
        width <= i32::MAX,
        height <= i32::MAX,
    ensures
        region_covers(damage_of_all(updates, width, height), x, y) <==> updates_cover(updates, x, y)
            && 0 <= x < width && 0 <= y < height,
    decreases updates.len(),
{
    let region = damage_of_all(updates, width, height);
    if updates.len() > 0 {
        let rest = updates.drop_last();
        let before = damage_of_all(rest, width, height);
        law_region_is_what_changed(rest, width, height, x, y);
        law_damage_is_the_common_part(updates.last(), width, height, x, y);
        if region_covers(region, x, y) {
            let i = choose|i: int| 0 <= i < region.len() && (#[trigger] region[i]).covers(x, y);
            if i < before.len() {
                assert(before[i].covers(x, y));
                let k = choose|k: int| 0 <= k < rest.len() && (#[trigger] rest[k]).covers(x, y);
                assert(updates[k].covers(x, y));
            } else {
                assert(updates[updates.len() - 1].covers(x, y));
            }
        }
        if updates_cover(updates, x, y) && 0 <= x < width && 0 <= y < height {
            let k = choose|k: int| 0 <= k < updates.len() && (#[trigger] updates[k]).covers(x, y);
            if k < rest.len() {
                assert(rest[k].covers(x, y));
                let i = choose|i: int| 0 <= i < before.len() && (#[trigger] before[i]).covers(x, y);
                assert(region[i].covers(x, y));
            } else {
                assert(region[region.len() - 1].covers(x, y));
            }
        }
    }
}

/// For a buffer whose sides fit in an `i32`, damage in coordinates of a view inside it redraws
/// the pixels of the buffer that lie under the damaged pixels of the view.
pub proof fn law_damage_follows_the_view(
    updates: Seq<UpdateDmabuf>,
    view: DmabufView,
    width: u32,
    height: u32,
    x: int,
    y: int,
)
    requires
        width <= i32::MAX,
        height <= i32::MAX,
        view.lies_within(width, height),
    ensures
        region_covers(damage_of_all(shifted_all(updates, view), width, height), x, y)
            <==> updates_cover(updates, x - view.x, y - view.y) && 0 <= x < width && 0 <= y
            < height,
{
    let all = shifted_all(updates, view);
    law_region_is_what_changed(all, width, height, x, y);
    if 0 <= x < width && 0 <= y < height {
        if updates_cover(all, x, y) {
            let i = choose|i: int| 0 <= i < all.len() && (#[trigger] all[i]).covers(x, y);
            assert(updates[i].covers(x - view.x, y - view.y));
        }
        if updates_cover(updates, x - view.x, y - view.y) {
            let i = choose|i: int|
                0 <= i < updates.len() && (#[trigger] updates[i]).covers(x - view.x, y - view.y);
            assert(all[i].covers(x, y));
        }
    }
}

/// A view at the origin of the buffer shifts nothing.
pub proof fn law_view_at_the_origin_shifts_nothing(update: UpdateDmabuf, view: DmabufView)
    requires
        view.x == 0,
        view.y == 0,
    ensures
        shifted(update, view) == update,
{
}

/// A coordinate of the view and the offset of the view are added up; an offset or a sum that an
/// `i32` cannot hold counts as the largest one that it can. The size of a rectangle is kept.
pub proof fn law_shift_adds_the_offset(update: UpdateDmabuf, view: DmabufView)
    ensures
        ({
            let r = shifted(update, view);
            let offset_x = if view.x > 0x7fff_ffff {
                0x7fff_ffff
            } else {
                view.x as int
            };
            let offset_y = if view.y > 0x7fff_ffff {
                0x7fff_ffff
            } else {
                view.y as int
            };
            &&& update.x + offset_x <= 0x7fff_ffff ==> r.x == update.x + offset_x
            &&& update.x + offset_x > 0x7fff_ffff ==> r.x == 0x7fff_ffff
            &&& update.y + offset_y <= 0x7fff_ffff ==> r.y == update.y + offset_y
            &&& update.y + offset_y > 0x7fff_ffff ==> r.y == 0x7fff_ffff
            &&& r.w == update.w
            &&& r.h == update.h
        }),
{
}

/// Of several rectangles each one is shifted, in their order.
pub proof fn law_each_rectangle_is_shifted(updates: Seq<UpdateDmabuf>, view: DmabufView)
    ensures
        shifted_all(updates, view).len() == updates.len(),
        forall|i: int|
            0 <= i < updates.len() ==> (#[trigger] shifted_all(updates, view)[i]) == shifted(
                updates[i],
                view,
            ),
{
}

/// Whether a changed stretch of `len` pixels at `at`, in a row of `size`, begins at `start` and
/// ends at `end`: both are moved into the row, the start no further than an `i32` can hold, and
/// the end is what the low bits of the sum write as an `i32`.
pub open spec fn is_span(at: int, len: int, size: int, start: int, end: int) -> bool {
    &&& at < 0 ==> start == 0
    &&& 0 <= at <= size ==> start == at
    &&& at > size ==> start == size
    &&& at + len < 0 ==> end == 0
    &&& 0 <= at + len <= size && at + len <= 0x7fff_ffff ==> end == at + len
    &&& 0 <= at + len <= size && at + len > 0x7fff_ffff ==> end == at + len - 0x1_0000_0000
    &&& at + len > size && size <= 0x7fff_ffff ==> end == size
    &&& at + len > size && size > 0x7fff_ffff ==> end == size - 0x1_0000_0000
}

/// The damage is the rectangle between the first and the last changed pixel of the buffer in each
/// direction, and there is none exactly where the rectangle is empty or none of it is left.
pub proof fn law_damage_lies_between_first_and_last_pixel(
    update: UpdateDmabuf,
    width: u32,
    height: u32,
    x0: int,
    x1: int,
    y0: int,
    y1: int,
)
    requires
        is_span(update.x as int, update.w as int, width as int, x0, x1),
        is_span(update.y as int, update.h as int, height as int, y0, y1),
    ensures
        match damage_of(update, width, height) {
            Some(r) => {
                &&& update.w > 0 && update.h > 0
                &&& x0 < x1 && y0 < y1
                &&& r.x == x0
                &&& r.y == y0
                &&& r.x + r.width == x1
                &&& r.y + r.height == y1
            },
            None => update.w <= 0 || update.h <= 0 || x1 <= x0 || y1 <= y0,
        },
{
}

/// For a buffer whose sides fit in an `i32`, a pixel has to be redrawn exactly where it lies in
/// the buffer and in the rectangle that changed.
pub proof fn law_damaged_pixels_are_the_changed_ones(
    update: UpdateDmabuf,
    width: u32,
    height: u32,
    x: int,
    y: int,
)
    requires
        width <= 0x7fff_ffff,
        height <= 0x7fff_ffff,
    ensures
        ({
            let changed = {
                &&& update.x <= x < update.x + update.w
                &&& update.y <= y < update.y + update.h
                &&& 0 <= x < width
                &&& 0 <= y < height
            };
            match damage_of(update, width, height) {
                Some(r) => changed <==> r.x <= x < r.x + r.width && r.y <= y < r.y + r.height,
                None => !changed,
            }
        }),
{
}

/// The damage of some rectangles and then of others is that of the first and then that of the
/// others; a single one gives its own damage, or none.
pub proof fn law_damage_is_gathered_in_order(
    a: Seq<UpdateDmabuf>,
    b: Seq<UpdateDmabuf>,
    update: UpdateDmabuf,
    width: u32,
    height: u32,
)
    ensures
        damage_of_all(a + b, width, height) == damage_of_all(a, width, height) + damage_of_all(
            b,
            width,
            height,
        ),
        match damage_of(update, width, height) {
            Some(r) => damage_of_all(seq![update], width, height) == seq![r],
            None => damage_of_all(seq![update], width, height).len() == 0,
        },
    decreases b.len(),
{
    assert(seq![update].drop_last() =~= Seq::<UpdateDmabuf>::empty());
    assert(damage_of_all(Seq::<UpdateDmabuf>::empty(), width, height) =~= Seq::<
        RectangleInt,
    >::empty());
    if let Some(r) = damage_of(update, width, height) {
        assert(Seq::<RectangleInt>::empty().push(r) =~= seq![r]);
    }
    let first = damage_of_all(a, width, height);
    if b.len() == 0 {
        assert(a + b =~= a);
        assert(first + damage_of_all(b, width, height) =~= first);
    } else {
        law_damage_is_gathered_in_order(a, b.drop_last(), update, width, height);
        assert((a + b).drop_last() =~= a + b.drop_last());
        assert((a + b).last() == b.last());
        assert(damage_of_all(a + b, width, height) =~= first + damage_of_all(b, width, height));
    }
}

} // verus!
