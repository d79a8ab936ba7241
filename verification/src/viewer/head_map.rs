//! Where the heads of a guest sit in its desktop, and what that means for absolute pointer
//! positions.

use vstd::prelude::*;

verus! {

/// Where a console sits inside the guest's whole desktop, in guest pixels.
///
/// QEMU scales an absolute position by the size of the console, but the guest's one absolute
/// pointing device spans the whole desktop. For a guest with several heads a position on the
/// console is therefore turned into one on the desktop and scaled beforehand, so that it lands
/// after QEMU's own scaling: `x' = (offset_x + x) * width / total_width`.
#[derive(Clone, Copy, Debug, PartialEq, Eq, Structural)]
pub struct HeadMap {
    pub offset_x: i64,
    pub offset_y: i64,
    pub width: i64,
    pub height: i64,
    pub total_width: i64,
    pub total_height: i64,
}

/// `v`, moved into `low..=high`.
pub open spec fn clamp(v: int, low: int, high: int) -> int {
    if v < low {
        low
    } else if v > high {
        high
    } else {
        v
    }
}

/// The larger one.
pub open spec fn larger(a: int, b: int) -> int {
    if a < b {
        b
    } else {
        a
    }
}

/// The number that the low 32 bits of `n` write.
pub open spec fn low_bits(n: int) -> u32 {
    (n % 0x1_0000_0000) as u32
}

/// The heads in `sorted`, which is in order, with `head` behind all of them whose id is not
/// above its own.
pub open spec fn insert_by_id(sorted: Seq<(u32, u32, u32)>, head: (u32, u32, u32)) -> Seq<
    (u32, u32, u32),
>
    decreases sorted.len(),
{
    if sorted.len() == 0 || sorted.last().0 <= head.0 {
        sorted.push(head)
    } else {
        insert_by_id(sorted.drop_last(), head).push(sorted.last())
    }
}

/// The heads in the order of their ids; heads of one id stay in the order that they came in.
pub open spec fn by_id(sizes: Seq<(u32, u32, u32)>) -> Seq<(u32, u32, u32)>
    decreases sizes.len(),
{
    if sizes.len() == 0 {
        sizes
    } else {
        insert_by_id(by_id(sizes.drop_last()), sizes.last())
    }
}

/// The offset that the layout gives the console `id`: that of the first entry for it.
pub open spec fn explicit_offset(explicit: Seq<(u32, i32, i32)>, id: u32) -> Option<(int, int)>
    decreases explicit.len(),
{
    if explicit.len() == 0 {
        None
    } else if explicit.first().0 == id {
        Some((explicit.first().1 as int, explicit.first().2 as int))
    } else {
        explicit_offset(explicit.drop_first(), id)
    }
}

/// Where the first `n` heads end on the right, or 0 where that is further right.
pub open spec fn row_end(
    heads: Seq<(u32, u32, u32)>,
    explicit: Seq<(u32, i32, i32)>,
    n: int,
) -> int
    decreases n,
{
    if n <= 0 {
        0
    } else {
        let before = row_end(heads, explicit, n - 1);
        let x = match explicit_offset(explicit, heads[n - 1].0) {
            Some((x, _)) => x,
            None => before,
        };
        larger(before, x + heads[n - 1].1)
    }
}

/// Where the head at `i` sits: where the layout puts it, or else at the top, to the right of the
/// heads before it.
pub open spec fn offset_of(
    heads: Seq<(u32, u32, u32)>,
    explicit: Seq<(u32, i32, i32)>,
    i: int,
) -> (int, int) {
    match explicit_offset(explicit, heads[i].0) {
        Some(offset) => offset,
        None => (row_end(heads, explicit, i), 0),
    }
}

/// How far the first `n` heads reach to the right; `n` is at least 1.
pub open spec fn reach_x(
    heads: Seq<(u32, u32, u32)>,
    explicit: Seq<(u32, i32, i32)>,
    n: int,
) -> int
    decreases n,
{
    let edge = offset_of(heads, explicit, n - 1).0 + heads[n - 1].1;
    if n <= 1 {
        edge
    } else {
        larger(reach_x(heads, explicit, n - 1), edge)
    }
}

/// How far the first `n` heads reach down; `n` is at least 1.
pub open spec fn reach_y(
    heads: Seq<(u32, u32, u32)>,
    explicit: Seq<(u32, i32, i32)>,
    n: int,
) -> int
    decreases n,
{
    let edge = offset_of(heads, explicit, n - 1).1 + heads[n - 1].2;
    if n <= 1 {
        edge
    } else {
        larger(reach_y(heads, explicit, n - 1), edge)
    }
}

/// Where the console `id` stands in `heads` for the first time; the length of `heads` where it
/// does not.
pub open spec fn index_of_id(heads: Seq<(u32, u32, u32)>, id: u32) -> int
    decreases heads.len(),
{
    if heads.len() == 0 || heads.first().0 == id {
        0
    } else {
        1 + index_of_id(heads.drop_first(), id)
    }
}

/// Whether the right end of the heads can be counted in an `i64`. It can where there are fewer
/// than 2^31 heads, however wide they are.
pub open spec fn desktop_fits(
    sizes: Seq<(u32, u32, u32)>,
    explicit: Seq<(u32, i32, i32)>,
) -> bool {
    ||| sizes.len() <= 0x7fff_ffff
    ||| row_end(by_id(sizes), explicit, sizes.len() as int) <= i64::MAX
}

/// Where the console `self_id` sits in the desktop that heads of these sizes make up. A desktop
/// of one head needs no map.
pub open spec fn head_map_of(
    sizes: Seq<(u32, u32, u32)>,
    explicit: Seq<(u32, i32, i32)>,
    self_id: u32,
) -> Option<HeadMap> {
    let heads = by_id(sizes);
    let n = sizes.len() as int;
    let i = index_of_id(heads, self_id);
    if n < 2 || i >= n {
        None
    } else {
        Some(
            HeadMap {
                offset_x: offset_of(heads, explicit, i).0 as i64,
                offset_y: offset_of(heads, explicit, i).1 as i64,
                width: heads[i].1 as i64,
                height: heads[i].2 as i64,
                total_width: reach_x(heads, explicit, n) as i64,
                total_height: reach_y(heads, explicit, n) as i64,
            },
        )
    }
}

proof fn lemma_insert_by_id_at(sorted: Seq<(u32, u32, u32)>, head: (u32, u32, u32), i: int)
    requires
        0 <= i <= sorted.len(),
        i > 0 ==> sorted[i - 1].0 <= head.0,
        forall|j: int| i <= j < sorted.len() ==> sorted[j].0 > head.0,
    ensures
        insert_by_id(sorted, head) == sorted.insert(i, head),
    decreases sorted.len(),
{
    if i == sorted.len() {
        assert(sorted.push(head) =~= sorted.insert(i, head));
    } else {
        lemma_insert_by_id_at(sorted.drop_last(), head, i);
        assert(sorted.drop_last().insert(i, head).push(sorted.last()) =~= sorted.insert(i, head));
    }
}

/// The heads in the order of their ids.
fn sort_by_id(sizes: &[(u32, u32, u32)]) -> (r: Vec<(u32, u32, u32)>)
    ensures
        r@ == by_id(sizes@),
        r.len() == sizes@.len(),
{
    let mut out: Vec<(u32, u32, u32)> = Vec::new();
    let mut k: usize = 0;
    while k < sizes.len()
        invariant
            k <= sizes@.len(),
            out@ == by_id(sizes@.take(k as int)),
            out.len() == k,
        decreases sizes.len() - k,
    {
        let head: (u32, u32, u32) = sizes[k];
        let mut i: usize = out.len();
        while i > 0 && out[i - 1].0 > head.0
            invariant
                i <= out.len(),
                forall|j: int| i <= j < out.len() ==> out@[j].0 > head.0,
            decreases i,
        {
            i -= 1;
        }
        proof {
            assert(sizes@.take(k + 1).drop_last() =~= sizes@.take(k as int));
            lemma_insert_by_id_at(out@, head, i as int);
        }
        out.insert(i, head);
        k += 1;
    }
    proof {
        assert(sizes@.take(k as int) =~= sizes@);
    }
    out
}

/// The offset that the layout gives the console `id`.
fn find_explicit(explicit: &[(u32, i32, i32)], id: u32) -> (r: Option<(i64, i64)>)
    ensures
        match r {
            Some((x, y)) => explicit_offset(explicit@, id) == Some((x as int, y as int))
                && i32::MIN <= x <= i32::MAX && i32::MIN <= y <= i32::MAX,
            None => explicit_offset(explicit@, id) is None,
        },
{
    let mut i: usize = 0;
    proof {
        assert(explicit@.skip(0) =~= explicit@);
    }
    while i < explicit.len()
        invariant
            i <= explicit@.len(),
            explicit_offset(explicit@, id) == explicit_offset(explicit@.skip(i as int), id),
        decreases explicit.len() - i,
    {
        let (eid, x, y): (u32, i32, i32) = explicit[i];
        if eid == id {
            return Some((x as i64, y as i64));
        }
        proof {
            assert(explicit@.skip(i as int).drop_first() =~= explicit@.skip(i + 1));
        }
        i += 1;
    }
    None
}

/// Where the console `id` stands in `heads`, or the length of `heads`.
fn find_head(heads: &Vec<(u32, u32, u32)>, id: u32) -> (r: usize)
    ensures
        r == index_of_id(heads@, id),
        r <= heads.len(),
{
    let mut i: usize = 0;
    proof {
        assert(heads@.skip(0) =~= heads@);
    }
    while i < heads.len() && heads[i].0 != id
        invariant
            i <= heads.len(),
            index_of_id(heads@, id) == i + index_of_id(heads@.skip(i as int), id),
        decreases heads.len() - i,
    {
        proof {
            assert(heads@.skip(i as int).drop_first() =~= heads@.skip(i + 1));
        }
        i += 1;
    }
    i
}

pub proof fn lemma_explicit_offset_range(explicit: Seq<(u32, i32, i32)>, id: u32)
    ensures
        explicit_offset(explicit, id) matches Some((x, y)) ==> i32::MIN <= x <= i32::MAX
            && i32::MIN <= y <= i32::MAX,
    decreases explicit.len(),
{
    if explicit.len() > 0 {
        lemma_explicit_offset_range(explicit.drop_first(), id);
    }
}

pub proof fn lemma_row_end_grows(
    heads: Seq<(u32, u32, u32)>,
    explicit: Seq<(u32, i32, i32)>,
    i: int,
    n: int,
)
    requires
        0 <= i <= n,
    ensures
        0 <= row_end(heads, explicit, i) <= row_end(heads, explicit, n),
    decreases n,
{
    if i < n {
        lemma_row_end_grows(heads, explicit, i, n - 1);
    } else if n > 0 {
        lemma_row_end_grows(heads, explicit, n - 1, n - 1);
    }
}

pub proof fn lemma_row_end_bound(
    heads: Seq<(u32, u32, u32)>,
    explicit: Seq<(u32, i32, i32)>,
    n: int,
)
    requires
        0 <= n <= heads.len(),
    ensures
        row_end(heads, explicit, n) <= 0x7fff_ffff + n * 0xffff_ffff,
    decreases n,
{
    if n > 0 {
        lemma_row_end_bound(heads, explicit, n - 1);
        lemma_explicit_offset_range(explicit, heads[n - 1].0);
    }
}

pub proof fn lemma_by_id_len(sizes: Seq<(u32, u32, u32)>)
    ensures
        by_id(sizes).len() == sizes.len(),
    decreases sizes.len(),
{
    if sizes.len() > 0 {
        lemma_by_id_len(sizes.drop_last());
        lemma_insert_by_id_len(by_id(sizes.drop_last()), sizes.last());
    }
}

proof fn lemma_insert_by_id_len(sorted: Seq<(u32, u32, u32)>, head: (u32, u32, u32))
    ensures
        insert_by_id(sorted, head).len() == sorted.len() + 1,
    decreases sorted.len(),
{
    if sorted.len() > 0 && sorted.last().0 > head.0 {
        lemma_insert_by_id_len(sorted.drop_last(), head);
    }
}

/// Builds the head map from `(id, width, height)` of every console. Explicit `(id, x, y)` offsets
/// win; otherwise heads are laid out from left to right in the order of their ids, which is what
/// desktops do when a head is plugged in.
pub fn compute_head_map(
    sizes: &[(u32, u32, u32)],
    explicit: &[(u32, i32, i32)],
    self_id: u32,
) -> (r: Option<HeadMap>)
    requires
        desktop_fits(sizes@, explicit@),
    ensures
        r == head_map_of(sizes@, explicit@, self_id),
{
    if sizes.len() < 2 {
        return None;
    }
    let heads: Vec<(u32, u32, u32)> = sort_by_id(sizes);
    let me: usize = find_head(&heads, self_id);
    if me == heads.len() {
        return None;
    }
    let ghost n = heads@.len() as int;
    proof {
        lemma_row_end_bound(heads@, explicit@, n);
    }
    let mut row: i64 = 0;
    let mut total_width: i64 = 0;
    let mut total_height: i64 = 0;
    let mut own: (i64, i64) = (0, 0);
    let mut i: usize = 0;
    while i < heads.len()
        invariant
            i <= heads.len(),
            n == heads@.len(),
            me < n,
            row_end(heads@, explicit@, n) <= i64::MAX,
            row == row_end(heads@, explicit@, i as int),
            i > 0 ==> total_width == reach_x(heads@, explicit@, i as int),
            i > 0 ==> total_height == reach_y(heads@, explicit@, i as int),
            me < i ==> own.0 == offset_of(heads@, explicit@, me as int).0,
            me < i ==> own.1 == offset_of(heads@, explicit@, me as int).1,
        decreases heads.len() - i,
    {
        let (id, w, h): (u32, u32, u32) = heads[i];
        let (x, y): (i64, i64) = match find_explicit(explicit, id) {
            Some(offset) => offset,
            None => (row, 0),
        };
        proof {
            lemma_row_end_grows(heads@, explicit@, i + 1, n);
            lemma_row_end_grows(heads@, explicit@, i as int, n);
        }
        let right: i64 = x + w as i64;
        let bottom: i64 = y + h as i64;
        if right > row {
            row = right;
        }
        if i == 0 || right > total_width {
            total_width = right;
        }
        if i == 0 || bottom > total_height {
            total_height = bottom;
        }
        if i == me {
            own = (x, y);
        }
        i += 1;
    }
    let (_, width, height): (u32, u32, u32) = heads[me];
    Some(
        HeadMap {
            offset_x: own.0,
            offset_y: own.1,
            width: width as i64,
            height: height as i64,
            total_width,
            total_height,
        },
    )
}

impl HeadMap {
    /// Whether neither the console nor the desktop is empty.
    pub open spec fn usable(self) -> bool {
        &&& self.width > 0
        &&& self.height > 0
        &&& self.total_width > 0
        &&& self.total_height > 0
    }

    /// The point of the desktop for a position on the console, moved into the desktop where it
    /// lies outside.
    pub open spec fn on_desktop(self, x: int, y: int) -> (int, int) {
        (
            clamp(self.offset_x + x, 0, self.total_width - 1),
            clamp(self.offset_y + y, 0, self.total_height - 1),
        )
    }

    /// The position to hand to QEMU: the point of the desktop, scaled to the console.
    pub open spec fn scaled(self, x: int, y: int) -> (int, int) {
        (
            self.on_desktop(x, y).0 * self.width / self.total_width as int,
            self.on_desktop(x, y).1 * self.height / self.total_height as int,
        )
    }

    /// What `map_abs_position` returns.
    pub open spec fn mapped(self, x: int, y: int) -> (u32, u32) {
        if self.usable() {
            (low_bits(self.scaled(x, y).0), low_bits(self.scaled(x, y).1))
        } else {
            (low_bits(larger(x, 0)), low_bits(larger(y, 0)))
        }
    }
}

/// `v`, moved into `low..=high`.
fn clamp_to(v: i64, low: i64, high: i64) -> (r: i64)
    requires
        low <= high,
    ensures
        r == clamp(v as int, low as int, high as int),
{
    if v < low {
        low
    } else if v > high {
        high
    } else {
        v
    }
}

/// The low 32 bits of `v`, which is not negative.
fn low_half(v: i64) -> (r: u32)
    requires
        v >= 0,
    ensures
        r == low_bits(v as int),
{
    assert(v >= 0 ==> (v as u32) == v % 0x1_0000_0000) by (bit_vector);
    #[verifier::truncate]
    (v as u32)
}

pub proof fn lemma_scaled_below(at: int, size: int, total: int)
    requires
        0 <= at < total,
        size > 0,
    ensures
        0 <= at * size,
        0 <= at * size / total < size,
        (at * size / total) * total <= at * size < (at * size / total + 1) * total,
{
    let q = at * size / total;
    assert(0 <= at * size < total * size) by (nonlinear_arith)
        requires
            0 <= at < total,
            size > 0,
    ;
    vstd::arithmetic::div_mod::lemma_fundamental_div_mod(at * size, total);
    vstd::arithmetic::div_mod::lemma_mod_bound(at * size, total);
    vstd::arithmetic::div_mod::lemma_div_pos_is_pos(at * size, total);
    assert(q * total <= at * size < (q + 1) * total) by (nonlinear_arith)
        requires
            at * size == total * q + (at * size) % total,
            0 <= (at * size) % total < total,
    ;
    assert(q < size) by (nonlinear_arith)
        requires
            q * total <= at * size,
            at * size < total * size,
            total > 0,
    ;
}

/// One coordinate of a position: the point of the desktop, scaled to the console.
fn scale(offset: i64, at: i64, size: i64, total: i64) -> (r: i64)
    requires
        size > 0,
        total > 0,
    ensures
        r == clamp(offset + at, 0, total - 1) * size / (total as int),
        0 <= r < size,
{
    let sum: i128 = offset as i128 + at as i128;
    let global: i128 = if sum < 0 {
        0
    } else if sum > total as i128 - 1 {
        total as i128 - 1
    } else {
        sum
    };
    proof {
        lemma_scaled_below(global as int, size as int, total as int);
        assert(global * size <= i64::MAX * i64::MAX) by (nonlinear_arith)
            requires
                0 <= global <= i64::MAX,
                0 < size <= i64::MAX,
        ;
    }
    (global * size as i128 / total as i128) as i64
}

/// Turns a position on the console into the one for QEMU (see [`HeadMap`]). The position may lie
/// outside the head (negative, or past its edge): it is moved into the guest's whole desktop, so
/// a pointer that is dragged past the edge of the window keeps moving onto the neighbouring head.
pub fn map_abs_position(map: &HeadMap, x: i64, y: i64) -> (r: (u32, u32))
    ensures
        r == map.mapped(x as int, y as int),
{
    if map.width <= 0 || map.height <= 0 || map.total_width <= 0 || map.total_height <= 0 {
        let x: i64 = if x < 0 {
            0
        } else {
            x
        };
        let y: i64 = if y < 0 {
            0
        } else {
            y
        };
        return (low_half(x), low_half(y));
    }
    let sx: i64 = scale(map.offset_x, x, map.width, map.total_width);
    let sy: i64 = scale(map.offset_y, y, map.height, map.total_height);
    (low_half(sx), low_half(sy))
}

/// What `clamp_to_console` returns.
pub open spec fn clamped_to_console(size: Option<(u32, u32)>, x: int, y: int) -> (u32, u32) {
    match size {
        Some((w, h)) => if w > 0 && h > 0 {
            (clamp(x, 0, w - 1) as u32, clamp(y, 0, h - 1) as u32)
        } else {
            (low_bits(larger(x, 0)), low_bits(larger(y, 0)))
        },
        None => (low_bits(larger(x, 0)), low_bits(larger(y, 0))),
    }
}

/// Moves a position on a single head into the console.
pub fn clamp_to_console(size: Option<(u32, u32)>, x: i64, y: i64) -> (r: (u32, u32))
    ensures
        r == clamped_to_console(size, x as int, y as int),
{
    if let Some((w, h)) = size {
        if w > 0 && h > 0 {
            return (
                clamp_to(x, 0, w as i64 - 1) as u32,
                clamp_to(y, 0, h as i64 - 1) as u32,
            );
        }
    }
    let x: i64 = if x < 0 {
        0
    } else {
        x
    };
    let y: i64 = if y < 0 {
        0
    } else {
        y
    };
    (low_half(x), low_half(y))
}

} // verus!
