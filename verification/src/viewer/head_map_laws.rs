//! What holds of every desktop and of every pointer position on it.

use vstd::prelude::*;

use crate::viewer::head_map;
use crate::viewer::head_map::HeadMap;

verus! {

/// No two heads have the same id.
pub open spec fn distinct_ids(sizes: Seq<(u32, u32, u32)>) -> bool {
    forall|i: int, j: int| 0 <= i < j < sizes.len() ==> sizes[i].0 != sizes[j].0
}

/// No head has an id below that of a head before it.
pub open spec fn ids_ascend(heads: Seq<(u32, u32, u32)>) -> bool {
    forall|i: int, j: int| 0 <= i < j < heads.len() ==> heads[i].0 <= heads[j].0
}

/// The heads with the id `id`, in their order.
pub open spec fn with_id(heads: Seq<(u32, u32, u32)>, id: u32) -> Seq<(u32, u32, u32)> {
    heads.filter(|head: (u32, u32, u32)| head.0 == id)
}

/// The width of the first `n` heads together.
pub open spec fn width_sum(heads: Seq<(u32, u32, u32)>, n: int) -> int
    decreases n,
{
    if n <= 0 {
        0
    } else {
        width_sum(heads, n - 1) + heads[n - 1].1
    }
}

/// Whether one of the heads has the id `id`.
pub open spec fn has_id(heads: Seq<(u32, u32, u32)>, id: u32) -> bool {
    exists|i: int| 0 <= i < heads.len() && (#[trigger] heads[i]).0 == id
}

proof fn lemma_insert_index(sorted: Seq<(u32, u32, u32)>, head: (u32, u32, u32)) -> (i: int)
    requires
        ids_ascend(sorted),
    ensures
        0 <= i <= sorted.len(),
        head_map::insert_by_id(sorted, head) == sorted.insert(i, head),
        forall|j: int| 0 <= j < i ==> sorted[j].0 <= head.0,
        forall|j: int| i <= j < sorted.len() ==> sorted[j].0 > head.0,
    decreases sorted.len(),
{
    if sorted.len() == 0 || sorted.last().0 <= head.0 {
        assert(sorted.push(head) =~= sorted.insert(sorted.len() as int, head));
        sorted.len() as int
    } else {
        let rest = sorted.drop_last();
        let i = lemma_insert_index(rest, head);
        assert(rest.insert(i, head).push(sorted.last()) =~= sorted.insert(i, head));
        assert forall|j: int| 0 <= j < i implies sorted[j].0 <= head.0 by {
            assert(rest[j] == sorted[j]);
        }
        assert forall|j: int| i <= j < sorted.len() implies sorted[j].0 > head.0 by {
            if j < rest.len() {
                assert(rest[j] == sorted[j]);
            }
        }
        i
    }
}

proof fn lemma_by_id_ascends(sizes: Seq<(u32, u32, u32)>)
    ensures
        ids_ascend(head_map::by_id(sizes)),
    decreases sizes.len(),
{
    if sizes.len() > 0 {
        let rest = head_map::by_id(sizes.drop_last());
        lemma_by_id_ascends(sizes.drop_last());
        let i = lemma_insert_index(rest, sizes.last());
    }
}

proof fn lemma_insert_multiset(sorted: Seq<(u32, u32, u32)>, head: (u32, u32, u32))
    ensures
        head_map::insert_by_id(sorted, head).to_multiset()
            == sorted.to_multiset().insert(head),
    decreases sorted.len(),
{
    broadcast use vstd::seq_lib::group_to_multiset_ensures;

    if sorted.len() > 0 && sorted.last().0 > head.0 {
        let rest = sorted.drop_last();
        lemma_insert_multiset(rest, head);
        assert(rest.push(sorted.last()) =~= sorted);
        assert(rest.to_multiset().insert(head).insert(sorted.last()) =~= rest.to_multiset().insert(
            sorted.last(),
        ).insert(head));
    }
}

proof fn lemma_insert_with_id(sorted: Seq<(u32, u32, u32)>, head: (u32, u32, u32), id: u32)
    ensures
        with_id(head_map::insert_by_id(sorted, head), id) == if head.0 == id {
            with_id(sorted, id).push(head)
        } else {
            with_id(sorted, id)
        },
    decreases sorted.len(),
{
    reveal(Seq::filter);
    let inserted = head_map::insert_by_id(sorted, head);
    if sorted.len() > 0 && sorted.last().0 > head.0 {
        let rest = sorted.drop_last();
        lemma_insert_with_id(rest, head, id);
        assert(inserted.drop_last() =~= head_map::insert_by_id(rest, head));
    } else {
        assert(inserted.drop_last() =~= sorted);
    }
}

/// Sorting by id puts the heads into ascending order, keeps each of them, and keeps the order of
/// those that share an id.
pub proof fn law_by_id_is_a_stable_sort(sizes: Seq<(u32, u32, u32)>, id: u32)
    ensures
        ids_ascend(head_map::by_id(sizes)),
        head_map::by_id(sizes).to_multiset() == sizes.to_multiset(),
        with_id(head_map::by_id(sizes), id) == with_id(sizes, id),
    decreases sizes.len(),
{
    broadcast use vstd::seq_lib::group_to_multiset_ensures;

    lemma_by_id_ascends(sizes);
    if sizes.len() > 0 {
        let rest = sizes.drop_last();
        law_by_id_is_a_stable_sort(rest, id);
        lemma_insert_multiset(head_map::by_id(rest), sizes.last());
        lemma_insert_with_id(head_map::by_id(rest), sizes.last(), id);
        assert(rest.push(sizes.last()) =~= sizes);
        reveal(Seq::filter);
    }
}

proof fn lemma_distinct_by_id(sizes: Seq<(u32, u32, u32)>)
    requires
        distinct_ids(sizes),
    ensures
        distinct_ids(head_map::by_id(sizes)),
    decreases sizes.len(),
{
    if sizes.len() > 0 {
        let rest = sizes.drop_last();
        let sorted = head_map::by_id(rest);
        lemma_distinct_by_id(rest);
        lemma_by_id_ascends(rest);
        let i = lemma_insert_index(sorted, sizes.last());
        assert forall|j: int| 0 <= j < sorted.len() implies sorted[j].0 != sizes.last().0 by {
            lemma_same_members(rest, sorted[j]);
            assert(sorted.contains(sorted[j]));
            let k = choose|k: int| 0 <= k < rest.len() && rest[k] == sorted[j];
            assert(sizes[k].0 != sizes[sizes.len() - 1].0);
        }
        let inserted = sorted.insert(i, sizes.last());
        assert forall|a: int, b: int| 0 <= a < b < inserted.len() implies inserted[a].0
            != inserted[b].0 by {
            let a0 = if a < i {
                a
            } else {
                a - 1
            };
            let b0 = if b < i {
                b
            } else {
                b - 1
            };
            if a != i && b != i {
                assert(inserted[a] == sorted[a0]);
                assert(inserted[b] == sorted[b0]);
            } else if a != i {
                assert(inserted[a] == sorted[a0]);
            } else {
                assert(inserted[b] == sorted[b0]);
            }
        }
    }
}

proof fn lemma_same_members(sizes: Seq<(u32, u32, u32)>, head: (u32, u32, u32))
    ensures
        head_map::by_id(sizes).contains(head) <==> sizes.contains(head),
{
    broadcast use vstd::seq_lib::group_to_multiset_ensures;

    law_by_id_is_a_stable_sort(sizes, 0);
    let heads = head_map::by_id(sizes);
    assert(heads.contains(head) <==> heads.to_multiset().count(head) > 0);
    assert(sizes.contains(head) <==> sizes.to_multiset().count(head) > 0);
}

/// Two orders of the same heads are the same where ids ascend and none occurs twice.
proof fn lemma_sorted_unique(s: Seq<(u32, u32, u32)>, t: Seq<(u32, u32, u32)>)
    requires
        ids_ascend(s),
        ids_ascend(t),
        distinct_ids(s),
        s.to_multiset() == t.to_multiset(),
    ensures
        s == t,
    decreases s.len(),
{
    broadcast use vstd::seq_lib::group_to_multiset_ensures;

    assert(s.len() == s.to_multiset().len());
    assert(t.len() == t.to_multiset().len());
    if s.len() == 0 {
        assert(s =~= t);
    } else {
        let a = s.last();
        let b = t.last();
        assert(s.contains(a));
        assert(t.contains(b));
        assert(t.to_multiset().count(a) > 0);
        assert(s.to_multiset().count(b) > 0);
        let i = choose|i: int| 0 <= i < t.len() && t[i] == a;
        let k = choose|k: int| 0 <= k < s.len() && s[k] == b;
        assert(t[i].0 <= b.0);
        assert(s[k].0 <= a.0);
        if k < s.len() - 1 {
            assert(s[k].0 != s[s.len() - 1].0);
        }
        assert(a == b);
        let s0 = s.drop_last();
        let t0 = t.drop_last();
        assert(s0.push(a) =~= s);
        assert(t0.push(a) =~= t);
        assert(s0.to_multiset() =~= s.to_multiset().remove(a));
        assert(t0.to_multiset() =~= t.to_multiset().remove(a));
        lemma_sorted_unique(s0, t0);
    }
}

/// Where no id occurs twice, the order in which the consoles are listed does not matter.
pub proof fn law_listing_order_does_not_matter(
    a: Seq<(u32, u32, u32)>,
    b: Seq<(u32, u32, u32)>,
    explicit: Seq<(u32, i32, i32)>,
    self_id: u32,
)
    requires
        distinct_ids(a),
        a.to_multiset() == b.to_multiset(),
    ensures
        head_map::head_map_of(a, explicit, self_id)
            == head_map::head_map_of(b, explicit, self_id),
{
    law_by_id_is_a_stable_sort(a, 0);
    law_by_id_is_a_stable_sort(b, 0);
    lemma_distinct_by_id(a);
    lemma_sorted_unique(head_map::by_id(a), head_map::by_id(b));
    head_map::lemma_by_id_len(a);
    head_map::lemma_by_id_len(b);
}

/// `index_of_id` is the first index with the id at it, or the length.
pub proof fn lemma_index_of_id(heads: Seq<(u32, u32, u32)>, id: u32)
    ensures
        0 <= head_map::index_of_id(heads, id) <= heads.len(),
        head_map::index_of_id(heads, id) < heads.len() ==> heads[head_map::index_of_id(
            heads,
            id,
        )].0 == id,
        forall|j: int|
            0 <= j < head_map::index_of_id(heads, id) ==> heads[j].0 != id,
    decreases heads.len(),
{
    if heads.len() > 0 && heads.first().0 != id {
        let rest = heads.drop_first();
        lemma_index_of_id(rest, id);
        assert forall|j: int|
            0 <= j < head_map::index_of_id(heads, id) implies heads[j].0 != id by {
            if j > 0 {
                assert(heads[j] == rest[j - 1]);
            }
        }
    }
}

proof fn lemma_index_of_id_is(heads: Seq<(u32, u32, u32)>, id: u32, i: int)
    requires
        0 <= i <= heads.len(),
        i < heads.len() ==> heads[i].0 == id,
        forall|j: int| 0 <= j < i ==> heads[j].0 != id,
    ensures
        head_map::index_of_id(heads, id) == i,
{
    lemma_index_of_id(heads, id);
    let k = head_map::index_of_id(heads, id);
    if k < i {
        assert(heads[k].0 != id);
    } else if i < k {
        assert(heads[i].0 != id);
    }
}

/// Sorting finds the same head for an id as the list does.
proof fn lemma_first_with_id(sizes: Seq<(u32, u32, u32)>, id: u32)
    ensures
        ({
            let heads = head_map::by_id(sizes);
            let i = head_map::index_of_id(heads, id);
            let k = head_map::index_of_id(sizes, id);
            &&& (i < heads.len() <==> k < sizes.len())
            &&& i < heads.len() ==> heads[i] == sizes[k]
        }),
    decreases sizes.len(),
{
    let heads = head_map::by_id(sizes);
    let i = head_map::index_of_id(heads, id);
    let k = head_map::index_of_id(sizes, id);
    lemma_index_of_id(heads, id);
    lemma_index_of_id(sizes, id);
    if sizes.len() > 0 {
        let rest = sizes.drop_last();
        let last = sizes.last();
        let sorted = head_map::by_id(rest);
        let i0 = head_map::index_of_id(sorted, id);
        let k0 = head_map::index_of_id(rest, id);
        lemma_first_with_id(rest, id);
        lemma_index_of_id(sorted, id);
        lemma_index_of_id(rest, id);
        lemma_by_id_ascends(rest);
        let at = lemma_insert_index(sorted, last);
        assert(heads == sorted.insert(at, last));
        if k0 < rest.len() {
            assert forall|j: int| 0 <= j < k0 implies sizes[j].0 != id by {
                assert(sizes[j] == rest[j]);
            }
            lemma_index_of_id_is(sizes, id, k0);
            if last.0 == id {
                assert(i0 < at);
            }
            let there = if i0 < at {
                i0
            } else {
                i0 + 1
            };
            assert(heads[there] == sorted[i0]);
            assert forall|j: int| 0 <= j < there implies heads[j].0 != id by {
                if j < at {
                    assert(heads[j] == sorted[j]);
                } else if j > at {
                    assert(heads[j] == sorted[j - 1]);
                }
            }
            lemma_index_of_id_is(heads, id, there);
        } else if last.0 == id {
            assert forall|j: int| 0 <= j < sizes.len() - 1 implies sizes[j].0 != id by {
                assert(sizes[j] == rest[j]);
            }
            lemma_index_of_id_is(sizes, id, sizes.len() - 1);
            assert forall|j: int| 0 <= j < at implies heads[j].0 != id by {
                assert(heads[j] == sorted[j]);
            }
            lemma_index_of_id_is(heads, id, at);
        } else {
            assert forall|j: int| 0 <= j < sizes.len() implies sizes[j].0 != id by {
                if j < rest.len() {
                    assert(sizes[j] == rest[j]);
                }
            }
            lemma_index_of_id_is(sizes, id, sizes.len() as int);
            assert forall|j: int| 0 <= j < heads.len() implies heads[j].0 != id by {
                if j < at {
                    assert(heads[j] == sorted[j]);
                } else if j > at {
                    assert(heads[j] == sorted[j - 1]);
                }
            }
            lemma_index_of_id_is(heads, id, heads.len() as int);
        }
    }
}

/// There is a map exactly where the guest has two consoles or more and the own one is among them,
/// and it holds the size that was listed for the own console first.
pub proof fn law_map_is_for_the_own_console(
    sizes: Seq<(u32, u32, u32)>,
    explicit: Seq<(u32, i32, i32)>,
    self_id: u32,
)
    ensures
        head_map::head_map_of(sizes, explicit, self_id) is Some <==> sizes.len()
            >= 2 && has_id(sizes, self_id),
        head_map::head_map_of(sizes, explicit, self_id) matches Some(map) ==> {
            let own = sizes[head_map::index_of_id(sizes, self_id)];
            own.0 == self_id && map.width == own.1 && map.height == own.2
        },
{
    head_map::lemma_by_id_len(sizes);
    lemma_first_with_id(sizes, self_id);
    lemma_index_of_id(sizes, self_id);
    if has_id(sizes, self_id) {
        let i = choose|i: int| 0 <= i < sizes.len() && (#[trigger] sizes[i]).0 == self_id;
        assert(head_map::index_of_id(sizes, self_id) <= i);
    }
}

/// A console that the layout names sits where the layout puts it.
pub proof fn law_explicit_offset_wins(
    sizes: Seq<(u32, u32, u32)>,
    explicit: Seq<(u32, i32, i32)>,
    self_id: u32,
)
    ensures
        head_map::head_map_of(sizes, explicit, self_id) matches Some(map) ==> (
        head_map::explicit_offset(explicit, self_id) matches Some((x, y))
            ==> map.offset_x == x && map.offset_y == y),
{
    head_map::lemma_by_id_len(sizes);
    lemma_index_of_id(head_map::by_id(sizes), self_id);
    head_map::lemma_explicit_offset_range(explicit, self_id);
}

/// A head that the layout does not name sits at the top, to the right of every head whose id is
/// below its own.
pub proof fn law_unnamed_head_sits_right_of_lower_ids(
    sizes: Seq<(u32, u32, u32)>,
    explicit: Seq<(u32, i32, i32)>,
    i: int,
    j: int,
)
    requires
        0 <= i < sizes.len(),
        0 <= j < sizes.len(),
        head_map::by_id(sizes)[i].0 < head_map::by_id(sizes)[j].0,
        head_map::explicit_offset(explicit, head_map::by_id(sizes)[j].0) is None,
    ensures
        ({
            let heads = head_map::by_id(sizes);
            &&& head_map::offset_of(heads, explicit, i).0 + heads[i].1 <= head_map::offset_of(
                heads,
                explicit,
                j,
            ).0
            &&& head_map::offset_of(heads, explicit, j).1 == 0
        }),
{
    let heads = head_map::by_id(sizes);
    head_map::lemma_by_id_len(sizes);
    lemma_by_id_ascends(sizes);
    assert(i < j);
    head_map::lemma_row_end_grows(heads, explicit, i + 1, j);
}

/// Where the head at `i` ends on the right.
pub open spec fn right_edge(
    heads: Seq<(u32, u32, u32)>,
    explicit: Seq<(u32, i32, i32)>,
    i: int,
) -> int {
    head_map::offset_of(heads, explicit, i).0 + heads[i].1
}

/// Where the head at `i` ends at the bottom.
pub open spec fn bottom_edge(
    heads: Seq<(u32, u32, u32)>,
    explicit: Seq<(u32, i32, i32)>,
    i: int,
) -> int {
    head_map::offset_of(heads, explicit, i).1 + heads[i].2
}

proof fn lemma_row_end_is_an_edge(
    heads: Seq<(u32, u32, u32)>,
    explicit: Seq<(u32, i32, i32)>,
    n: int,
)
    requires
        0 <= n <= heads.len(),
    ensures
        head_map::row_end(heads, explicit, n) >= 0,
        forall|i: int|
            0 <= i < n ==> #[trigger] right_edge(heads, explicit, i) <= head_map::row_end(
                heads,
                explicit,
                n,
            ),
        head_map::row_end(heads, explicit, n) == 0 || exists|i: int|
            0 <= i < n && #[trigger] right_edge(heads, explicit, i) == head_map::row_end(
                heads,
                explicit,
                n,
            ),
    decreases n,
{
    if n > 0 {
        lemma_row_end_is_an_edge(heads, explicit, n - 1);
        let before = head_map::row_end(heads, explicit, n - 1);
        let end = head_map::row_end(heads, explicit, n);
        assert(end == head_map::larger(before, right_edge(heads, explicit, n - 1)));
        if end != 0 && end == before {
            let i = choose|i: int|
                0 <= i < n - 1 && #[trigger] right_edge(heads, explicit, i) == before;
            assert(right_edge(heads, explicit, i) == end);
        }
    }
}

/// A head that the layout does not name starts exactly at the largest right edge of the heads
/// before it in the order of the ids, or at 0 where none of them ends further right.
pub proof fn law_unnamed_head_starts_at_the_largest_edge(
    sizes: Seq<(u32, u32, u32)>,
    explicit: Seq<(u32, i32, i32)>,
    j: int,
)
    requires
        0 <= j < sizes.len(),
        head_map::explicit_offset(explicit, head_map::by_id(sizes)[j].0) is None,
    ensures
        ({
            let heads = head_map::by_id(sizes);
            let start = head_map::offset_of(heads, explicit, j).0;
            &&& start >= 0
            &&& forall|i: int| 0 <= i < j ==> #[trigger] right_edge(heads, explicit, i) <= start
            &&& start == 0 || exists|i: int|
                0 <= i < j && #[trigger] right_edge(heads, explicit, i) == start
        }),
{
    head_map::lemma_by_id_len(sizes);
    lemma_row_end_is_an_edge(head_map::by_id(sizes), explicit, j);
}

proof fn lemma_reach_is_an_edge(
    heads: Seq<(u32, u32, u32)>,
    explicit: Seq<(u32, i32, i32)>,
    n: int,
)
    requires
        0 < n <= heads.len(),
    ensures
        exists|i: int|
            0 <= i < n && #[trigger] right_edge(heads, explicit, i) == head_map::reach_x(
                heads,
                explicit,
                n,
            ),
        exists|i: int|
            0 <= i < n && #[trigger] bottom_edge(heads, explicit, i) == head_map::reach_y(
                heads,
                explicit,
                n,
            ),
    decreases n,
{
    let x = head_map::reach_x(heads, explicit, n);
    let y = head_map::reach_y(heads, explicit, n);
    if n > 1 {
        lemma_reach_is_an_edge(heads, explicit, n - 1);
    }
    if x == right_edge(heads, explicit, n - 1) {
        assert(right_edge(heads, explicit, n - 1) == x);
    } else {
        let i = choose|i: int| 0 <= i < n - 1 && #[trigger] right_edge(heads, explicit, i) == x;
        assert(right_edge(heads, explicit, i) == x);
    }
    if y == bottom_edge(heads, explicit, n - 1) {
        assert(bottom_edge(heads, explicit, n - 1) == y);
    } else {
        let i = choose|i: int| 0 <= i < n - 1 && #[trigger] bottom_edge(heads, explicit, i) == y;
        assert(bottom_edge(heads, explicit, i) == y);
    }
}

/// The desktop is no larger than its heads: one of them ends at its right edge, and one at its
/// bottom edge.
pub proof fn law_heads_touch_the_far_edges(
    sizes: Seq<(u32, u32, u32)>,
    explicit: Seq<(u32, i32, i32)>,
    self_id: u32,
)
    requires
        head_map::desktop_fits(sizes, explicit),
    ensures
        head_map::head_map_of(sizes, explicit, self_id) matches Some(map) ==> {
            let heads = head_map::by_id(sizes);
            &&& exists|i: int|
                0 <= i < heads.len() && #[trigger] right_edge(heads, explicit, i)
                    == map.total_width
            &&& exists|i: int|
                0 <= i < heads.len() && #[trigger] bottom_edge(heads, explicit, i)
                    == map.total_height
        },
{
    let heads = head_map::by_id(sizes);
    let n = sizes.len() as int;
    head_map::lemma_by_id_len(sizes);
    head_map::lemma_row_end_bound(heads, explicit, n);
    if n >= 2 {
        lemma_reach(heads, explicit, 0, n);
        lemma_reach_is_an_edge(heads, explicit, n);
    }
}

proof fn lemma_auto_row(heads: Seq<(u32, u32, u32)>, n: int)
    requires
        0 <= n <= heads.len(),
    ensures
        head_map::row_end(heads, Seq::empty(), n) == width_sum(heads, n),
        width_sum(heads, n) >= 0,
        n > 0 ==> head_map::reach_x(heads, Seq::empty(), n) == width_sum(heads, n),
    decreases n,
{
    if n > 0 {
        lemma_auto_row(heads, n - 1);
    }
}

/// Without a layout the heads stand side by side at the top, from left to right in the order of
/// their ids, and the desktop is as wide as all of them together.
pub proof fn law_heads_stand_side_by_side(
    sizes: Seq<(u32, u32, u32)>,
    self_id: u32,
)
    requires
        head_map::desktop_fits(sizes, Seq::empty()),
    ensures
        head_map::head_map_of(sizes, Seq::empty(), self_id) matches Some(map) ==> {
            let heads = head_map::by_id(sizes);
            let i = head_map::index_of_id(heads, self_id);
            &&& map.offset_x == width_sum(heads, i)
            &&& map.offset_y == 0
            &&& map.total_width == width_sum(heads, heads.len() as int)
        },
{
    let heads = head_map::by_id(sizes);
    let n = sizes.len() as int;
    head_map::lemma_by_id_len(sizes);
    lemma_index_of_id(heads, self_id);
    let i = head_map::index_of_id(heads, self_id);
    head_map::lemma_row_end_bound(heads, Seq::empty(), n);
    if n >= 2 && i < n {
        lemma_auto_row(heads, i);
        lemma_auto_row(heads, n);
        head_map::lemma_row_end_grows(heads, Seq::empty(), i, n);
    }
}

proof fn lemma_reach(
    heads: Seq<(u32, u32, u32)>,
    explicit: Seq<(u32, i32, i32)>,
    i: int,
    n: int,
)
    requires
        0 <= i < n <= heads.len(),
    ensures
        head_map::offset_of(heads, explicit, i).0 + heads[i].1
            <= head_map::reach_x(heads, explicit, n)
            <= head_map::row_end(heads, explicit, n),
        head_map::offset_of(heads, explicit, i).1 + heads[i].2
            <= head_map::reach_y(heads, explicit, n) <= 0x1_7fff_ffff,
        i32::MIN <= head_map::offset_of(heads, explicit, i).0,
        i32::MIN <= head_map::offset_of(heads, explicit, i).1 <= i32::MAX,
    decreases n,
{
    head_map::lemma_explicit_offset_range(explicit, heads[i].0);
    head_map::lemma_explicit_offset_range(explicit, heads[n - 1].0);
    head_map::lemma_row_end_grows(heads, explicit, i, n);
    head_map::lemma_row_end_grows(heads, explicit, n - 1, n);
    if i < n - 1 {
        lemma_reach(heads, explicit, i, n - 1);
    } else if n > 1 {
        lemma_reach(heads, explicit, n - 2, n - 1);
    }
}

/// Every head lies within the desktop to the right and at the bottom, and no coordinate leaves
/// the range that the layout and the sizes span.
pub proof fn law_head_lies_within_the_desktop(
    sizes: Seq<(u32, u32, u32)>,
    explicit: Seq<(u32, i32, i32)>,
    self_id: u32,
)
    requires
        head_map::desktop_fits(sizes, explicit),
    ensures
        head_map::head_map_of(sizes, explicit, self_id) matches Some(map) ==> {
            &&& map.offset_x + map.width <= map.total_width
            &&& map.offset_y + map.height <= map.total_height
            &&& 0 <= map.width <= u32::MAX
            &&& 0 <= map.height <= u32::MAX
            &&& i32::MIN <= map.offset_x
            &&& i32::MIN <= map.offset_y <= i32::MAX
            &&& map.total_height <= 0x1_7fff_ffff
        },
{
    let heads = head_map::by_id(sizes);
    let n = sizes.len() as int;
    head_map::lemma_by_id_len(sizes);
    lemma_index_of_id(heads, self_id);
    let i = head_map::index_of_id(heads, self_id);
    head_map::lemma_row_end_bound(heads, explicit, n);
    if n >= 2 && i < n {
        lemma_reach(heads, explicit, i, n);
    }
}

/// All consoles of a guest see the same desktop.
pub proof fn law_consoles_share_the_desktop(
    sizes: Seq<(u32, u32, u32)>,
    explicit: Seq<(u32, i32, i32)>,
    a: u32,
    b: u32,
)
    ensures
        head_map::head_map_of(sizes, explicit, a) matches Some(first) ==> (
        head_map::head_map_of(sizes, explicit, b) matches Some(second)
            ==> first.total_width == second.total_width && first.total_height
            == second.total_height),
{
}

/// A mapped position lies inside the console, wherever the pointer was.
pub proof fn law_mapped_position_is_inside(map: HeadMap, x: int, y: int)
    requires
        map.usable(),
        map.width <= u32::MAX,
        map.height <= u32::MAX,
    ensures
        map.mapped(x, y).0 == map.scaled(x, y).0,
        map.mapped(x, y).1 == map.scaled(x, y).1,
        map.mapped(x, y).0 < map.width,
        map.mapped(x, y).1 < map.height,
{
    head_map::lemma_scaled_below(
        map.on_desktop(x, y).0,
        map.width as int,
        map.total_width as int,
    );
    head_map::lemma_scaled_below(
        map.on_desktop(x, y).1,
        map.height as int,
        map.total_height as int,
    );
}

/// Scaled back from the console to the desktop, a mapped position lands on the point that it was
/// mapped from: that point is not before it, and before the next position.
pub proof fn law_mapped_position_lands(map: HeadMap, x: int, y: int)
    requires
        map.usable(),
    ensures
        map.scaled(x, y).0 * map.total_width <= map.on_desktop(x, y).0 * map.width < (map.scaled(
            x,
            y,
        ).0 + 1) * map.total_width,
        map.scaled(x, y).1 * map.total_height <= map.on_desktop(x, y).1 * map.height < (map.scaled(
            x,
            y,
        ).1 + 1) * map.total_height,
{
    head_map::lemma_scaled_below(
        map.on_desktop(x, y).0,
        map.width as int,
        map.total_width as int,
    );
    head_map::lemma_scaled_below(
        map.on_desktop(x, y).1,
        map.height as int,
        map.total_height as int,
    );
}

/// Where the console is the whole desktop, a position on it is mapped to itself, and one outside
/// to the nearest one on it.
pub proof fn law_whole_desktop_is_identity(map: HeadMap, x: int, y: int)
    requires
        map.usable(),
        map.offset_x == 0,
        map.offset_y == 0,
        map.width == map.total_width <= u32::MAX,
        map.height == map.total_height <= u32::MAX,
    ensures
        map.mapped(x, y).0 == head_map::clamp(x, 0, map.width - 1),
        map.mapped(x, y).1 == head_map::clamp(y, 0, map.height - 1),
        0 <= x < map.width && 0 <= y < map.height ==> map.mapped(x, y) == (x as u32, y as u32),
{
    vstd::arithmetic::div_mod::lemma_div_by_multiple(map.on_desktop(x, y).0, map.width as int);
    vstd::arithmetic::div_mod::lemma_div_by_multiple(map.on_desktop(x, y).1, map.height as int);
}

proof fn lemma_scaling_is_monotone(a: int, b: int, size: int, total: int)
    requires
        a <= b,
        size > 0,
        total > 0,
    ensures
        a * size / total <= b * size / total,
{
    assert(a * size <= b * size) by (nonlinear_arith)
        requires
            a <= b,
            size > 0,
    ;
    vstd::arithmetic::div_mod::lemma_div_is_ordered(a * size, b * size, total);
}

/// A pointer that moves right is never mapped further left, and one that moves down never
/// further up.
pub proof fn law_mapping_keeps_the_direction(map: HeadMap, x: int, y: int, x2: int, y2: int)
    requires
        map.usable(),
        x <= x2,
        y <= y2,
    ensures
        map.scaled(x, y).0 <= map.scaled(x2, y2).0,
        map.scaled(x, y).1 <= map.scaled(x2, y2).1,
{
    lemma_scaling_is_monotone(
        map.on_desktop(x, y).0,
        map.on_desktop(x2, y2).0,
        map.width as int,
        map.total_width as int,
    );
    lemma_scaling_is_monotone(
        map.on_desktop(x, y).1,
        map.on_desktop(x2, y2).1,
        map.height as int,
        map.total_height as int,
    );
}

/// A position past the edge of one head is the position on its neighbour that the pointer would
/// have there: both stand for the same point of the desktop.
pub proof fn law_positions_continue_onto_the_neighbour(
    sizes: Seq<(u32, u32, u32)>,
    explicit: Seq<(u32, i32, i32)>,
    a: u32,
    b: u32,
    x: int,
    y: int,
)
    ensures
        head_map::head_map_of(sizes, explicit, a) matches Some(here) ==> (
        head_map::head_map_of(sizes, explicit, b) matches Some(there)
            ==> here.on_desktop(x, y) == there.on_desktop(
            x + here.offset_x - there.offset_x,
            y + here.offset_y - there.offset_y,
        )),
{
    law_consoles_share_the_desktop(sizes, explicit, a, b);
}

/// A position on a single head of known size stays inside the console, and one that is inside is
/// left alone.
pub proof fn law_single_head_keeps_positions_inside(w: u32, h: u32, x: int, y: int)
    requires
        w > 0,
        h > 0,
    ensures
        head_map::clamped_to_console(Some((w, h)), x, y).0 < w,
        head_map::clamped_to_console(Some((w, h)), x, y).1 < h,
        0 <= x < w && 0 <= y < h ==> head_map::clamped_to_console(
            Some((w, h)),
            x,
            y,
        ) == (x as u32, y as u32),
{
}

/// The first point of the desktop is the first one of the console.
pub proof fn lemma_first_point(size: int, total: int)
    requires
        total > 0,
    ensures
        0 * size / total == 0,
{
    assert(0 * size == 0);
    vstd::arithmetic::div_mod::lemma_div_of0(total);
}

/// The offset that a layout gives a console is that of the first entry for it, wherever in the
/// layout that entry stands; it gives none exactly where no entry is for the console.
pub proof fn law_first_entry_gives_the_offset(explicit: Seq<(u32, i32, i32)>, id: u32)
    ensures
        match head_map::explicit_offset(explicit, id) {
            Some((x, y)) => exists|k: int|
                {
                    &&& 0 <= k < explicit.len()
                    &&& (#[trigger] explicit[k]).0 == id
                    &&& explicit[k].1 == x
                    &&& explicit[k].2 == y
                    &&& forall|j: int| 0 <= j < k ==> (#[trigger] explicit[j]).0 != id
                },
            None => forall|k: int| 0 <= k < explicit.len() ==> (#[trigger] explicit[k]).0 != id,
        },
    decreases explicit.len(),
{
    if explicit.len() > 0 && explicit.first().0 != id {
        let rest = explicit.drop_first();
        law_first_entry_gives_the_offset(rest, id);
        match head_map::explicit_offset(rest, id) {
            Some((x, y)) => {
                let k = choose|k: int|
                    {
                        &&& 0 <= k < rest.len()
                        &&& (#[trigger] rest[k]).0 == id
                        &&& rest[k].1 == x
                        &&& rest[k].2 == y
                        &&& forall|j: int| 0 <= j < k ==> (#[trigger] rest[j]).0 != id
                    };
                assert(explicit[k + 1] == rest[k]);
                assert forall|j: int| 0 <= j < k + 1 implies (#[trigger] explicit[j]).0 != id by {
                    if j > 0 {
                        assert(explicit[j] == rest[j - 1]);
                    }
                }
            },
            None => {
                assert forall|k: int| 0 <= k < explicit.len() implies (#[trigger] explicit[k]).0
                    != id by {
                    if k > 0 {
                        assert(explicit[k] == rest[k - 1]);
                    }
                }
            },
        }
    } else if explicit.len() > 0 {
        assert(explicit[0].0 == id);
    }
}

/// Whether the head at `i` sits at `at[i]` by the entry at `k` of the layout, the first one for it.
pub open spec fn sits_by_entry(
    heads: Seq<(u32, u32, u32)>,
    explicit: Seq<(u32, i32, i32)>,
    at: Seq<(int, int)>,
    i: int,
    k: int,
) -> bool {
    &&& 0 <= k < explicit.len()
    &&& explicit[k].0 == heads[i].0
    &&& forall|j: int| 0 <= j < k ==> (#[trigger] explicit[j]).0 != heads[i].0
    &&& at[i].0 == explicit[k].1
    &&& at[i].1 == explicit[k].2
}

/// Whether no entry of the layout is for the head at `i`, and it sits at the top, where the one of
/// the heads before it ends that reaches furthest right, or at 0 where none reaches further.
pub open spec fn sits_in_row(
    heads: Seq<(u32, u32, u32)>,
    explicit: Seq<(u32, i32, i32)>,
    at: Seq<(int, int)>,
    i: int,
) -> bool {
    &&& forall|k: int| 0 <= k < explicit.len() ==> (#[trigger] explicit[k]).0 != heads[i].0
    &&& at[i].1 == 0
    &&& at[i].0 >= 0
    &&& forall|j: int| 0 <= j < i ==> (#[trigger] at[j]).0 + heads[j].1 <= at[i].0
    &&& at[i].0 == 0 || exists|j: int| 0 <= j < i && (#[trigger] at[j]).0 + heads[j].1 == at[i].0
}

/// Whether every head sits at its place.
pub open spec fn is_laid_out(
    heads: Seq<(u32, u32, u32)>,
    explicit: Seq<(u32, i32, i32)>,
    at: Seq<(int, int)>,
) -> bool {
    &&& at.len() == heads.len()
    &&& forall|i: int|
        0 <= i < heads.len() ==> sits_in_row(heads, explicit, at, i) || exists|k: int|
            #[trigger] sits_by_entry(heads, explicit, at, i, k)
}

/// Whether the desktop of heads that sit at these places is so large: no head reaches over its
/// right or bottom edge, and one ends at each of them.
pub open spec fn is_extent(
    heads: Seq<(u32, u32, u32)>,
    at: Seq<(int, int)>,
    width: int,
    height: int,
) -> bool {
    &&& forall|i: int| 0 <= i < heads.len() ==> (#[trigger] at[i]).0 + heads[i].1 <= width
    &&& forall|i: int| 0 <= i < heads.len() ==> (#[trigger] at[i]).1 + heads[i].2 <= height
    &&& exists|i: int| 0 <= i < heads.len() && (#[trigger] at[i]).0 + heads[i].1 == width
    &&& exists|i: int| 0 <= i < heads.len() && (#[trigger] at[i]).1 + heads[i].2 == height
}

/// Whether the head at `i` is the first one with the id, and the map holds its place and size.
pub open spec fn is_map_of(
    map: HeadMap,
    heads: Seq<(u32, u32, u32)>,
    at: Seq<(int, int)>,
    id: u32,
    i: int,
) -> bool {
    &&& 0 <= i < heads.len()
    &&& heads[i] == (id, map.width as u32, map.height as u32)
    &&& 0 <= map.width <= u32::MAX
    &&& 0 <= map.height <= u32::MAX
    &&& forall|j: int| 0 <= j < i ==> (#[trigger] heads[j]).0 != id
    &&& at[i] == (map.offset_x as int, map.offset_y as int)
}

/// The heads, in the order of their ids, all sit at their places: where the first entry of the
/// layout for them says, wherever it stands in the layout, and else in a row from left to right.
/// The map holds the place and the size of the own console, and the desktop is exactly as large as
/// the heads make it.
pub proof fn law_every_head_sits_at_its_place(
    sizes: Seq<(u32, u32, u32)>,
    explicit: Seq<(u32, i32, i32)>,
    self_id: u32,
)
    requires
        head_map::desktop_fits(sizes, explicit),
    ensures
        match head_map::head_map_of(sizes, explicit, self_id) {
            Some(map) => {
                let heads = head_map::by_id(sizes);
                &&& sizes.len() >= 2
                &&& exists|at: Seq<(int, int)>, i: int|
                    {
                        &&& is_laid_out(heads, explicit, at)
                        &&& is_extent(heads, at, map.total_width as int, map.total_height as int)
                        &&& #[trigger] is_map_of(map, heads, at, self_id, i)
                    }
            },
            None => sizes.len() < 2 || forall|i: int|
                0 <= i < sizes.len() ==> (#[trigger] sizes[i]).0 != self_id,
        },
{
    let heads = head_map::by_id(sizes);
    let n = sizes.len() as int;
    let own = head_map::index_of_id(heads, self_id);
    head_map::lemma_by_id_len(sizes);
    lemma_index_of_id(heads, self_id);
    law_map_is_for_the_own_console(sizes, explicit, self_id);
    if let Some(map) = head_map::head_map_of(sizes, explicit, self_id) {
        let at = Seq::new(heads.len(), |i: int| head_map::offset_of(heads, explicit, i));
        head_map::lemma_row_end_bound(heads, explicit, n);
        law_heads_touch_the_far_edges(sizes, explicit, self_id);
        lemma_reach(heads, explicit, own, n);
        head_map::lemma_row_end_grows(heads, explicit, own, n);
        assert forall|i: int| 0 <= i < heads.len() implies sits_in_row(heads, explicit, at, i)
            || exists|k: int| #[trigger] sits_by_entry(heads, explicit, at, i, k) by {
            let id = heads[i].0;
            law_first_entry_gives_the_offset(explicit, id);
            match head_map::explicit_offset(explicit, id) {
                Some((x, y)) => {
                    let k = choose|k: int|
                        {
                            &&& 0 <= k < explicit.len()
                            &&& (#[trigger] explicit[k]).0 == id
                            &&& explicit[k].1 == x
                            &&& explicit[k].2 == y
                            &&& forall|j: int| 0 <= j < k ==> (#[trigger] explicit[j]).0 != id
                        };
                    assert(sits_by_entry(heads, explicit, at, i, k));
                },
                None => {
                    law_unnamed_head_starts_at_the_largest_edge(sizes, explicit, i);
                    assert forall|j: int| 0 <= j < i implies (#[trigger] at[j]).0 + heads[j].1
                        <= at[i].0 by {
                        assert(right_edge(heads, explicit, j) <= at[i].0);
                    }
                    if at[i].0 != 0 {
                        let j = choose|j: int|
                            0 <= j < i && #[trigger] right_edge(heads, explicit, j) == at[i].0;
                        assert(at[j].0 + heads[j].1 == at[i].0);
                    }
                    assert(sits_in_row(heads, explicit, at, i));
                },
            }
        }
        assert(is_laid_out(heads, explicit, at));
        assert forall|i: int| 0 <= i < heads.len() implies (#[trigger] at[i]).0 + heads[i].1
            <= map.total_width && at[i].1 + heads[i].2 <= map.total_height by {
            lemma_reach(heads, explicit, i, n);
        }
        let i = choose|i: int|
            0 <= i < heads.len() && #[trigger] right_edge(heads, explicit, i) == map.total_width;
        assert(at[i].0 + heads[i].1 == map.total_width);
        let i = choose|i: int|
            0 <= i < heads.len() && #[trigger] bottom_edge(heads, explicit, i) == map.total_height;
        assert(at[i].1 + heads[i].2 == map.total_height);
        assert(is_extent(heads, at, map.total_width as int, map.total_height as int));
        assert(is_map_of(map, heads, at, self_id, own));
    } else if n >= 2 {
        assert forall|i: int| 0 <= i < sizes.len() implies (#[trigger] sizes[i]).0 != self_id by {
            if sizes[i].0 == self_id {
                assert(has_id(sizes, self_id));
            }
        }
    }
}

/// Any desktop of fewer than 2^31 heads can be laid out.
pub proof fn law_ordinary_desktops_fit(
    sizes: Seq<(u32, u32, u32)>,
    explicit: Seq<(u32, i32, i32)>,
)
    requires
        sizes.len() < 0x8000_0000,
    ensures
        head_map::desktop_fits(sizes, explicit),
{
}

/// One coordinate that is handed to QEMU for a position: `at` is the point of the desktop, `size`
/// the side of the console and `total` that of the desktop.
pub open spec fn is_scaled(at: int, size: int, total: int, r: u32) -> bool {
    exists|q: int|
        {
            &&& q * total <= at * size
            &&& at * size < (q + 1) * total
            &&& r == #[trigger] (q % 0x1_0000_0000)
        }
}

/// A position is mapped through the whole desktop: the point that it stands for is moved into the
/// desktop, and scaled to the console; of what does not fit in a `u32`, the low bits are left.
/// Where the console or the desktop is empty, a position is left alone but for what is negative.
pub proof fn law_position_is_mapped_through_the_desktop(map: HeadMap, x: int, y: int)
    ensures
        ({
            let (px, py) = map.mapped(x, y);
            if map.width > 0 && map.height > 0 && map.total_width > 0 && map.total_height > 0 {
                &&& map.offset_x + x < 0 ==> px == 0
                &&& 0 <= map.offset_x + x < map.total_width ==> is_scaled(
                    map.offset_x + x,
                    map.width as int,
                    map.total_width as int,
                    px,
                )
                &&& map.offset_x + x >= map.total_width ==> is_scaled(
                    map.total_width - 1,
                    map.width as int,
                    map.total_width as int,
                    px,
                )
                &&& map.offset_y + y < 0 ==> py == 0
                &&& 0 <= map.offset_y + y < map.total_height ==> is_scaled(
                    map.offset_y + y,
                    map.height as int,
                    map.total_height as int,
                    py,
                )
                &&& map.offset_y + y >= map.total_height ==> is_scaled(
                    map.total_height - 1,
                    map.height as int,
                    map.total_height as int,
                    py,
                )
            } else {
                &&& x < 0 ==> px == 0
                &&& x >= 0 ==> px == x % 0x1_0000_0000
                &&& y < 0 ==> py == 0
                &&& y >= 0 ==> py == y % 0x1_0000_0000
            }
        }),
{
    if map.usable() {
        law_mapped_position_lands(map, x, y);
        lemma_first_point(map.width as int, map.total_width as int);
        lemma_first_point(map.height as int, map.total_height as int);
        let (sx, sy) = map.scaled(x, y);
        assert(map.mapped(x, y).0 == sx % 0x1_0000_0000);
        assert(map.mapped(x, y).1 == sy % 0x1_0000_0000);
    }
}

/// A position on a single head becomes the nearest one on the console, where the size of the
/// console is known and not empty; else it is left alone but for what is negative, and of what does
/// not fit in a `u32` the low bits are left.
pub proof fn law_single_head_takes_the_nearest_position(
    size: Option<(u32, u32)>,
    x: int,
    y: int,
)
    ensures
        ({
            let (px, py) = head_map::clamped_to_console(size, x, y);
            if size matches Some((w, h)) && w > 0 && h > 0 {
                let (w, h) = size->0;
                &&& x < 0 ==> px == 0
                &&& 0 <= x < w ==> px == x
                &&& x >= w ==> px == w - 1
                &&& y < 0 ==> py == 0
                &&& 0 <= y < h ==> py == y
                &&& y >= h ==> py == h - 1
            } else {
                &&& x < 0 ==> px == 0
                &&& x >= 0 ==> px == x % 0x1_0000_0000
                &&& y < 0 ==> py == 0
                &&& y >= 0 ==> py == y % 0x1_0000_0000
            }
        }),
{
}

} // verus!
