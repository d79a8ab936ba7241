//! What holds of every head layout: what is written is read back and nothing else is read, layouts
//! can be put behind one another, and blanks do not count.

use vstd::prelude::*;

use crate::cli;
use crate::cli::EntryFault;
use crate::numeral;
use crate::text;

verus! {

/// What a head layout is read as.
pub type Reading = Result<Seq<(u32, i32, i32)>, (EntryFault, Seq<char>)>;

/// Whether `s` holds blanks only.
pub open spec fn is_blanks(s: Seq<char>) -> bool {
    forall|i: int| 0 <= i < s.len() ==> text::is_blank(#[trigger] s[i])
}

/// `s` with other text around it.
pub open spec fn padded(before: Seq<char>, s: Seq<char>, after: Seq<char>) -> Seq<char> {
    before + s + after
}

/// The blanks around the three numbers of an entry.
pub struct Padding {
    pub before_id: Seq<char>,
    pub after_id: Seq<char>,
    pub before_x: Seq<char>,
    pub after_x: Seq<char>,
    pub before_y: Seq<char>,
    pub after_y: Seq<char>,
}

impl Padding {
    /// Every part of the padding holds blanks only.
    pub open spec fn wf(self) -> bool {
        &&& is_blanks(self.before_id)
        &&& is_blanks(self.after_id)
        &&& is_blanks(self.before_x)
        &&& is_blanks(self.after_x)
        &&& is_blanks(self.before_y)
        &&& is_blanks(self.after_y)
    }
}

/// `ID:X,Y` for one console, with blanks around the numbers.
pub open spec fn entry_text(head: (u32, i32, i32), padding: Padding) -> Seq<char> {
    padded(padding.before_id, numeral::decimal(head.0 as nat), padding.after_id) + seq![':']
        + padded(
        padding.before_x,
        numeral::signed_decimal(head.1 as int),
        padding.after_x,
    ) + seq![','] + padded(
        padding.before_y,
        numeral::signed_decimal(head.2 as int),
        padding.after_y,
    )
}

/// `ID:X,Y;ID:X,Y` for some consoles, with blanks around the numbers.
pub open spec fn layout_text(heads: Seq<(u32, i32, i32)>, padding: Seq<Padding>) -> Seq<char>
    decreases heads.len(),
{
    if heads.len() == 0 {
        Seq::empty()
    } else if heads.len() == 1 {
        entry_text(heads[0], padding[0])
    } else {
        layout_text(heads.drop_last(), padding) + seq![';'] + entry_text(
            heads.last(),
            padding[heads.len() - 1],
        )
    }
}

/// What is read of `first` with `second` behind it.
pub open spec fn in_turn(first: Reading, second: Reading) -> Reading {
    match first {
        Ok(heads) => cli::behind(heads, second),
        Err(e) => Err(e),
    }
}

/// Where the part of `s` between the blanks at its ends begins and ends.
proof fn lemma_trimmed_range(s: Seq<char>) -> (r: (int, int))
    ensures
        0 <= r.0 <= r.1 <= s.len(),
        is_blanks(s.take(r.0)),
        is_blanks(s.skip(r.1)),
        r.0 < r.1 ==> !text::is_blank(s[r.0]) && !text::is_blank(s[r.1 - 1]),
        r.0 == r.1 ==> r.1 == s.len(),
        text::trimmed(s) == s.subrange(r.0, r.1),
    decreases s.len(),
{
    if s.len() == 0 {
        assert(s.subrange(0, 0) =~= s);
        (0, 0)
    } else if text::is_blank(s.first()) {
        let rest = s.drop_first();
        let (a, b) = lemma_trimmed_range(rest);
        assert(rest.subrange(a, b) =~= s.subrange(a + 1, b + 1));
        assert forall|i: int| 0 <= i < a + 1 implies text::is_blank(
            #[trigger] s.take(a + 1)[i],
        ) by {
            if i > 0 {
                assert(rest.take(a)[i - 1] == s[i]);
            }
        }
        assert(s.skip(b + 1) =~= rest.skip(b));
        (a + 1, b + 1)
    } else {
        let b = lemma_trim_end_at(s);
        assert(s.take(b) =~= s.subrange(0, b));
        (0, b)
    }
}

proof fn lemma_trim_end_at(s: Seq<char>) -> (b: int)
    ensures
        0 <= b <= s.len(),
        is_blanks(s.skip(b)),
        b > 0 ==> !text::is_blank(s[b - 1]),
        b == 0 ==> is_blanks(s),
        text::trim_end(s) == s.take(b),
    decreases s.len(),
{
    if s.len() == 0 {
        assert(s.take(0) =~= s);
        0
    } else if text::is_blank(s.last()) {
        let rest = s.drop_last();
        let b = lemma_trim_end_at(rest);
        assert(rest.take(b) =~= s.take(b));
        assert forall|i: int| 0 <= i < s.skip(b).len() implies text::is_blank(
            #[trigger] s.skip(b)[i],
        ) by {
            if b + i < rest.len() {
                assert(rest.skip(b)[i] == s[b + i]);
            }
        }
        if b == 0 {
            assert(s.skip(0) =~= s);
        }
        b
    } else {
        assert(s.take(s.len() as int) =~= s);
        s.len() as int
    }
}

/// The part between two indices, with blanks only outside of it, is what trimming leaves.
proof fn lemma_trimmed_is(s: Seq<char>, a: int, b: int)
    requires
        0 <= a <= b <= s.len(),
        is_blanks(s.take(a)),
        is_blanks(s.skip(b)),
        a < b ==> !text::is_blank(s[a]) && !text::is_blank(s[b - 1]),
    ensures
        text::trimmed(s) == s.subrange(a, b),
{
    let (c, d) = lemma_trimmed_range(s);
    if a < b {
        if c == d {
            assert(s.take(c)[a] == s[a]);
        } else {
            if c < a {
                assert(s.take(a)[c] == s[c]);
            }
            if a < c {
                assert(s.take(c)[a] == s[a]);
            }
            if d < b {
                assert(s.skip(d)[b - 1 - d] == s[b - 1]);
            }
            if b < d {
                assert(s.skip(b)[d - 1 - b] == s[d - 1]);
            }
        }
    } else {
        if c < d {
            if c < a {
                assert(s.take(a)[c] == s[c]);
            } else {
                assert(s.skip(b)[c - b] == s[c]);
            }
        }
        assert(s.subrange(a, b) =~= s.subrange(c, d));
    }
}

/// Blanks around a text do not change what trimming leaves of it.
pub proof fn law_trimming_ignores_padding(before: Seq<char>, s: Seq<char>, after: Seq<char>)
    requires
        is_blanks(before),
        is_blanks(after),
    ensures
        text::trimmed(padded(before, s, after)) == text::trimmed(s),
{
    let whole = padded(before, s, after);
    let n = before.len() as int;
    let (a, b) = lemma_trimmed_range(s);
    assert forall|i: int| 0 <= i < n + a implies text::is_blank(
        #[trigger] whole.take(n + a)[i],
    ) by {
        if i < n {
            assert(whole[i] == before[i]);
        } else {
            assert(whole[i] == s.take(a)[i - n]);
        }
    }
    assert forall|i: int| 0 <= i < whole.skip(n + b).len() implies text::is_blank(
        #[trigger] whole.skip(n + b)[i],
    ) by {
        let k = n + b + i;
        if k < n + s.len() {
            assert(whole[k] == s.skip(b)[i]);
        } else {
            assert(whole[k] == after[k - n - s.len()]);
        }
    }
    if a < b {
        assert(whole[n + a] == s[a]);
        assert(whole[n + b - 1] == s[b - 1]);
    }
    lemma_trimmed_is(whole, n + a, n + b);
    assert(whole.subrange(n + a, n + b) =~= s.subrange(a, b));
}

/// Trimming leaves a text alone that neither begins nor ends with a blank.
proof fn lemma_trimmed_alone(s: Seq<char>)
    requires
        s.len() > 0,
        !text::is_blank(s.first()),
        !text::is_blank(s.last()),
    ensures
        text::trimmed(s) == s,
{
    lemma_trimmed_is(s, 0, s.len() as int);
    assert(s.subrange(0, s.len() as int) =~= s);
}

/// Entries that are alike but for the blanks at their ends say the same.
proof fn lemma_entries_by_trimmed(a: Seq<Seq<char>>, b: Seq<Seq<char>>)
    requires
        a.len() == b.len(),
        forall|i: int|
            0 <= i < a.len() ==> text::trimmed(#[trigger] a[i]) == text::trimmed(
                b[i],
            ),
    ensures
        cli::entries_of(a) == cli::entries_of(b),
    decreases a.len(),
{
    if a.len() > 0 {
        assert(text::trimmed(a[0]) == text::trimmed(b[0]));
        assert forall|i: int| 0 <= i < a.len() - 1 implies text::trimmed(
            #[trigger] a.drop_first()[i],
        ) == text::trimmed(b.drop_first()[i]) by {
            assert(a.drop_first()[i] == a[i + 1]);
        }
        lemma_entries_by_trimmed(a.drop_first(), b.drop_first());
    }
}

/// A blank before a layout only lengthens its first entry.
proof fn lemma_drop_first_blank(s: Seq<char>)
    requires
        s.len() > 0,
        text::is_blank(s.first()),
    ensures
        cli::layout_of(s) == cli::layout_of(s.drop_first()),
{
    let t = s.drop_first();
    let i = text::first_of(s, ';');
    text::lemma_first_of(s, ';');
    text::lemma_first_of(t, ';');
    let a = text::pieces(s, ';');
    let b = text::pieces(t, ';');
    if i < s.len() {
        assert(s.skip(i + 1) =~= t.skip(i));
        assert(s.take(i) =~= padded(seq![s.first()], t.take(i - 1), Seq::empty()));
        law_trimming_ignores_padding(seq![s.first()], t.take(i - 1), Seq::empty());
    } else {
        assert(s =~= padded(seq![s.first()], t, Seq::empty()));
        law_trimming_ignores_padding(seq![s.first()], t, Seq::empty());
    }
    lemma_entries_by_trimmed(a, b);
}

proof fn lemma_pieces_drop_last_blank(s: Seq<char>)
    requires
        s.len() > 0,
        text::is_blank(s.last()),
    ensures
        ({
            let a = text::pieces(s, ';');
            let b = text::pieces(s.drop_last(), ';');
            &&& a.len() == b.len()
            &&& forall|i: int|
                0 <= i < a.len() ==> text::trimmed(#[trigger] a[i]) == text::trimmed(
                    b[i],
                )
        }),
    decreases s.len(),
{
    let t = s.drop_last();
    let i = text::first_of(s, ';');
    text::lemma_first_of(s, ';');
    if i < s.len() {
        text::lemma_first_of_unique(t, ';', i);
        let rest = s.skip(i + 1);
        assert(rest.last() == s.last());
        lemma_pieces_drop_last_blank(rest);
        assert(rest.drop_last() =~= t.skip(i + 1));
        assert(s.take(i) =~= t.take(i));
        let a = text::pieces(s, ';');
        let b = text::pieces(t, ';');
        assert forall|k: int| 0 <= k < a.len() implies text::trimmed(#[trigger] a[k])
            == text::trimmed(b[k]) by {
            if k > 0 {
                assert(a[k] == text::pieces(rest, ';')[k - 1]);
                assert(b[k] == text::pieces(rest.drop_last(), ';')[k - 1]);
            }
        }
    } else {
        text::lemma_first_of_unique(t, ';', t.len() as int);
        assert(s =~= padded(Seq::empty(), t, seq![s.last()]));
        law_trimming_ignores_padding(Seq::empty(), t, seq![s.last()]);
    }
}

proof fn lemma_layout_trim_start(s: Seq<char>)
    ensures
        cli::layout_of(text::trim_start(s)) == cli::layout_of(s),
    decreases s.len(),
{
    if s.len() > 0 && text::is_blank(s.first()) {
        lemma_drop_first_blank(s);
        lemma_layout_trim_start(s.drop_first());
    }
}

proof fn lemma_layout_trim_end(s: Seq<char>)
    ensures
        cli::layout_of(text::trim_end(s)) == cli::layout_of(s),
    decreases s.len(),
{
    if s.len() > 0 && text::is_blank(s.last()) {
        lemma_pieces_drop_last_blank(s);
        lemma_entries_by_trimmed(
            text::pieces(s, ';'),
            text::pieces(s.drop_last(), ';'),
        );
        lemma_layout_trim_end(s.drop_last());
    }
}

/// Blanks around a whole layout do not count.
pub proof fn law_layout_ignores_padding(before: Seq<char>, s: Seq<char>, after: Seq<char>)
    requires
        is_blanks(before),
        is_blanks(after),
    ensures
        cli::layout_of(padded(before, s, after)) == cli::layout_of(s),
        cli::layout_of(text::trimmed(s)) == cli::layout_of(s),
{
    let whole = padded(before, s, after);
    lemma_layout_trim_start(whole);
    lemma_layout_trim_end(text::trim_start(whole));
    lemma_layout_trim_start(s);
    lemma_layout_trim_end(text::trim_start(s));
    law_trimming_ignores_padding(before, s, after);
}

proof fn lemma_pieces_joined(a: Seq<char>, b: Seq<char>)
    ensures
        text::pieces(a + seq![';'] + b, ';') == text::pieces(a, ';')
            + text::pieces(b, ';'),
    decreases a.len(),
{
    let whole = a + seq![';'] + b;
    let i = text::first_of(a, ';');
    text::lemma_first_of(a, ';');
    assert forall|j: int| 0 <= j < i implies whole[j] != ';' by {
        assert(whole[j] == a[j]);
    }
    text::lemma_first_of_unique(whole, ';', i);
    assert(whole.take(i) =~= a.take(i));
    if i < a.len() {
        let rest = a.skip(i + 1);
        lemma_pieces_joined(rest, b);
        assert(whole.skip(i + 1) =~= rest + seq![';'] + b);
        assert(seq![a.take(i)] + (text::pieces(rest, ';') + text::pieces(b, ';'))
            =~= (seq![a.take(i)] + text::pieces(rest, ';')) + text::pieces(b, ';'));
    } else {
        assert(a.take(i) =~= a);
        assert(whole.skip(i + 1) =~= b);
    }
}

proof fn lemma_entries_joined(a: Seq<Seq<char>>, b: Seq<Seq<char>>)
    ensures
        cli::entries_of(a + b) == in_turn(
            cli::entries_of(a),
            cli::entries_of(b),
        ),
    decreases a.len(),
{
    if a.len() == 0 {
        assert(a + b =~= b);
        if let Ok(heads) = cli::entries_of(b) {
            assert(Seq::<(u32, i32, i32)>::empty() + heads =~= heads);
        }
    } else {
        lemma_entries_joined(a.drop_first(), b);
        assert((a + b).drop_first() =~= a.drop_first() + b);
        let entry = text::trimmed(a.first());
        if let Ok(head) = cli::entry_of(entry) {
            if let Ok(more) = cli::entries_of(a.drop_first()) {
                if let Ok(heads) = cli::entries_of(b) {
                    assert(seq![head] + (more + heads) =~= (seq![head] + more) + heads);
                }
            }
        }
    }
}

/// Two layouts with a `;` between them read as the first one and then the second one; where the
/// first one cannot be read, its fault is reported.
pub proof fn law_layouts_join(a: Seq<char>, b: Seq<char>)
    ensures
        cli::layout_of(a + seq![';'] + b) == in_turn(
            cli::layout_of(a),
            cli::layout_of(b),
        ),
{
    lemma_pieces_joined(a, b);
    lemma_entries_joined(text::pieces(a, ';'), text::pieces(b, ';'));
}

/// A blank layout names no console.
pub proof fn law_blank_layout_is_empty(s: Seq<char>)
    requires
        is_blanks(s),
    ensures
        cli::layout_of(s) == Ok::<_, (EntryFault, Seq<char>)>(
            Seq::<(u32, i32, i32)>::empty(),
        ),
{
    let none = Seq::<char>::empty();
    assert(padded(s, none, none) =~= s);
    law_layout_ignores_padding(s, none, none);
    assert(text::pieces(none, ';') =~= seq![none]);
    assert(seq![none].drop_first() =~= Seq::<Seq<char>>::empty());
    assert(cli::entries_of(seq![none].drop_first()) == Ok::<_, (EntryFault, Seq<char>)>(
        Seq::<(u32, i32, i32)>::empty(),
    ));
}

proof fn lemma_decimal_shape(n: nat)
    ensures
        numeral::decimal(n).len() > 0,
        forall|i: int|
            0 <= i < numeral::decimal(n).len() ==> numeral::is_digit(
                #[trigger] numeral::decimal(n)[i],
            ),
{
    numeral::lemma_decimal(n);
}

/// A character that is part of a number in an entry or of its padding.
spec fn is_filling(c: char) -> bool {
    text::is_blank(c) || numeral::is_digit(c) || c == '-'
}

spec fn is_fillings(s: Seq<char>) -> bool {
    forall|i: int| 0 <= i < s.len() ==> is_filling(#[trigger] s[i])
}

proof fn lemma_padded_number(before: Seq<char>, n: int, after: Seq<char>)
    requires
        is_blanks(before),
        is_blanks(after),
    ensures
        is_fillings(padded(before, numeral::signed_decimal(n), after)),
        text::trimmed(padded(before, numeral::signed_decimal(n), after))
            == numeral::signed_decimal(n),
{
    let s = numeral::signed_decimal(n);
    let size: nat = if n < 0 {
        (-n) as nat
    } else {
        n as nat
    };
    let d = numeral::decimal(size);
    lemma_decimal_shape(size);
    assert(s.last() == d.last());
    let whole = padded(before, s, after);
    assert forall|i: int| 0 <= i < whole.len() implies is_filling(#[trigger] whole[i]) by {
        if i < before.len() {
            assert(whole[i] == before[i]);
        } else if i < before.len() + s.len() {
            let k = i - before.len();
            assert(whole[i] == s[k]);
            if n < 0 && k > 0 {
                assert(s[k] == d[k - 1]);
            } else if n >= 0 {
                assert(s[k] == d[k]);
            }
        } else {
            assert(whole[i] == after[i - before.len() - s.len()]);
        }
    }
    law_trimming_ignores_padding(before, s, after);
    lemma_trimmed_alone(s);
}

proof fn lemma_cut_at(before: Seq<char>, c: char, after: Seq<char>)
    requires
        is_fillings(before),
        !is_filling(c),
    ensures
        text::cut_once(before + seq![c] + after, c) == Some((before, after)),
{
    let whole = before + seq![c] + after;
    assert forall|j: int| 0 <= j < before.len() implies whole[j] != c by {
        assert(whole[j] == before[j]);
    }
    text::lemma_first_of_unique(whole, c, before.len() as int);
    assert(whole.take(before.len() as int) =~= before);
    assert(whole.skip(before.len() as int + 1) =~= after);
}

/// One entry, written with any blanks around its numbers, reads back as the console that it was
/// written for.
pub proof fn law_entry_reads_back(head: (u32, i32, i32), padding: Padding)
    requires
        padding.wf(),
    ensures
        cli::layout_of(entry_text(head, padding)) == Ok::<_, (EntryFault, Seq<char>)>(
            seq![head],
        ),
{
    let none = Seq::<char>::empty();
    let id = numeral::signed_decimal(head.0 as int);
    let x = numeral::signed_decimal(head.1 as int);
    let y = numeral::signed_decimal(head.2 as int);
    let id_part = padded(none, id, padding.after_id);
    let x_part = padded(padding.before_x, x, padding.after_x);
    let y_part = padded(padding.before_y, y, none);
    let pos = x_part + seq![','] + y_part;
    let inner = id_part + seq![':'] + pos;
    let whole = entry_text(head, padding);
    lemma_padded_number(none, head.0 as int, padding.after_id);
    lemma_padded_number(padding.before_x, head.1 as int, padding.after_x);
    lemma_padded_number(padding.before_y, head.2 as int, none);
    numeral::law_u32_reads_back(head.0);
    numeral::law_i32_reads_back(head.1);
    numeral::law_i32_reads_back(head.2);
    lemma_cut_at(id_part, ':', pos);
    lemma_cut_at(x_part, ',', y_part);
    assert(cli::entry_of(inner) == Ok::<_, EntryFault>(head));
    assert(whole =~= padded(padding.before_id, inner, padding.after_y));
    lemma_decimal_shape(head.0 as nat);
    let y_size: nat = if head.2 < 0 {
        (-head.2) as nat
    } else {
        head.2 as nat
    };
    lemma_decimal_shape(y_size);
    assert(inner.first() == id[0]);
    assert(y.last() == numeral::decimal(y_size).last());
    assert(inner.last() == y.last());
    law_trimming_ignores_padding(padding.before_id, inner, padding.after_y);
    lemma_trimmed_alone(inner);
    lemma_no_separator(head, padding);
    assert(seq![whole].drop_first() =~= Seq::<Seq<char>>::empty());
    assert(cli::entries_of(seq![whole].drop_first()) == Ok::<_, (EntryFault, Seq<char>)>(
        Seq::<(u32, i32, i32)>::empty(),
    ));
    assert(seq![head] + Seq::<(u32, i32, i32)>::empty() =~= seq![head]);
}

proof fn lemma_no_separator(head: (u32, i32, i32), padding: Padding)
    requires
        padding.wf(),
    ensures
        text::pieces(entry_text(head, padding), ';') == seq![entry_text(head, padding)],
{
    let id_part = padded(
        padding.before_id,
        numeral::signed_decimal(head.0 as int),
        padding.after_id,
    );
    let x_part = padded(
        padding.before_x,
        numeral::signed_decimal(head.1 as int),
        padding.after_x,
    );
    let y_part = padded(
        padding.before_y,
        numeral::signed_decimal(head.2 as int),
        padding.after_y,
    );
    lemma_padded_number(padding.before_id, head.0 as int, padding.after_id);
    lemma_padded_number(padding.before_x, head.1 as int, padding.after_x);
    lemma_padded_number(padding.before_y, head.2 as int, padding.after_y);
    let whole = entry_text(head, padding);
    let a = id_part.len() as int;
    let b = x_part.len() as int;
    assert forall|j: int| 0 <= j < whole.len() implies whole[j] != ';' by {
        if j < a {
            assert(whole[j] == id_part[j]);
        } else if j == a {
        } else if j < a + 1 + b {
            assert(whole[j] == x_part[j - a - 1]);
        } else if j == a + 1 + b {
        } else {
            assert(whole[j] == y_part[j - a - b - 2]);
        }
    }
    text::lemma_first_of_unique(whole, ';', whole.len() as int);
}

/// A layout, written with any blanks around its numbers, reads back as the consoles that it was
/// written for, in their order.
pub proof fn law_layout_reads_back(heads: Seq<(u32, i32, i32)>, padding: Seq<Padding>)
    requires
        padding.len() >= heads.len(),
        forall|i: int| 0 <= i < heads.len() ==> (#[trigger] padding[i]).wf(),
    ensures
        cli::layout_of(layout_text(heads, padding)) == Ok::<_, (EntryFault, Seq<char>)>(
            heads,
        ),
    decreases heads.len(),
{
    if heads.len() == 0 {
        law_blank_layout_is_empty(Seq::empty());
        assert(heads =~= Seq::empty());
    } else if heads.len() == 1 {
        assert(padding[0].wf());
        law_entry_reads_back(heads[0], padding[0]);
        assert(heads =~= seq![heads[0]]);
    } else {
        let last = padding[heads.len() - 1];
        law_layout_reads_back(heads.drop_last(), padding);
        assert(last.wf());
        law_entry_reads_back(heads.last(), last);
        law_layouts_join(layout_text(heads.drop_last(), padding), entry_text(heads.last(), last));
        assert(heads =~= heads.drop_last() + seq![heads.last()]);
    }
}

/// Trimming takes the blanks off the two ends of a text and nothing else: what it leaves is a part
/// of the text, with blanks only before and behind it, that neither begins nor ends with a blank.
pub proof fn law_trimming_takes_the_blanks_off(s: Seq<char>)
    ensures
        exists|a: int, b: int|
            {
                &&& 0 <= a <= b <= s.len()
                &&& text::trimmed(s) == #[trigger] s.subrange(a, b)
                &&& forall|i: int| 0 <= i < a ==> text::is_blank(#[trigger] s[i])
                &&& forall|i: int| b <= i < s.len() ==> text::is_blank(#[trigger] s[i])
                &&& a < b ==> !text::is_blank(s[a]) && !text::is_blank(s[b - 1])
            },
{
    let (a, b) = lemma_trimmed_range(s);
    assert(text::trimmed(s) == s.subrange(a, b));
    assert forall|i: int| 0 <= i < a implies text::is_blank(#[trigger] s[i]) by {
        assert(s.take(a)[i] == s[i]);
    }
    assert forall|i: int| b <= i < s.len() implies text::is_blank(#[trigger] s[i]) by {
        assert(s.skip(b)[i - b] == s[i]);
    }
}

proof fn lemma_cut_at_the_first(a: Seq<char>, c: char, b: Seq<char>)
    requires
        !a.contains(c),
    ensures
        text::cut_once(a + seq![c] + b, c) == Some((a, b)),
{
    let s = a + seq![c] + b;
    assert forall|j: int| 0 <= j < a.len() implies s[j] != c by {
        assert(s[j] == a[j]);
        if a[j] == c {
            assert(a.contains(c));
        }
    }
    assert(s[a.len() as int] == c);
    text::lemma_first_of_unique(s, c, a.len() as int);
    assert(s.take(a.len() as int) =~= a);
    assert(s.skip(a.len() as int + 1) =~= b);
}

/// An entry `A:B,C` is read as the numbers that A, B and C write without the blanks at their ends;
/// where one of them writes none that fits, the entry is refused for the first such one.
pub proof fn law_entry_is_read_by_its_parts(a: Seq<char>, b: Seq<char>, c: Seq<char>)
    requires
        !a.contains(':'),
        !b.contains(','),
    ensures
        ({
            let read = cli::entry_of(a + seq![':'] + (b + seq![','] + c));
            let id = numeral::u32_of(text::trimmed(a));
            let x = numeral::i32_of(text::trimmed(b));
            let y = numeral::i32_of(text::trimmed(c));
            &&& id is None <==> read == Err::<(u32, i32, i32), _>(EntryFault::ConsoleId)
            &&& id is Some && x is None <==> read == Err::<(u32, i32, i32), _>(EntryFault::X)
            &&& id is Some && x is Some && y is None <==> read == Err::<(u32, i32, i32), _>(
                EntryFault::Y,
            )
            &&& id is Some && x is Some && y is Some ==> read == Ok::<_, EntryFault>(
                (id->0, x->0, y->0),
            )
        }),
{
    lemma_cut_at_the_first(a, ':', b + seq![','] + c);
    lemma_cut_at_the_first(b, ',', c);
}

/// An entry is refused for its shape exactly where it has no `:`, or no `,` behind the first one.
pub proof fn law_entry_is_refused_for_its_shape(entry: Seq<char>)
    ensures
        cli::entry_of(entry) == Err::<(u32, i32, i32), _>(EntryFault::Shape) <==> (
        !entry.contains(':') || exists|a: Seq<char>, rest: Seq<char>|
            entry == #[trigger] (a + seq![':'] + rest) && !a.contains(':') && !rest.contains(',')),
{
    text::law_cut_is_at_the_first(entry, ':');
    match text::cut_once(entry, ':') {
        None => {},
        Some((a, rest)) => {
            text::law_cut_is_at_the_first(rest, ',');
            assert(entry == a + seq![':'] + rest);
            assert(entry[a.len() as int] == ':');
            if exists|a2: Seq<char>, rest2: Seq<char>|
                entry == #[trigger] (a2 + seq![':'] + rest2) && !a2.contains(':')
                    && !rest2.contains(',') {
                let (a2, rest2) = choose|a2: Seq<char>, rest2: Seq<char>|
                    entry == #[trigger] (a2 + seq![':'] + rest2) && !a2.contains(':')
                        && !rest2.contains(',');
                lemma_cut_at_the_first(a2, ':', rest2);
                assert(text::cut_once(rest, ',') is None) by {
                    if let Some((p, q)) = text::cut_once(rest, ',') {
                        assert(rest[p.len() as int] == ',');
                    }
                }
            }
        },
    }
}

/// Whether an entry has the form `A:B,C`, where A, B and C without the blanks at their ends write
/// the numbers of `head`.
pub open spec fn writes(
    entry: Seq<char>,
    a: Seq<char>,
    b: Seq<char>,
    c: Seq<char>,
    head: (u32, i32, i32),
) -> bool {
    &&& entry == a + seq![':'] + (b + seq![','] + c)
    &&& numeral::u32_of(text::trimmed(a)) == Some(head.0)
    &&& numeral::i32_of(text::trimmed(b)) == Some(head.1)
    &&& numeral::i32_of(text::trimmed(c)) == Some(head.2)
}

/// Whatever is read of an entry was written in it.
pub proof fn law_what_is_read_was_written(entry: Seq<char>)
    ensures
        cli::entry_of(entry) matches Ok(head) ==> exists|a: Seq<char>, b: Seq<char>, c: Seq<char>|
            #[trigger] writes(entry, a, b, c, head),
{
    if let Ok(head) = cli::entry_of(entry) {
        text::law_cut_is_at_the_first(entry, ':');
        let (a, pos) = text::cut_once(entry, ':')->0;
        text::law_cut_is_at_the_first(pos, ',');
        let (b, c) = text::cut_once(pos, ',')->0;
        assert(writes(entry, a, b, c, head));
    }
}

/// A layout without a `;` is blank and names no console, or is one entry.
pub proof fn law_layout_of_one_entry(s: Seq<char>)
    requires
        !s.contains(';'),
    ensures
        ({
            let entry = text::trimmed(s);
            if entry.len() == 0 {
                cli::layout_of(s) == Ok::<_, (EntryFault, Seq<char>)>(
                    Seq::<(u32, i32, i32)>::empty(),
                )
            } else {
                match cli::entry_of(entry) {
                    Ok(head) => cli::layout_of(s) == Ok::<_, (EntryFault, Seq<char>)>(seq![head]),
                    Err(fault) => cli::layout_of(s) == Err::<Seq<(u32, i32, i32)>, _>(
                        (fault, entry),
                    ),
                }
            }
        }),
{
    text::lemma_first_of(s, ';');
    let list = text::pieces(s, ';');
    assert(list =~= seq![s]);
    assert(list.drop_first() =~= Seq::<Seq<char>>::empty());
    assert(cli::entries_of(list.drop_first()) == Ok::<_, (EntryFault, Seq<char>)>(
        Seq::<(u32, i32, i32)>::empty(),
    ));
    if let Ok(head) = cli::entry_of(text::trimmed(s)) {
        assert(seq![head] + Seq::<(u32, i32, i32)>::empty() =~= seq![head]);
    }
}

/// Two layouts with a `;` between them name the consoles of the first one and then those of the
/// second one; where one of them cannot be read, the whole is refused for the first fault.
pub proof fn law_layout_is_read_from_left_to_right(a: Seq<char>, b: Seq<char>)
    ensures
        ({
            let both = cli::layout_of(a + seq![';'] + b);
            match cli::layout_of(a) {
                Err(e) => both == Err::<Seq<(u32, i32, i32)>, _>(e),
                Ok(first) => match cli::layout_of(b) {
                    Err(e) => both == Err::<Seq<(u32, i32, i32)>, _>(e),
                    Ok(second) => both == Ok::<_, (EntryFault, Seq<char>)>(first + second),
                },
            }
        }),
{
    law_layouts_join(a, b);
}

proof fn lemma_entries_fault(list: Seq<Seq<char>>)
    ensures
        match cli::entries_of(list) {
            Ok(_) => forall|k: int|
                0 <= k < list.len() ==> text::trimmed(#[trigger] list[k]).len() == 0
                    || cli::entry_of(text::trimmed(list[k])) is Ok,
            Err((fault, entry)) => exists|k: int|
                {
                    &&& 0 <= k < list.len()
                    &&& entry == text::trimmed(#[trigger] list[k])
                    &&& entry.len() > 0
                    &&& cli::entry_of(entry) == Err::<(u32, i32, i32), _>(fault)
                    &&& forall|j: int|
                        0 <= j < k ==> text::trimmed(#[trigger] list[j]).len() == 0
                            || cli::entry_of(text::trimmed(list[j])) is Ok
                },
        },
    decreases list.len(),
{
    if list.len() > 0 {
        let rest = list.drop_first();
        lemma_entries_fault(rest);
        let first = text::trimmed(list[0]);
        if first.len() > 0 && cli::entry_of(first) is Err {
            assert(first == text::trimmed(list[0]));
        } else {
            match cli::entries_of(rest) {
                Ok(_) => {
                    assert forall|k: int| 0 <= k < list.len() implies text::trimmed(
                        #[trigger] list[k],
                    ).len() == 0 || cli::entry_of(text::trimmed(list[k])) is Ok by {
                        if k > 0 {
                            assert(list[k] == rest[k - 1]);
                        }
                    }
                },
                Err((fault, entry)) => {
                    let k = choose|k: int|
                        {
                            &&& 0 <= k < rest.len()
                            &&& entry == text::trimmed(#[trigger] rest[k])
                            &&& entry.len() > 0
                            &&& cli::entry_of(entry) == Err::<(u32, i32, i32), _>(fault)
                            &&& forall|j: int|
                                0 <= j < k ==> text::trimmed(#[trigger] rest[j]).len() == 0
                                    || cli::entry_of(text::trimmed(rest[j])) is Ok
                        };
                    assert(list[k + 1] == rest[k]);
                    assert forall|j: int| 0 <= j < k + 1 implies text::trimmed(
                        #[trigger] list[j],
                    ).len() == 0 || cli::entry_of(text::trimmed(list[j])) is Ok by {
                        if j > 0 {
                            assert(list[j] == rest[j - 1]);
                        }
                    }
                },
            }
        }
    }
}

/// A layout is refused exactly where one of the entries between its `;` is not blank and cannot be
/// read, and then for the first such entry and with its fault.
pub proof fn law_layout_is_refused_for_its_first_bad_entry(s: Seq<char>)
    ensures
        ({
            let list = text::pieces(s, ';');
            match cli::layout_of(s) {
                Ok(_) => forall|k: int|
                    0 <= k < list.len() ==> text::trimmed(#[trigger] list[k]).len() == 0
                        || cli::entry_of(text::trimmed(list[k])) is Ok,
                Err((fault, entry)) => exists|k: int|
                    {
                        &&& 0 <= k < list.len()
                        &&& entry == text::trimmed(#[trigger] list[k])
                        &&& entry.len() > 0
                        &&& cli::entry_of(entry) == Err::<(u32, i32, i32), _>(fault)
                        &&& forall|j: int|
                            0 <= j < k ==> text::trimmed(#[trigger] list[j]).len() == 0
                                || cli::entry_of(text::trimmed(list[j])) is Ok
                    },
            }
        }),
{
    lemma_entries_fault(text::pieces(s, ';'));
}

/// The message for a refused entry quotes it and says what is wrong with it.
pub proof fn law_message_quotes_the_entry(entry: Seq<char>)
    ensures
        cli::fault_message(EntryFault::Shape, entry) == "head layout entry `"@ + entry
            + "` must look like ID:X,Y"@,
        cli::fault_message(EntryFault::ConsoleId, entry) == "bad console id in `"@ + entry + "`"@,
        cli::fault_message(EntryFault::X, entry) == "bad x in `"@ + entry + "`"@,
        cli::fault_message(EntryFault::Y, entry) == "bad y in `"@ + entry + "`"@,
{
}

/// The text that a string or a string slice holds is all of it, be it empty, and there is none
/// exactly where there is no string.
pub proof fn law_texts_are_lent_whole(held: String, lent: &str)
    ensures
        cli::held_text(Some(held)) == Some(held@),
        cli::lent_text(Some(lent)) == Some(lent@),
        cli::held_text(None) is None,
        cli::lent_text(None) is None,
{
}

} // verus!
