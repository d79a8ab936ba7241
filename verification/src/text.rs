//! Text as the command line needs it: trimming and splitting.

use vstd::prelude::*;

verus! {

/// A character with the Unicode property `White_Space`.
pub open spec fn is_blank(c: char) -> bool {
    ||| '\u{9}' <= c <= '\u{d}'
    ||| c == ' '
    ||| c == '\u{85}'
    ||| c == '\u{a0}'
    ||| c == '\u{1680}'
    ||| '\u{2000}' <= c <= '\u{200a}'
    ||| c == '\u{2028}'
    ||| c == '\u{2029}'
    ||| c == '\u{202f}'
    ||| c == '\u{205f}'
    ||| c == '\u{3000}'
}

/// `s` from its first character that is no blank.
pub open spec fn trim_start(s: Seq<char>) -> Seq<char>
    decreases s.len(),
{
    if s.len() > 0 && is_blank(s.first()) {
        trim_start(s.drop_first())
    } else {
        s
    }
}

/// `s` up to and with its last character that is no blank.
pub open spec fn trim_end(s: Seq<char>) -> Seq<char>
    decreases s.len(),
{
    if s.len() > 0 && is_blank(s.last()) {
        trim_end(s.drop_last())
    } else {
        s
    }
}

/// `s` without the blanks at its two ends.
pub open spec fn trimmed(s: Seq<char>) -> Seq<char> {
    trim_end(trim_start(s))
}

/// Where `c` stands in `s` for the first time; the length of `s` where it does not occur.
pub open spec fn first_of(s: Seq<char>, c: char) -> int
    decreases s.len(),
{
    if s.len() == 0 || s.first() == c {
        0
    } else {
        1 + first_of(s.drop_first(), c)
    }
}

/// What stands in `s` before and behind the first `c`.
pub open spec fn cut_once(s: Seq<char>, c: char) -> Option<(Seq<char>, Seq<char>)> {
    let i = first_of(s, c);
    if i < s.len() {
        Some((s.take(i), s.skip(i + 1)))
    } else {
        None
    }
}

/// The pieces of `s` between the characters `c`.
pub open spec fn pieces(s: Seq<char>, c: char) -> Seq<Seq<char>>
    decreases s.len(),
{
    let i = first_of(s, c);
    if 0 <= i < s.len() {
        seq![s.take(i)] + pieces(s.skip(i + 1), c)
    } else {
        seq![s]
    }
}

pub proof fn lemma_first_of(s: Seq<char>, c: char)
    ensures
        0 <= first_of(s, c) <= s.len(),
        first_of(s, c) < s.len() ==> s[first_of(s, c)] == c,
        forall|j: int| 0 <= j < first_of(s, c) ==> s[j] != c,
    decreases s.len(),
{
    if s.len() > 0 && s.first() != c {
        let rest = s.drop_first();
        lemma_first_of(rest, c);
        assert forall|j: int| 0 <= j < first_of(s, c) implies s[j] != c by {
            if j > 0 {
                assert(s[j] == rest[j - 1]);
            }
        }
    }
}

/// `first_of` is the one index with `c` at it and no `c` before it.
pub proof fn lemma_first_of_unique(s: Seq<char>, c: char, i: int)
    requires
        0 <= i <= s.len(),
        i < s.len() ==> s[i] == c,
        forall|j: int| 0 <= j < i ==> s[j] != c,
    ensures
        first_of(s, c) == i,
{
    lemma_first_of(s, c);
    let k = first_of(s, c);
    if k < i {
        assert(s[k] != c);
    } else if i < k {
        assert(s[i] != c);
    }
}

/// The characters of `s`.
pub fn chars_of(s: &str) -> (r: Vec<char>)
    ensures
        r@ == s@,
{
    let mut out: Vec<char> = Vec::new();
    for c in it: s.chars()
        invariant
            it.seq() == s@,
            out@ == s@.take(it.index()),
    {
        out.push(c);
    }
    out
}

/// Whether `c` has the Unicode property `White_Space`.
pub fn char_is_blank(c: char) -> (r: bool)
    ensures
        r == is_blank(c),
{
    ('\u{9}' <= c && c <= '\u{d}') || c == ' ' || c == '\u{85}' || c == '\u{a0}' || c == '\u{1680}'
        || ('\u{2000}' <= c && c <= '\u{200a}') || c == '\u{2028}' || c == '\u{2029}'
        || c == '\u{202f}' || c == '\u{205f}' || c == '\u{3000}'
}

proof fn lemma_trim_start(s: Seq<char>, i: int)
    requires
        0 <= i <= s.len(),
        forall|j: int| 0 <= j < i ==> is_blank(s[j]),
        i < s.len() ==> !is_blank(s[i]),
    ensures
        trim_start(s) == s.skip(i),
    decreases s.len(),
{
    if i == 0 {
        assert(s.skip(0) =~= s);
    } else {
        let rest = s.drop_first();
        assert forall|j: int| 0 <= j < i - 1 implies is_blank(rest[j]) by {
            assert(rest[j] == s[j + 1]);
        }
        lemma_trim_start(rest, i - 1);
        assert(rest.skip(i - 1) =~= s.skip(i));
    }
}

proof fn lemma_trim_end(s: Seq<char>, i: int)
    requires
        0 <= i <= s.len(),
        forall|j: int| i <= j < s.len() ==> is_blank(s[j]),
        i > 0 ==> !is_blank(s[i - 1]),
    ensures
        trim_end(s) == s.take(i),
    decreases s.len(),
{
    if i == s.len() {
        assert(s.take(i) =~= s);
    } else {
        let rest = s.drop_last();
        lemma_trim_end(rest, i);
        assert(rest.take(i) =~= s.take(i));
    }
}

/// `s` without the blanks at its two ends.
pub fn trim<'a>(s: &'a str) -> (r: &'a str)
    ensures
        r@ == trimmed(s@),
{
    let chars: Vec<char> = chars_of(s);
    let mut from: usize = 0;
    while from < chars.len() && char_is_blank(chars[from])
        invariant
            from <= chars.len(),
            chars@ == s@,
            forall|j: int| 0 <= j < from ==> is_blank(s@[j]),
        decreases chars.len() - from,
    {
        from += 1;
    }
    proof {
        lemma_trim_start(s@, from as int);
    }
    let mut to: usize = chars.len();
    while from < to && char_is_blank(chars[to - 1])
        invariant
            from <= to <= chars.len(),
            chars@ == s@,
            forall|j: int| to <= j < s@.len() ==> is_blank(s@[j]),
        decreases to,
    {
        to -= 1;
    }
    proof {
        let started = s@.skip(from as int);
        assert forall|j: int| to - from <= j < started.len() implies is_blank(started[j]) by {
            assert(started[j] == s@[j + from]);
        }
        if to > from {
            assert(started[to - from - 1] == s@[to - 1]);
        }
        lemma_trim_end(started, to - from);
        assert(started.take(to - from) =~= s@.subrange(from as int, to as int));
    }
    s.substring_char(from, to)
}

/// The index of the first `c` in `chars`, or the length of `chars`.
fn find(chars: &Vec<char>, c: char) -> (r: usize)
    ensures
        r == first_of(chars@, c),
        r <= chars.len(),
{
    let mut i: usize = 0;
    while i < chars.len() && chars[i] != c
        invariant
            i <= chars.len(),
            forall|j: int| 0 <= j < i ==> chars@[j] != c,
        decreases chars.len() - i,
    {
        i += 1;
    }
    proof {
        lemma_first_of_unique(chars@, c, i as int);
    }
    i
}

/// What stands in `s` before and behind the first `c`, if there is one.
pub fn split_once<'a>(s: &'a str, c: char) -> (r: Option<(&'a str, &'a str)>)
    ensures
        match r {
            Some((before, behind)) => cut_once(s@, c) == Some((before@, behind@)),
            None => cut_once(s@, c) is None,
        },
{
    let chars: Vec<char> = chars_of(s);
    let i: usize = find(&chars, c);
    if i < chars.len() {
        proof {
            assert(s@.subrange(0, i as int) =~= s@.take(i as int));
            assert(s@.subrange(i + 1, s@.len() as int) =~= s@.skip(i + 1));
        }
        Some((s.substring_char(0, i), s.substring_char(i + 1, chars.len())))
    } else {
        None
    }
}

/// The texts that a list of string slices holds.
pub open spec fn texts(list: Seq<&str>) -> Seq<Seq<char>> {
    Seq::new(list.len(), |i: int| list[i]@)
}

/// The pieces of `s` between the characters `c`.
pub fn split<'a>(s: &'a str, c: char) -> (r: Vec<&'a str>)
    ensures
        texts(r@) == pieces(s@, c),
{
    let mut out: Vec<&'a str> = Vec::new();
    let mut rest: &'a str = s;
    loop
        invariant
            texts(out@) + pieces(rest@, c) == pieces(s@, c),
        decreases rest@.len(),
    {
        match split_once(rest, c) {
            Some((before, behind)) => {
                proof {
                    lemma_first_of(rest@, c);
                    assert(texts(out@.push(before)) =~= texts(out@) + seq![before@]);
                    assert(texts(out@) + (seq![before@] + pieces(behind@, c)) =~= (texts(out@)
                        + seq![before@]) + pieces(behind@, c));
                }
                out.push(before);
                rest = behind;
            },
            None => {
                proof {
                    lemma_first_of(rest@, c);
                    assert(texts(out@.push(rest)) =~= texts(out@) + seq![rest@]);
                }
                out.push(rest);
                return out;
            },
        }
    }
}

/// A text is cut at the first `c` in it: no `c` stands before the cut, and the two parts with a
/// `c` between them are the text again. It is not cut exactly where no `c` occurs in it.
pub proof fn law_cut_is_at_the_first(s: Seq<char>, c: char)
    ensures
        match cut_once(s, c) {
            Some((before, behind)) => s == before + seq![c] + behind && !before.contains(c),
            None => !s.contains(c),
        },
{
    lemma_first_of(s, c);
    let i = first_of(s, c);
    if i < s.len() {
        assert(s =~= s.take(i) + seq![c] + s.skip(i + 1));
        assert forall|j: int| 0 <= j < i implies s.take(i)[j] != c by {
            assert(s[j] != c);
        }
    } else {
        assert forall|j: int| 0 <= j < s.len() implies s[j] != c by {}
    }
}

/// Some texts, one behind the other, with a `c` between each two.
pub open spec fn joined(list: Seq<Seq<char>>, c: char) -> Seq<char>
    decreases list.len(),
{
    if list.len() == 0 {
        Seq::empty()
    } else if list.len() == 1 {
        list[0]
    } else {
        list[0] + seq![c] + joined(list.drop_first(), c)
    }
}

/// The pieces of a text, with a `c` between each two, are the text again, and no piece holds a
/// `c`.
pub proof fn law_pieces_make_up_the_text(s: Seq<char>, c: char)
    ensures
        pieces(s, c).len() > 0,
        joined(pieces(s, c), c) == s,
        forall|i: int| 0 <= i < pieces(s, c).len() ==> !(#[trigger] pieces(s, c)[i]).contains(c),
    decreases s.len(),
{
    lemma_first_of(s, c);
    law_cut_is_at_the_first(s, c);
    let i = first_of(s, c);
    let list = pieces(s, c);
    if i < s.len() {
        let rest = pieces(s.skip(i + 1), c);
        law_pieces_make_up_the_text(s.skip(i + 1), c);
        assert(list.drop_first() =~= rest);
        assert forall|k: int| 0 <= k < list.len() implies !(#[trigger] list[k]).contains(c) by {
            if k > 0 {
                assert(list[k] == rest[k - 1]);
            }
        }
    }
}

/// A list of string slices holds the text of each of them, in their order.
pub proof fn law_texts_are_those_of_the_list(list: Seq<&str>)
    ensures
        texts(list).len() == list.len(),
        forall|i: int| 0 <= i < list.len() ==> (#[trigger] texts(list)[i]) == list[i]@,
{
}

} // verus!
