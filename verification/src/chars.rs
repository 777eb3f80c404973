//! The executable functions on text. They work on `Vec<char>`; strings are
//! converted from and to it at the crate's surface.

use crate::text::{
    blank, except, is_space, join, lemma_join_push, lemma_prefix_len_is,
    lemma_suffix_len_is, lemma_words_unfold, only, prefix_len, solid, split, strip_end, suffix_len,
    trim, words,
};
use vstd::prelude::*;

verus! {

/// The views of the rows of `v`.
pub open spec fn rows(v: Seq<Vec<char>>) -> Seq<Seq<char>> {
    Seq::new(v.len(), |i: int| v[i]@)
}

/// Tells whether `c` is white space.
pub fn space(c: char) -> (b: bool)
    ensures
        b == is_space(c),
{
    let n: u32 = c as u32;
    (0x09 <= n && n <= 0x0D) || n == 0x20 || n == 0x85 || n == 0xA0 || n == 0x1680 || (0x2000 <= n
        && n <= 0x200A) || n == 0x2028 || n == 0x2029 || n == 0x202F || n == 0x205F || n == 0x3000
}

/// The characters of `s`, in order.
pub fn chars_of(s: &str) -> (v: Vec<char>)
    ensures
        v@ == s@,
{
    let mut v: Vec<char> = Vec::new();
    for c in it: s.chars()
        invariant
            v@ == it.seq().take(it.index() as int),
    {
        v.push(c);
    }
    v
}

/// `String::push`: the string afterwards is the string before with `c`
/// appended as its last character.
#[verifier::external_body]
fn push_char(s: &mut String, c: char)
    ensures
        final(s)@ == old(s)@.push(c),
{
    s.push(c);
}

/// The string whose characters are those of `v`, in order.
pub fn string_of(v: &Vec<char>) -> (s: String)
    ensures
        s@ == v@,
{
    let mut s = String::new();
    let mut i: usize = 0;
    while i < v.len()
        invariant
            i <= v.len(),
            s@ == v@.take(i as int),
        decreases v.len() - i,
    {
        push_char(&mut s, v[i]);
        i += 1;
    }
    s
}

/// The string of an optional path.
pub(crate) fn path_of(p: &Option<Vec<char>>) -> (r: Option<String>)
    ensures
        r.deep_view() == match *p {
            Some(v) => Some(v@),
            None => None,
        },
{
    match p {
        Some(v) => Some(string_of(v)),
        None => None,
    }
}

/// A copy of the characters of `v` from index `from` up to, not including,
/// index `to`.
pub(crate) fn piece(v: &Vec<char>, from: usize, to: usize) -> (r: Vec<char>)
    requires
        from <= to <= v.len(),
    ensures
        r@ == v@.subrange(from as int, to as int),
{
    let mut r: Vec<char> = Vec::new();
    let mut i: usize = from;
    while i < to
        invariant
            from <= i <= to <= v.len(),
            r@ == v@.subrange(from as int, i as int),
        decreases to - i,
    {
        r.push(v[i]);
        i += 1;
    }
    r
}

/// Where the run of white space (`spaces`) or of other characters
/// (`!spaces`) that starts at `from` ends.
pub(crate) fn run_end(v: &Vec<char>, from: usize, spaces: bool) -> (to: usize)
    requires
        from <= v.len(),
    ensures
        from <= to <= v.len(),
        to == from + prefix_len(v@.skip(from as int), if spaces { blank() } else { solid() }),
{
    let mut i: usize = from;
    while i < v.len() && space(v[i]) == spaces
        invariant
            from <= i <= v.len(),
            forall|k: int| from <= k < i ==> is_space(#[trigger] v@[k]) == spaces,
        decreases v.len() - i,
    {
        i += 1;
    }
    proof {
        let class = if spaces { blank() } else { solid() };
        lemma_prefix_len_is(v@.skip(from as int), class, (i - from) as nat);
    }
    i
}

/// Where the run of characters other than `mark` that starts at `from` ends.
pub(crate) fn mark_at(v: &Vec<char>, from: usize, mark: char) -> (to: usize)
    requires
        from <= v.len(),
    ensures
        from <= to <= v.len(),
        to == from + prefix_len(v@.skip(from as int), except(mark)),
{
    let mut i: usize = from;
    while i < v.len() && v[i] != mark
        invariant
            from <= i <= v.len(),
            forall|k: int| from <= k < i ==> #[trigger] v@[k] != mark,
        decreases v.len() - i,
    {
        i += 1;
    }
    proof {
        lemma_prefix_len_is(v@.skip(from as int), except(mark), (i - from) as nat);
    }
    i
}

/// Where the white space that ends `v` begins.
pub(crate) fn tail_spaces(v: &Vec<char>) -> (from: usize)
    ensures
        from <= v.len(),
        from == v.len() - suffix_len(v@, blank()),
{
    let mut i: usize = v.len();
    while i > 0 && space(v[i - 1])
        invariant
            i <= v.len(),
            forall|k: int| i <= k < v.len() ==> is_space(#[trigger] v@[k]),
        decreases i,
    {
        i -= 1;
    }
    proof {
        lemma_suffix_len_is(v@, blank(), (v.len() - i) as nat);
    }
    i
}

/// Where the run of `mark` characters that ends `v` begins.
pub(crate) fn tail_marks(v: &Vec<char>, mark: char) -> (from: usize)
    ensures
        from <= v.len(),
        from == v.len() - suffix_len(v@, only(mark)),
{
    let mut i: usize = v.len();
    while i > 0 && v[i - 1] == mark
        invariant
            i <= v.len(),
            forall|k: int| i <= k < v.len() ==> #[trigger] v@[k] == mark,
        decreases i,
    {
        i -= 1;
    }
    proof {
        lemma_suffix_len_is(v@, only(mark), (v.len() - i) as nat);
    }
    i
}

/// `v` without leading and trailing white space.
pub fn trimmed(v: &Vec<char>) -> (r: Vec<char>)
    ensures
        r@ == trim(v@),
{
    let from = run_end(v, 0, true);
    let rest = piece(v, from, v.len());
    let to = tail_spaces(&rest);
    let r = piece(&rest, 0, to);
    proof {
        assert(v@.skip(0) =~= v@);
        assert(rest@ =~= v@.skip(from as int));
        assert(r@ =~= rest@.take(to as int));
    }
    r
}

/// `v` without the `mark` characters at its end.
pub fn stripped(v: &Vec<char>, mark: char) -> (r: Vec<char>)
    ensures
        r@ == strip_end(v@, mark),
{
    let to = tail_marks(v, mark);
    let r = piece(v, 0, to);
    proof {
        assert(r@ =~= v@.take(to as int));
    }
    r
}

/// The words of `v`, from left to right.
pub fn split_words(v: &Vec<char>) -> (r: Vec<Vec<char>>)
    ensures
        rows(r@) == words(v@),
{
    let mut r: Vec<Vec<char>> = Vec::new();
    let mut i: usize = 0;
    proof {
        assert(v@.skip(0) =~= v@);
        assert(rows(r@) + words(v@) =~= words(v@));
    }
    loop
        invariant
            i <= v.len(),
            words(v@) == rows(r@) + words(v@.skip(i as int)),
        ensures
            rows(r@) == words(v@),
        decreases v.len() - i,
    {
        let from = run_end(v, i, true);
        let ghost rest = v@.skip(i as int);
        if from == v.len() {
            proof {
                assert(words(rest) =~= Seq::<Seq<char>>::empty());
                assert(rows(r@) + words(rest) =~= rows(r@));
            }
            break;
        }
        let to = run_end(v, from, false);
        let word = piece(v, from, to);
        proof {
            assert(rest.skip(from - i) =~= v@.skip(from as int));
            lemma_words_unfold(rest, from - i, to - i);
            assert(rest.subrange(from - i, to - i) =~= word@);
            assert(rest.skip(to - i) =~= v@.skip(to as int));
            assert(rows(r@.push(word)) =~= rows(r@).push(word@));
            assert(rows(r@) + (seq![word@] + words(v@.skip(to as int))) =~= rows(r@).push(word@)
                + words(v@.skip(to as int)));
        }
        r.push(word);
        i = to;
    }
    r
}

/// The rows of `ws` in one sequence, with a single space between
/// neighbours.
pub fn joined(ws: &Vec<Vec<char>>) -> (r: Vec<char>)
    ensures
        r@ == join(rows(ws@)),
{
    let mut r: Vec<char> = Vec::new();
    let mut i: usize = 0;
    while i < ws.len()
        invariant
            i <= ws.len(),
            r@ == join(rows(ws@).take(i as int)),
        decreases ws.len() - i,
    {
        let ghost before = r@;
        let ghost done = rows(ws@).take(i as int);
        if i > 0 {
            r.push(' ');
        }
        let w = &ws[i];
        let mut k: usize = 0;
        while k < w.len()
            invariant
                k <= w.len(),
                r@ == (if i > 0 {
                    before.push(' ')
                } else {
                    before
                }) + w@.take(k as int),
            decreases w.len() - k,
        {
            r.push(w[k]);
            k += 1;
        }
        proof {
            lemma_join_push(done, w@);
            assert(rows(ws@).take(i + 1) =~= done.push(w@));
            assert(w@.take(k as int) =~= w@);
            assert(before.push(' ') + w@ =~= before + seq![' '] + w@);
            if i == 0 {
                assert(before + w@ =~= w@);
            }
        }
        i += 1;
    }
    proof {
        assert(rows(ws@).take(ws.len() as int) =~= rows(ws@));
    }
    r
}

/// The pieces of `v` between occurrences of `mark`, from left to right.
pub fn split_at_marks(v: &Vec<char>, mark: char) -> (r: Vec<Vec<char>>)
    ensures
        rows(r@) == split(v@, mark),
        r.len() >= 1,
{
    let mut r: Vec<Vec<char>> = Vec::new();
    let mut i: usize = 0;
    proof {
        assert(v@.skip(0) =~= v@);
        assert(rows(r@) + split(v@, mark) =~= split(v@, mark));
    }
    loop
        invariant_except_break
            i <= v.len(),
            split(v@, mark) == rows(r@) + split(v@.skip(i as int), mark),
        ensures
            rows(r@) == split(v@, mark),
            r.len() >= 1,
        decreases v.len() - i,
    {
        let to = mark_at(v, i, mark);
        let part = piece(v, i, to);
        let ghost rest = v@.skip(i as int);
        let ghost before = r@;
        r.push(part);
        proof {
            assert(rows(before.push(part)) =~= rows(before).push(part@));
            assert(rest.take(to - i) =~= part@);
        }
        if to == v.len() {
            proof {
                assert(rest.take(to - i) =~= rest);
                assert(rows(before) + seq![rest] =~= rows(before).push(part@));
            }
            break;
        }
        proof {
            assert(rest.skip(to - i + 1) =~= v@.skip(to + 1));
            assert(rows(before) + (seq![part@] + split(v@.skip(to + 1), mark)) =~= rows(
                before,
            ).push(part@) + split(v@.skip(to + 1), mark));
        }
        i = to + 1;
    }
    r
}

} // verus!
