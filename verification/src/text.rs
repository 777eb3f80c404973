//! Character sequences: white space, runs, trimming, words and separators.
//!
//! Everything here is stated over `Seq<char>`; the executable functions
//! that compute these values work on `Vec<char>`.

use vstd::prelude::*;

verus! {

/// Whether `c` is white space: one of the code points that carry the Unicode
/// property `White_Space`.
pub open spec fn is_space(c: char) -> bool {
    let n = c as u32;
    ||| 0x09 <= n <= 0x0D
    ||| n == 0x20
    ||| n == 0x85
    ||| n == 0xA0
    ||| n == 0x1680
    ||| 0x2000 <= n <= 0x200A
    ||| n == 0x2028
    ||| n == 0x2029
    ||| n == 0x202F
    ||| n == 0x205F
    ||| n == 0x3000
}

/// The class of white-space characters.
pub open spec fn blank() -> spec_fn(char) -> bool {
    |c: char| is_space(c)
}

/// The class of characters that are not white space.
pub open spec fn solid() -> spec_fn(char) -> bool {
    |c: char| !is_space(c)
}

/// The class that holds `mark` alone.
pub open spec fn only(mark: char) -> spec_fn(char) -> bool {
    |c: char| c == mark
}

/// The class of all characters but `mark`.
pub open spec fn except(mark: char) -> spec_fn(char) -> bool {
    |c: char| c != mark
}

/// The length of the longest prefix of `s` whose characters all lie in `class`.
pub open spec fn prefix_len(s: Seq<char>, class: spec_fn(char) -> bool) -> nat
    decreases s.len(),
{
    if s.len() > 0 && class(s[0]) {
        1 + prefix_len(s.drop_first(), class)
    } else {
        0
    }
}

/// The length of the longest suffix of `s` whose characters all lie in `class`.
pub open spec fn suffix_len(s: Seq<char>, class: spec_fn(char) -> bool) -> nat
    decreases s.len(),
{
    if s.len() > 0 && class(s.last()) {
        1 + suffix_len(s.drop_last(), class)
    } else {
        0
    }
}

/// `s` without its leading white space.
pub open spec fn trim_start(s: Seq<char>) -> Seq<char> {
    s.skip(prefix_len(s, blank()) as int)
}

/// `s` without its trailing white space.
pub open spec fn trim_end(s: Seq<char>) -> Seq<char> {
    s.take(s.len() - suffix_len(s, blank()))
}

/// `s` without leading and trailing white space.
pub open spec fn trim(s: Seq<char>) -> Seq<char> {
    trim_end(trim_start(s))
}

/// `s` without the run of `mark` characters at its end.
pub open spec fn strip_end(s: Seq<char>, mark: char) -> Seq<char> {
    s.take(s.len() - suffix_len(s, only(mark)))
}

/// Whether the last character of `s` is `mark`.
pub open spec fn ends_with(s: Seq<char>, mark: char) -> bool {
    s.len() > 0 && s.last() == mark
}

/// The words of `s`: its maximal runs of characters that are not white
/// space, from left to right.
pub open spec fn words(s: Seq<char>) -> Seq<Seq<char>>
    decreases s.len(),
    via words_decreases
{
    let t = trim_start(s);
    let n = prefix_len(t, solid());
    if t.len() == 0 {
        Seq::empty()
    } else {
        seq![t.take(n as int)] + words(t.skip(n as int))
    }
}

#[via_fn]
proof fn words_decreases(s: Seq<char>) {
    let t = trim_start(s);
    lemma_prefix_len(s, blank());
    lemma_prefix_len(t, solid());
}

/// The words of `ws` in one sequence, with a single space between
/// neighbours.
pub open spec fn join(ws: Seq<Seq<char>>) -> Seq<char>
    decreases ws.len(),
{
    if ws.len() == 0 {
        Seq::empty()
    } else if ws.len() == 1 {
        ws[0]
    } else {
        ws[0] + seq![' '] + join(ws.drop_first())
    }
}

/// The pieces of `s` between occurrences of `mark`, from left to right:
/// one more piece than `s` holds marks, empty pieces included.
pub open spec fn split(s: Seq<char>, mark: char) -> Seq<Seq<char>>
    decreases s.len(),
{
    let n = prefix_len(s, except(mark)) as int;
    if n >= s.len() {
        seq![s]
    } else {
        seq![s.take(n)] + split(s.skip(n + 1), mark)
    }
}

/// What `prefix_len` measures: every character before it lies in `class`,
/// and the character at it, if there is one, does not.
pub proof fn lemma_prefix_len(s: Seq<char>, class: spec_fn(char) -> bool)
    ensures
        prefix_len(s, class) <= s.len(),
        forall|i: int| 0 <= i < prefix_len(s, class) ==> class(#[trigger] s[i]),
        prefix_len(s, class) < s.len() ==> !class(s[prefix_len(s, class) as int]),
    decreases s.len(),
{
    if s.len() > 0 && class(s[0]) {
        let rest = s.drop_first();
        lemma_prefix_len(rest, class);
        assert forall|i: int| 0 <= i < prefix_len(s, class) implies class(#[trigger] s[i]) by {
            if i > 0 {
                assert(s[i] == rest[i - 1]);
            }
        }
        if prefix_len(s, class) < s.len() {
            assert(s[prefix_len(s, class) as int] == rest[prefix_len(rest, class) as int]);
        }
    }
}

/// The converse of `lemma_prefix_len`: a length of which both hold is
/// `prefix_len`.
pub proof fn lemma_prefix_len_is(s: Seq<char>, class: spec_fn(char) -> bool, n: nat)
    requires
        n <= s.len(),
        forall|i: int| 0 <= i < n ==> class(#[trigger] s[i]),
        n < s.len() ==> !class(s[n as int]),
    ensures
        prefix_len(s, class) == n,
    decreases n,
{
    if n > 0 {
        let rest = s.drop_first();
        assert(class(s[0]));
        assert forall|i: int| 0 <= i < n - 1 implies class(#[trigger] rest[i]) by {
            assert(rest[i] == s[i + 1]);
        }
        lemma_prefix_len_is(rest, class, (n - 1) as nat);
    }
}

/// What `suffix_len` measures: every character of the last `suffix_len`
/// lies in `class`, and the one before them, if there is one, does not.
pub proof fn lemma_suffix_len(s: Seq<char>, class: spec_fn(char) -> bool)
    ensures
        suffix_len(s, class) <= s.len(),
        forall|i: int| s.len() - suffix_len(s, class) <= i < s.len() ==> class(#[trigger] s[i]),
        suffix_len(s, class) < s.len() ==> !class(s[s.len() - suffix_len(s, class) - 1]),
    decreases s.len(),
{
    if s.len() > 0 && class(s.last()) {
        let rest = s.drop_last();
        lemma_suffix_len(rest, class);
        assert forall|i: int| s.len() - suffix_len(s, class) <= i < s.len() implies class(
            #[trigger] s[i],
        ) by {
            if i < s.len() - 1 {
                assert(s[i] == rest[i]);
            }
        }
        if suffix_len(s, class) < s.len() {
            assert(s[s.len() - suffix_len(s, class) - 1] == rest[rest.len() - suffix_len(
                rest,
                class,
            ) - 1]);
        }
    }
}

/// The converse of `lemma_suffix_len`: a length of which both hold is
/// `suffix_len`.
pub proof fn lemma_suffix_len_is(s: Seq<char>, class: spec_fn(char) -> bool, n: nat)
    requires
        n <= s.len(),
        forall|i: int| s.len() - n <= i < s.len() ==> class(#[trigger] s[i]),
        n < s.len() ==> !class(s[s.len() - n - 1]),
    ensures
        suffix_len(s, class) == n,
    decreases n,
{
    if n > 0 {
        let rest = s.drop_last();
        assert(class(s[s.len() - 1]));
        assert forall|i: int| rest.len() - (n - 1) <= i < rest.len() implies class(
            #[trigger] rest[i],
        ) by {
            assert(rest[i] == s[i]);
        }
        lemma_suffix_len_is(rest, class, (n - 1) as nat);
    }
}

/// The first word of `s` and what follows it: with `from` the end of the
/// leading white space and `to` the end of the word that starts there, the
/// words of `s` are that word and then the words of `s` after `to`.
pub proof fn lemma_words_unfold(s: Seq<char>, from: int, to: int)
    requires
        from == prefix_len(s, blank()),
        from < s.len(),
        to == from + prefix_len(s.skip(from), solid()),
    ensures
        from < to <= s.len(),
        words(s) == seq![s.subrange(from, to)] + words(s.skip(to)),
{
    let t = trim_start(s);
    lemma_prefix_len(s, blank());
    lemma_prefix_len(t, solid());
    assert(t[0] == s[from]);
    assert(t.take(to - from) =~= s.subrange(from, to));
    assert(t.skip(to - from) =~= s.skip(to));
}

/// Joining one more word: a space and the word are appended, or the word
/// alone where it is the first.
pub proof fn lemma_join_push(ws: Seq<Seq<char>>, w: Seq<char>)
    ensures
        join(ws.push(w)) == if ws.len() == 0 {
            w
        } else {
            join(ws) + seq![' '] + w
        },
    decreases ws.len(),
{
    let all = ws.push(w);
    if ws.len() == 0 {
        assert(all[0] == w);
    } else {
        let rest = ws.drop_first();
        assert(all.drop_first() =~= rest.push(w));
        lemma_join_push(rest, w);
        if rest.len() == 0 {
            assert(join(ws) == ws[0]);
        } else {
            assert(join(all) =~= ws[0] + seq![' '] + (join(rest) + seq![' '] + w));
            assert(join(ws) + seq![' '] + w =~= ws[0] + seq![' '] + (join(rest) + seq![' '] + w));
        }
    }
}

/// Whether every character of `s` is white space.
pub open spec fn is_blank(s: Seq<char>) -> bool {
    forall|i: int| 0 <= i < s.len() ==> is_space(#[trigger] s[i])
}

/// Trimming white space alone leaves nothing.
pub proof fn lemma_trim_blank(s: Seq<char>)
    requires
        is_blank(s),
    ensures
        trim(s) == Seq::<char>::empty(),
{
    lemma_prefix_len_is(s, blank(), s.len());
    lemma_suffix_len(trim_start(s), blank());
    assert(trim(s) =~= Seq::<char>::empty());
}

/// Trimming takes off the white space around a text that neither begins
/// nor ends with white space, and nothing else.
pub proof fn lemma_trim_padded(before: Seq<char>, core: Seq<char>, after: Seq<char>)
    requires
        is_blank(before),
        is_blank(after),
        core.len() > 0,
        !is_space(core[0]),
        !is_space(core.last()),
    ensures
        trim(before + core + after) == core,
{
    let s = before + core + after;
    lemma_prefix_len_is(s, blank(), before.len());
    let t = trim_start(s);
    assert(t =~= core + after);
    lemma_suffix_len_is(t, blank(), after.len());
    assert(trim_end(t) =~= core);
}

/// A text holds `mark` exactly where its run of other characters stops
/// before its end.
pub proof fn lemma_contains_mark(s: Seq<char>, mark: char)
    ensures
        s.contains(mark) <==> prefix_len(s, except(mark)) < s.len(),
{
    let n = prefix_len(s, except(mark));
    lemma_prefix_len(s, except(mark));
    if n < s.len() {
        assert(s[n as int] == mark);
    } else {
        if s.contains(mark) {
            let i = choose|i: int| 0 <= i < s.len() && s[i] == mark;
            assert(except(mark)(s[i]));
        }
    }
}

/// Whether `s` is spaced as `join` spaces its words: it neither begins
/// nor ends with white space, and its only white space is a single space
/// between two other characters.
pub open spec fn single_spaced(s: Seq<char>) -> bool {
    forall|i: int|
        0 <= i < s.len() && is_space(#[trigger] s[i]) ==> {
            &&& s[i] == ' '
            &&& 0 < i < s.len() - 1
            &&& !is_space(s[i + 1])
        }
}

/// Whether `w` can be a word: it is not empty and holds no white space.
pub open spec fn is_word(w: Seq<char>) -> bool {
    &&& w.len() > 0
    &&& forall|i: int| 0 <= i < w.len() ==> !is_space(#[trigger] w[i])
}

/// Leading white space does not change the words.
pub proof fn lemma_words_trim_start(s: Seq<char>)
    ensures
        words(trim_start(s)) == words(s),
{
    let t = trim_start(s);
    lemma_prefix_len(s, blank());
    lemma_prefix_len_is(t, blank(), 0);
    assert(trim_start(t) =~= t);
}

/// Every word of a text is a word.
pub proof fn lemma_words_are_words(s: Seq<char>)
    ensures
        forall|i: int| 0 <= i < words(s).len() ==> is_word(#[trigger] words(s)[i]),
    decreases s.len(),
{
    let t = trim_start(s);
    let n = prefix_len(t, solid());
    lemma_prefix_len(s, blank());
    lemma_prefix_len(t, solid());
    if t.len() > 0 {
        let first = t.take(n as int);
        let rest = t.skip(n as int);
        lemma_words_are_words(rest);
        assert(is_word(first)) by {
            assert(solid()(t[0]));
            assert forall|i: int| 0 <= i < first.len() implies !is_space(#[trigger] first[i]) by {
                assert(solid()(t[i]));
            }
        }
        assert forall|i: int| 0 <= i < words(s).len() implies is_word(#[trigger] words(s)[i]) by {
            if i > 0 {
                assert(words(s)[i] == words(rest)[i - 1]);
            }
        }
    }
}

/// A text that is spaced as `join` spaces its words is the join of its
/// words.
pub proof fn lemma_join_words(s: Seq<char>)
    requires
        single_spaced(s),
    ensures
        join(words(s)) == s,
    decreases s.len(),
{
    if s.len() == 0 {
        lemma_prefix_len_is(s, blank(), 0);
        assert(trim_start(s) =~= s);
    } else {
        lemma_prefix_len_is(s, blank(), 0);
        assert(trim_start(s) =~= s);
        let n = prefix_len(s, solid()) as int;
        lemma_prefix_len(s, solid());
        assert(solid()(s[0]));
        let first = s.take(n);
        if n == s.len() {
            let rest = s.skip(n);
            assert(rest.len() == 0);
            lemma_prefix_len_is(rest, blank(), 0);
            assert(words(rest) =~= Seq::<Seq<char>>::empty());
            assert(words(s) =~= seq![first]);
            assert(first =~= s);
        } else {
            let gap = s.skip(n);
            let rest = s.skip(n + 1);
            assert(!solid()(s[n]));
            assert(is_space(s[n]));
            assert(s[n] == ' ');
            assert(!is_space(s[n + 1]));
            assert forall|i: int| 0 <= i < rest.len() && is_space(#[trigger] rest[i]) implies {
                &&& rest[i] == ' '
                &&& 0 < i < rest.len() - 1
                &&& !is_space(rest[i + 1])
            } by {
                assert(rest[i] == s[i + n + 1]);
                assert(rest[i + 1] == s[i + n + 2]);
            }
            lemma_join_words(rest);
            assert(gap[0] == s[n]);
            assert(gap[1] == s[n + 1]);
            lemma_prefix_len_is(gap, blank(), 1);
            assert(trim_start(gap) =~= rest);
            lemma_words_trim_start(gap);
            assert(words(s) == seq![first] + words(rest));
            lemma_prefix_len_is(rest, blank(), 0);
            assert(trim_start(rest) =~= rest);
            assert(words(rest).len() > 0);
            let all = seq![first] + words(rest);
            assert(all.drop_first() =~= words(rest));
            assert(all[0] == first);
            assert(join(all) == first + seq![' '] + join(words(rest)));
            assert(first + seq![' '] + rest =~= s);
        }
    }
}

/// The words of a join of words are those words.
pub proof fn lemma_words_join(ws: Seq<Seq<char>>)
    requires
        forall|i: int| 0 <= i < ws.len() ==> is_word(#[trigger] ws[i]),
    ensures
        words(join(ws)) == ws,
    decreases ws.len(),
{
    let s = join(ws);
    if ws.len() == 0 {
        lemma_prefix_len_is(s, blank(), 0);
        assert(trim_start(s) =~= s);
        assert(words(s) =~= ws);
    } else {
        let first = ws[0];
        let rest = ws.drop_first();
        assert(is_word(first));
        assert forall|i: int| 0 <= i < rest.len() implies is_word(#[trigger] rest[i]) by {
            assert(rest[i] == ws[i + 1]);
        }
        lemma_words_join(rest);
        assert(s[0] == first[0]);
        lemma_prefix_len_is(s, blank(), 0);
        assert(trim_start(s) =~= s);
        assert forall|i: int| 0 <= i < first.len() implies solid()(#[trigger] s[i]) by {
            assert(s[i] == first[i]);
        }
        if ws.len() > 1 {
            assert(s[first.len() as int] == ' ');
        }
        lemma_prefix_len_is(s, solid(), first.len());
        assert(s.take(first.len() as int) =~= first);
        let tail = s.skip(first.len() as int);
        if ws.len() == 1 {
            assert(tail.len() == 0);
            lemma_prefix_len_is(tail, blank(), 0);
            assert(words(tail) =~= Seq::<Seq<char>>::empty());
            assert(words(s) =~= ws);
        } else {
            let after = join(rest);
            assert(tail =~= seq![' '] + after);
            assert(is_word(rest[0]));
            assert(after.len() > 0 && after[0] == rest[0][0]) by {
                if rest.len() == 1 {
                } else {
                    assert(after == rest[0] + seq![' '] + join(rest.drop_first()));
                }
            }
            assert(tail[1] == after[0]);
            lemma_prefix_len_is(tail, blank(), 1);
            assert(trim_start(tail) =~= after);
            lemma_words_trim_start(tail);
            assert(words(s) =~= ws);
        }
    }
}

} // verus!
