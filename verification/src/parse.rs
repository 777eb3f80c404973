//! Parsing one command segment: its words and its two redirections.
//!
//! Words are what white space separates. There is no quoting and no
//! escaping: a word cannot hold white space, and `<` or `>` standing alone
//! as a word is always a redirection mark.

use crate::chars::{chars_of, joined, path_of, piece, rows, split_words, string_of};
use crate::text::{
    is_word, join, lemma_join_words, lemma_words_are_words, lemma_words_join, single_spaced, words,
};
use vstd::prelude::*;

verus! {

/// What a command segment holds: the words of the command itself, and the
/// paths that its standard input and standard output are redirected to.
pub struct Parsed {
    pub words: Seq<Seq<char>>,
    pub input: Option<Seq<char>>,
    pub output: Option<Seq<char>>,
}

/// The word that redirects standard input.
pub open spec fn input_mark() -> Seq<char> {
    seq!['<']
}

/// The word that redirects standard output.
pub open spec fn output_mark() -> Seq<char> {
    seq!['>']
}

/// A segment that holds nothing.
pub open spec fn nothing() -> Parsed {
    Parsed { words: Seq::empty(), input: None, output: None }
}

/// Reads the words `ts` from left to right. A redirection mark takes the
/// word after it as its path, whatever that word is, and neither of the two
/// belongs to the command; a mark that is the last word is dropped. Where a
/// mark occurs more than once, the last path stands. Every other word
/// belongs to the command.
pub open spec fn scan(ts: Seq<Seq<char>>) -> Parsed
    decreases ts.len(),
{
    if ts.len() == 0 {
        nothing()
    } else if ts[0] == input_mark() {
        if ts.len() == 1 {
            nothing()
        } else {
            let rest = scan(ts.skip(2));
            Parsed {
                input: if rest.input is Some {
                    rest.input
                } else {
                    Some(ts[1])
                },
                ..rest
            }
        }
    } else if ts[0] == output_mark() {
        if ts.len() == 1 {
            nothing()
        } else {
            let rest = scan(ts.skip(2));
            Parsed {
                output: if rest.output is Some {
                    rest.output
                } else {
                    Some(ts[1])
                },
                ..rest
            }
        }
    } else {
        let rest = scan(ts.drop_first());
        Parsed { words: seq![ts[0]] + rest.words, ..rest }
    }
}

/// What the text `s` holds as a command segment.
pub open spec fn parse(s: Seq<char>) -> Parsed {
    scan(words(s))
}

/// `a` followed by `b`: the words of both, and of each redirection the one
/// of `b` where `b` has one.
pub open spec fn merge(a: Parsed, b: Parsed) -> Parsed {
    Parsed {
        words: a.words + b.words,
        input: if b.input is Some {
            b.input
        } else {
            a.input
        },
        output: if b.output is Some {
            b.output
        } else {
            a.output
        },
    }
}

/// A parsed segment, as characters.
pub struct Scanned {
    pub words: Vec<Vec<char>>,
    pub input: Option<Vec<char>>,
    pub output: Option<Vec<char>>,
}

impl View for Scanned {
    type V = Parsed;

    open spec fn view(&self) -> Parsed {
        Parsed {
            words: rows(self.words@),
            input: match self.input {
                Some(p) => Some(p@),
                None => None,
            },
            output: match self.output {
                Some(p) => Some(p@),
                None => None,
            },
        }
    }
}

/// Tells whether the word `t` is the single character `mark`.
fn is_mark(t: &Vec<char>, mark: char) -> (b: bool)
    ensures
        b == (t@ == seq![mark]),
{
    if t.len() == 1 && t[0] == mark {
        proof {
            assert(t@ =~= seq![mark]);
        }
        true
    } else {
        proof {
            if t@ == seq![mark] {
                assert(seq![mark].len() == 1);
                assert(seq![mark][0] == mark);
            }
        }
        false
    }
}

/// Reads the words `ts` as `scan` describes.
pub fn scan_words(ts: &Vec<Vec<char>>) -> (r: Scanned)
    ensures
        r@ == scan(rows(ts@)),
{
    let mut r = Scanned { words: Vec::new(), input: None, output: None };
    let mut i: usize = 0;
    let ghost all = rows(ts@);
    proof {
        assert(all.skip(0) =~= all);
        assert(merge(r@, scan(all)).words =~= scan(all).words);
    }
    while i < ts.len()
        invariant
            i <= ts.len(),
            all == rows(ts@),
            scan(all) == merge(r@, scan(all.skip(i as int))),
        decreases ts.len() - i,
    {
        let ghost rest = all.skip(i as int);
        let ghost before = r@;
        let t = &ts[i];
        assert(rest[0] == t@);
        if is_mark(t, '<') {
            if i + 1 < ts.len() {
                r.input = Some(piece(&ts[i + 1], 0, ts[i + 1].len()));
                proof {
                    assert(ts[i + 1]@.subrange(0, ts[i + 1]@.len() as int) =~= ts[i + 1]@);
                    assert(rest[1] == ts[i + 1]@);
                    assert(rest.skip(2) =~= all.skip(i + 2));
                }
                i += 2;
            } else {
                proof {
                    assert(all.skip(i + 1).len() == 0);
                    assert(merge(before, nothing()).words =~= before.words);
                }
                i += 1;
            }
        } else if is_mark(t, '>') {
            if i + 1 < ts.len() {
                r.output = Some(piece(&ts[i + 1], 0, ts[i + 1].len()));
                proof {
                    assert(ts[i + 1]@.subrange(0, ts[i + 1]@.len() as int) =~= ts[i + 1]@);
                    assert(rest[1] == ts[i + 1]@);
                    assert(rest.skip(2) =~= all.skip(i + 2));
                }
                i += 2;
            } else {
                proof {
                    assert(all.skip(i + 1).len() == 0);
                    assert(merge(before, nothing()).words =~= before.words);
                }
                i += 1;
            }
        } else {
            let word = piece(t, 0, t.len());
            let ghost old_words = r.words@;
            r.words.push(word);
            proof {
                assert(t@.subrange(0, t@.len() as int) =~= t@);
                assert(rest.drop_first() =~= all.skip(i + 1));
                assert(rows(old_words.push(word)) =~= rows(old_words).push(t@));
                let tail = scan(all.skip(i + 1));
                assert(rows(old_words).push(t@) + tail.words =~= rows(old_words) + (seq![t@]
                    + tail.words));
            }
            i += 1;
        }
    }
    proof {
        assert(merge(r@, nothing()).words =~= r@.words);
    }
    r
}

/// Parses one command segment. The result is the command itself, its words
/// joined by single spaces, then the path that standard input is redirected
/// from, then the path that standard output is redirected to.
pub fn parse_command(command: &str) -> (r: (String, Option<String>, Option<String>))
    ensures
        r.0@ == join(parse(command@).words),
        r.1.deep_view() == parse(command@).input,
        r.2.deep_view() == parse(command@).output,
{
    let v = chars_of(command);
    let ts = split_words(&v);
    let p = scan_words(&ts);
    let text = joined(&p.words);
    (string_of(&text), path_of(&p.input), path_of(&p.output))
}

/// The argument vector of a command: its words, the program's name first.
pub fn externalize(command: &str) -> (r: Vec<String>)
    ensures
        r.deep_view() == words(command@),
{
    let v = chars_of(command);
    let ts = split_words(&v);
    let mut r: Vec<String> = Vec::new();
    let mut i: usize = 0;
    while i < ts.len()
        invariant
            i <= ts.len(),
            r.deep_view() == rows(ts@).take(i as int),
        decreases ts.len() - i,
    {
        let ghost before = r.deep_view();
        let s = string_of(&ts[i]);
        r.push(s);
        proof {
            assert(r.deep_view() =~= before.push(ts[i as int]@));
            assert(rows(ts@).take(i + 1) =~= rows(ts@).take(i as int).push(ts[i as int]@));
        }
        i += 1;
    }
    proof {
        assert(rows(ts@).take(ts.len() as int) =~= rows(ts@));
    }
    r
}

/// Whether `w` is one of the two redirection marks.
pub open spec fn is_redirection(w: Seq<char>) -> bool {
    w == input_mark() || w == output_mark()
}

/// Words without a redirection mark are the command, and nothing is
/// redirected.
pub proof fn law_scan_plain(ts: Seq<Seq<char>>)
    requires
        forall|i: int| 0 <= i < ts.len() ==> !is_redirection(#[trigger] ts[i]),
    ensures
        scan(ts) == (Parsed { words: ts, input: None, output: None }),
    decreases ts.len(),
{
    if ts.len() > 0 {
        let rest = ts.drop_first();
        assert(!is_redirection(ts[0]));
        assert forall|i: int| 0 <= i < rest.len() implies !is_redirection(#[trigger] rest[i]) by {
            assert(rest[i] == ts[i + 1]);
        }
        law_scan_plain(rest);
        assert(seq![ts[0]] + rest =~= ts);
    } else {
        assert(ts =~= Seq::<Seq<char>>::empty());
    }
}

/// A text that is spaced as a command is spaced, and none of whose words
/// is a redirection mark, is its own command: parsing gives the text
/// unchanged and no redirection.
pub proof fn law_plain_text(text: Seq<char>)
    requires
        single_spaced(text),
        forall|i: int| 0 <= i < words(text).len() ==> !is_redirection(#[trigger] words(text)[i]),
    ensures
        join(parse(text).words) == text,
        parse(text).input is None,
        parse(text).output is None,
{
    law_scan_plain(words(text));
    lemma_join_words(text);
}

/// A redirection mark that is the last word, after words that hold no
/// mark, is dropped: the words before it are the command, and nothing is
/// redirected.
pub proof fn law_lone_mark(ts: Seq<Seq<char>>, mark: Seq<char>)
    requires
        is_redirection(mark),
        forall|i: int| 0 <= i < ts.len() ==> !is_redirection(#[trigger] ts[i]),
    ensures
        scan(ts.push(mark)) == (Parsed { words: ts, input: None, output: None }),
    decreases ts.len(),
{
    let all = ts.push(mark);
    if ts.len() == 0 {
        assert(all[0] == mark);
        assert(ts =~= Seq::<Seq<char>>::empty());
    } else {
        let rest = ts.drop_first();
        assert(!is_redirection(ts[0]));
        assert(all[0] == ts[0]);
        assert(all.drop_first() =~= rest.push(mark));
        assert forall|i: int| 0 <= i < rest.len() implies !is_redirection(#[trigger] rest[i]) by {
            assert(rest[i] == ts[i + 1]);
        }
        law_lone_mark(rest, mark);
        assert(seq![ts[0]] + rest =~= ts);
    }
}

/// Every word of a scanned command is one of the words that were scanned.
pub proof fn lemma_scan_keeps(ts: Seq<Seq<char>>)
    ensures
        forall|i: int|
            0 <= i < scan(ts).words.len() ==> ts.contains(#[trigger] scan(ts).words[i]),
    decreases ts.len(),
{
    if ts.len() == 0 {
    } else if is_redirection(ts[0]) {
        if ts.len() > 1 {
            let rest = ts.skip(2);
            lemma_scan_keeps(rest);
            assert forall|i: int| 0 <= i < scan(ts).words.len() implies ts.contains(
                #[trigger] scan(ts).words[i],
            ) by {
                let w = scan(rest).words[i];
                assert(rest.contains(w));
                let k = choose|k: int| 0 <= k < rest.len() && rest[k] == w;
                assert(ts[k + 2] == w);
            }
        }
    } else {
        let rest = ts.drop_first();
        lemma_scan_keeps(rest);
        assert forall|i: int| 0 <= i < scan(ts).words.len() implies ts.contains(
            #[trigger] scan(ts).words[i],
        ) by {
            if i == 0 {
                assert(ts[0] == scan(ts).words[0]);
            } else {
                let w = scan(rest).words[i - 1];
                assert(rest.contains(w));
                let k = choose|k: int| 0 <= k < rest.len() && rest[k] == w;
                assert(ts[k + 1] == w);
            }
        }
    }
}

/// The argument vector of a parsed command is the command's words: what
/// `externalize` finds in the text that `parse_command` gives is what the
/// scan kept.
pub proof fn law_arguments(text: Seq<char>)
    ensures
        words(join(parse(text).words)) == parse(text).words,
{
    let ts = words(text);
    let kept = scan(ts).words;
    lemma_words_are_words(text);
    lemma_scan_keeps(ts);
    assert forall|i: int| 0 <= i < kept.len() implies is_word(#[trigger] kept[i]) by {
        assert(ts.contains(kept[i]));
        let k = choose|k: int| 0 <= k < ts.len() && ts[k] == kept[i];
        assert(is_word(ts[k]));
    }
    lemma_words_join(kept);
}

} // verus!
