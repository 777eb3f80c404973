//! Classification of a line of input.

use crate::chars::{chars_of, mark_at, split_words, string_of, trimmed};
use crate::plan::{chain, chain_plan, single, single_plan, Pipeline, PipelineView, STAGE_MARK};
use crate::text::{
    is_blank, lemma_contains_mark, lemma_trim_blank, lemma_trim_padded, trim, words,
};
use vstd::prelude::*;

verus! {

/// What a line of input asks for.
#[derive(PartialEq, Eq, Debug)]
pub enum Dispatch {
    /// Nothing: the line holds white space at most.
    Empty,
    /// The end of the session.
    Exit,
    /// A change of the working directory to `path`; the path is missing
    /// where the line names none.
    ChangeDirectory { path: Option<String> },
    /// The stages of `plan`, each feeding the next.
    Pipeline { plan: Pipeline },
    /// The one command of `plan`.
    Single { plan: Pipeline },
}

/// The model of a `Dispatch`.
pub enum DispatchView {
    Empty,
    Exit,
    ChangeDirectory { path: Option<Seq<char>> },
    Pipeline { plan: PipelineView },
    Single { plan: PipelineView },
}

impl View for Dispatch {
    type V = DispatchView;

    open spec fn view(&self) -> DispatchView {
        match *self {
            Dispatch::Empty => DispatchView::Empty,
            Dispatch::Exit => DispatchView::Exit,
            Dispatch::ChangeDirectory { path } => DispatchView::ChangeDirectory {
                path: path.deep_view(),
            },
            Dispatch::Pipeline { plan } => DispatchView::Pipeline { plan: plan@ },
            Dispatch::Single { plan } => DispatchView::Single { plan: plan@ },
        }
    }
}

/// The word that ends the session.
pub open spec fn exit_word() -> Seq<char> {
    seq!['e', 'x', 'i', 't']
}

/// The word that changes the working directory.
pub open spec fn cd_word() -> Seq<char> {
    seq!['c', 'd']
}

/// What the line `line` asks for. The line is trimmed first. The cases are
/// tried in this order: nothing; the exit word alone; the directory word,
/// alone or followed by a space, with the second word of the line as the
/// path; a line that holds a stage mark; anything else.
pub open spec fn dispatch(line: Seq<char>) -> DispatchView {
    let t = trim(line);
    if t.len() == 0 {
        DispatchView::Empty
    } else if t == exit_word() {
        DispatchView::Exit
    } else if t == cd_word() {
        DispatchView::ChangeDirectory { path: None }
    } else if cd_word().push(' ').is_prefix_of(t) {
        DispatchView::ChangeDirectory {
            path: if words(t).len() >= 2 {
                Some(words(t)[1])
            } else {
                None
            },
        }
    } else if t.contains(STAGE_MARK) {
        DispatchView::Pipeline { plan: chain_plan(t) }
    } else {
        DispatchView::Single { plan: single_plan(t) }
    }
}

/// Tells, first, whether `v` is the directory word alone and, second,
/// whether `v` begins with the directory word and a space.
fn reads_cd(v: &Vec<char>) -> (r: (bool, bool))
    ensures
        r.0 == (v@ == cd_word()),
        r.1 == cd_word().push(' ').is_prefix_of(v@),
{
    let head = v.len() >= 2 && v[0] == 'c' && v[1] == 'd';
    let alone = head && v.len() == 2;
    let spaced = head && v.len() >= 3 && v[2] == ' ';
    proof {
        let word = cd_word();
        let prefix = word.push(' ');
        assert(word.len() == 2 && word[0] == 'c' && word[1] == 'd');
        assert(prefix.len() == 3 && prefix[0] == 'c' && prefix[1] == 'd' && prefix[2] == ' ');
        if alone {
            assert(v@ =~= word);
        }
        if spaced {
            assert(v@.subrange(0, 3) =~= prefix);
        }
        if prefix.is_prefix_of(v@) {
            assert(v@.subrange(0, 3)[0] == prefix[0]);
            assert(v@.subrange(0, 3)[1] == prefix[1]);
            assert(v@.subrange(0, 3)[2] == prefix[2]);
        }
    }
    (alone, spaced)
}

/// Tells whether `v` is the exit word.
fn reads_exit(v: &Vec<char>) -> (b: bool)
    ensures
        b == (v@ == exit_word()),
{
    let b = v.len() == 4 && v[0] == 'e' && v[1] == 'x' && v[2] == 'i' && v[3] == 't';
    proof {
        let word = exit_word();
        assert(word.len() == 4 && word[0] == 'e' && word[1] == 'x' && word[2] == 'i' && word[3]
            == 't');
        if b {
            assert(v@ =~= word);
        }
    }
    b
}

/// Classifies one line of input.
pub fn classify(line: &str) -> (r: Dispatch)
    ensures
        r@ == dispatch(line@),
{
    let v = chars_of(line);
    let t = trimmed(&v);
    if t.len() == 0 {
        return Dispatch::Empty;
    }
    if reads_exit(&t) {
        return Dispatch::Exit;
    }
    let (alone, spaced) = reads_cd(&t);
    if alone {
        return Dispatch::ChangeDirectory { path: None };
    }
    if spaced {
        let ts = split_words(&t);
        let path = if ts.len() >= 2 {
            Some(string_of(&ts[1]))
        } else {
            None
        };
        return Dispatch::ChangeDirectory { path };
    }
    proof {
        lemma_contains_mark(t@, STAGE_MARK);
        assert(t@.skip(0) =~= t@);
    }
    if mark_at(&t, 0, STAGE_MARK) < t.len() {
        Dispatch::Pipeline { plan: chain(&t) }
    } else {
        Dispatch::Single { plan: single(&t) }
    }
}

/// A line of white space asks for nothing.
pub proof fn law_blank_line(line: Seq<char>)
    requires
        is_blank(line),
    ensures
        dispatch(line) == DispatchView::Empty,
{
    lemma_trim_blank(line);
}

/// The exit word ends the session whatever white space surrounds it.
pub proof fn law_exit(before: Seq<char>, after: Seq<char>)
    requires
        is_blank(before),
        is_blank(after),
    ensures
        dispatch(before + exit_word() + after) == DispatchView::Exit,
{
    let word = exit_word();
    assert(word[0] == 'e' && word.last() == 't');
    lemma_trim_padded(before, word, after);
}

} // verus!
