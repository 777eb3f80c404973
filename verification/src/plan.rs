//! Plans: what a line asks for, before any process exists.

use crate::chars::{
    chars_of, joined, path_of, piece, rows, split_at_marks, split_words, string_of, stripped,
    trimmed,
};
use crate::parse::{parse, scan_words, Parsed, Scanned};
use crate::text::{ends_with, join, split, strip_end, trim};
use vstd::prelude::*;

verus! {

/// The character that separates the stages of a pipeline.
pub const STAGE_MARK: char = '|';

/// The character that, at the end of a line, asks for execution in the
/// background.
pub const BACKGROUND_MARK: char = '&';

/// One stage: the command to execute and the files that replace its
/// standard input and standard output.
#[derive(PartialEq, Eq, Debug)]
pub struct Stage {
    pub command: String,
    pub input: Option<String>,
    pub output: Option<String>,
}

/// The model of a `Stage`.
pub struct StageView {
    pub command: Seq<char>,
    pub input: Option<Seq<char>>,
    pub output: Option<Seq<char>>,
}

impl View for Stage {
    type V = StageView;

    open spec fn view(&self) -> StageView {
        StageView {
            command: self.command@,
            input: self.input.deep_view(),
            output: self.output.deep_view(),
        }
    }
}

impl DeepView for Stage {
    type V = StageView;

    open spec fn deep_view(&self) -> StageView {
        self@
    }
}

/// The model of a `Pipeline`.
pub struct PipelineView {
    pub stages: Seq<StageView>,
    pub background: bool,
}

impl PipelineView {
    /// A plan has at least one stage; only its first stage reads from a
    /// file and only its last stage writes to one.
    pub open spec fn wf(self) -> bool {
        &&& self.stages.len() >= 1
        &&& forall|i: int|
            0 <= i < self.stages.len() && (#[trigger] self.stages[i]).input is Some ==> i == 0
        &&& forall|i: int|
            0 <= i < self.stages.len() && (#[trigger] self.stages[i]).output is Some ==> i
                == self.stages.len() - 1
    }

    /// The number of channels that connect the stages: one between each
    /// stage and the next.
    pub open spec fn channels(self) -> nat {
        (self.stages.len() - 1) as nat
    }
}

/// An ordered sequence of stages, each of which feeds the next, and whether
/// the whole is to run in the background.
#[derive(PartialEq, Eq, Debug)]
pub struct Pipeline {
    stages: Vec<Stage>,
    background: bool,
}

impl View for Pipeline {
    type V = PipelineView;

    closed spec fn view(&self) -> PipelineView {
        PipelineView { stages: self.stages.deep_view(), background: self.background }
    }
}

impl Pipeline {
    #[verifier::type_invariant]
    spec fn valid(&self) -> bool {
        self@.wf()
    }

    /// The number of stages, which is at least one.
    pub fn len(&self) -> (n: usize)
        ensures
            n == self@.stages.len(),
            n >= 1,
            self@.wf(),
    {
        proof {
            use_type_invariant(self);
        }
        self.stages.len()
    }

    /// The stage at `index`, counted from zero.
    pub fn stage(&self, index: usize) -> (s: &Stage)
        requires
            index < self@.stages.len(),
        ensures
            s@ == self@.stages[index as int],
    {
        &self.stages[index]
    }

    /// Whether the plan runs in the background.
    pub fn background(&self) -> (b: bool)
        ensures
            b == self@.background,
    {
        self.background
    }

    /// The number of channels that the plan needs.
    pub fn channels(&self) -> (n: usize)
        ensures
            n == self@.channels(),
            self@.wf(),
    {
        proof {
            use_type_invariant(self);
        }
        self.stages.len() - 1
    }
}

/// The stage that a parsed segment describes, with both redirections.
pub open spec fn stage_of(p: Parsed) -> StageView {
    StageView { command: join(p.words), input: p.input, output: p.output }
}

/// The text of a single command: the line without surrounding white space
/// and without one background mark at its end.
pub open spec fn single_text(line: Seq<char>) -> Seq<char> {
    let t = trim(line);
    if ends_with(t, BACKGROUND_MARK) {
        trim(t.drop_last())
    } else {
        t
    }
}

/// The plan of a line that holds a single command: one stage with both
/// redirections, in the background where the line ends with the mark.
pub open spec fn single_plan(line: Seq<char>) -> PipelineView {
    PipelineView {
        stages: seq![stage_of(parse(single_text(line)))],
        background: ends_with(trim(line), BACKGROUND_MARK),
    }
}

/// The segments of a line: the pieces between stage marks, each without
/// surrounding white space.
pub open spec fn segments(line: Seq<char>) -> Seq<Seq<char>> {
    let parts = split(line, STAGE_MARK);
    Seq::new(parts.len(), |i: int| trim(parts[i]))
}

/// The command of the last stage: every background mark at the end of
/// `text` is taken off, and then the white space before them.
pub open spec fn last_text(text: Seq<char>) -> Seq<char> {
    if ends_with(text, BACKGROUND_MARK) {
        trim(strip_end(text, BACKGROUND_MARK))
    } else {
        text
    }
}

/// The stage at `index` of the pipeline with segments `segs`. The first
/// and the last segment are parsed: the first keeps its input redirection,
/// the last its output redirection and loses its background marks. A
/// segment in between is the command as it stands.
pub open spec fn chain_stage(segs: Seq<Seq<char>>, index: int) -> StageView {
    let last = segs.len() - 1;
    let p = parse(segs[index]);
    if index == 0 || index == last {
        StageView {
            command: if index == last {
                last_text(join(p.words))
            } else {
                join(p.words)
            },
            input: if index == 0 {
                p.input
            } else {
                None
            },
            output: if index == last {
                p.output
            } else {
                None
            },
        }
    } else {
        StageView { command: segs[index], input: None, output: None }
    }
}

/// The plan of a line that holds a pipeline: one stage for each segment,
/// in the background where the last segment ends with the mark.
pub open spec fn chain_plan(line: Seq<char>) -> PipelineView {
    let segs = segments(line);
    PipelineView {
        stages: Seq::new(segs.len(), |i: int| chain_stage(segs, i)),
        background: ends_with(segs.last(), BACKGROUND_MARK),
    }
}

/// Tells whether the last character of `v` is `mark`.
fn has_tail(v: &Vec<char>, mark: char) -> (b: bool)
    ensures
        b == ends_with(v@, mark),
{
    v.len() > 0 && v[v.len() - 1] == mark
}

/// Parses the segment `seg`.
fn scanned(seg: &Vec<char>) -> (r: Scanned)
    ensures
        r@ == parse(seg@),
{
    let ts = split_words(seg);
    scan_words(&ts)
}

/// Plans a line that holds a single command.
pub fn plan_command(line: &str) -> (p: Pipeline)
    ensures
        p@ == single_plan(line@),
        p@.wf(),
{
    let v = chars_of(line);
    single(&v)
}

/// Plans a line that holds a pipeline.
pub fn plan_pipeline(line: &str) -> (p: Pipeline)
    ensures
        p@ == chain_plan(line@),
        p@.wf(),
{
    let v = chars_of(line);
    chain(&v)
}

/// Plans the single command that the characters `v` hold.
pub(crate) fn single(v: &Vec<char>) -> (p: Pipeline)
    ensures
        p@ == single_plan(v@),
        p@.wf(),
{
    let t = trimmed(v);
    let background = has_tail(&t, BACKGROUND_MARK);
    let text = if background {
        let cut = piece(&t, 0, t.len() - 1);
        proof {
            assert(cut@ =~= t@.drop_last());
        }
        trimmed(&cut)
    } else {
        t
    };
    let s = scanned(&text);
    let command = joined(&s.words);
    let stage = Stage {
        command: string_of(&command),
        input: path_of(&s.input),
        output: path_of(&s.output),
    };
    let mut stages: Vec<Stage> = Vec::new();
    stages.push(stage);
    proof {
        assert(stages.deep_view() =~= seq![stage_of(parse(single_text(v@)))]);
    }
    Pipeline { stages, background }
}

/// Plans the pipeline that the characters `v` hold.
pub(crate) fn chain(v: &Vec<char>) -> (p: Pipeline)
    ensures
        p@ == chain_plan(v@),
        p@.wf(),
{
    let parts = split_at_marks(v, STAGE_MARK);
    let n = parts.len();
    let ghost line = v;
    let ghost segs = segments(line@);
    let mut stages: Vec<Stage> = Vec::new();
    let mut background = false;
    let mut i: usize = 0;
    while i < n
        invariant
            i <= n,
            n == parts.len(),
            n >= 1,
            rows(parts@) == split(line@, STAGE_MARK),
            segs == segments(line@),
            segs.len() == n,
            stages.len() == i,
            forall|k: int| 0 <= k < i ==> (#[trigger] stages[k])@ == chain_stage(segs, k),
            i == n ==> background == ends_with(segs.last(), BACKGROUND_MARK),
        decreases n - i,
    {
        let seg = trimmed(&parts[i]);
        assert(seg@ == segs[i as int]) by {
            assert(rows(parts@)[i as int] == parts[i as int]@);
        }
        let stage = if i == 0 || i == n - 1 {
            let s = scanned(&seg);
            let mut text = joined(&s.words);
            if i == n - 1 && has_tail(&text, BACKGROUND_MARK) {
                let cut = stripped(&text, BACKGROUND_MARK);
                text = trimmed(&cut);
            }
            Stage {
                command: string_of(&text),
                input: if i == 0 {
                    path_of(&s.input)
                } else {
                    None
                },
                output: if i == n - 1 {
                    path_of(&s.output)
                } else {
                    None
                },
            }
        } else {
            Stage { command: string_of(&seg), input: None, output: None }
        };
        if i == n - 1 {
            background = has_tail(&seg, BACKGROUND_MARK);
        }
        assert(stage@ == chain_stage(segs, i as int));
        stages.push(stage);
        i += 1;
    }
    proof {
        assert(stages.deep_view() =~= chain_plan(line@).stages);
    }
    Pipeline { stages, background }
}

/// Both kinds of plan are well formed, whatever the line: there is a
/// stage, only the first stage reads from a file, and only the last writes
/// to one. A single command is one stage and needs no channel.
pub proof fn law_plans_wf(line: Seq<char>)
    ensures
        single_plan(line).wf(),
        single_plan(line).stages.len() == 1,
        single_plan(line).channels() == 0,
        chain_plan(line).wf(),
        chain_plan(line).stages.len() == split(line, STAGE_MARK).len(),
{
    let segs = segments(line);
    let plan = chain_plan(line);
    assert(split(line, STAGE_MARK).len() >= 1);
    assert forall|i: int| 0 <= i < plan.stages.len() implies ((#[trigger] plan.stages[i]).input
        is Some ==> i == 0) && (plan.stages[i].output is Some ==> i == plan.stages.len() - 1) by {
        assert(plan.stages[i] == chain_stage(segs, i));
    }
}

} // verus!
