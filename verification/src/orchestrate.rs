//! The orchestration of one plan: which request the driver carries out
//! next, given how the last one went.
//!
//! The driver performs each `Step` against the operating system and hands
//! back a `Reply`. The orchestration opens the channels, spawns the stages
//! from left to right, releases every channel in the parent, and then waits
//! for the children or announces the last of them.
//!
//! Two limits are part of the design. A process in the background is
//! announced and then forgotten: nothing waits for it later. And where a
//! stage cannot be created, the stages before it are left running: nothing
//! ends them.

use crate::launch::{launch, launch_of, Channel, Launch, LaunchView};
use crate::plan::{Pipeline, PipelineView};
use vstd::prelude::*;

verus! {

/// A request to the driver.
#[derive(PartialEq, Eq, Debug)]
pub enum Step {
    /// Create one channel. The driver answers `Reply::Channel` with its
    /// two descriptors, or `Reply::Failed`.
    OpenChannel,
    /// Create the process of the stage at `stage`, which carries out
    /// `launch`. The driver answers `Reply::Child` with the new process's
    /// identifier, as soon as the process exists, or `Reply::Failed`.
    Spawn { stage: usize, launch: Launch },
    /// Close both descriptors of `channel` in the parent, the reader
    /// first. A failure is ignored: the driver answers `Reply::Done`.
    Release { channel: Channel },
    /// Wait until `process` has terminated. The driver answers
    /// `Reply::Done`, with whatever status the process ended, or
    /// `Reply::Failed` where waiting itself failed.
    Wait { process: i32 },
    /// Tell the operator that `process` runs in the background. The driver
    /// answers `Reply::Done`.
    Announce { process: i32 },
    /// The plan has been carried out.
    Finished,
    /// The single command of the plan was created, but waiting for it
    /// failed: the command ends as an error of the engine.
    Failed,
    /// The plan has been given up: a channel or a process could not be
    /// created. Processes that exist are left running.
    Abandoned,
}

/// The model of a `Step`.
pub enum StepView {
    OpenChannel,
    Spawn { stage: int, launch: LaunchView },
    Release { channel: Channel },
    Wait { process: i32 },
    Announce { process: i32 },
    Finished,
    Failed,
    Abandoned,
}

impl View for Step {
    type V = StepView;

    open spec fn view(&self) -> StepView {
        match *self {
            Step::OpenChannel => StepView::OpenChannel,
            Step::Spawn { stage, launch } => StepView::Spawn {
                stage: stage as int,
                launch: launch@,
            },
            Step::Release { channel } => StepView::Release { channel },
            Step::Wait { process } => StepView::Wait { process },
            Step::Announce { process } => StepView::Announce { process },
            Step::Finished => StepView::Finished,
            Step::Failed => StepView::Failed,
            Step::Abandoned => StepView::Abandoned,
        }
    }
}

/// How the driver fared with the last step.
#[derive(Clone, Copy, PartialEq, Eq, Debug)]
pub enum Reply {
    /// A channel was created.
    Channel { reader: i32, writer: i32 },
    /// A process was created.
    Child { process: i32 },
    /// The step was carried out and has nothing to report.
    Done,
    /// The step could not be carried out.
    Failed,
}

/// What the orchestration is busy with.
#[derive(Clone, Copy, PartialEq, Eq, Debug)]
pub enum Phase {
    Opening,
    Spawning,
    Releasing,
    Waiting,
    Announcing,
    Done,
}

/// The model of an orchestration: the plan, what the driver has reported
/// so far, and every step issued so far.
pub struct Progress {
    pub plan: PipelineView,
    /// The channels created so far, in order.
    pub channels: Seq<Channel>,
    /// The processes created so far, in the order of their stages.
    pub children: Seq<i32>,
    /// How many channels the parent has released.
    pub released: nat,
    /// How many children have been waited for.
    pub waited: nat,
    pub phase: Phase,
    /// Whether a channel or a process could not be created.
    pub abandoned: bool,
    /// Whether waiting for a process has failed.
    pub failed: bool,
    /// The steps issued so far, oldest first.
    pub history: Seq<StepView>,
}

/// `n` requests for a channel.
pub open spec fn opens(n: nat) -> Seq<StepView> {
    Seq::new(n, |i: int| StepView::OpenChannel)
}

/// The requests to spawn the first `n` stages of `plan`, in order, each
/// with the launch that the channels `cs` give it.
pub open spec fn spawns(plan: PipelineView, cs: Seq<Channel>, n: nat) -> Seq<StepView> {
    Seq::new(
        n,
        |i: int| StepView::Spawn { stage: i, launch: launch_of(plan.stages[i], i, cs) },
    )
}

/// The requests to release the first `n` channels of `cs`, in order.
pub open spec fn releases(cs: Seq<Channel>, n: nat) -> Seq<StepView> {
    Seq::new(n, |i: int| StepView::Release { channel: cs[i] })
}

/// The requests to wait for the first `n` processes of `ps`, in order.
pub open spec fn waits(ps: Seq<i32>, n: nat) -> Seq<StepView> {
    Seq::new(n, |i: int| StepView::Wait { process: ps[i] })
}

/// How a plan ends once its channels are released: in the background the
/// last process is announced and none is waited for; in the foreground
/// every process is waited for, in the order of the stages.
pub open spec fn ending(plan: PipelineView, ps: Seq<i32>) -> Seq<StepView> {
    if plan.background {
        seq![StepView::Announce { process: ps.last() }]
    } else {
        waits(ps, ps.len())
    }
}

/// Every step but the last word of a plan that is carried out to its end,
/// where the driver reported the channels `cs` and the processes `ps`: one
/// channel less than there are stages; then one process for each stage,
/// from left to right; then the release of every channel; then the ending.
pub open spec fn body(plan: PipelineView, cs: Seq<Channel>, ps: Seq<i32>) -> Seq<StepView> {
    opens(plan.channels()) + spawns(plan, cs, plan.stages.len()) + releases(cs, cs.len())
        + ending(plan, ps)
}

/// The steps of a plan that is carried out to its end without a failure:
/// its body, and then `Finished`.
pub open spec fn script(plan: PipelineView, cs: Seq<Channel>, ps: Seq<i32>) -> Seq<StepView> {
    body(plan, cs, ps) + seq![StepView::Finished]
}

impl Progress {
    /// The number of stages.
    pub open spec fn stages(self) -> nat {
        self.plan.stages.len()
    }

    /// The channel descriptors that the parent holds: those of the
    /// channels that it has not released.
    pub open spec fn held(self) -> Seq<Channel> {
        self.channels.skip(self.released as int)
    }

    /// Whether the plan is a single command: one stage, no channel.
    pub open spec fn single(self) -> bool {
        self.plan.stages.len() == 1
    }

    /// The last word of an orchestration in this state. A plan that was
    /// given up ends with `Abandoned`. A single command for which waiting
    /// failed ends with `Failed`. Everything else ends with `Finished`: in
    /// a pipeline a wait that failed is passed over.
    pub open spec fn last_word(self) -> StepView {
        if self.abandoned {
            StepView::Abandoned
        } else if self.failed && self.single() {
            StepView::Failed
        } else {
            StepView::Finished
        }
    }

    /// Whether every channel and every process of the plan exists.
    pub open spec fn complete(self) -> bool {
        &&& self.channels.len() == self.plan.channels()
        &&& self.children.len() == self.stages()
    }

    /// Issues `step`.
    pub open spec fn issue(self, step: StepView) -> (Progress, StepView) {
        (Progress { history: self.history.push(step), ..self }, step)
    }

    /// Asks for the next process.
    pub open spec fn spawn(self) -> (Progress, StepView) {
        let stage = self.children.len() as int;
        Progress { phase: Phase::Spawning, ..self }.issue(
            StepView::Spawn {
                stage,
                launch: launch_of(self.plan.stages[stage], stage, self.channels),
            },
        )
    }

    /// Asks for the release of the next channel, or goes on where none is
    /// left.
    pub open spec fn release(self) -> (Progress, StepView) {
        if self.released < self.channels.len() {
            Progress { phase: Phase::Releasing, ..self }.issue(
                StepView::Release { channel: self.channels[self.released as int] },
            )
        } else {
            self.settle()
        }
    }

    /// With every channel released: gives up where the plan was abandoned,
    /// announces the last process where the plan runs in the background,
    /// and waits otherwise.
    pub open spec fn settle(self) -> (Progress, StepView) {
        if self.abandoned {
            Progress { phase: Phase::Done, ..self }.issue(StepView::Abandoned)
        } else if self.plan.background {
            Progress { phase: Phase::Announcing, ..self }.issue(
                StepView::Announce { process: self.children.last() },
            )
        } else {
            self.wait()
        }
    }

    /// Asks to wait for the next process, or says the last word where
    /// none is left.
    pub open spec fn wait(self) -> (Progress, StepView) {
        if self.waited < self.children.len() {
            Progress { phase: Phase::Waiting, ..self }.issue(
                StepView::Wait { process: self.children[self.waited as int] },
            )
        } else {
            Progress { phase: Phase::Done, ..self }.issue(self.last_word())
        }
    }

    /// The state after `reply` and the step that follows it.
    ///
    /// While channels are opened and processes spawned, any reply but the
    /// expected one abandons the plan: the channels that exist are
    /// released and nothing else is done. A release cannot fail. While
    /// processes are waited for, any reply but `Reply::Done` is a wait
    /// that failed: it is recorded, and the remaining processes are still
    /// waited for. Once done, the orchestration repeats its last word.
    pub open spec fn next(self, reply: Reply) -> (Progress, StepView) {
        match self.phase {
            Phase::Opening => match reply {
                Reply::Channel { reader, writer } => {
                    let s = Progress {
                        channels: self.channels.push(Channel { reader, writer }),
                        ..self
                    };
                    if s.channels.len() < s.plan.channels() {
                        s.issue(StepView::OpenChannel)
                    } else {
                        s.spawn()
                    }
                },
                _ => Progress { abandoned: true, ..self }.release(),
            },
            Phase::Spawning => match reply {
                Reply::Child { process } => {
                    let s = Progress { children: self.children.push(process), ..self };
                    if s.children.len() < s.stages() {
                        s.spawn()
                    } else {
                        s.release()
                    }
                },
                _ => Progress { abandoned: true, ..self }.release(),
            },
            Phase::Releasing => Progress { released: self.released + 1, ..self }.release(),
            Phase::Waiting => Progress {
                waited: self.waited + 1,
                failed: self.failed || !(reply is Done),
                ..self
            }.wait(),
            Phase::Announcing => Progress { phase: Phase::Done, ..self }.issue(
                StepView::Finished,
            ),
            Phase::Done => (self, self.last_word()),
        }
    }

    /// The steps that an orchestration which was not abandoned has issued
    /// by the time it is where it is.
    pub open spec fn expected(self) -> Seq<StepView> {
        let opened = opens(self.plan.channels());
        let spawned = spawns(self.plan, self.channels, self.stages());
        let released = releases(self.channels, self.channels.len());
        match self.phase {
            Phase::Opening => opens(self.channels.len() + 1),
            Phase::Spawning => opened + spawns(
                self.plan,
                self.channels,
                self.children.len() + 1,
            ),
            Phase::Releasing => opened + spawned + releases(self.channels, self.released + 1),
            Phase::Waiting => opened + spawned + released + waits(
                self.children,
                self.waited + 1,
            ),
            Phase::Announcing => opened + spawned + released + ending(self.plan, self.children),
            Phase::Done => body(self.plan, self.channels, self.children) + seq![
                self.last_word(),
            ],
        }
    }

    /// What holds of every state that an orchestration reaches.
    pub open spec fn wf(self) -> bool {
        &&& self.plan.wf()
        &&& self.channels.len() <= self.plan.channels()
        &&& self.children.len() <= self.stages()
        &&& self.released <= self.channels.len()
        &&& self.waited <= self.children.len()
        &&& self.children.len() > 0 ==> self.channels.len() == self.plan.channels()
        &&& !self.abandoned ==> self.history == self.expected()
        &&& self.failed ==> {
            &&& !self.abandoned
            &&& !self.plan.background
            &&& self.waited > 0
            &&& self.phase is Waiting || self.phase is Done
        }
        &&& match self.phase {
            Phase::Opening => {
                &&& !self.abandoned
                &&& self.channels.len() < self.plan.channels()
                &&& self.children.len() == 0
                &&& self.released == 0
                &&& self.waited == 0
            },
            Phase::Spawning => {
                &&& !self.abandoned
                &&& self.channels.len() == self.plan.channels()
                &&& self.children.len() < self.stages()
                &&& self.released == 0
                &&& self.waited == 0
            },
            Phase::Releasing => {
                &&& self.abandoned || self.complete()
                &&& self.released < self.channels.len()
                &&& self.waited == 0
            },
            Phase::Waiting => {
                &&& !self.abandoned
                &&& !self.plan.background
                &&& self.complete()
                &&& self.released == self.channels.len()
                &&& self.waited < self.children.len()
            },
            Phase::Announcing => {
                &&& !self.abandoned
                &&& self.plan.background
                &&& self.complete()
                &&& self.released == self.channels.len()
                &&& self.waited == 0
            },
            Phase::Done => {
                &&& self.released == self.channels.len()
                &&& !self.abandoned ==> {
                    &&& self.complete()
                    &&& self.waited == if self.plan.background {
                        0
                    } else {
                        self.children.len()
                    }
                }
            },
        }
    }
}

/// The state in which the orchestration of `plan` begins, and its first
/// step: a request for a channel, or for the only process where the plan
/// needs no channel.
pub open spec fn start(plan: PipelineView) -> (Progress, StepView) {
    let s = Progress {
        plan,
        channels: Seq::empty(),
        children: Seq::empty(),
        released: 0,
        waited: 0,
        phase: Phase::Opening,
        abandoned: false,
        failed: false,
        history: Seq::empty(),
    };
    if plan.channels() > 0 {
        s.issue(StepView::OpenChannel)
    } else {
        s.spawn()
    }
}

/// An orchestration begins in a well-formed state, with its first step as
/// its whole history.
pub proof fn law_start_wf(plan: PipelineView)
    requires
        plan.wf(),
    ensures
        start(plan).0.wf(),
        start(plan).0.history == seq![start(plan).1],
        start(plan).0.plan == plan,
{
    let s = start(plan).0;
    assert(s.history =~= s.expected());
    assert(s.history =~= seq![start(plan).1]);
}

/// Every reply leads from a well-formed state to a well-formed state.
pub proof fn law_next_wf(s: Progress, reply: Reply)
    requires
        s.wf(),
    ensures
        s.next(reply).0.wf(),
{
    let t = s.next(reply).0;
    if !t.abandoned {
        assert(t.history =~= t.expected());
    }
}

/// The kinds of step.
#[derive(Clone, Copy, PartialEq, Eq, Debug)]
pub enum Kind {
    OpenChannel,
    Spawn,
    Release,
    Wait,
    Announce,
    Finished,
    Failed,
    Abandoned,
}

/// The kind of `step`.
pub open spec fn kind_of(step: StepView) -> Kind {
    match step {
        StepView::OpenChannel => Kind::OpenChannel,
        StepView::Spawn { .. } => Kind::Spawn,
        StepView::Release { .. } => Kind::Release,
        StepView::Wait { .. } => Kind::Wait,
        StepView::Announce { .. } => Kind::Announce,
        StepView::Finished => Kind::Finished,
        StepView::Failed => Kind::Failed,
        StepView::Abandoned => Kind::Abandoned,
    }
}

/// How many steps of `steps` are of the kind `kind`.
pub open spec fn count(steps: Seq<StepView>, kind: Kind) -> nat
    decreases steps.len(),
{
    if steps.len() == 0 {
        0
    } else {
        count(steps.drop_last(), kind) + if kind_of(steps.last()) == kind {
            1nat
        } else {
            0nat
        }
    }
}

/// The count of a concatenation is the sum of the counts.
pub proof fn lemma_count_add(a: Seq<StepView>, b: Seq<StepView>, kind: Kind)
    ensures
        count(a + b, kind) == count(a, kind) + count(b, kind),
    decreases b.len(),
{
    if b.len() == 0 {
        assert(a + b =~= a);
    } else {
        assert((a + b).drop_last() =~= a + b.drop_last());
        assert((a + b).last() == b.last());
        lemma_count_add(a, b.drop_last(), kind);
    }
}

/// Where every step of `steps` is of the kind `of`, the count of that
/// kind is the length, and the count of any other kind is zero.
pub proof fn lemma_count_uniform(steps: Seq<StepView>, of: Kind, kind: Kind)
    requires
        forall|i: int| 0 <= i < steps.len() ==> kind_of(#[trigger] steps[i]) == of,
    ensures
        count(steps, kind) == if kind == of {
            steps.len()
        } else {
            0
        },
    decreases steps.len(),
{
    if steps.len() > 0 {
        let rest = steps.drop_last();
        assert forall|i: int| 0 <= i < rest.len() implies kind_of(#[trigger] rest[i]) == of by {
            assert(rest[i] == steps[i]);
        }
        lemma_count_uniform(rest, of, kind);
    }
}

/// An orchestration whose last word is `Finished` has issued exactly the
/// script of its plan, with one channel less than there are stages and one
/// process for each stage.
pub proof fn law_finished_script(s: Progress)
    requires
        s.wf(),
        s.phase is Done,
        s.last_word() is Finished,
    ensures
        s.history == script(s.plan, s.channels, s.children),
        s.channels.len() == s.plan.stages.len() - 1,
        s.children.len() == s.plan.stages.len(),
{
}

/// An orchestration that is done holds no channel descriptor in the
/// parent, whatever its last word.
pub proof fn law_done_holds_nothing(s: Progress)
    requires
        s.wf(),
        s.phase is Done,
    ensures
        s.held() == Seq::<Channel>::empty(),
        s.released == s.channels.len(),
{
    assert(s.held() =~= Seq::<Channel>::empty());
}

/// The script of a plan of N stages asks for exactly N - 1 channels and
/// N processes, releases each of the N - 1 channels once, and finishes
/// once. In the background it waits for no process and announces one; in
/// the foreground it waits for each of the N processes and announces none.
pub proof fn law_script_counts(plan: PipelineView, cs: Seq<Channel>, ps: Seq<i32>)
    requires
        plan.wf(),
        cs.len() == plan.stages.len() - 1,
        ps.len() == plan.stages.len(),
    ensures
        count(script(plan, cs, ps), Kind::OpenChannel) == plan.stages.len() - 1,
        count(script(plan, cs, ps), Kind::Spawn) == plan.stages.len(),
        count(script(plan, cs, ps), Kind::Release) == plan.stages.len() - 1,
        count(script(plan, cs, ps), Kind::Finished) == 1,
        count(script(plan, cs, ps), Kind::Failed) == 0,
        count(script(plan, cs, ps), Kind::Abandoned) == 0,
        count(script(plan, cs, ps), Kind::Wait) == if plan.background {
            0
        } else {
            plan.stages.len()
        },
        count(script(plan, cs, ps), Kind::Announce) == if plan.background {
            1nat
        } else {
            0nat
        },
{
    let a = opens(plan.channels());
    let b = spawns(plan, cs, plan.stages.len());
    let c = releases(cs, cs.len());
    let d = ending(plan, ps);
    let e = seq![StepView::Finished];
    assert forall|kind: Kind|
        count(script(plan, cs, ps), kind) == count(a, kind) + count(b, kind) + count(c, kind)
            + count(d, kind) + count(e, kind) by {
        lemma_count_add(a, b, kind);
        lemma_count_add(a + b, c, kind);
        lemma_count_add(a + b + c, d, kind);
        lemma_count_add(a + b + c + d, e, kind);
    }
    assert forall|kind: Kind|
        count(a, kind) == (if kind == Kind::OpenChannel {
            a.len()
        } else {
            0
        }) && count(b, kind) == (if kind == Kind::Spawn {
            b.len()
        } else {
            0
        }) && count(c, kind) == (if kind == Kind::Release {
            c.len()
        } else {
            0
        }) && count(e, kind) == (if kind == Kind::Finished {
            e.len()
        } else {
            0
        }) && count(d, kind) == (if plan.background {
            if kind == Kind::Announce {
                d.len()
            } else {
                0
            }
        } else {
            if kind == Kind::Wait {
                d.len()
            } else {
                0
            }
        }) by {
        lemma_count_uniform(a, Kind::OpenChannel, kind);
        lemma_count_uniform(b, Kind::Spawn, kind);
        lemma_count_uniform(c, Kind::Release, kind);
        lemma_count_uniform(e, Kind::Finished, kind);
        if plan.background {
            lemma_count_uniform(d, Kind::Announce, kind);
        } else {
            lemma_count_uniform(d, Kind::Wait, kind);
        }
    }
}

/// A single command in the background: its script is the request for its
/// process, the announcement of that process, and the end. Nothing is
/// waited for, and the process is announced once.
pub proof fn law_background_single(plan: PipelineView, process: i32)
    requires
        plan.wf(),
        plan.stages.len() == 1,
        plan.background,
    ensures
        script(plan, Seq::empty(), seq![process]) == seq![
            StepView::Spawn {
                stage: 0,
                launch: launch_of(plan.stages[0], 0, Seq::empty()),
            },
            StepView::Announce { process },
            StepView::Finished,
        ],
        count(script(plan, Seq::empty(), seq![process]), Kind::Wait) == 0,
        count(script(plan, Seq::empty(), seq![process]), Kind::Announce) == 1,
{
    let cs = Seq::<Channel>::empty();
    let ps = seq![process];
    assert(ps.last() == process);
    assert(script(plan, cs, ps) =~= seq![
        StepView::Spawn { stage: 0, launch: launch_of(plan.stages[0], 0, cs) },
        StepView::Announce { process },
        StepView::Finished,
    ]);
    law_script_counts(plan, cs, ps);
}

/// The wait for a single command decides its last word: `Finished` where
/// the wait succeeded, whatever the status of the process, and `Failed`
/// where the wait itself failed.
pub proof fn law_single_wait(s: Progress, reply: Reply)
    requires
        s.wf(),
        s.phase is Waiting,
        s.single(),
    ensures
        s.next(reply).0.phase is Done,
        s.next(reply).0.failed == !(reply is Done),
        s.next(reply).1 == if reply is Done {
            StepView::Finished
        } else {
            StepView::Failed
        },
{
}

/// In a pipeline a wait that failed is recorded and passed over: the step
/// that follows it is the step that follows a wait that succeeded, the
/// wait for the next process or `Finished` after the last.
pub proof fn law_pipeline_drains(s: Progress, reply: Reply)
    requires
        s.wf(),
        s.phase is Waiting,
        !s.single(),
    ensures
        s.next(reply).1 == s.next(Reply::Done).1,
        s.next(reply).1 == if s.waited + 1 < s.children.len() {
            StepView::Wait { process: s.children[(s.waited + 1) as int] }
        } else {
            StepView::Finished
        },
        s.next(reply).0.failed == (s.failed || !(reply is Done)),
{
}

/// Where an orchestration stands after the driver has given `replies`, one
/// after the other, beginning at the state and step `from`.
pub open spec fn run(from: (Progress, StepView), replies: Seq<Reply>) -> (Progress, StepView)
    decreases replies.len(),
{
    if replies.len() == 0 {
        from
    } else {
        run(from.0.next(replies[0]), replies.drop_first())
    }
}

/// What the step says of the state: the orchestration is done exactly
/// when the step is one of the three last words, and then the step is the
/// last word of the state.
pub open spec fn settled(at: (Progress, StepView)) -> bool {
    &&& at.0.wf()
    &&& at.0.phase is Done <==> at.1 is Finished || at.1 is Failed || at.1 is Abandoned
    &&& at.0.phase is Done ==> at.1 == at.0.last_word()
}

/// Whatever the driver replies, and however often, the orchestration of a
/// plan stays well formed, and its step tells where it stands.
pub proof fn law_run_settled(plan: PipelineView, replies: Seq<Reply>)
    requires
        plan.wf(),
    ensures
        settled(run(start(plan), replies)),
        run(start(plan), replies).0.plan == plan,
{
    law_start_wf(plan);
    lemma_run_settled(start(plan), replies);
}

/// One step of `law_run_settled`, from any settled state.
proof fn lemma_run_settled(from: (Progress, StepView), replies: Seq<Reply>)
    requires
        settled(from),
    ensures
        settled(run(from, replies)),
        run(from, replies).0.plan == from.0.plan,
    decreases replies.len(),
{
    if replies.len() > 0 {
        law_next_wf(from.0, replies[0]);
        lemma_run_settled(from.0.next(replies[0]), replies.drop_first());
    }
}

/// Whatever the driver replies: once the orchestration of a plan of N
/// stages says `Finished`, it has issued exactly the script of the plan.
/// It has asked for N - 1 channels and N processes, and the parent holds
/// no channel descriptor.
pub proof fn law_finished_run(plan: PipelineView, replies: Seq<Reply>)
    requires
        plan.wf(),
        run(start(plan), replies).1 is Finished,
    ensures
        ({
            let end = run(start(plan), replies).0;
            &&& end.history == script(plan, end.channels, end.children)
            &&& end.channels.len() == plan.stages.len() - 1
            &&& end.children.len() == plan.stages.len()
            &&& end.held() == Seq::<Channel>::empty()
            &&& count(end.history, Kind::OpenChannel) == plan.stages.len() - 1
            &&& count(end.history, Kind::Spawn) == plan.stages.len()
            &&& count(end.history, Kind::Release) == plan.stages.len() - 1
        }),
{
    let end = run(start(plan), replies).0;
    law_run_settled(plan, replies);
    law_finished_script(end);
    law_done_holds_nothing(end);
    law_script_counts(plan, end.channels, end.children);
}

/// Whatever the driver replies: a plan in the background that says
/// `Finished` has waited for no process and has announced exactly one, the
/// last that was created.
pub proof fn law_background_run(plan: PipelineView, replies: Seq<Reply>)
    requires
        plan.wf(),
        plan.background,
        run(start(plan), replies).1 is Finished,
    ensures
        ({
            let end = run(start(plan), replies).0;
            &&& count(end.history, Kind::Wait) == 0
            &&& count(end.history, Kind::Announce) == 1
            &&& end.history[end.history.len() - 2] == StepView::Announce {
                process: end.children.last(),
            }
        }),
{
    let end = run(start(plan), replies).0;
    law_run_settled(plan, replies);
    law_finished_script(end);
    law_script_counts(plan, end.channels, end.children);
}

/// Whatever the driver replies: the orchestration says `Failed` only for
/// a single command in the foreground for which waiting failed. By then it
/// has asked for the one process and waited for it once, and the parent
/// holds no channel descriptor.
pub proof fn law_failed_run(plan: PipelineView, replies: Seq<Reply>)
    requires
        plan.wf(),
        run(start(plan), replies).1 is Failed,
    ensures
        ({
            let end = run(start(plan), replies).0;
            &&& plan.stages.len() == 1
            &&& !plan.background
            &&& end.failed
            &&& end.children.len() == 1
            &&& end.history == seq![
                StepView::Spawn {
                    stage: 0,
                    launch: launch_of(plan.stages[0], 0, Seq::empty()),
                },
                StepView::Wait { process: end.children[0] },
                StepView::Failed,
            ]
            &&& end.held() == Seq::<Channel>::empty()
        }),
{
    let end = run(start(plan), replies).0;
    law_run_settled(plan, replies);
    law_done_holds_nothing(end);
    assert(end.channels =~= Seq::<Channel>::empty());
    assert(end.history =~= seq![
        StepView::Spawn { stage: 0, launch: launch_of(plan.stages[0], 0, Seq::empty()) },
        StepView::Wait { process: end.children[0] },
        StepView::Failed,
    ]);
}

/// Whatever the driver replies: once the orchestration says `Abandoned`,
/// the parent holds no channel descriptor either.
pub proof fn law_abandoned_run(plan: PipelineView, replies: Seq<Reply>)
    requires
        plan.wf(),
        run(start(plan), replies).1 is Abandoned,
    ensures
        run(start(plan), replies).0.held() == Seq::<Channel>::empty(),
{
    law_run_settled(plan, replies);
    law_done_holds_nothing(run(start(plan), replies).0);
}

/// The orchestration's own record.
struct State {
    plan: Pipeline,
    channels: Vec<Channel>,
    children: Vec<i32>,
    released: usize,
    waited: usize,
    phase: Phase,
    abandoned: bool,
    failed: bool,
    history: Ghost<Seq<StepView>>,
}

impl View for State {
    type V = Progress;

    closed spec fn view(&self) -> Progress {
        Progress {
            plan: self.plan@,
            channels: self.channels@,
            children: self.children@,
            released: self.released as nat,
            waited: self.waited as nat,
            phase: self.phase,
            abandoned: self.abandoned,
            failed: self.failed,
            history: self.history@,
        }
    }
}

impl State {
    fn issue(self, step: Step) -> (r: (State, Step))
        ensures
            (r.0@, r.1@) == self@.issue(step@),
    {
        let ghost history = self.history@.push(step@);
        (State { history: Ghost(history), ..self }, step)
    }

    fn spawn(self) -> (r: (State, Step))
        requires
            self@.children.len() < self@.stages(),
            self@.channels.len() == self@.plan.channels(),
        ensures
            (r.0@, r.1@) == self@.spawn(),
    {
        let stage = self.children.len();
        let step = Step::Spawn {
            stage,
            launch: launch(self.plan.stage(stage), stage, &self.channels),
        };
        State { phase: Phase::Spawning, ..self }.issue(step)
    }

    fn release(self) -> (r: (State, Step))
        requires
            self@.released <= self@.channels.len(),
            self@.waited <= self@.children.len(),
            self@.abandoned || self@.children.len() > 0,
        ensures
            (r.0@, r.1@) == self@.release(),
    {
        if self.released < self.channels.len() {
            let step = Step::Release { channel: self.channels[self.released] };
            State { phase: Phase::Releasing, ..self }.issue(step)
        } else {
            self.settle()
        }
    }

    fn settle(self) -> (r: (State, Step))
        requires
            self@.waited <= self@.children.len(),
            self@.abandoned || self@.children.len() > 0,
        ensures
            (r.0@, r.1@) == self@.settle(),
    {
        if self.abandoned {
            State { phase: Phase::Done, ..self }.issue(Step::Abandoned)
        } else if self.plan.background() {
            let step = Step::Announce { process: self.children[self.children.len() - 1] };
            State { phase: Phase::Announcing, ..self }.issue(step)
        } else {
            self.wait()
        }
    }

    fn wait(self) -> (r: (State, Step))
        requires
            self@.waited <= self@.children.len(),
        ensures
            (r.0@, r.1@) == self@.wait(),
    {
        if self.waited < self.children.len() {
            let step = Step::Wait { process: self.children[self.waited] };
            State { phase: Phase::Waiting, ..self }.issue(step)
        } else {
            let word = self.last_word();
            State { phase: Phase::Done, ..self }.issue(word)
        }
    }

    fn last_word(&self) -> (r: Step)
        ensures
            r@ == self@.last_word(),
    {
        if self.abandoned {
            Step::Abandoned
        } else if self.failed && self.plan.len() == 1 {
            Step::Failed
        } else {
            Step::Finished
        }
    }

    fn next(self, reply: Reply) -> (r: (State, Step))
        requires
            self@.wf(),
        ensures
            (r.0@, r.1@) == self@.next(reply),
    {
        match self.phase {
            Phase::Opening => match reply {
                Reply::Channel { reader, writer } => {
                    let mut s = self;
                    s.channels.push(Channel { reader, writer });
                    if s.channels.len() < s.plan.channels() {
                        s.issue(Step::OpenChannel)
                    } else {
                        s.spawn()
                    }
                },
                _ => State { abandoned: true, ..self }.release(),
            },
            Phase::Spawning => match reply {
                Reply::Child { process } => {
                    let mut s = self;
                    s.children.push(process);
                    if s.children.len() < s.plan.len() {
                        s.spawn()
                    } else {
                        s.release()
                    }
                },
                _ => State { abandoned: true, ..self }.release(),
            },
            Phase::Releasing => {
                let limit = self.channels.len();
                assert(self.released < limit);
                let released = self.released + 1;
                State { released, ..self }.release()
            },
            Phase::Waiting => {
                let limit = self.children.len();
                assert(self.waited < limit);
                let waited = self.waited + 1;
                let failed = self.failed || !matches!(reply, Reply::Done);
                State { waited, failed, ..self }.wait()
            },
            Phase::Announcing => State { phase: Phase::Done, ..self }.issue(Step::Finished),
            Phase::Done => {
                let step = self.last_word();
                (self, step)
            },
        }
    }
}

/// The orchestration of one plan.
pub struct Orchestration {
    state: State,
}

impl View for Orchestration {
    type V = Progress;

    closed spec fn view(&self) -> Progress {
        self.state@
    }
}

impl Orchestration {
    #[verifier::type_invariant]
    spec fn valid(&self) -> bool {
        self@.wf()
    }

    /// Begins the orchestration of `plan`. The second component is the
    /// first step for the driver.
    pub fn begin(plan: Pipeline) -> (r: (Orchestration, Step))
        ensures
            (r.0@, r.1@) == start(plan@),
            r.0@.wf(),
    {
        let needed = plan.channels();
        let s = State {
            plan,
            channels: Vec::new(),
            children: Vec::new(),
            released: 0,
            waited: 0,
            phase: Phase::Opening,
            abandoned: false,
            failed: false,
            history: Ghost(Seq::empty()),
        };
        proof {
            law_start_wf(s@.plan);
        }
        let (state, step) = if needed > 0 {
            s.issue(Step::OpenChannel)
        } else {
            s.spawn()
        };
        (Orchestration { state }, step)
    }

    /// Takes the driver's reply to the last step and gives the next step.
    pub fn advance(self, reply: Reply) -> (r: (Orchestration, Step))
        ensures
            (r.0@, r.1@) == self@.next(reply),
            self@.wf(),
            r.0@.wf(),
    {
        proof {
            use_type_invariant(&self);
            law_next_wf(self@, reply);
        }
        let (state, step) = self.state.next(reply);
        (Orchestration { state }, step)
    }

    /// Whether the orchestration has said its last word.
    pub fn done(&self) -> (b: bool)
        ensures
            b == (self@.phase is Done),
    {
        match self.state.phase {
            Phase::Done => true,
            _ => false,
        }
    }
}

} // verus!
