//! What a freshly created process does before it becomes the command: the
//! descriptor wiring, in order, and then the program image.
//!
//! `launch` builds the whole of it for one stage. `proceed` hands it out
//! one action at a time and decides what a failure means: the process
//! exits at once, so that it never goes on as a copy of its parent.

use crate::parse::externalize;
use crate::plan::{Stage, StageView};
use crate::text::words;
use vstd::prelude::*;

verus! {

/// The descriptor slot of standard input.
pub const STANDARD_INPUT: i32 = 0;

/// The descriptor slot of standard output.
pub const STANDARD_OUTPUT: i32 = 1;

/// The permission bits of a file that an output redirection creates:
/// read and write for the owner, read for the group and for others.
pub const OUTPUT_MODE: u32 = 0o644;

/// The exit status of a process that could not become its command.
pub const FAILURE_STATUS: i32 = 1;

/// The two descriptors of one channel between neighbouring stages.
#[derive(Clone, Copy, PartialEq, Eq, Debug)]
pub struct Channel {
    pub reader: i32,
    pub writer: i32,
}

/// How a redirection file is opened: `Read` is read-only; `Write` is
/// write-only, creates the file where it is missing and empties it where it
/// exists.
#[derive(Clone, Copy, PartialEq, Eq, Debug)]
pub enum Access {
    Read,
    Write,
}

/// One wiring step.
#[derive(PartialEq, Eq, Debug)]
pub enum Wiring {
    /// Open `path` with `access` and permission bits `mode`, duplicate the
    /// opened descriptor onto `slot`, and close the opened descriptor.
    Redirect { path: String, access: Access, mode: u32, slot: i32 },
    /// Duplicate `descriptor` onto `slot`.
    Duplicate { descriptor: i32, slot: i32 },
    /// Close `descriptor`. A failure is ignored: the step counts as
    /// carried out.
    Close { descriptor: i32 },
}

/// The model of a `Wiring`.
pub enum WiringView {
    Redirect { path: Seq<char>, access: Access, mode: u32, slot: i32 },
    Duplicate { descriptor: i32, slot: i32 },
    Close { descriptor: i32 },
}

impl View for Wiring {
    type V = WiringView;

    open spec fn view(&self) -> WiringView {
        match *self {
            Wiring::Redirect { path, access, mode, slot } => WiringView::Redirect {
                path: path@,
                access,
                mode,
                slot,
            },
            Wiring::Duplicate { descriptor, slot } => WiringView::Duplicate { descriptor, slot },
            Wiring::Close { descriptor } => WiringView::Close { descriptor },
        }
    }
}

impl DeepView for Wiring {
    type V = WiringView;

    open spec fn deep_view(&self) -> WiringView {
        self@
    }
}

/// What the process becomes once it is wired.
#[derive(PartialEq, Eq, Debug)]
pub enum Image {
    /// Replace the program image: `arguments[0]` names the program, looked
    /// up on the search path, and `arguments` is its argument vector.
    Replace { arguments: Vec<String> },
    /// Exit with `status` without replacing the image.
    Exit { status: i32 },
}

/// The model of an `Image`.
pub enum ImageView {
    Replace { arguments: Seq<Seq<char>> },
    Exit { status: i32 },
}

impl View for Image {
    type V = ImageView;

    open spec fn view(&self) -> ImageView {
        match *self {
            Image::Replace { arguments } => ImageView::Replace {
                arguments: arguments.deep_view(),
            },
            Image::Exit { status } => ImageView::Exit { status },
        }
    }
}

/// Everything a new process does: the wiring steps, in order, and then the
/// image. `proceed` says which of them is next.
#[derive(PartialEq, Eq, Debug)]
pub struct Launch {
    pub wiring: Vec<Wiring>,
    pub image: Image,
}

/// The model of a `Launch`.
pub struct LaunchView {
    pub wiring: Seq<WiringView>,
    pub image: ImageView,
}

impl View for Launch {
    type V = LaunchView;

    open spec fn view(&self) -> LaunchView {
        LaunchView { wiring: self.wiring.deep_view(), image: self.image@ }
    }
}

/// The descriptors of the channels `cs`, in the order in which they are
/// closed: of each channel in turn its reader, then its writer.
pub open spec fn ends(cs: Seq<Channel>) -> Seq<i32> {
    Seq::new(
        2 * cs.len(),
        |k: int|
            if k % 2 == 0 {
                cs[k / 2].reader
            } else {
                cs[k / 2].writer
            },
    )
}

/// The redirections of `stage`: standard input from its input file, then
/// standard output to its output file.
pub open spec fn redirections(stage: StageView) -> Seq<WiringView> {
    (match stage.input {
        Some(path) => seq![
            WiringView::Redirect { path, access: Access::Read, mode: 0, slot: STANDARD_INPUT },
        ],
        None => Seq::empty(),
    }) + (match stage.output {
        Some(path) => seq![
            WiringView::Redirect {
                path,
                access: Access::Write,
                mode: OUTPUT_MODE,
                slot: STANDARD_OUTPUT,
            },
        ],
        None => Seq::empty(),
    })
}

/// The links of the stage at `index` to its neighbours: every stage but
/// the first reads from the channel before it, every stage but the last
/// writes to the channel after it. `cs` holds one channel less than there
/// are stages.
pub open spec fn links(index: int, cs: Seq<Channel>) -> Seq<WiringView> {
    (if index > 0 {
        seq![WiringView::Duplicate { descriptor: cs[index - 1].reader, slot: STANDARD_INPUT }]
    } else {
        Seq::empty()
    }) + (if index < cs.len() {
        seq![WiringView::Duplicate { descriptor: cs[index].writer, slot: STANDARD_OUTPUT }]
    } else {
        Seq::empty()
    })
}

/// One `Close` step for each descriptor of `ds`, in order.
pub open spec fn closings(ds: Seq<i32>) -> Seq<WiringView> {
    Seq::new(ds.len(), |k: int| WiringView::Close { descriptor: ds[k] })
}

/// The image of a command with the words `arguments`: the command itself,
/// or an exit with `FAILURE_STATUS` where there is no word.
pub open spec fn image_of(arguments: Seq<Seq<char>>) -> ImageView {
    if arguments.len() == 0 {
        ImageView::Exit { status: FAILURE_STATUS }
    } else {
        ImageView::Replace { arguments }
    }
}

/// What the process of the stage at `index` does, given the channels `cs`
/// of its pipeline: the file redirections, then the links to the
/// neighbouring stages, which take precedence on the same slot, then the
/// closing of every channel descriptor, and then the image.
pub open spec fn launch_of(stage: StageView, index: int, cs: Seq<Channel>) -> LaunchView {
    LaunchView {
        wiring: redirections(stage) + links(index, cs) + closings(ends(cs)),
        image: image_of(words(stage.command)),
    }
}

/// Builds what the process of `stage`, the stage at `index`, does.
pub fn launch(stage: &Stage, index: usize, channels: &Vec<Channel>) -> (r: Launch)
    requires
        index <= channels.len(),
    ensures
        r@ == launch_of(stage@, index as int, channels@),
{
    let mut wiring: Vec<Wiring> = Vec::new();
    match &stage.input {
        Some(path) => {
            wiring.push(
                Wiring::Redirect {
                    path: path.clone(),
                    access: Access::Read,
                    mode: 0,
                    slot: STANDARD_INPUT,
                },
            );
        },
        None => {},
    }
    match &stage.output {
        Some(path) => {
            wiring.push(
                Wiring::Redirect {
                    path: path.clone(),
                    access: Access::Write,
                    mode: OUTPUT_MODE,
                    slot: STANDARD_OUTPUT,
                },
            );
        },
        None => {},
    }
    proof {
        assert(wiring.deep_view() =~= redirections(stage@));
    }
    if index > 0 {
        wiring.push(
            Wiring::Duplicate { descriptor: channels[index - 1].reader, slot: STANDARD_INPUT },
        );
    }
    if index < channels.len() {
        wiring.push(
            Wiring::Duplicate { descriptor: channels[index].writer, slot: STANDARD_OUTPUT },
        );
    }
    let ghost head = redirections(stage@) + links(index as int, channels@);
    proof {
        assert(wiring.deep_view() =~= head);
    }
    let mut k: usize = 0;
    while k < channels.len()
        invariant
            k <= channels.len(),
            wiring.deep_view() == head + closings(ends(channels@)).take(2 * k),
        decreases channels.len() - k,
    {
        let ghost before = wiring.deep_view();
        wiring.push(Wiring::Close { descriptor: channels[k].reader });
        wiring.push(Wiring::Close { descriptor: channels[k].writer });
        proof {
            let all = closings(ends(channels@));
            assert(all[2 * k] == WiringView::Close { descriptor: channels[k as int].reader });
            assert(all[2 * k + 1] == WiringView::Close { descriptor: channels[k as int].writer });
            assert(wiring.deep_view() =~= before.push(all[2 * k]).push(all[2 * k + 1]));
            assert(all.take(2 * (k + 1)) =~= all.take(2 * k).push(all[2 * k]).push(
                all[2 * k + 1],
            ));
        }
        k += 1;
    }
    proof {
        let all = closings(ends(channels@));
        assert(all.take(2 * k) =~= all);
    }
    let arguments = externalize(stage.command.as_str());
    let image = if arguments.len() == 0 {
        Image::Exit { status: FAILURE_STATUS }
    } else {
        Image::Replace { arguments }
    };
    Launch { wiring, image }
}

/// What a new process does next.
#[derive(PartialEq, Eq, Debug)]
pub enum Action<'a> {
    /// Carry out the wiring step `step`.
    Wire { step: &'a Wiring },
    /// Replace the program image: `arguments[0]` names the program and
    /// `arguments` is its argument vector. A replacement that succeeds
    /// does not come back.
    Replace { arguments: &'a Vec<String> },
    /// Exit with `status`, at once.
    Exit { status: i32 },
}

/// The model of an `Action`.
pub enum ActionView {
    Wire { step: WiringView },
    Replace { arguments: Seq<Seq<char>> },
    Exit { status: i32 },
}

impl<'a> View for Action<'a> {
    type V = ActionView;

    open spec fn view(&self) -> ActionView {
        match *self {
            Action::Wire { step } => ActionView::Wire { step: step@ },
            Action::Replace { arguments } => ActionView::Replace {
                arguments: arguments.deep_view(),
            },
            Action::Exit { status } => ActionView::Exit { status },
        }
    }
}

/// The action of a process that has carried out `done` actions of
/// `launch`, the last of them with success or not.
///
/// After a failure the process exits with `FAILURE_STATUS`, whatever would
/// have come next. Otherwise the wiring steps come in order, and after
/// the last of them the image. Where the process is still there after the
/// image, the replacement has failed: it exits with `FAILURE_STATUS`.
pub open spec fn following(launch: LaunchView, done: nat, succeeded: bool) -> ActionView {
    if done > 0 && !succeeded {
        ActionView::Exit { status: FAILURE_STATUS }
    } else if done < launch.wiring.len() {
        ActionView::Wire { step: launch.wiring[done as int] }
    } else if done == launch.wiring.len() {
        match launch.image {
            ImageView::Replace { arguments } => ActionView::Replace { arguments },
            ImageView::Exit { status } => ActionView::Exit { status },
        }
    } else {
        ActionView::Exit { status: FAILURE_STATUS }
    }
}

/// Tells a new process what to do next: `done` is the number of actions
/// of `launch` that it has carried out, and `succeeded` says how the last
/// of them went. Before the first action `succeeded` says nothing.
pub fn proceed<'a>(launch: &'a Launch, done: usize, succeeded: bool) -> (r: Action<'a>)
    ensures
        r@ == following(launch@, done as nat, succeeded),
{
    if done > 0 && !succeeded {
        Action::Exit { status: FAILURE_STATUS }
    } else if done < launch.wiring.len() {
        Action::Wire { step: &launch.wiring[done] }
    } else if done == launch.wiring.len() {
        match &launch.image {
            Image::Replace { arguments } => Action::Replace { arguments },
            Image::Exit { status } => Action::Exit { status: *status },
        }
    } else {
        Action::Exit { status: FAILURE_STATUS }
    }
}

/// A failure ends the process: whatever action failed, and however many
/// are left, the next action is the exit with `FAILURE_STATUS`. No later
/// wiring step is carried out and the image is not replaced.
pub proof fn law_failure_exits(launch: LaunchView, done: nat)
    requires
        done > 0,
    ensures
        following(launch, done, false) == (ActionView::Exit { status: FAILURE_STATUS }),
{
}

/// A replacement that comes back has failed, whatever is said of it: the
/// process exits with `FAILURE_STATUS` and does nothing else.
pub proof fn law_replacement_exits(launch: LaunchView, done: nat, succeeded: bool)
    requires
        done > launch.wiring.len(),
    ensures
        following(launch, done, succeeded) == (ActionView::Exit { status: FAILURE_STATUS }),
{
}

/// While nothing fails, a process carries out the wiring of its launch in
/// order and then takes its image; a command without words exits with
/// `FAILURE_STATUS` in place of a replacement.
pub proof fn law_success_goes_on(stage: StageView, index: int, cs: Seq<Channel>, done: nat)
    requires
        done <= launch_of(stage, index, cs).wiring.len(),
    ensures
        following(launch_of(stage, index, cs), done, true) == if done < launch_of(
            stage,
            index,
            cs,
        ).wiring.len() {
            ActionView::Wire { step: launch_of(stage, index, cs).wiring[done as int] }
        } else if words(stage.command).len() == 0 {
            ActionView::Exit { status: FAILURE_STATUS }
        } else {
            ActionView::Replace { arguments: words(stage.command) }
        },
{
}

/// An input file that cannot be opened stops the process before anything
/// else happens: the input redirection is the first action of a stage
/// that has one, and after its failure the process exits. The output file
/// is not opened and the image is not replaced.
pub proof fn law_failed_input_stops(stage: StageView, index: int, cs: Seq<Channel>)
    requires
        stage.input is Some,
    ensures
        following(launch_of(stage, index, cs), 0, true) == (ActionView::Wire {
            step: WiringView::Redirect {
                path: stage.input->0,
                access: Access::Read,
                mode: 0,
                slot: STANDARD_INPUT,
            },
        }),
        following(launch_of(stage, index, cs), 1, false) == (ActionView::Exit {
            status: FAILURE_STATUS,
        }),
{
    let wiring = launch_of(stage, index, cs).wiring;
    assert(redirections(stage).len() >= 1);
    assert(wiring[0] == redirections(stage)[0]);
}

} // verus!
