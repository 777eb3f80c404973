use vssh::launch::{launch, Channel};
use vssh::orchestrate::{Orchestration, Reply, Step};
use vssh::plan::{plan_command, plan_pipeline, Pipeline};

/// Drives an orchestration to its end. Channels get the descriptors 10, 11,
/// 12, ... and processes the identifiers 100, 101, ...; the request whose
/// number in the run, counted from zero, is `fail_at` fails. The result is
/// every step issued, the last word included.
fn run(plan: Pipeline, fail_at: Option<usize>) -> Vec<Step> {
    let mut steps: Vec<Step> = Vec::new();
    let mut descriptor = 10;
    let mut process = 100;
    let (mut machine, mut step) = Orchestration::begin(plan);
    loop {
        let failed = fail_at == Some(steps.len());
        let reply = match &step {
            Step::OpenChannel if failed => Reply::Failed,
            Step::OpenChannel => {
                descriptor += 2;
                Reply::Channel { reader: descriptor - 2, writer: descriptor - 1 }
            }
            Step::Spawn { .. } if failed => Reply::Failed,
            Step::Spawn { .. } => {
                process += 1;
                Reply::Child { process: process - 1 }
            }
            Step::Wait { .. } if failed => Reply::Failed,
            Step::Release { .. } | Step::Wait { .. } | Step::Announce { .. } => Reply::Done,
            Step::Finished | Step::Failed | Step::Abandoned => {
                assert!(machine.done());
                steps.push(step);
                return steps;
            }
        };
        assert!(!machine.done());
        steps.push(step);
        assert!(steps.len() < 1000);
        let (next_machine, next_step) = machine.advance(reply);
        machine = next_machine;
        step = next_step;
    }
}

fn count(steps: &[Step], wanted: fn(&Step) -> bool) -> usize {
    steps.iter().filter(|s| wanted(s)).count()
}

fn is_open(s: &Step) -> bool {
    matches!(s, Step::OpenChannel)
}

fn is_spawn(s: &Step) -> bool {
    matches!(s, Step::Spawn { .. })
}

fn is_release(s: &Step) -> bool {
    matches!(s, Step::Release { .. })
}

fn is_wait(s: &Step) -> bool {
    matches!(s, Step::Wait { .. })
}

fn is_announce(s: &Step) -> bool {
    matches!(s, Step::Announce { .. })
}

fn spawn(line: &str, stage: usize, channels: &Vec<Channel>) -> Step {
    let plan = plan_pipeline(line);
    Step::Spawn { stage, launch: launch(plan.stage(stage), stage, channels) }
}

#[test]
fn foreground_single_command_spawns_and_waits() {
    let steps = run(plan_command("ls -l"), None);
    assert_eq!(
        steps,
        vec![spawn("ls -l", 0, &vec![]), Step::Wait { process: 100 }, Step::Finished]
    );
}

#[test]
fn background_single_command_is_announced_once_and_not_waited_for() {
    let steps = run(plan_command("sleep 5 &"), None);
    assert_eq!(
        steps,
        vec![spawn("sleep 5", 0, &vec![]), Step::Announce { process: 100 }, Step::Finished]
    );
    assert_eq!(count(&steps, is_wait), 0);
    assert_eq!(count(&steps, is_announce), 1);
}

#[test]
fn pipeline_of_three_stages_runs_its_script() {
    let line = "cat < in | grep x | sort > out";
    let channels = vec![Channel { reader: 10, writer: 11 }, Channel { reader: 12, writer: 13 }];
    let steps = run(plan_pipeline(line), None);
    assert_eq!(
        steps,
        vec![
            Step::OpenChannel,
            Step::OpenChannel,
            spawn(line, 0, &channels),
            spawn(line, 1, &channels),
            spawn(line, 2, &channels),
            Step::Release { channel: channels[0] },
            Step::Release { channel: channels[1] },
            Step::Wait { process: 100 },
            Step::Wait { process: 101 },
            Step::Wait { process: 102 },
            Step::Finished,
        ]
    );
}

#[test]
fn pipeline_of_n_stages_has_n_processes_and_one_channel_less() {
    for (line, n) in [("a", 1), ("a | b", 2), ("a | b | c", 3), ("a|b|c|d|e|f|g", 7), ("|", 2)] {
        let steps = run(plan_pipeline(line), None);
        assert_eq!(count(&steps, is_spawn), n);
        assert_eq!(count(&steps, is_open), n - 1);
        assert_eq!(count(&steps, is_release), n - 1);
        assert_eq!(count(&steps, is_wait), n);
        assert_eq!(count(&steps, is_announce), 0);
        assert_eq!(steps.last(), Some(&Step::Finished));
    }
}

#[test]
fn every_channel_is_released_after_the_last_spawn() {
    let steps = run(plan_pipeline("a | b | c | d"), None);
    let last_spawn = steps.iter().rposition(is_spawn).unwrap();
    let first_wait = steps.iter().position(is_wait).unwrap();
    let released: Vec<&Step> = steps[last_spawn + 1..first_wait].iter().collect();
    assert_eq!(
        released,
        vec![
            &Step::Release { channel: Channel { reader: 10, writer: 11 } },
            &Step::Release { channel: Channel { reader: 12, writer: 13 } },
            &Step::Release { channel: Channel { reader: 14, writer: 15 } },
        ]
    );
}

#[test]
fn background_pipeline_announces_its_last_process() {
    let steps = run(plan_pipeline("a | b | c &"), None);
    assert_eq!(count(&steps, is_spawn), 3);
    assert_eq!(count(&steps, is_release), 2);
    assert_eq!(count(&steps, is_wait), 0);
    assert_eq!(
        steps[steps.len() - 2..],
        [Step::Announce { process: 102 }, Step::Finished]
    );
}

#[test]
fn failed_spawn_of_a_single_command_abandons_it() {
    let steps = run(plan_command("ls"), Some(0));
    assert_eq!(steps, vec![spawn("ls", 0, &vec![]), Step::Abandoned]);
}

#[test]
fn failed_channel_releases_what_exists_and_abandons() {
    let steps = run(plan_pipeline("a | b | c"), Some(1));
    assert_eq!(
        steps,
        vec![
            Step::OpenChannel,
            Step::OpenChannel,
            Step::Release { channel: Channel { reader: 10, writer: 11 } },
            Step::Abandoned,
        ]
    );
}

#[test]
fn failed_first_channel_abandons_at_once() {
    let steps = run(plan_pipeline("a | b"), Some(0));
    assert_eq!(steps, vec![Step::OpenChannel, Step::Abandoned]);
}

#[test]
fn failed_spawn_in_a_pipeline_leaves_earlier_stages_alone() {
    let line = "a | b | c";
    let channels = vec![Channel { reader: 10, writer: 11 }, Channel { reader: 12, writer: 13 }];
    let steps = run(plan_pipeline(line), Some(3));
    assert_eq!(
        steps,
        vec![
            Step::OpenChannel,
            Step::OpenChannel,
            spawn(line, 0, &channels),
            spawn(line, 1, &channels),
            Step::Release { channel: channels[0] },
            Step::Release { channel: channels[1] },
            Step::Abandoned,
        ]
    );
    assert_eq!(count(&steps, is_wait), 0);
}

#[test]
fn failed_wait_does_not_stop_the_waiting() {
    let steps = run(plan_pipeline("a | b | c"), Some(7));
    assert_eq!(
        steps[7..],
        [
            Step::Wait { process: 100 },
            Step::Wait { process: 101 },
            Step::Wait { process: 102 },
            Step::Finished,
        ]
    );
}

#[test]
fn failed_wait_for_a_single_command_is_an_error() {
    let steps = run(plan_command("ls"), Some(1));
    assert_eq!(steps, vec![spawn("ls", 0, &vec![]), Step::Wait { process: 100 }, Step::Failed]);
}

#[test]
fn successful_wait_for_a_single_command_finishes_whatever_the_child_did() {
    let (machine, _) = Orchestration::begin(plan_command("false"));
    let (machine, step) = machine.advance(Reply::Child { process: 7 });
    assert_eq!(step, Step::Wait { process: 7 });
    let (machine, step) = machine.advance(Reply::Done);
    assert_eq!(step, Step::Finished);
    assert!(machine.done());
}

#[test]
fn unexpected_reply_to_the_wait_for_a_single_command_is_an_error() {
    let (machine, _) = Orchestration::begin(plan_command("ls"));
    let (machine, _) = machine.advance(Reply::Child { process: 7 });
    let (machine, step) = machine.advance(Reply::Child { process: 8 });
    assert_eq!(step, Step::Failed);
    assert!(machine.done());
}

#[test]
fn failed_orchestration_repeats_its_last_word() {
    let (machine, _) = Orchestration::begin(plan_command("ls"));
    let (machine, _) = machine.advance(Reply::Child { process: 7 });
    let (machine, step) = machine.advance(Reply::Failed);
    assert_eq!(step, Step::Failed);
    let (machine, again) = machine.advance(Reply::Done);
    assert_eq!(again, Step::Failed);
    assert!(machine.done());
}

#[test]
fn failed_wait_for_a_single_command_with_redirections_is_an_error() {
    let steps = run(plan_command("sort < in > out"), Some(1));
    assert_eq!(steps.last(), Some(&Step::Failed));
    assert_eq!(steps.len(), 3);
}

#[test]
fn every_failed_wait_in_a_pipeline_is_passed_over() {
    let (machine, _) = Orchestration::begin(plan_pipeline("a | b"));
    let (machine, _) = machine.advance(Reply::Channel { reader: 3, writer: 4 });
    let (machine, _) = machine.advance(Reply::Child { process: 20 });
    let (machine, _) = machine.advance(Reply::Child { process: 21 });
    let (machine, step) = machine.advance(Reply::Done);
    assert_eq!(step, Step::Wait { process: 20 });
    let (machine, step) = machine.advance(Reply::Failed);
    assert_eq!(step, Step::Wait { process: 21 });
    let (machine, step) = machine.advance(Reply::Failed);
    assert_eq!(step, Step::Finished);
    assert!(machine.done());
}

#[test]
fn background_single_command_never_fails() {
    let (machine, _) = Orchestration::begin(plan_command("sleep 5 &"));
    let (machine, step) = machine.advance(Reply::Child { process: 7 });
    assert_eq!(step, Step::Announce { process: 7 });
    let (machine, step) = machine.advance(Reply::Failed);
    assert_eq!(step, Step::Finished);
    assert!(machine.done());
}

#[test]
fn unexpected_reply_while_spawning_abandons() {
    let (machine, first) = Orchestration::begin(plan_command("ls"));
    assert!(matches!(first, Step::Spawn { stage: 0, .. }));
    let (machine, step) = machine.advance(Reply::Done);
    assert_eq!(step, Step::Abandoned);
    assert!(machine.done());
}

#[test]
fn unexpected_reply_while_opening_abandons() {
    let (machine, first) = Orchestration::begin(plan_pipeline("a | b"));
    assert_eq!(first, Step::OpenChannel);
    let (machine, step) = machine.advance(Reply::Child { process: 5 });
    assert_eq!(step, Step::Abandoned);
    assert!(machine.done());
}

#[test]
fn finished_orchestration_repeats_its_last_word() {
    let (machine, _) = Orchestration::begin(plan_command("ls"));
    let (machine, _) = machine.advance(Reply::Child { process: 9 });
    let (machine, step) = machine.advance(Reply::Done);
    assert_eq!(step, Step::Finished);
    assert!(machine.done());
    let (machine, again) = machine.advance(Reply::Failed);
    assert_eq!(again, Step::Finished);
    let (machine, once_more) = machine.advance(Reply::Child { process: 1 });
    assert_eq!(once_more, Step::Finished);
    assert!(machine.done());
}

#[test]
fn abandoned_orchestration_repeats_its_last_word() {
    let (machine, _) = Orchestration::begin(plan_command("ls"));
    let (machine, step) = machine.advance(Reply::Failed);
    assert_eq!(step, Step::Abandoned);
    let (machine, again) = machine.advance(Reply::Done);
    assert_eq!(again, Step::Abandoned);
    assert!(machine.done());
}

#[test]
fn orchestration_is_not_done_while_it_waits() {
    let (machine, _) = Orchestration::begin(plan_command("ls"));
    assert!(!machine.done());
    let (machine, step) = machine.advance(Reply::Child { process: 42 });
    assert_eq!(step, Step::Wait { process: 42 });
    assert!(!machine.done());
}
