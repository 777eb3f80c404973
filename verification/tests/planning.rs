use vssh::plan::{plan_command, plan_pipeline, Pipeline, Stage};

fn stage(command: &str, input: Option<&str>, output: Option<&str>) -> Stage {
    Stage {
        command: command.to_string(),
        input: input.map(|s| s.to_string()),
        output: output.map(|s| s.to_string()),
    }
}

fn stages(plan: &Pipeline) -> Vec<&Stage> {
    (0..plan.len()).map(|i| plan.stage(i)).collect()
}

#[test]
fn single_command_has_one_stage_and_no_channel() {
    let plan = plan_command("ls -l");
    assert_eq!(plan.len(), 1);
    assert_eq!(plan.channels(), 0);
    assert!(!plan.background());
    assert_eq!(*plan.stage(0), stage("ls -l", None, None));
}

#[test]
fn single_command_with_output_redirection() {
    let plan = plan_command("echo hello > f.txt");
    assert_eq!(stages(&plan), vec![&stage("echo hello", None, Some("f.txt"))]);
    assert!(!plan.background());
}

#[test]
fn single_command_with_both_redirections() {
    let plan = plan_command("  sort < in.txt > out.txt  ");
    assert_eq!(stages(&plan), vec![&stage("sort", Some("in.txt"), Some("out.txt"))]);
}

#[test]
fn single_command_in_the_background() {
    let plan = plan_command("sleep 5 &");
    assert!(plan.background());
    assert_eq!(stages(&plan), vec![&stage("sleep 5", None, None)]);
    let close = plan_command("sleep 5&  ");
    assert!(close.background());
    assert_eq!(stages(&close), vec![&stage("sleep 5", None, None)]);
}

#[test]
fn single_command_loses_one_background_mark_only() {
    let plan = plan_command("sleep 1 &&");
    assert!(plan.background());
    assert_eq!(stages(&plan), vec![&stage("sleep 1 &", None, None)]);
}

#[test]
fn single_command_with_a_mark_inside_is_in_the_foreground() {
    let plan = plan_command("echo a & b");
    assert!(!plan.background());
    assert_eq!(stages(&plan), vec![&stage("echo a & b", None, None)]);
}

#[test]
fn single_command_of_a_mark_alone_is_empty() {
    let plan = plan_command("&");
    assert!(plan.background());
    assert_eq!(stages(&plan), vec![&stage("", None, None)]);
}

#[test]
fn single_background_command_with_redirection() {
    let plan = plan_command("make > log &");
    assert!(plan.background());
    assert_eq!(stages(&plan), vec![&stage("make", None, Some("log"))]);
}

#[test]
fn pipeline_of_two_stages() {
    let plan = plan_pipeline("printf 'b\\na\\nc\\n' | sort");
    assert_eq!(plan.len(), 2);
    assert_eq!(plan.channels(), 1);
    assert!(!plan.background());
    assert_eq!(
        stages(&plan),
        vec![&stage("printf 'b\\na\\nc\\n'", None, None), &stage("sort", None, None)]
    );
}

#[test]
fn pipeline_has_one_channel_less_than_stages() {
    for (line, n) in [("a", 1), ("a|b", 2), ("a | b | c", 3), ("a|b|c|d|e", 5), ("||", 3)] {
        let plan = plan_pipeline(line);
        assert_eq!(plan.len(), n);
        assert_eq!(plan.channels(), n - 1);
    }
}

#[test]
fn pipeline_redirects_at_its_ends_only() {
    let plan = plan_pipeline("cat < in | grep x | sort > out");
    assert_eq!(
        stages(&plan),
        vec![
            &stage("cat", Some("in"), None),
            &stage("grep x", None, None),
            &stage("sort", None, Some("out")),
        ]
    );
}

#[test]
fn pipeline_drops_an_output_redirection_of_its_first_stage() {
    let plan = plan_pipeline("a > f | b");
    assert_eq!(stages(&plan), vec![&stage("a", None, None), &stage("b", None, None)]);
}

#[test]
fn pipeline_drops_an_input_redirection_of_its_last_stage() {
    let plan = plan_pipeline("a | b < x");
    assert_eq!(stages(&plan), vec![&stage("a", None, None), &stage("b", None, None)]);
}

#[test]
fn pipeline_keeps_an_inner_stage_as_it_stands() {
    let plan = plan_pipeline("a |  b < x  > y &  | c");
    assert_eq!(
        stages(&plan),
        vec![
            &stage("a", None, None),
            &stage("b < x  > y &", None, None),
            &stage("c", None, None),
        ]
    );
    assert!(!plan.background());
}

#[test]
fn pipeline_in_the_background() {
    let plan = plan_pipeline("cat < in | sort > out &");
    assert!(plan.background());
    assert_eq!(
        stages(&plan),
        vec![&stage("cat", Some("in"), None), &stage("sort", None, Some("out"))]
    );
}

#[test]
fn pipeline_takes_every_background_mark_off_its_last_stage() {
    let plan = plan_pipeline("a | sort &&&");
    assert!(plan.background());
    assert_eq!(*plan.stage(1), stage("sort", None, None));
    let spaced = plan_pipeline("a | sort & &");
    assert!(spaced.background());
    assert_eq!(*spaced.stage(1), stage("sort &", None, None));
}

#[test]
fn pipeline_keeps_a_background_mark_on_its_first_stage() {
    let plan = plan_pipeline("a & | b");
    assert!(!plan.background());
    assert_eq!(stages(&plan), vec![&stage("a &", None, None), &stage("b", None, None)]);
}

#[test]
fn pipeline_background_goes_by_the_segment_not_by_the_command() {
    let plan = plan_pipeline("a | b & > out");
    assert!(!plan.background());
    assert_eq!(*plan.stage(1), stage("b", None, Some("out")));
    let hidden = plan_pipeline("a | b > &");
    assert!(hidden.background());
    assert_eq!(*hidden.stage(1), stage("b", None, Some("&")));
}

#[test]
fn pipeline_with_empty_segments() {
    let plan = plan_pipeline("a||b|");
    assert_eq!(
        stages(&plan),
        vec![
            &stage("a", None, None),
            &stage("", None, None),
            &stage("b", None, None),
            &stage("", None, None),
        ]
    );
}

#[test]
fn pipeline_of_one_stage_redirects_both_ways() {
    let plan = plan_pipeline("sort < in > out");
    assert_eq!(stages(&plan), vec![&stage("sort", Some("in"), Some("out"))]);
}
