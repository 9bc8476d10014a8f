use rshell::engine::Dispatch;
use rshell::engine::StdinPlan;
use rshell::engine::StdoutPlan;
use rshell::engine::plan_execution;
use rshell::parse::CommandPart;
use rshell::parse::ExecutionSource;
use rshell::parse::PipeEndpoint;
use rshell::parse::parse_command_chain;
use rshell::shellenv::ShellEnv;
use rshell::token::tokenize;

fn plan_of_line(line: &str, home: Option<&str>) -> Dispatch {
    let env = ShellEnv { vars: Vec::new(), pid: 1, shell_name: String::new() };
    let parts = parse_command_chain(tokenize(line, &env)).unwrap();
    plan_execution(parts, home.map(|h| h.to_string()))
}

#[test]
fn empty_plan_is_a_no_op() {
    let d = plan_execution(Vec::new(), None);
    assert!(matches!(d, Dispatch::Empty));
}

#[test]
fn exit_is_intercepted_even_ahead_of_a_pipe() {
    assert!(matches!(plan_of_line("exit", None), Dispatch::Exit));
    assert!(matches!(plan_of_line("exit | cat", None), Dispatch::Exit));
}

#[test]
fn cd_uses_argument_then_home_then_root() {
    let Dispatch::ChangeDir(t) = plan_of_line("cd /tmp", Some("/home/u")) else {
        panic!("expected a directory change");
    };
    assert_eq!(t, "/tmp");
    let Dispatch::ChangeDir(t) = plan_of_line("cd", Some("/home/u")) else {
        panic!("expected a directory change");
    };
    assert_eq!(t, "/home/u");
    let Dispatch::ChangeDir(t) = plan_of_line("cd", None) else {
        panic!("expected a directory change");
    };
    assert_eq!(t, "/");
}

#[test]
fn single_command_runs_inherited_and_waited() {
    let Dispatch::RunPipeline(steps) = plan_of_line("ls -l", None) else {
        panic!("expected a pipeline");
    };
    assert_eq!(steps.len(), 1);
    assert_eq!(steps[0].name, "ls");
    assert_eq!(steps[0].args, vec!["-l".to_string()]);
    assert_eq!(steps[0].stdin, StdinPlan::FromTerminal);
    assert_eq!(steps[0].stdout, StdoutPlan::ToTerminal);
    assert!(steps[0].wait);
}

#[test]
fn three_stage_pipeline_waits_only_on_the_terminal_stage() {
    let Dispatch::RunPipeline(steps) = plan_of_line("cat f | grep x | wc", None) else {
        panic!("expected a pipeline");
    };
    assert_eq!(steps.len(), 3);
    assert_eq!(steps[0].stdin, StdinPlan::FromTerminal);
    assert_eq!(steps[0].stdout, StdoutPlan::CapturePipe);
    assert_eq!(steps[1].stdin, StdinPlan::FromPreviousPipe);
    assert_eq!(steps[1].stdout, StdoutPlan::CapturePipe);
    assert_eq!(steps[2].stdin, StdinPlan::FromPreviousPipe);
    assert_eq!(steps[2].stdout, StdoutPlan::ToTerminal);
    assert_eq!(
        steps.iter().map(|s| s.wait).collect::<Vec<bool>>(),
        vec![false, false, true]
    );
}

#[test]
fn redirections_become_file_wiring() {
    let Dispatch::RunPipeline(steps) = plan_of_line("sort < in.txt >> out.txt", None) else {
        panic!("expected a pipeline");
    };
    assert_eq!(steps.len(), 1);
    assert_eq!(steps[0].stdin, StdinPlan::FromFile("in.txt".to_string()));
    assert_eq!(
        steps[0].stdout,
        StdoutPlan::ToFile("out.txt".to_string(), true)
    );
    assert!(steps[0].wait);
    let Dispatch::RunPipeline(steps) = plan_of_line("sort > out.txt", None) else {
        panic!("expected a pipeline");
    };
    assert_eq!(
        steps[0].stdout,
        StdoutPlan::ToFile("out.txt".to_string(), false)
    );
}

#[test]
fn pipe_read_without_upstream_falls_back_to_terminal() {
    let part = CommandPart::Execute {
        name: "cat".to_string(),
        args: Vec::new(),
        stdin: ExecutionSource::Pipe(PipeEndpoint::Read),
        stdout: ExecutionSource::Inherit,
    };
    let Dispatch::RunPipeline(steps) = plan_execution(vec![part], None) else {
        panic!("expected a pipeline");
    };
    assert_eq!(steps[0].stdin, StdinPlan::FromTerminal);
    assert!(steps[0].wait);
}

#[test]
fn mid_chain_file_redirect_keeps_handle_pending() {
    let Dispatch::RunPipeline(steps) = plan_of_line("a | b < f", None) else {
        panic!("expected a pipeline");
    };
    assert_eq!(steps.len(), 2);
    assert_eq!(steps[0].stdout, StdoutPlan::CapturePipe);
    assert!(!steps[0].wait);
    assert_eq!(steps[1].stdin, StdinPlan::FromFile("f".to_string()));
    assert!(!steps[1].wait);
}

#[test]
fn cd_deeper_in_a_chain_is_not_special_cased() {
    let Dispatch::RunPipeline(steps) = plan_of_line("ls | cd", None) else {
        panic!("expected a pipeline");
    };
    assert_eq!(steps.len(), 2);
    assert_eq!(steps[1].name, "cd");
}
