use simple_bot::action::{Builtin, Reaction};
use simple_bot::message::{ChatMode, Message, Target};
use simple_bot::reaction::{process_result, Execution, Invocation, ProcessOutput};

fn message(uid: Option<Vec<u8>>) -> Message {
    Message {
        target: Target::Client(4),
        invoker_id: 4,
        invoker_name: "bob".to_string(),
        invoker_uid: uid,
        message: "hello there".to_string(),
    }
}

fn strings(v: &[&str]) -> Vec<String> {
    v.iter().map(|s| s.to_string()).collect()
}

#[test]
fn plain_reaction_is_its_text() {
    let r = Reaction::Plain("hi".to_string());
    assert_eq!(r.execute(&message(None), true), Execution::Done(Some("hi".to_string())));
}

#[test]
fn builtin_reaction_is_a_call() {
    let r = Reaction::Function(Builtin::List);
    assert_eq!(r.execute(&message(None), true), Execution::Call(Builtin::List));
}

#[test]
fn command_is_split_at_spaces_and_gets_context() {
    let r = Reaction::Command("fortune -s  x".to_string());
    let expected = Invocation {
        program: "fortune".to_string(),
        args: strings(&["-s", "", "x", "client", "hello there", "bob"]),
    };
    assert_eq!(r.execute(&message(None), true), Execution::Spawn(expected));
}

#[test]
fn command_gets_the_identity_in_base64() {
    let r = Reaction::Command("id".to_string());
    let expected = Invocation {
        program: "id".to_string(),
        args: strings(&["client", "hello there", "bob", "AQID"]),
    };
    assert_eq!(r.execute(&message(Some(vec![1, 2, 3])), true), Execution::Spawn(expected));
}

#[test]
fn shell_script_runs_under_sh() {
    let r = Reaction::Shell("echo $1".to_string());
    let expected = Invocation {
        program: "sh".to_string(),
        args: strings(&["-c", "echo $1", "sh", "client", "hello there", "bob", "Zm9v"]),
    };
    assert_eq!(r.execute(&message(Some(b"foo".to_vec())), true), Execution::Spawn(expected));
}

#[test]
fn labels_of_targets_and_modes() {
    assert_eq!(Reaction::get_target(&Target::Server), "server");
    assert_eq!(Reaction::get_target(&Target::Channel), "channel");
    assert_eq!(Reaction::get_target(&Target::Client(1)), "client");
    assert_eq!(Reaction::get_target(&Target::Poke(1)), "poke");
    assert_eq!(Reaction::get_mode(&Some(ChatMode::Server)), "server");
    assert_eq!(Reaction::get_mode(&Some(ChatMode::Channel)), "channel");
    assert_eq!(Reaction::get_mode(&Some(ChatMode::Client)), "client");
    assert_eq!(Reaction::get_mode(&None), "poke");
}

#[test]
fn failed_process_suppresses() {
    assert_eq!(process_result(&ProcessOutput::Failed), Some(String::new()));
}

#[test]
fn nonzero_exit_declines() {
    let out = ProcessOutput::Exited { success: false, stdout: b"ignored".to_vec() };
    assert_eq!(process_result(&out), None);
}

#[test]
fn successful_output_is_the_reply() {
    let out = ProcessOutput::Exited { success: true, stdout: "grüß\n".as_bytes().to_vec() };
    assert_eq!(process_result(&out), Some("grüß\n".to_string()));
}

#[test]
fn undecodable_output_suppresses() {
    let out = ProcessOutput::Exited { success: true, stdout: vec![0xff, 0xfe] };
    assert_eq!(process_result(&out), Some(String::new()));
}

#[test]
fn shell_script_runs_under_cmd_elsewhere() {
    let r = Reaction::Shell("echo %1".to_string());
    let expected = Invocation {
        program: "cmd".to_string(),
        args: strings(&["/C", "echo %1", "client", "hello there", "bob"]),
    };
    assert_eq!(r.execute(&message(None), false), Execution::Spawn(expected));
}
