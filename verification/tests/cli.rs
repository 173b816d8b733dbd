use ideal_harness::cli::{
    chat_args, chat_line, check_fork_paths, check_resume, check_resume_file, command_of,
    event_line, first_difference, fork_boundary, parse_chat_args, parse_fork_args,
    parse_revert_args, parse_timeline_args, timeline_line, ChatArgs, ChatLine, CliCommand,
};
use ideal_harness::json::Json;
use ideal_harness::protocol::Event;
use ideal_harness::session_rpc::{SessionTurnStatus, SessionTurnSummary};

fn args(list: &[&str]) -> Vec<String> {
    list.iter().map(|arg| arg.to_string()).collect()
}

fn defaults() -> ChatArgs {
    ChatArgs::defaults("session.jsonl".into(), "/ws".into())
}

#[test]
fn parse_chat_args_defaults_and_overrides() {
    let parsed = parse_chat_args(&args(&[]), defaults()).unwrap();
    assert_eq!(parsed.model, "deepseek-chat");
    assert!(parsed.base_url.contains("deepseek"));

    let parsed = parse_chat_args(
        &args(&[
            "--session",
            "s.jsonl",
            "--base-url",
            "http://127.0.0.1:9",
            "--model",
            "m1",
        ]),
        defaults(),
    )
    .unwrap();
    assert_eq!(parsed.session, "s.jsonl");
    assert_eq!(parsed.base_url, "http://127.0.0.1:9");
    assert_eq!(parsed.model, "m1");

    assert!(parse_chat_args(&args(&["--model"]), defaults()).is_err());
    assert!(parse_chat_args(&args(&["--wat"]), defaults()).is_err());
}

#[test]
fn parse_chat_args_collects_fetch_allow_hosts() {
    let parsed = parse_chat_args(
        &args(&["--fetch-allow", "docs.example", "--fetch-allow", "wiki.example"]),
        defaults(),
    )
    .unwrap();
    assert_eq!(parsed.fetch_allow, vec!["docs.example", "wiki.example"]);
}

#[test]
fn a_parsed_chat_command_can_be_given_again() {
    let parsed = parse_chat_args(
        &args(&["--session", "s", "--base-url", "b", "--model", "m"]),
        defaults(),
    )
    .unwrap();
    let again = parse_chat_args(&chat_args(&parsed), defaults()).unwrap();
    assert_eq!(again, parsed);
}

#[test]
fn resume_requires_existing_valid_explicit_session() {
    assert!(check_resume(&args(&[]), defaults()).is_err());
    let missing = check_resume(&args(&["--session", "missing.jsonl"]), defaults()).unwrap();
    assert_eq!(
        check_resume_file(&missing.session, false).unwrap_err(),
        "待恢复会话不存在：missing.jsonl"
    );
    let parsed = check_resume(&args(&["--session", "valid.jsonl"]), defaults()).unwrap();
    assert_eq!(parsed.session, "valid.jsonl");
    assert!(check_resume_file(&parsed.session, true).is_ok());
}

#[test]
fn fork_boundary_is_validated() {
    let parsed = parse_fork_args(&args(&[
        "--session",
        "a",
        "--target",
        "b",
        "--boundary",
        "2",
    ]))
    .unwrap();
    assert_eq!(parsed.boundary, Some(2));
    assert!(parse_fork_args(&args(&["--boundary", "x"])).is_err());
    assert_eq!(fork_boundary(Some(2), 2), Ok(2));
    assert_eq!(fork_boundary(None, 5), Ok(5));
    assert!(fork_boundary(Some(3), 2).is_err());
}

#[test]
fn a_fork_overwrites_nothing() {
    let parsed = parse_fork_args(&args(&["--session", "a", "--target", "b"])).unwrap();
    assert_eq!(check_fork_paths(&parsed, true, false), Ok(()));
    assert_eq!(
        check_fork_paths(&parsed, true, true).unwrap_err(),
        "目标会话已存在，拒绝覆盖：b"
    );
    assert_eq!(check_fork_paths(&parsed, false, false).unwrap_err(), "源会话不存在：a");
    assert!(parse_fork_args(&args(&["--target", "b"])).is_err());
    assert!(parse_fork_args(&args(&["--session", "a"])).is_err());
}

#[test]
fn timeline_and_revert_arguments_fail_closed() {
    assert!(parse_timeline_args(&args(&[])).is_err());
    assert!(parse_timeline_args(&args(&["--session", "a", "--limit", "x"])).is_err());
    assert!(parse_revert_args(&args(&["--session", "a", "--target", "b"])).is_err());
    let parsed =
        parse_revert_args(&args(&["--session", "a", "--target", "b", "--turn", "7"])).unwrap();
    assert_eq!(parsed.turn_id, 7);
}

#[test]
fn the_timeline_has_a_default_limit() {
    let parsed = parse_timeline_args(&args(&["--session", "a", "--cursor", "4"])).unwrap();
    assert_eq!(parsed.cursor, Some(4));
    assert_eq!(parsed.limit, 20);
    let turn = SessionTurnSummary {
        turn_id: 3,
        start_seq: 10,
        end_seq: None,
        status: SessionTurnStatus::Active,
    };
    assert!(timeline_line(&turn).contains('3'));
}

#[test]
fn commands_are_told_by_their_name() {
    assert_eq!(command_of(&args(&["chat"])), CliCommand::Chat);
    assert_eq!(command_of(&args(&["resume", "x"])), CliCommand::Resume);
    assert_eq!(command_of(&args(&["fork"])), CliCommand::Fork);
    assert_eq!(command_of(&args(&["timeline"])), CliCommand::Timeline);
    assert_eq!(command_of(&args(&["revert"])), CliCommand::Revert);
    assert_eq!(command_of(&args(&["serve"])), CliCommand::Serve);
    assert_eq!(command_of(&args(&[])), CliCommand::Demo);
    assert_eq!(command_of(&args(&["other"])), CliCommand::Demo);
}

#[test]
fn chat_lines_are_commands_or_input() {
    assert_eq!(chat_line("  "), ChatLine::Nothing);
    assert_eq!(chat_line("/exit\n"), ChatLine::Exit);
    assert_eq!(chat_line("/tools"), ChatLine::Tools);
    assert_eq!(chat_line("/steer go left"), ChatLine::Steer("go left".into()));
    assert_eq!(chat_line(" hello \n"), ChatLine::Say("hello".into()));
}

#[test]
fn some_events_are_shown() {
    assert_eq!(
        event_line(&Event::ToolCallRequested {
            call_id: "c".into(),
            tool: "echo".into(),
            args: Json::parse("{\"text\": \"a\\nb\"}").unwrap(),
        })
        .unwrap(),
        "  ⚙ 调用 echo({\"text\":\"a\\nb\"})"
    );
    assert_eq!(
        event_line(&Event::AssistantMessage { text: "hi".into() }).unwrap(),
        "assistant: hi"
    );
    assert_eq!(
        event_line(&Event::TurnAborted { turn_id: 1, reason: "stop".into() }).unwrap(),
        "  ⚠ turn 中止：stop"
    );
    assert_eq!(event_line(&Event::TurnCompleted { turn_id: 1 }), None);
}

#[test]
fn difference_message_identifies_first_changed_line() {
    assert_eq!(
        first_difference("a\nb\n", "a\nc\n"),
        "line 2: expected Some(\"b\"), actual Some(\"c\")"
    );
}

#[test]
fn a_difference_shows_lines_that_are_missing() {
    assert_eq!(
        first_difference("a\n", "a\n\"x\"\n"),
        "line 2: expected None, actual Some(\"\\\"x\\\"\")"
    );
    assert_eq!(first_difference("a\r\n", "a\n"), "byte-level newline difference");
}
