use arcella::alme::{
    dispatch_command, handle_ping, judge_line, unknown_command, AlmeCommand, AlmeResponse, LineVerdict,
    MAX_REQUEST_LENGTH,
};
use arcella::log::{default_alme_buffer_size, filter_directives, format_event, LogBuffer};
use arcella::warnings::ConfigLoadWarning;

#[test]
fn a_line_is_judged_by_its_length_and_by_what_is_left_of_it() {
    assert_eq!(judge_line("  {\"cmd\":\"ping\"} \r\n", 19), LineVerdict::Request("{\"cmd\":\"ping\"}".to_string()));
    assert_eq!(judge_line("ping\n\r\n", 7), LineVerdict::Request("ping".to_string()));
    assert_eq!(judge_line(" \t \r\n", 5), LineVerdict::Blank);
    assert_eq!(judge_line("\n", 1), LineVerdict::Blank);
    assert_eq!(judge_line("ping\n", MAX_REQUEST_LENGTH + 1), LineVerdict::TooLarge);
    assert_eq!(judge_line("ping\n", MAX_REQUEST_LENGTH), LineVerdict::Request("ping".to_string()));
}

#[test]
fn a_request_names_its_command() {
    assert_eq!(dispatch_command("ping"), AlmeCommand::Ping);
    assert_eq!(dispatch_command("status"), AlmeCommand::Status);
    assert_eq!(dispatch_command("log:tail"), AlmeCommand::LogTail);
    assert_eq!(dispatch_command("module:list"), AlmeCommand::ModuleList);
    assert_eq!(dispatch_command("Ping"), AlmeCommand::Unknown);
    assert_eq!(dispatch_command(""), AlmeCommand::Unknown);
}

#[test]
fn responses_say_whether_the_command_succeeded() {
    assert_eq!(handle_ping(), AlmeResponse { success: true, message: "pong".to_string(), data: None });
    assert_eq!(
        AlmeResponse::success("ok", Some("[]".to_string())),
        AlmeResponse { success: true, message: "ok".to_string(), data: Some("[]".to_string()) }
    );
    assert_eq!(
        AlmeResponse::error("bad"),
        AlmeResponse { success: false, message: "bad".to_string(), data: None }
    );
    assert_eq!(
        unknown_command("fly"),
        AlmeResponse { success: false, message: "Unknown command: fly".to_string(), data: None }
    );
}

#[test]
fn warnings_are_rendered_as_lines_of_text() {
    let path = "/cfg/a \"b\".toml".to_string();
    assert_eq!(ConfigLoadWarning::Internal("note".to_string()).message(), "note");
    assert_eq!(
        ConfigLoadWarning::NullValueDetected { key: "k".to_string(), file: path.clone() }.message(),
        "Null value found for key 'k' in file \"/cfg/a \\\"b\\\".toml\""
    );
    assert_eq!(
        ConfigLoadWarning::ValueError { key: "k".to_string(), error: "e".to_string(), file: "f".to_string() }
            .message(),
        "Error processing value for key 'k' in file \"f\": e"
    );
    assert_eq!(
        ConfigLoadWarning::DuplicateInclude { path: "p".to_string(), included_from: "q".to_string() }.message(),
        "Duplicate include path '\"p\"' found, already included from \"q\""
    );
    assert_eq!(
        ConfigLoadWarning::RetriedProcessing { path: "p".to_string() }.message(),
        "Retried processing of config file \"p\""
    );
    assert_eq!(
        ConfigLoadWarning::SkippedInvalidFile { path: "p".to_string() }.message(),
        "Skipped invalid file in includes: \"p\""
    );
    assert_eq!(
        ConfigLoadWarning::UnknownTomlType { key: "k".to_string(), kind: "t".to_string(), file: "f".to_string() }
            .message(),
        "Unknown TOML type 't' for key 'k' in file \"f\""
    );
    assert_eq!(
        ConfigLoadWarning::MaxDepthReached { path: "p".to_string() }.message(),
        "Maximum include depth reached for file \"p\""
    );
    assert_eq!(ConfigLoadWarning::Pruned { path: "p".to_string() }.message(), "Pruned file \"p\"");
}

#[test]
fn the_buffer_keeps_the_last_lines() {
    let mut buffer = LogBuffer::new(2);
    assert!(buffer.get_recent_logs(5).is_empty());
    buffer.record("one".to_string());
    buffer.record("two".to_string());
    assert_eq!(buffer.lines, vec!["one", "two"]);
    buffer.record("three".to_string());
    assert_eq!(buffer.lines, vec!["two", "three"]);
    assert_eq!(buffer.get_recent_logs(5), vec!["three", "two"]);
    assert_eq!(buffer.get_recent_logs(1), vec!["three"]);
    assert!(buffer.get_recent_logs(0).is_empty());
    let mut single = LogBuffer::new(0);
    single.record("a".to_string());
    single.record("b".to_string());
    assert_eq!(single.lines, vec!["b"]);
    assert_eq!(default_alme_buffer_size(), 100);
}

#[test]
fn an_event_becomes_one_line() {
    assert_eq!(
        format_event("2025-01-01T00:00:00Z", "INFO", "arcella", "started", &vec![]),
        "2025-01-01T00:00:00Z INFO arcella: started"
    );
    assert_eq!(
        format_event("t", "WARN", "alme", "", &vec!["a=1".to_string(), "b=\"x\"".to_string()]),
        "t WARN alme: no message {a=1, b=\"x\"}"
    );
}

#[test]
fn the_filter_names_the_runtime_first_and_then_the_modules() {
    assert_eq!(filter_directives("info", &vec![]), "arcella=info");
    assert_eq!(
        filter_directives(
            "warn",
            &vec![("alme".to_string(), "debug".to_string()), ("tokio".to_string(), "off".to_string())]
        ),
        "arcella=warn,alme=debug,tokio=off"
    );
}
