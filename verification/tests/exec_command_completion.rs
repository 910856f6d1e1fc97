use std::time::Duration;

use codex_core::exec_command_completion::{
    termination_reason_text, ExecCommandCompletion, ExecCommandTerminationReason,
};

fn rendered_duration(duration: Duration) -> String {
    format!("{:.4}", duration.as_secs_f64())
}

#[test]
fn timed_out_completion_includes_termination_reason() {
    let completion = ExecCommandCompletion::new(
        "call-1".to_string(),
        42,
        "sleep 10".to_string(),
        -1,
        String::new(),
        Some(ExecCommandTerminationReason::TimedOut),
    );

    assert_eq!(
        completion.body(&rendered_duration(Duration::from_secs(1))),
        "\n<call_id>call-1</call_id>\n<session_id>42</session_id>\n<command>sleep 10</command>\n<exit_code>-1</exit_code>\n<termination_reason>timed_out</termination_reason>\n<duration_seconds>1.0000</duration_seconds>\n<output>\n\n</output>\n"
    );
}

#[test]
fn natural_completion_has_no_termination_reason() {
    let completion = ExecCommandCompletion::new(
        "call-2".to_string(),
        -7,
        "ls".to_string(),
        0,
        "a\nb".to_string(),
        None,
    );
    assert_eq!(
        completion.body("0.2500"),
        "\n<call_id>call-2</call_id>\n<session_id>-7</session_id>\n<command>ls</command>\n<exit_code>0</exit_code>\n<duration_seconds>0.2500</duration_seconds>\n<output>\na\nb\n</output>\n"
    );
}

#[test]
fn extreme_exit_codes_render_in_decimal() {
    let completion = ExecCommandCompletion::new(
        "c".to_string(),
        i32::MAX,
        "x".to_string(),
        i32::MIN,
        String::new(),
        None,
    );
    let body = completion.body("3.0000");
    assert!(body.contains("<session_id>2147483647</session_id>"));
    assert!(body.contains("<exit_code>-2147483648</exit_code>"));
}

#[test]
fn exec_command_completion_markers_and_role() {
    let completion = ExecCommandCompletion::new(
        "c".to_string(),
        1,
        "x".to_string(),
        0,
        String::new(),
        None,
    );
    assert_eq!(completion.role(), "user");
    assert_eq!(
        completion.markers(),
        ("<exec_command_completion>", "</exec_command_completion>")
    );
    assert_eq!(ExecCommandCompletion::type_markers(), completion.markers());
    assert_eq!(termination_reason_text(None), "");
    assert_eq!(
        termination_reason_text(Some(ExecCommandTerminationReason::TimedOut)),
        "\n<termination_reason>timed_out</termination_reason>"
    );
}
