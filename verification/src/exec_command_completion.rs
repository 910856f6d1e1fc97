//! The model-visible notice that a background exec command completed.
use vstd::prelude::*;
use vstd::string::StringExecFns;

use crate::decimal::{i32_to_decimal, signed_decimal};

verus! {

/// Why an exec command stopped other than by exiting on its own.
#[derive(Debug, Clone, Copy, PartialEq, Eq)]
pub enum ExecCommandTerminationReason {
    /// The command's watchdog timeout expired.
    TimedOut,
}

/// The line that reports a termination reason, or nothing when there is none.
pub open spec fn termination_reason_line(reason: Option<ExecCommandTerminationReason>) -> Seq<char> {
    match reason {
        Some(ExecCommandTerminationReason::TimedOut) => "\n<termination_reason>timed_out</termination_reason>"@,
        None => ""@,
    }
}

/// The text between the markers of an exec command completion notice.
pub open spec fn exec_command_completion_body(
    call_id: Seq<char>,
    session_id: int,
    command: Seq<char>,
    exit_code: int,
    termination_reason: Option<ExecCommandTerminationReason>,
    duration_seconds: Seq<char>,
    output: Seq<char>,
) -> Seq<char> {
    "\n<call_id>"@ + call_id + "</call_id>\n<session_id>"@ + signed_decimal(session_id)
        + "</session_id>\n<command>"@ + command + "</command>\n<exit_code>"@ + signed_decimal(
        exit_code,
    ) + "</exit_code>"@ + termination_reason_line(termination_reason) + "\n<duration_seconds>"@
        + duration_seconds + "</duration_seconds>\n<output>\n"@ + output + "\n</output>\n"@
}

/// Tells the model that a background exec command completed, with its exit code and output.
/// The run time is kept by the caller, which renders it with four decimals.
#[derive(Debug, Clone, PartialEq)]
pub struct ExecCommandCompletion {
    pub call_id: String,
    pub session_id: i32,
    pub command: String,
    pub exit_code: i32,
    pub output: String,
    pub termination_reason: Option<ExecCommandTerminationReason>,
}

/// The termination reason line of a notice.
pub fn termination_reason_text(reason: Option<ExecCommandTerminationReason>) -> (text: &'static str)
    ensures
        text@ == termination_reason_line(reason),
{
    match reason {
        Some(ExecCommandTerminationReason::TimedOut) => "\n<termination_reason>timed_out</termination_reason>",
        None => "",
    }
}

impl ExecCommandCompletion {
    /// The notice for one completed command.
    pub fn new(
        call_id: String,
        session_id: i32,
        command: String,
        exit_code: i32,
        output: String,
        termination_reason: Option<ExecCommandTerminationReason>,
    ) -> (completion: Self)
        ensures
            completion.call_id@ == call_id@,
            completion.session_id == session_id,
            completion.command@ == command@,
            completion.exit_code == exit_code,
            completion.output@ == output@,
            completion.termination_reason == termination_reason,
    {
        Self { call_id, session_id, command, exit_code, output, termination_reason }
    }

    /// The conversation role the notice is sent with.
    pub fn role(&self) -> (role: &'static str)
        ensures
            role@ == "user"@,
    {
        "user"
    }

    /// The opening and closing markers of this notice.
    pub fn markers(&self) -> (markers: (&'static str, &'static str))
        ensures
            markers.0@ == "<exec_command_completion>"@,
            markers.1@ == "</exec_command_completion>"@,
    {
        Self::type_markers()
    }

    /// The opening and closing markers of every exec command completion notice.
    pub fn type_markers() -> (markers: (&'static str, &'static str))
        ensures
            markers.0@ == "<exec_command_completion>"@,
            markers.1@ == "</exec_command_completion>"@,
    {
        ("<exec_command_completion>", "</exec_command_completion>")
    }

    /// The notice's text, given the run time in seconds as the caller renders it.
    pub fn body(&self, duration_seconds: &str) -> (body: String)
        ensures
            body@ == exec_command_completion_body(
                self.call_id@,
                self.session_id as int,
                self.command@,
                self.exit_code as int,
                self.termination_reason,
                duration_seconds@,
                self.output@,
            ),
    {
        let mut body = String::from_str("\n<call_id>");
        body.append(self.call_id.as_str());
        body.append("</call_id>\n<session_id>");
        let session_text = i32_to_decimal(self.session_id);
        body.append(session_text.as_str());
        body.append("</session_id>\n<command>");
        body.append(self.command.as_str());
        body.append("</command>\n<exit_code>");
        let exit_text = i32_to_decimal(self.exit_code);
        body.append(exit_text.as_str());
        body.append("</exit_code>");
        body.append(termination_reason_text(self.termination_reason));
        body.append("\n<duration_seconds>");
        body.append(duration_seconds);
        body.append("</duration_seconds>\n<output>\n");
        body.append(self.output.as_str());
        body.append("\n</output>\n");
        body
    }
}

} // verus!
