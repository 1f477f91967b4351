//! What the service answers once a body has been taken in, or has not.
use crate::text::{append_str, to_text};
use vstd::prelude::*;

verus! {

/// How far the handling of a body came. A body is read, then the
/// contract's source is written, then the gateway's source; the first step
/// that fails ends the handling.
pub enum LambdaOutcome {
    /// The generator could not be had.
    LockFailed { cause: String },
    /// The body was not read to its end.
    ProcessFailed { cause: String },
    /// The contract's source was not written.
    WriteLambdaFailed { cause: String },
    /// The contract's source was written, the gateway's was not.
    WriteApgFailed { cause: String, state_string: String, dirname: String },
    /// Both sources were written.
    Written { lambda_name: String, state_string: String, dirname: String },
}

/// The standing of an answer.
#[derive(Clone, Copy, Debug, PartialEq, Eq, Structural)]
pub enum ReplyStatus {
    Success,
    BadRequest,
    InternalServerError,
}

/// The answer to a body.
#[derive(Debug)]
pub struct LambdaReply {
    pub status: ReplyStatus,
    pub success: bool,
    pub message: String,
    /// The directory of the generated project, once it exists.
    pub dirname: Option<String>,
    /// The declarations of the state variables, once they were written.
    pub state_string: Option<String>,
}

/// The standing of the answer to an outcome: only a generator that could
/// not be had is the service's fault.
pub open spec fn reply_status(outcome: LambdaOutcome) -> ReplyStatus {
    match outcome {
        LambdaOutcome::LockFailed { .. } => ReplyStatus::InternalServerError,
        LambdaOutcome::Written { .. } => ReplyStatus::Success,
        _ => ReplyStatus::BadRequest,
    }
}

/// The message of the answer to an outcome.
pub open spec fn reply_message(outcome: LambdaOutcome) -> Seq<char> {
    match outcome {
        LambdaOutcome::LockFailed { cause } => "Failed to acquire lock: "@ + cause@,
        LambdaOutcome::ProcessFailed { cause } => "Failed to process lambda: "@ + cause@,
        LambdaOutcome::WriteLambdaFailed { cause } => "Failed to write lambda: "@ + cause@,
        LambdaOutcome::WriteApgFailed { cause, .. } => "Failed to write APG: "@ + cause@,
        LambdaOutcome::Written { lambda_name, .. } => "Successfully processed and wrote lambda '"@
            + lambda_name@ + "'"@,
    }
}

/// What an outcome knows of the generated project: the directory and the
/// declarations of the state variables, from the moment on at which the
/// contract's source was written.
pub open spec fn reply_project(outcome: LambdaOutcome) -> Option<(Seq<char>, Seq<char>)> {
    match outcome {
        LambdaOutcome::WriteApgFailed { state_string, dirname, .. } => Some(
            (dirname@, state_string@),
        ),
        LambdaOutcome::Written { state_string, dirname, .. } => Some((dirname@, state_string@)),
        _ => None,
    }
}

/// A string made of `head` and then `tail`.
fn with_tail(head: &str, tail: &str) -> (r: String)
    ensures
        r@ == head@ + tail@,
{
    let mut out: Vec<char> = Vec::new();
    append_str(&mut out, head);
    append_str(&mut out, tail);
    assert(out@ =~= head@ + tail@);
    to_text(out.as_slice())
}

/// The answer to an outcome.
pub fn lambda_reply(outcome: LambdaOutcome) -> (reply: LambdaReply)
    ensures
        reply.status == reply_status(outcome),
        reply.success == (outcome is Written),
        reply.message@ == reply_message(outcome),
        match reply_project(outcome) {
            Some((dirname, state_string)) => {
                &&& reply.dirname matches Some(d) && d@ == dirname
                &&& reply.state_string matches Some(s) && s@ == state_string
            },
            None => reply.dirname is None && reply.state_string is None,
        },
{
    match outcome {
        LambdaOutcome::LockFailed { cause } => LambdaReply {
            status: ReplyStatus::InternalServerError,
            success: false,
            message: with_tail("Failed to acquire lock: ", cause.as_str()),
            dirname: None,
            state_string: None,
        },
        LambdaOutcome::ProcessFailed { cause } => LambdaReply {
            status: ReplyStatus::BadRequest,
            success: false,
            message: with_tail("Failed to process lambda: ", cause.as_str()),
            dirname: None,
            state_string: None,
        },
        LambdaOutcome::WriteLambdaFailed { cause } => LambdaReply {
            status: ReplyStatus::BadRequest,
            success: false,
            message: with_tail("Failed to write lambda: ", cause.as_str()),
            dirname: None,
            state_string: None,
        },
        LambdaOutcome::WriteApgFailed { cause, state_string, dirname } => LambdaReply {
            status: ReplyStatus::BadRequest,
            success: false,
            message: with_tail("Failed to write APG: ", cause.as_str()),
            dirname: Some(dirname),
            state_string: Some(state_string),
        },
        LambdaOutcome::Written { lambda_name, state_string, dirname } => {
            let mut out: Vec<char> = Vec::new();
            append_str(&mut out, "Successfully processed and wrote lambda '");
            append_str(&mut out, lambda_name.as_str());
            append_str(&mut out, "'");
            assert(out@ =~= "Successfully processed and wrote lambda '"@ + lambda_name@ + "'"@);
            LambdaReply {
                status: ReplyStatus::Success,
                success: true,
                message: to_text(out.as_slice()),
                dirname: Some(dirname),
                state_string: Some(state_string),
            }
        },
    }
}

/// The answer to a project that could not be compiled.
pub fn compile_failure(cause: &str) -> (r: String)
    ensures
        r@ == "Failed to compile lambda: "@ + cause@,
{
    with_tail("Failed to compile lambda: ", cause)
}

} // verus!
