//! A job from parameters to outcome: what to launch, and how the launch's
//! result becomes a status and a size-bounded message.
use vstd::prelude::*;
use vstd::string::StringSliceAdditionalSpecFns;
use vstd::utf8::{encode_utf8, encode_utf8_valid_utf8, is_char_boundary, valid_utf8};

use crate::command::{is_blank, is_split_of, parse_command_line, CommandLine, MISSING_EXECUTABLE};
use crate::template::{compile, compile_command_template, params_view};

verus! {

/// Largest size, in bytes, of the message of a completed job.
pub const MESSAGE_SIZE_LIMIT: usize = 1048576;

/// Diagnostic for a job that carries no template.
pub const MISSING_TEMPLATE: &'static str = "missing mandatory parameter: command_template";

/// What a job receives: the template and working directory, which configure
/// the run, and the named values substituted into the template, in order.
pub struct CommandLineWorkerParameters {
    pub command_template: Option<String>,
    pub exec_dir: Option<String>,
    pub parameters: Vec<(String, String)>,
    pub requirements: Option<Vec<(String, Vec<String>)>>,
}

/// Final state of a job.
#[derive(PartialEq, Eq, Structural, Clone, Copy, Debug)]
pub enum JobStatus {
    Completed,
    Error,
}

/// Status and message handed back for a job.
pub struct JobReport {
    pub status: JobStatus,
    pub message: String,
}

/// A command ready to run: the compiled text, its split, and where to run it.
pub struct LaunchRequest {
    pub command: String,
    pub command_line: CommandLine,
    pub exec_dir: Option<String>,
}

/// Where the encoded text `bytes` is cut so as to keep at most `limit` bytes:
/// the last character boundary at or before `limit`.
pub open spec fn cut_point(bytes: Seq<u8>, limit: int) -> int
    decreases limit,
{
    if limit >= bytes.len() {
        bytes.len() as int
    } else if limit <= 0 {
        0
    } else if is_char_boundary(bytes, limit) {
        limit
    } else {
        cut_point(bytes, limit - 1)
    }
}

/// The UTF-8 bytes of `text` once cut to the message size limit.
pub open spec fn truncated_bytes(text: Seq<char>) -> Seq<u8> {
    encode_utf8(text).take(cut_point(encode_utf8(text), MESSAGE_SIZE_LIMIT as int))
}

/// Cuts `message` to at most `MESSAGE_SIZE_LIMIT` bytes of UTF-8, at the last
/// character boundary that fits.
pub fn truncate_message(message: String) -> (r: String)
    ensures
        encode_utf8(r@) == truncated_bytes(message@),
{
    let ghost b = encode_utf8(message@);
    proof {
        encode_utf8_valid_utf8(message@);
    }
    let s = message.as_str();
    let n = s.as_bytes().len();
    assert(s.spec_bytes() == b);
    if n <= MESSAGE_SIZE_LIMIT {
        assert(cut_point(b, MESSAGE_SIZE_LIMIT as int) == b.len());
        assert(b.take(b.len() as int) =~= b);
        return message;
    }
    let mut m: usize = MESSAGE_SIZE_LIMIT;
    while !s.is_char_boundary(m)
        invariant
            b == s.spec_bytes(),
            valid_utf8(b),
            0 <= m <= MESSAGE_SIZE_LIMIT < b.len(),
            cut_point(b, MESSAGE_SIZE_LIMIT as int) == cut_point(b, m as int),
        decreases m,
    {
        m = m - 1;
    }
    let (head, _tail) = s.split_at(m);
    let r = head.to_owned();
    assert(encode_utf8(r@) == head.spec_bytes());
    r
}

/// Report of a launch: a successful one completes with its output cut to
/// the size limit; a failed one errs with its diagnostic in full.
pub fn report(launched: Result<String, String>) -> (r: JobReport)
    ensures
        launched is Ok ==> r.status == JobStatus::Completed && encode_utf8(r.message@)
            == truncated_bytes(launched->Ok_0@),
        launched is Err ==> r.status == JobStatus::Error && r.message@ == launched->Err_0@,
{
    match launched {
        Ok(output) => JobReport { status: JobStatus::Completed, message: truncate_message(output) },
        Err(diagnostic) => JobReport { status: JobStatus::Error, message: diagnostic },
    }
}

/// Compiles the job's template and splits the result. A job without a
/// template, or whose compiled command is blank, ends in error right away and
/// nothing is launched.
pub fn prepare(parameters: CommandLineWorkerParameters) -> (r: Result<LaunchRequest, JobReport>)
    ensures
        parameters.command_template is None ==> r is Err && r->Err_0.status == JobStatus::Error
            && r->Err_0.message@ == MISSING_TEMPLATE@,
        parameters.command_template is Some ==> ({
            let c = compile(
                parameters.command_template->Some_0@,
                params_view(parameters.parameters@),
            );
            &&& is_blank(c) <==> r is Err
            &&& r is Err ==> r->Err_0.status == JobStatus::Error && r->Err_0.message@
                == MISSING_EXECUTABLE@
            &&& r is Ok ==> r->Ok_0.command@ == c && is_split_of(r->Ok_0.command_line, c)
                && r->Ok_0.exec_dir == parameters.exec_dir
        }),
{
    let CommandLineWorkerParameters { command_template, exec_dir, parameters, requirements: _ } =
        parameters;
    match command_template {
        None => Err(JobReport { status: JobStatus::Error, message: MISSING_TEMPLATE.to_owned() }),
        Some(template) => {
            let command = compile_command_template(template, parameters);
            match parse_command_line(command.as_str()) {
                Err(diagnostic) => Err(JobReport { status: JobStatus::Error, message: diagnostic }),
                Ok(command_line) => Ok(LaunchRequest { command, command_line, exec_dir }),
            }
        },
    }
}

} // verus!
