//! The process launcher's own logic: splitting a compiled command into a
//! program and its arguments, and classifying what the child produced.
use vstd::prelude::*;
use vstd::utf8::{decode_utf8, valid_utf8};

use crate::text::{chars_of, string_of};

verus! {

/// Diagnostic for a command that names no program.
pub const MISSING_EXECUTABLE: &'static str = "missing executable in the command line template";

/// Start of the diagnostic for a process that could not be started.
pub const SPAWN_FAILURE_PREFIX: &'static str = "An error occurred process command: ";

/// The characters that count as blank in a command line: Unicode's
/// White_Space set, the characters for which `char::is_whitespace` holds.
pub open spec fn is_blank_char(c: char) -> bool {
    let u = c as u32;
    ||| 0x09 <= u <= 0x0D
    ||| u == 0x20
    ||| u == 0x85
    ||| u == 0xA0
    ||| u == 0x1680
    ||| 0x2000 <= u <= 0x200A
    ||| u == 0x2028
    ||| u == 0x2029
    ||| u == 0x202F
    ||| u == 0x205F
    ||| u == 0x3000
}

fn is_blank_character(c: char) -> (r: bool)
    ensures
        r == is_blank_char(c),
{
    let u = c as u32;
    (0x09 <= u && u <= 0x0D) || u == 0x20 || u == 0x85 || u == 0xA0 || u == 0x1680 || (0x2000 <= u
        && u <= 0x200A) || u == 0x2028 || u == 0x2029 || u == 0x202F || u == 0x205F || u == 0x3000
}

/// A command that is empty or holds blank characters only.
pub open spec fn is_blank(s: Seq<char>) -> bool {
    forall|i: int| 0 <= i < s.len() ==> is_blank_char(#[trigger] s[i])
}

/// `s` cut at every single space; consecutive spaces give empty tokens.
pub open spec fn split_spaces(s: Seq<char>) -> Seq<Seq<char>>
    decreases s.len(),
{
    if s.len() == 0 {
        seq![Seq::empty()]
    } else {
        let init = split_spaces(s.drop_last());
        if s.last() == ' ' {
            init.push(Seq::empty())
        } else {
            init.update(init.len() - 1, init.last().push(s.last()))
        }
    }
}

/// Splitting always yields at least one token.
pub proof fn split_spaces_nonempty(s: Seq<char>)
    ensures
        split_spaces(s).len() >= 1,
    decreases s.len(),
{
    if s.len() > 0 {
        split_spaces_nonempty(s.drop_last());
    }
}

/// The strings of `v` as character sequences.
pub open spec fn strings_view(v: Seq<String>) -> Seq<Seq<char>> {
    v.map_values(|s: String| s@)
}

/// A command line split into the program to run and its arguments.
pub struct CommandLine {
    pub program: String,
    pub arguments: Vec<String>,
}

/// `line` is the command `s` split at single spaces: the first token is the
/// program, the others are the arguments.
pub open spec fn is_split_of(line: CommandLine, s: Seq<char>) -> bool {
    &&& line.program@ == split_spaces(s)[0]
    &&& strings_view(line.arguments@) == split_spaces(s).drop_first()
}

fn split_command(command: &str) -> (r: Vec<String>)
    ensures
        strings_view(r@) == split_spaces(command@),
{
    let ghost s = command@;
    let mut tokens: Vec<String> = Vec::new();
    let mut cur: Vec<char> = Vec::new();
    assert(s.take(0) =~= Seq::<char>::empty());
    assert(strings_view(tokens@) + seq![cur@] =~= split_spaces(s.take(0)));
    for c in it: command.chars()
        invariant
            it.seq() == s,
            strings_view(tokens@) + seq![cur@] == split_spaces(s.take(it.index() as int)),
    {
        let ghost i = it.index() as int;
        let ghost before = strings_view(tokens@) + seq![cur@];
        assert(s.take(i + 1).drop_last() =~= s.take(i));
        assert(s.take(i + 1).last() == c);
        if c == ' ' {
            let t = string_of(&cur);
            tokens.push(t);
            cur = Vec::new();
            assert(strings_view(tokens@) + seq![cur@] =~= before.push(Seq::empty()));
        } else {
            cur.push(c);
            assert(strings_view(tokens@) + seq![cur@] =~= before.update(
                before.len() - 1,
                before.last().push(c),
            ));
        }
    }
    assert(s.take(s.len() as int) =~= s);
    let t = string_of(&cur);
    tokens.push(t);
    assert(strings_view(tokens@) =~= split_spaces(s));
    tokens
}

fn is_blank_command(command: &str) -> (r: bool)
    ensures
        r == is_blank(command@),
{
    let cs = chars_of(command);
    let mut i: usize = 0;
    while i < cs.len()
        invariant
            cs@ == command@,
            i <= cs@.len(),
            forall|j: int| 0 <= j < i ==> is_blank_char(#[trigger] cs@[j]),
        decreases cs@.len() - i,
    {
        if !is_blank_character(cs[i]) {
            return false;
        }
        i = i + 1;
    }
    true
}

/// Splits a compiled command into program and arguments. A blank command
/// names no program and is refused with the missing-executable diagnostic.
pub fn parse_command_line(command: &str) -> (r: Result<CommandLine, String>)
    ensures
        is_blank(command@) <==> r is Err,
        r is Err ==> r->Err_0@ == MISSING_EXECUTABLE@,
        r is Ok ==> is_split_of(r->Ok_0, command@),
{
    if is_blank_command(command) {
        return Err(MISSING_EXECUTABLE.to_owned());
    }
    let mut tokens = split_command(command);
    proof {
        split_spaces_nonempty(command@);
    }
    let ghost all = tokens@;
    let program = tokens.remove(0);
    assert(strings_view(tokens@) =~= strings_view(all).drop_first());
    Ok(CommandLine { program, arguments: tokens })
}

/// The diagnostic for a command whose process could not be started: the
/// command followed by the system's description of the failure.
pub open spec fn spawn_failure_text(command: Seq<char>, os_error: Seq<char>) -> Seq<char> {
    SPAWN_FAILURE_PREFIX@ + command + seq!['.', '\n'] + os_error
}

/// Builds the diagnostic for a process that could not be started.
pub fn spawn_failure_message(command: &str, os_error: &str) -> (r: String)
    ensures
        r@ == spawn_failure_text(command@, os_error@),
{
    let mut r = SPAWN_FAILURE_PREFIX.to_owned();
    r.append(command);
    let mut tail: Vec<char> = Vec::new();
    tail.push('.');
    tail.push('\n');
    let t = string_of(&tail);
    r.append(t.as_str());
    r.append(os_error);
    assert(tail@ =~= seq!['.', '\n']);
    r
}

/// What a finished child process left behind.
pub struct ExecutionOutcome {
    pub exited_successfully: bool,
    pub stdout: Vec<u8>,
    pub stderr: Vec<u8>,
}

/// The text that lossy UTF-8 decoding gives for `bytes`.
pub uninterp spec fn lossy_text(bytes: Seq<u8>) -> Seq<char>;

/// Relies on `String::from_utf8_lossy`: decodes UTF-8, putting U+FFFD in
/// place of invalid sequences; valid input decodes unchanged.
#[verifier::external_body]
fn decode_lossy(bytes: &[u8]) -> (r: String)
    ensures
        r@ == lossy_text(bytes@),
        valid_utf8(bytes@) ==> r@ == decode_utf8(bytes@),
{
    String::from_utf8_lossy(bytes).into_owned()
}

/// What a launch returns: on a successful exit the standard output as text;
/// otherwise the standard error followed by the standard output, as text.
pub open spec fn launch_text(outcome: ExecutionOutcome) -> Result<Seq<char>, Seq<char>> {
    if outcome.exited_successfully {
        Ok(lossy_text(outcome.stdout@))
    } else {
        Err(lossy_text(outcome.stderr@ + outcome.stdout@))
    }
}

/// Classifies a finished process by its exit status.
pub fn launch_result(outcome: ExecutionOutcome) -> (r: Result<String, String>)
    ensures
        r is Ok <==> outcome.exited_successfully,
        r is Ok ==> launch_text(outcome) == Ok::<Seq<char>, Seq<char>>(r->Ok_0@),
        r is Err ==> launch_text(outcome) == Err::<Seq<char>, Seq<char>>(r->Err_0@),
{
    let ExecutionOutcome { exited_successfully, mut stdout, stderr } = outcome;
    if exited_successfully {
        Ok(decode_lossy(stdout.as_slice()))
    } else {
        let mut message = stderr;
        message.append(&mut stdout);
        Err(decode_lossy(message.as_slice()))
    }
}

} // verus!
