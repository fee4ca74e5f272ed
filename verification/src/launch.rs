//! The command line of a launch.
//!
//! A launch template is sanitized and split at white space: the first word
//! is the program, the others are its arguments. No shell reads the command,
//! so quotes and escapes in it mean nothing. Starting the process is left to
//! the caller, who hands back why it failed, if it did, for the log.

use crate::logger::{line_of, LogLevel, LogRecord, LogStream, Logger};
use crate::sanitize::{clean_exec_command, sanitized, strip_field_codes};
use crate::text::{
    chars_of, is_whitespace, lemma_span_bounds, lemma_trailing_spaces_bounds, non_spaces,
    rows_of, spaces, split_words, string_of, trim_start, views_of, word_len, words,
};
use vstd::prelude::*;

verus! {

/// A program and the arguments to start it with.
#[derive(Debug, Clone, PartialEq, Eq)]
pub struct LaunchCommand {
    /// The program, as a name to be found on the search path or as a path.
    pub program: String,
    /// The arguments, in order.
    pub args: Vec<String>,
}

/// The mathematical value of a [`LaunchCommand`].
pub ghost struct CommandView {
    pub program: Seq<char>,
    pub args: Seq<Seq<char>>,
}

impl View for LaunchCommand {
    type V = CommandView;

    open spec fn view(&self) -> CommandView {
        CommandView { program: self.program@, args: views_of(self.args@) }
    }
}

/// The command line of the launch template `raw`: the words of the sanitized
/// template, the first of them as the program. A template without a word
/// starts nothing.
pub open spec fn command_line(raw: Seq<char>) -> Option<CommandView> {
    let w = words(sanitized(raw));
    if w.len() == 0 {
        None
    } else {
        Some(CommandView { program: w[0], args: w.skip(1) })
    }
}

/// Whether `w` is not empty and holds no white space.
pub open spec fn solid(w: Seq<char>) -> bool {
    w.len() > 0 && forall|k: int| 0 <= k < w.len() ==> !is_whitespace(#[trigger] w[k])
}

/// No word is empty, and no word holds white space.
pub proof fn lemma_words_are_solid(s: Seq<char>)
    ensures
        forall|i: int| 0 <= i < words(s).len() ==> solid(#[trigger] words(s)[i]),
    decreases s.len(),
{
    if s.len() == 0 {
        assert(words(s).len() == 0);
    } else if is_whitespace(s[0]) {
        lemma_words_are_solid(s.drop_first());
        assert(words(s) == words(s.drop_first()));
    } else {
        lemma_span_bounds(s, non_spaces());
        let n = word_len(s) as int;
        let first = s.take(n);
        let rest = words(s.skip(n));
        lemma_words_are_solid(s.skip(n));
        assert(words(s) =~= seq![first] + rest);
        assert forall|k: int| 0 <= k < first.len() implies !is_whitespace(#[trigger] first[k]) by {
            assert(first[k] == s[k]);
            assert(non_spaces()(s[k]));
        }
        assert(solid(first));
        assert forall|i: int| 0 <= i < words(s).len() implies solid(#[trigger] words(s)[i]) by {
            if i > 0 {
                assert(words(s)[i] == rest[i - 1]);
            } else {
                assert(words(s)[0] == first);
            }
        }
    }
}

/// A text that begins with something other than white space has a word.
pub proof fn lemma_text_has_word(s: Seq<char>)
    requires
        s.len() > 0,
        !is_whitespace(s[0]),
    ensures
        words(s).len() > 0,
{
    lemma_span_bounds(s, non_spaces());
}

/// Neither the program nor an argument of a command line is empty or holds
/// white space: a field code that was removed leaves no argument behind, not
/// even an empty one. And a template starts nothing exactly where nothing is
/// left of it after sanitizing.
pub proof fn lemma_command_line_is_solid(raw: Seq<char>)
    ensures
        command_line(raw) is None <==> sanitized(raw).len() == 0,
        command_line(raw) is Some ==> {
            let c = command_line(raw)->0;
            &&& solid(c.program)
            &&& forall|i: int| 0 <= i < c.args.len() ==> solid(#[trigger] c.args[i])
        },
{
    let t = sanitized(raw);
    let w = words(t);
    lemma_words_are_solid(t);
    if t.len() > 0 {
        let s = strip_field_codes(raw);
        lemma_span_bounds(s, spaces());
        let a = trim_start(s);
        lemma_trailing_spaces_bounds(a);
        assert(t[0] == a[0]);
        lemma_text_has_word(t);
    }
    if w.len() > 0 {
        let c = command_line(raw)->0;
        assert(c.program == w[0]);
        assert forall|i: int| 0 <= i < c.args.len() implies solid(#[trigger] c.args[i]) by {
            assert(c.args[i] == w[i + 1]);
        }
    }
}

/// The command line to start for the launch template `raw`, or nothing where
/// the sanitized template holds no word: then there is nothing to start, and
/// that is no failure.
pub fn launch_command(raw: &str) -> (out: Option<LaunchCommand>)
    ensures
        match out {
            Some(c) => command_line(raw@) == Some(c@),
            None => command_line(raw@) is None,
        },
{
    let cleaned = clean_exec_command(raw);
    let text = chars_of(cleaned.as_str());
    let parts = split_words(&text);
    if parts.len() == 0 {
        return None;
    }
    let ghost w = rows_of(parts@);
    let program = string_of(&parts[0]);
    let mut args: Vec<String> = Vec::new();
    let mut i: usize = 1;
    proof {
        assert(views_of(args@) =~= w.subrange(1, 1));
    }
    while i < parts.len()
        invariant
            1 <= i <= parts.len(),
            w == rows_of(parts@),
            views_of(args@) == w.subrange(1, i as int),
        decreases parts.len() - i,
    {
        let arg = string_of(&parts[i]);
        proof {
            assert(views_of(args@.push(arg)) =~= views_of(args@).push(arg@));
            assert(w.subrange(1, i + 1) =~= w.subrange(1, i as int).push(w[i as int]));
        }
        args.push(arg);
        i += 1;
    }
    proof {
        assert(w.subrange(1, parts.len() as int) =~= w.skip(1));
    }
    Some(LaunchCommand { program, args })
}

/// Why a launch did not happen. A failed launch is reported to the log and
/// has no other consequence.
#[derive(Debug, Clone, PartialEq, Eq)]
pub enum LaunchError {
    /// The program could not be started. The text says why.
    Spawn(String),
    /// The task that was to start the program in the background failed. The
    /// text says why.
    Task(String),
}

impl LaunchError {
    /// The message of the failure for the log.
    pub open spec fn message_of(self) -> Seq<char> {
        match self {
            LaunchError::Spawn(reason) => "Failed to launch application: "@ + reason@,
            LaunchError::Task(reason) => "Failed to spawn blocking task: "@ + reason@,
        }
    }

    /// The message of the failure for the log.
    pub fn message(&self) -> (out: String)
        ensures
            out@ == self.message_of(),
    {
        match self {
            LaunchError::Spawn(reason) => {
                String::from_str("Failed to launch application: ").concat(reason.as_str())
            },
            LaunchError::Task(reason) => {
                String::from_str("Failed to spawn blocking task: ").concat(reason.as_str())
            },
        }
    }
}

/// Reports a failed launch: the record of its message at the severity of an
/// error, or nothing where the logger passes no errors.
pub fn report_failure(logger: &Logger, error: &LaunchError) -> (out: Option<LogRecord>)
    ensures
        logger.passes(LogLevel::Error) <==> out is Some,
        out is Some ==> {
            &&& out->0.line@ == line_of(out->0.time@, LogLevel::Error, error.message_of())
            &&& out->0.stream == LogStream::Stderr
        },
{
    let message = error.message();
    logger.error(message.as_str())
}

} // verus!
