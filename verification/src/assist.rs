//! Asking for a fix when a command has failed, and reading the reply.
use vstd::prelude::*;
use crate::text::{
    contains, lemma_join_contains, lemma_trim_of_contained,
    append_str, chars_of, decimal, decimal_i32, join_lines_from, join_with, lines, lines_of,
    string_from_chars, string_from_range, trim, trim_bounds,
};

verus! {

/// What the shell hook reports of a failed command.
pub struct AssistCommand {
    /// The failed command line.
    pub command: String,
    /// Its exit code.
    pub exit_code: i32,
    /// What it wrote to standard error, where known.
    pub stderr: Option<String>,
}

/// The instructions that go with a failed command.
pub const ASSIST_SYSTEM_PROMPT: &'static str = "You are a PowerShell command assistant. A command failed and you need to analyze why and suggest a fix.\nRespond with ONLY the corrected command on the first line, then a blank line, then a brief explanation.\nIf you cannot determine a fix, say so briefly.\nOS: Windows\nShell: PowerShell";

/// A fix taken from a reply: the corrected command and what the reply
/// says about it.
pub struct Suggestion {
    pub fix: String,
    pub explanation: String,
}

/// The message that describes a failed command.
pub open spec fn user_message_text(command: Seq<char>, exit_code: int, stderr: Option<Seq<char>>) -> Seq<char> {
    "Failed command: "@ + command + "\nExit code: "@ + decimal(exit_code) + seq!['\n'] + match stderr {
        Some(s) => "stderr:\n"@ + s,
        None => Seq::<char>::empty(),
    }
}

/// The fix in a reply: its first line trimmed, with the other lines
/// joined and trimmed as the explanation; none where the first line is
/// blank or there is no line.
pub open spec fn suggestion_of(reply: Seq<char>) -> Option<(Seq<char>, Seq<char>)> {
    let ls = lines(reply);
    let first = if ls.len() > 0 {
        trim(ls[0])
    } else {
        Seq::<char>::empty()
    };
    if first.len() == 0 {
        None
    } else {
        Some((first, trim(join_with(ls.skip(1), seq!['\n']))))
    }
}

impl AssistCommand {
    /// The message sent about this failure.
    pub fn user_message(&self) -> (r: String)
        ensures
            r@ == user_message_text(
                self.command@,
                self.exit_code as int,
                match self.stderr {
                    Some(s) => Some(s@),
                    None => None,
                },
            ),
    {
        let mut v: Vec<char> = Vec::new();
        append_str(&mut v, "Failed command: ");
        append_str(&mut v, self.command.as_str());
        append_str(&mut v, "\nExit code: ");
        let code = decimal_i32(self.exit_code);
        append_str(&mut v, code.as_str());
        v.push('\n');
        match &self.stderr {
            Some(s) => {
                append_str(&mut v, "stderr:\n");
                append_str(&mut v, s.as_str());
            },
            None => {},
        }
        assert(v@ =~= user_message_text(
            self.command@,
            self.exit_code as int,
            match self.stderr {
                Some(s) => Some(s@),
                None => None,
            },
        ));
        string_from_chars(v.as_slice())
    }
}

/// The fix in a reply, if it has one.
pub fn parse_suggestion(reply: &str) -> (r: Option<Suggestion>)
    ensures
        match r {
            Some(s) => suggestion_of(reply@) == Some((s.fix@, s.explanation@)),
            None => suggestion_of(reply@).is_none(),
        },
{
    let v = chars_of(reply);
    let ls = lines_of(v.as_slice());
    let ghost lv = lines(reply@);
    if ls.len() == 0 {
        return None;
    }
    let first = &ls[0];
    let (a, b) = trim_bounds(first.as_slice());
    if a == b {
        return None;
    }
    let fix = string_from_range(first.as_slice(), a, b);
    let rest = join_lines_from(&ls, 1);
    assert(ls@.skip(1).map_values(|l: Vec<char>| l@) =~= lv.skip(1));
    let (c, d) = trim_bounds(rest.as_slice());
    let explanation = string_from_range(rest.as_slice(), c, d);
    Some(Suggestion { fix, explanation })
}


impl Suggestion {
    /// The printed form: the fix, the explanation where there is one, and
    /// how to apply the fix; each line ends with a newline.
    pub fn report(&self) -> (r: String)
        ensures
            r@ == "\x1b[1;35m[kaku]\x1b[0m Suggested fix:\n  \x1b[1;32m"@ + self.fix@ + "\x1b[0m\n"@ + (if self.explanation@.len() > 0 {
                "  \x1b[90m"@ + self.explanation@ + "\x1b[0m\n"@
            } else {
                Seq::<char>::empty()
            }) + "  \x1b[90mPress Ctrl+Shift+E to apply\x1b[0m\n"@,
    {
        let mut v: Vec<char> = Vec::new();
        append_str(&mut v, "\x1b[1;35m[kaku]\x1b[0m Suggested fix:\n  \x1b[1;32m");
        append_str(&mut v, self.fix.as_str());
        append_str(&mut v, "\x1b[0m\n");
        let ghost head = v@;
        if !self.explanation.as_str().is_empty() {
            append_str(&mut v, "  \x1b[90m");
            append_str(&mut v, self.explanation.as_str());
            append_str(&mut v, "\x1b[0m\n");
        }
        let ghost mid = v@;
        append_str(&mut v, "  \x1b[90mPress Ctrl+Shift+E to apply\x1b[0m\n");
        assert(v@ =~= "\x1b[1;35m[kaku]\x1b[0m Suggested fix:\n  \x1b[1;32m"@ + self.fix@ + "\x1b[0m\n"@ + (if self.explanation@.len() > 0 {
            "  \x1b[90m"@ + self.explanation@ + "\x1b[0m\n"@
        } else {
            Seq::<char>::empty()
        }) + "  \x1b[90mPress Ctrl+Shift+E to apply\x1b[0m\n"@);
        string_from_chars(v.as_slice())
    }
}

/// A reply whose first line is not blank gives a suggestion: the fix is
/// that line trimmed, and the explanation is every later line, in order,
/// joined with newlines and trimmed as a whole. A reply with no line, or a
/// blank first line, gives none.
pub proof fn lemma_suggestion_reads_reply(reply: Seq<char>)
    ensures
        lines(reply).len() > 0 && trim(lines(reply)[0]).len() > 0 ==> suggestion_of(reply) == Some(
            (trim(lines(reply)[0]), trim(join_with(lines(reply).subrange(1, lines(reply).len() as int), seq!['\n']))),
        ),
        lines(reply).len() == 0 || trim(lines(reply)[0]).len() == 0 ==> suggestion_of(reply).is_none(),
{
    let ls = lines(reply);
    if ls.len() > 0 {
        assert(ls.skip(1) =~= ls.subrange(1, ls.len() as int));
    }
}

/// No line of the reply after the first is lost: each of them, trimmed,
/// stands in the explanation.
pub proof fn lemma_explanation_keeps_lines(reply: Seq<char>, i: int)
    requires
        suggestion_of(reply).is_some(),
        1 <= i < lines(reply).len(),
    ensures
        contains(suggestion_of(reply).unwrap().1, trim(lines(reply)[i])),
{
    let ls = lines(reply);
    let rest = ls.skip(1);
    assert(rest[i - 1] == ls[i]);
    lemma_join_contains(rest, seq!['\n'], i - 1);
    lemma_trim_of_contained(join_with(rest, seq!['\n']), ls[i]);
}

} // verus!
