//! Free questions to the assistant.
use vstd::prelude::*;
use crate::text::{append_str, join_strings, join_with, string_from_chars, string_views, trim, trim_str};

verus! {

/// A question, as the words given on the command line.
pub struct AskCommand {
    pub question: Vec<String>,
}

/// The instructions that go with a free question.
pub const ASK_SYSTEM_PROMPT: &'static str = "You are a helpful PowerShell and Windows command-line assistant.\nAnswer concisely. If the answer involves a command, show it first, then explain briefly.\nOS: Windows\nShell: PowerShell";

impl AskCommand {
    /// The question: its words joined with single spaces.
    pub fn question_text(&self) -> (r: String)
        ensures
            r@ == join_with(string_views(self.question@), seq![' ']),
    {
        proof {
            reveal_strlit(" ");
            assert(" "@ =~= seq![' ']);
        }
        join_strings(&self.question, " ")
    }
}


/// The printed answer: a heading, the reply trimmed, and a blank line.
pub fn answer_report(reply: &str) -> (r: String)
    ensures
        r@ == "\n\x1b[1;35m[kuku]\x1b[0m 想到了！曼波！\n\n"@ + trim(reply@) + "\n\n"@,
{
    let mut v: Vec<char> = Vec::new();
    append_str(&mut v, "\n\x1b[1;35m[kuku]\x1b[0m 想到了！曼波！\n\n");
    let t = trim_str(reply);
    append_str(&mut v, t.as_str());
    append_str(&mut v, "\n\n");
    assert(v@ =~= "\n\x1b[1;35m[kuku]\x1b[0m 想到了！曼波！\n\n"@ + trim(reply@) + "\n\n"@);
    string_from_chars(v.as_slice())
}

} // verus!
