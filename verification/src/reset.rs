//! Taking the managed block out of the PowerShell profile.
use vstd::prelude::*;
use crate::profile::{removed_chars, removed_text};
use crate::init::{is_yes, normalized_answer};
use crate::text::{ascii_lower, string_from_chars, trim};

verus! {

/// The profile text without the managed block: every line outside it, as
/// it was, newlines and carriage returns included; where the profile ends
/// inside the block, the newline just before the block goes too.
pub fn remove_managed_block(content: &str) -> (r: String)
    ensures
        r@ == removed_text(content@),
{
    let result = removed_chars(content);
    string_from_chars(result.as_slice())
}

/// Whether an answer to the question before `reset` lets it go on: `y` or
/// `yes`, in any case and with any surrounding whitespace.
pub open spec fn reset_accepts(answer: Seq<char>) -> bool {
    let a = ascii_lower(trim(answer));
    a == "y"@ || a == "yes"@
}

/// Whether `answer` lets `reset` go on.
pub fn reset_confirmed(answer: &str) -> (r: bool)
    ensures
        r == reset_accepts(answer@),
{
    let a = normalized_answer(answer);
    assert(a@.subrange(0, a@.len() as int) =~= a@);
    is_yes(&a)
}

/// An answer that lets `reset` go on also lets `init` go on; only the empty
/// answer differs, which `init` takes as yes and `reset` as no.
pub proof fn lemma_reset_answer_accepts_init(answer: Seq<char>)
    ensures
        reset_accepts(answer) ==> crate::init::init_accepts(answer),
        crate::init::init_accepts(answer) && !reset_accepts(answer) ==> ascii_lower(trim(answer)).len() == 0,
{
}

} // verus!
