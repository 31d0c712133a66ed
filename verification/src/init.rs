//! Writing the managed block into the PowerShell profile.
use vstd::prelude::*;
use crate::api::{quoted, DEFAULT_BASE_URL, DEFAULT_MODEL};
use crate::profile::{composed_text, removed_chars, replaced_text, trim_newlines_end, PROFILE_MARKER};
use crate::text::{
    append_str, ascii_lower, contains, ascii_lower_range, chars_of, contains_str, range_equals,
    string_from_chars, trim, trim_bounds,
};

verus! {

/// The profile text with its managed block replaced by `new_block`: what
/// `reset` leaves of it without trailing newlines, a blank line and the new
/// block; the new block alone where nothing else is left.
pub fn replace_managed_block(content: &str, new_block: &str) -> (r: String)
    ensures
        r@ == replaced_text(content@, new_block@),
{
    let mut result = removed_chars(content);
    let ghost full = result@;
    while result.len() > 0 && result[result.len() - 1] == '\n'
        invariant
            trim_newlines_end(result@) == trim_newlines_end(full),
        decreases result@.len(),
    {
        result.pop();
    }
    if result.len() == 0 {
        return string_from_chars(&[]).concat(new_block);
    }
    result.push('\n');
    result.push('\n');
    append_str(&mut result, new_block);
    string_from_chars(result.as_slice())
}


/// Options of `init`.
pub struct InitCommand {
    /// Only update an existing integration, without asking.
    pub update_only: bool,
}

/// The profile text that `init` writes: where `existing` already names the
/// opening marker, its block is replaced; an empty profile becomes the
/// block; otherwise the block is appended after a newline.
pub fn compose_profile(existing: &str, block: &str) -> (r: String)
    ensures
        r@ == composed_text(existing@, block@),
{
    if contains_str(existing, PROFILE_MARKER) {
        replace_managed_block(existing, block)
    } else if existing.is_empty() {
        string_from_chars(&[]).concat(block)
    } else {
        let mut v = chars_of(existing);
        v.push('\n');
        append_str(&mut v, block);
        string_from_chars(v.as_slice())
    }
}

/// Whether an answer to "Continue? [Y/n]" lets `init` go on: an empty
/// answer, `y` or `yes`, in any case and with any surrounding whitespace.
pub open spec fn init_accepts(answer: Seq<char>) -> bool {
    let a = ascii_lower(trim(answer));
    a.len() == 0 || a == "y"@ || a == "yes"@
}

/// The answer trimmed and in ASCII lower case.
pub(crate) fn normalized_answer(answer: &str) -> (r: Vec<char>)
    ensures
        r@ == ascii_lower(trim(answer@)),
{
    let v = chars_of(answer);
    let (i, j) = trim_bounds(v.as_slice());
    ascii_lower_range(v.as_slice(), i, j)
}

pub(crate) fn is_yes(a: &Vec<char>) -> (r: bool)
    ensures
        r == (a@ == "y"@ || a@ == "yes"@),
{
    let y = chars_of("y");
    let yes = chars_of("yes");
    assert(a@.subrange(0, a@.len() as int) =~= a@);
    range_equals(a.as_slice(), 0, a.len(), y.as_slice()) || range_equals(
        a.as_slice(),
        0,
        a.len(),
        yes.as_slice(),
    )
}

/// Whether `answer` lets `init` go on.
pub fn init_confirmed(answer: &str) -> (r: bool)
    ensures
        r == init_accepts(answer@),
{
    let a = normalized_answer(answer);
    assert(a@.subrange(0, a@.len() as int) =~= a@);
    a.len() == 0 || is_yes(&a)
}

/// The assistant settings written when there are none yet: enabled, no
/// key, and the default model on its default endpoint.
pub const DEFAULT_ASSISTANT_TOML: &'static str = "# Kuku Assistant configuration
#
# enabled: true enables command analysis suggestions
# api_key: provider API key, example: \"sk-xxxx\"
# model: model id, example: \"Doubao-Seed-2.0-Code\"
# base_url: chat-completions API root URL

enabled = true
# api_key = \"<your_api_key>\"
model = \"Doubao-Seed-2.0-Code\"
base_url = \"https://ark.cn-beijing.volces.com/api/coding/v1\"
# custom_headers = [\"X-Customer-ID: your-id\"]
";

/// The general settings written when there are none yet.
pub const DEFAULT_CONFIG_TOML: &'static str = "# Kuku configuration

[tools]
# Uncomment and configure the tools you use:
# claude_code = true
# codex = true
# gemini_cli = true
# copilot_cli = true
# openclaw = true
";

/// A settings line `key = "value"` on a line of its own.
pub open spec fn setting_line(key: Seq<char>, value: Seq<char>) -> Seq<char> {
    seq!['\n'] + key + " = "@ + quoted(value) + seq!['\n']
}

/// The text of a fresh `assistant.toml`: it turns the assistant on and
/// names the default model and the default endpoint.
pub fn default_assistant_toml() -> (r: &'static str)
    ensures
        r@ == DEFAULT_ASSISTANT_TOML@,
        contains(r@, seq!['\n'] + "enabled = true"@ + seq!['\n']),
        contains(r@, setting_line("model"@, DEFAULT_MODEL@)),
        contains(r@, setting_line("base_url"@, DEFAULT_BASE_URL@)),
{
    proof {
        reveal_strlit("# Kuku Assistant configuration
#
# enabled: true enables command analysis suggestions
# api_key: provider API key, example: \"sk-xxxx\"
# model: model id, example: \"Doubao-Seed-2.0-Code\"
# base_url: chat-completions API root URL

enabled = true
# api_key = \"<your_api_key>\"
model = \"Doubao-Seed-2.0-Code\"
base_url = \"https://ark.cn-beijing.volces.com/api/coding/v1\"
# custom_headers = [\"X-Customer-ID: your-id\"]
");
        reveal_strlit("Doubao-Seed-2.0-Code");
        reveal_strlit("https://ark.cn-beijing.volces.com/api/coding/v1");
        reveal_strlit("enabled = true");
        reveal_strlit("model");
        reveal_strlit("base_url");
        reveal_strlit(" = ");
        let t = DEFAULT_ASSISTANT_TOML@;
        let en = seq!['\n'] + "enabled = true"@ + seq!['\n'];
        let mo = setting_line("model"@, DEFAULT_MODEL@);
        let bu = setting_line("base_url"@, DEFAULT_BASE_URL@);
        let ien: int = 227;
        assert(t.subrange(ien, ien + en.len()) =~= en);
        let imo: int = 271;
        assert(t.subrange(imo, imo + mo.len()) =~= mo);
        let ibu: int = 302;
        assert(t.subrange(ibu, ibu + bu.len()) =~= bu);
    }
    DEFAULT_ASSISTANT_TOML
}

/// The text of a fresh `kuku.toml`.
pub fn default_config_toml() -> (r: &'static str)
    ensures
        r@ == DEFAULT_CONFIG_TOML@,
{
    DEFAULT_CONFIG_TOML
}

} // verus!
