//! The assistant's settings and the parts of a chat-completions request
//! and reply that the library decides: defaults, the settings file's text,
//! the endpoint, the headers, the messages, and how a reply is read.
use vstd::prelude::*;
use crate::text::{
    append_str, ascii_lower, ascii_lower_range, chars_of, contains, find_char, index_of, join_strings,
    join_with, range_equals, string_from_chars, string_from_range, string_views, trim, trim_bounds,
};

verus! {

/// The assistant's settings, as `assistant.toml` holds them.
pub struct AssistantConfig {
    pub enabled: Option<bool>,
    pub api_key: Option<String>,
    pub model: Option<String>,
    pub base_url: Option<String>,
    pub custom_headers: Option<Vec<String>>,
}

/// The model used where none is set.
pub const DEFAULT_MODEL: &'static str = "Doubao-Seed-2.0-Code";

/// The API root used where none is set.
pub const DEFAULT_BASE_URL: &'static str = "https://ark.cn-beijing.volces.com/api/coding/v1";

/// The models the settings screen cycles through, in order.
pub const AVAILABLE_MODELS: [&'static str; 5] = [
    "Doubao-Seed-2.0-Code",
    "Doubao-Seed-2.0-pro",
    "DeepSeek-V3.2",
    "MiniMax-M2.5",
    "GLM-4.7",
];

/// Reply length for a fix suggestion.
pub const SUGGESTION_MAX_TOKENS: u32 = 512;

/// Reply length for a free question.
pub const ANSWER_MAX_TOKENS: u32 = 2048;

/// One message of a chat.
pub struct Message {
    pub role: String,
    pub content: Option<String>,
    pub tool_calls: Option<Vec<ToolCall>>,
    pub tool_call_id: Option<String>,
}

/// A tool call that the model asks for.
pub struct ToolCall {
    pub id: String,
    pub call_type: String,
    pub function: FunctionCall,
}

/// The function a tool call names, with its arguments as JSON text.
pub struct FunctionCall {
    pub name: String,
    pub arguments: String,
}

/// Why a chat request gave no reply.
pub enum ChatError {
    /// No non-empty API key is set.
    NoApiKey,
    /// The service answered with a status outside 200..=299.
    Api { status: u16, body: String },
    /// The reply held no choice.
    EmptyResponse,
}

/// Whether the assistant may run: off when switched off, waiting for a key
/// when none is set, ready otherwise.
pub enum AssistantGate {
    Disabled,
    MissingKey,
    Ready,
}

pub open spec fn opt_view(o: Option<String>) -> Option<Seq<char>> {
    match o {
        Some(s) => Some(s@),
        None => None,
    }
}

/// The key when one is set and not empty.
pub open spec fn usable_key(c: &AssistantConfig) -> Option<Seq<char>> {
    match c.api_key {
        Some(k) => if k@.len() > 0 {
            Some(k@)
        } else {
            None
        },
        None => None,
    }
}

/// The model the requests name.
pub open spec fn effective_model(c: &AssistantConfig) -> Seq<char> {
    match c.model {
        Some(m) => m@,
        None => DEFAULT_MODEL@,
    }
}

/// The API root the requests go to.
pub open spec fn effective_base_url(c: &AssistantConfig) -> Seq<char> {
    match c.base_url {
        Some(u) => u@,
        None => DEFAULT_BASE_URL@,
    }
}

pub open spec fn gate_of(c: &AssistantConfig) -> AssistantGate {
    if c.enabled == Some(false) {
        AssistantGate::Disabled
    } else if usable_key(c).is_none() {
        AssistantGate::MissingKey
    } else {
        AssistantGate::Ready
    }
}

impl AssistantConfig {
    /// The settings used when there is no settings file: on, no key, the
    /// default model and API root, no extra headers.
    pub fn default_config() -> (r: AssistantConfig)
        ensures
            r.enabled == Some(true),
            r.api_key.is_none(),
            opt_view(r.model) == Some(DEFAULT_MODEL@),
            opt_view(r.base_url) == Some(DEFAULT_BASE_URL@),
            r.custom_headers.is_none(),
    {
        AssistantConfig {
            enabled: Some(true),
            api_key: None,
            model: Some(string_from_chars(&[]).concat(DEFAULT_MODEL)),
            base_url: Some(string_from_chars(&[]).concat(DEFAULT_BASE_URL)),
            custom_headers: None,
        }
    }

    /// The key when one is set and not empty.
    pub fn api_key_value(&self) -> (r: Option<String>)
        ensures
            opt_view(r) == usable_key(self),
    {
        match &self.api_key {
            Some(k) => if k.as_str().is_empty() {
                None
            } else {
                Some(k.clone())
            },
            None => None,
        }
    }

    /// Whether a non-empty key is set.
    pub fn has_api_key(&self) -> (r: bool)
        ensures
            r == usable_key(self).is_some(),
    {
        match &self.api_key {
            Some(k) => !k.as_str().is_empty(),
            None => false,
        }
    }

    /// Whether the assistant may run.
    pub fn gate(&self) -> (r: AssistantGate)
        ensures
            r == gate_of(self),
    {
        if self.enabled == Some(false) {
            AssistantGate::Disabled
        } else if !self.has_api_key() {
            AssistantGate::MissingKey
        } else {
            AssistantGate::Ready
        }
    }

    /// The model the requests name.
    pub fn model_name(&self) -> (r: String)
        ensures
            r@ == effective_model(self),
    {
        match &self.model {
            Some(m) => m.clone(),
            None => string_from_chars(&[]).concat(DEFAULT_MODEL),
        }
    }

    /// The API root the requests go to.
    pub fn base_url_value(&self) -> (r: String)
        ensures
            r@ == effective_base_url(self),
    {
        match &self.base_url {
            Some(u) => u.clone(),
            None => string_from_chars(&[]).concat(DEFAULT_BASE_URL),
        }
    }
}


/// `s` without any trailing `c`.
pub open spec fn trim_end_char(s: Seq<char>, c: char) -> Seq<char>
    decreases s.len(),
{
    if s.len() > 0 && s.last() == c {
        trim_end_char(s.drop_last(), c)
    } else {
        s
    }
}

/// The chat-completions endpoint under the API root `base`.
pub open spec fn chat_url_of(base: Seq<char>) -> Seq<char> {
    trim_end_char(base, '/') + "/chat/completions"@
}

/// What one custom header entry `name: value` sends: nothing where it has
/// no colon or names a header that the request sets itself.
pub open spec fn header_entry(h: Seq<char>) -> Option<(Seq<char>, Seq<char>)> {
    let i = index_of(h, ':');
    if i >= h.len() {
        None
    } else {
        let name = trim(h.take(i));
        let lower = ascii_lower(name);
        if lower == "authorization"@ || lower == "content-type"@ {
            None
        } else {
            Some((name, trim(h.skip(i + 1))))
        }
    }
}

/// The headers that the entries `hs` send, in order.
pub open spec fn header_pairs(hs: Seq<Seq<char>>) -> Seq<(Seq<char>, Seq<char>)>
    decreases hs.len(),
{
    if hs.len() == 0 {
        Seq::empty()
    } else {
        let p = header_pairs(hs.drop_last());
        match header_entry(hs.last()) {
            Some(e) => p.push(e),
            None => p,
        }
    }
}

pub open spec fn pair_views(v: Seq<(String, String)>) -> Seq<(Seq<char>, Seq<char>)> {
    v.map_values(|p: (String, String)| (p.0@, p.1@))
}

/// The custom header entries of `c`, none where none are set.
pub open spec fn header_entries(c: &AssistantConfig) -> Seq<Seq<char>> {
    match c.custom_headers {
        Some(hs) => string_views(hs@),
        None => Seq::empty(),
    }
}

/// The header that one entry sends, if any.
pub fn parse_header(h: &str) -> (r: Option<(String, String)>)
    ensures
        match r {
            Some(p) => header_entry(h@) == Some((p.0@, p.1@)),
            None => header_entry(h@).is_none(),
        },
{
    let v = chars_of(h);
    let i = find_char(v.as_slice(), ':');
    if i >= v.len() {
        return None;
    }
    let name = string_from_range(v.as_slice(), 0, i);
    let nv = chars_of(name.as_str());
    let (a, b) = trim_bounds(nv.as_slice());
    let lower = ascii_lower_range(nv.as_slice(), a, b);
    let auth = chars_of("authorization");
    let ctype = chars_of("content-type");
    assert(lower@.subrange(0, lower@.len() as int) =~= lower@);
    assert(v@.subrange(0, i as int) =~= h@.take(i as int));
    if range_equals(lower.as_slice(), 0, lower.len(), auth.as_slice()) || range_equals(
        lower.as_slice(),
        0,
        lower.len(),
        ctype.as_slice(),
    ) {
        return None;
    }
    let rest = string_from_range(v.as_slice(), i + 1, v.len());
    let rv = chars_of(rest.as_str());
    let (c, d) = trim_bounds(rv.as_slice());
    assert(v@.subrange(i + 1, v@.len() as int) =~= h@.skip(i + 1));
    Some((string_from_range(nv.as_slice(), a, b), string_from_range(rv.as_slice(), c, d)))
}

impl AssistantConfig {
    /// The chat-completions endpoint: the API root without trailing
    /// slashes, then `/chat/completions`.
    pub fn chat_url(&self) -> (r: String)
        ensures
            r@ == chat_url_of(effective_base_url(self)),
    {
        let base = self.base_url_value();
        let mut v = chars_of(base.as_str());
        let ghost full = v@;
        while v.len() > 0 && v[v.len() - 1] == '/'
            invariant
                trim_end_char(v@, '/') == trim_end_char(full, '/'),
            decreases v@.len(),
        {
            v.pop();
        }
        append_str(&mut v, "/chat/completions");
        string_from_chars(v.as_slice())
    }

    /// The headers that the custom entries send, in order: each entry
    /// split at its first colon, both sides trimmed; entries without a
    /// colon, and `Authorization` or `Content-Type` in any case, left out.
    pub fn custom_header_pairs(&self) -> (r: Vec<(String, String)>)
        ensures
            pair_views(r@) == header_pairs(header_entries(self)),
    {
        let mut out: Vec<(String, String)> = Vec::new();
        match &self.custom_headers {
            None => {
                assert(pair_views(out@) =~= header_pairs(header_entries(self)));
                out
            },
            Some(hs) => {
                let ghost views = string_views(hs@);
                let mut i: usize = 0;
                while i < hs.len()
                    invariant
                        i <= hs@.len(),
                        views == string_views(hs@),
                        pair_views(out@) == header_pairs(views.take(i as int)),
                    decreases hs@.len() - i,
                {
                    assert(views.take(i + 1).drop_last() =~= views.take(i as int));
                    assert(views.take(i + 1).last() == hs@[i as int]@);
                    let entry = parse_header(hs[i].as_str());
                    match entry {
                        Some(p) => {
                            out.push(p);
                            assert(pair_views(out@) =~= header_pairs(views.take(i + 1)));
                        },
                        None => {},
                    }
                    i = i + 1;
                }
                assert(views.take(hs@.len() as int) =~= views);
                out
            },
        }
    }
}


/// The first line of a saved settings file, and the blank line after it.
pub const CONFIG_HEADER: &'static str = "# Kuku Assistant configuration\n\n";

/// The comment that ends a saved settings file.
pub const MODELS_COMMENT: &'static str = "# Available models: Doubao-Seed-2.0-pro, Doubao-Seed-2.0-Code, MiniMax-M2.5, GLM-4.7, DeepSeek-V3.2\n";

pub open spec fn bool_text(b: bool) -> Seq<char> {
    if b {
        "true"@
    } else {
        "false"@
    }
}

pub open spec fn quoted(s: Seq<char>) -> Seq<char> {
    seq!['"'] + s + seq!['"']
}

/// The `api_key` line: the key quoted, or a commented-out placeholder.
pub open spec fn key_line(c: &AssistantConfig) -> Seq<char> {
    match c.api_key {
        Some(k) => "api_key = "@ + quoted(k@) + seq!['\n'],
        None => "# api_key = \"<your_api_key>\"\n"@,
    }
}

/// The `custom_headers` line, where there are custom headers.
pub open spec fn headers_line(c: &AssistantConfig) -> Seq<char> {
    match c.custom_headers {
        Some(hs) => "custom_headers = ["@ + join_with(
            string_views(hs@).map_values(|h: Seq<char>| quoted(h)),
            ", "@,
        ) + "]\n"@,
        None => Seq::empty(),
    }
}

/// The text of `assistant.toml` for the settings `c`.
pub open spec fn config_text(c: &AssistantConfig) -> Seq<char> {
    let enabled = match c.enabled {
        Some(b) => b,
        None => true,
    };
    CONFIG_HEADER@ + "enabled = "@ + bool_text(enabled) + seq!['\n'] + key_line(c) + "model = "@
        + quoted(effective_model(c)) + seq!['\n'] + "base_url = "@ + quoted(effective_base_url(c))
        + seq!['\n'] + headers_line(c) + MODELS_COMMENT@
}

fn push_quoted(v: &mut Vec<char>, s: &str)
    ensures
        final(v)@ == old(v)@ + quoted(s@),
{
    v.push('"');
    append_str(v, s);
    v.push('"');
    assert(v@ =~= old(v)@ + quoted(s@));
}

impl AssistantConfig {
    /// The text that saving these settings writes.
    pub fn render(&self) -> (r: String)
        ensures
            r@ == config_text(self),
    {
        let mut v: Vec<char> = Vec::new();
        append_str(&mut v, CONFIG_HEADER);
        append_str(&mut v, "enabled = ");
        let enabled = match self.enabled {
            Some(b) => b,
            None => true,
        };
        if enabled {
            append_str(&mut v, "true");
        } else {
            append_str(&mut v, "false");
        }
        v.push('\n');
        match &self.api_key {
            Some(k) => {
                append_str(&mut v, "api_key = ");
                push_quoted(&mut v, k.as_str());
                v.push('\n');
            },
            None => {
                append_str(&mut v, "# api_key = \"<your_api_key>\"\n");
            },
        }
        append_str(&mut v, "model = ");
        let model = self.model_name();
        push_quoted(&mut v, model.as_str());
        v.push('\n');
        append_str(&mut v, "base_url = ");
        let base = self.base_url_value();
        push_quoted(&mut v, base.as_str());
        v.push('\n');
        let ghost before_headers = v@;
        match &self.custom_headers {
            Some(hs) => {
                let mut items: Vec<String> = Vec::new();
                let mut i: usize = 0;
                while i < hs.len()
                    invariant
                        i <= hs@.len(),
                        items@.len() == i,
                        forall|k: int| 0 <= k < i ==> (#[trigger] items@[k])@ == quoted(hs@[k]@),
                    decreases hs@.len() - i,
                {
                    let mut q: Vec<char> = Vec::new();
                    push_quoted(&mut q, hs[i].as_str());
                    assert(q@ =~= quoted(hs@[i as int]@));
                    items.push(string_from_chars(q.as_slice()));
                    i = i + 1;
                }
                assert(string_views(items@) =~= string_views(hs@).map_values(|h: Seq<char>| quoted(h)));
                append_str(&mut v, "custom_headers = [");
                let joined = join_strings(&items, ", ");
                append_str(&mut v, joined.as_str());
                append_str(&mut v, "]\n");
                assert(v@ =~= before_headers + headers_line(self));
            },
            None => {
                assert(v@ =~= before_headers + headers_line(self));
            },
        }
        append_str(&mut v, MODELS_COMMENT);
        assert(v@ =~= config_text(self));
        string_from_chars(v.as_slice())
    }
}

/// The two messages of a plain chat: the system prompt, then the user's
/// message, neither with tool calls.
pub fn chat_messages(system_prompt: &str, user_msg: &str) -> (r: Vec<Message>)
    ensures
        r@.len() == 2,
        r@[0].role@ == "system"@,
        opt_view(r@[0].content) == Some(system_prompt@),
        r@[1].role@ == "user"@,
        opt_view(r@[1].content) == Some(user_msg@),
        forall|k: int| 0 <= k < 2 ==> (#[trigger] r@[k]).tool_calls.is_none() && r@[k].tool_call_id.is_none(),
{
    let empty = string_from_chars(&[]);
    let mut r: Vec<Message> = Vec::new();
    r.push(Message {
        role: empty.clone().concat("system"),
        content: Some(empty.clone().concat(system_prompt)),
        tool_calls: None,
        tool_call_id: None,
    });
    r.push(Message {
        role: empty.clone().concat("user"),
        content: Some(empty.concat(user_msg)),
        tool_calls: None,
        tool_call_id: None,
    });
    r
}

/// Whether an HTTP status counts as success.
pub open spec fn status_ok(status: u16) -> bool {
    200 <= status <= 299
}

/// Refuses a reply whose status is not a success, keeping its body.
pub fn check_status(status: u16, body: &str) -> (r: Result<(), ChatError>)
    ensures
        status_ok(status) ==> r is Ok,
        !status_ok(status) ==> (r matches Err(ChatError::Api { status: s, body: b }) && s == status
            && b@ == body@),
{
    if 200 <= status && status <= 299 {
        Ok(())
    } else {
        Err(ChatError::Api { status, body: string_from_chars(&[]).concat(body) })
    }
}

/// The message of the first choice of a reply, or an empty-reply error.
pub fn first_choice(choices: Vec<Message>) -> (r: Result<Message, ChatError>)
    ensures
        choices@.len() > 0 ==> (r matches Ok(m) && m == choices@[0]),
        choices@.len() == 0 ==> r matches Err(ChatError::EmptyResponse),
{
    let mut choices = choices;
    if choices.len() == 0 {
        Err(ChatError::EmptyResponse)
    } else {
        Ok(choices.swap_remove(0))
    }
}

/// The text of a reply message; empty where it has none.
pub fn reply_text(m: Message) -> (r: String)
    ensures
        r@ == match m.content {
            Some(c) => c@,
            None => Seq::<char>::empty(),
        },
{
    match m.content {
        Some(c) => c,
        None => string_from_chars(&[]),
    }
}


/// Custom headers never replace the two headers that the request sets
/// itself: no header sent from them is named `Authorization` or
/// `Content-Type`, in any case.
pub proof fn lemma_headers_keep_auth(hs: Seq<Seq<char>>)
    ensures
        forall|k: int|
            0 <= k < header_pairs(hs).len() ==> ascii_lower((#[trigger] header_pairs(hs)[k]).0)
                != "authorization"@ && ascii_lower(header_pairs(hs)[k].0) != "content-type"@,
    decreases hs.len(),
{
    if hs.len() > 0 {
        let t = hs.drop_last();
        lemma_headers_keep_auth(t);
        let p = header_pairs(t);
        let q = header_pairs(hs);
        match header_entry(hs.last()) {
            Some(e) => {
                assert(q == p.push(e));
                assert forall|k: int| 0 <= k < q.len() implies ascii_lower((#[trigger] q[k]).0)
                    != "authorization"@ && ascii_lower(q[k].0) != "content-type"@ by {
                    if k < p.len() {
                        assert(q[k] == p[k]);
                    }
                }
            },
            None => {
                assert(q == p);
            },
        }
    }
}

/// A saved settings file starts with its title line and a blank line, then
/// the line `enabled = true` or `enabled = false` as the settings say (on
/// where unset), then the key line: `api_key = "<key>"` where a key is set.
pub proof fn lemma_render_enabled_and_key(c: AssistantConfig)
    ensures
        c.enabled != Some(false) ==> config_text(&c).take(CONFIG_HEADER@.len() + 15int) == CONFIG_HEADER@
            + "enabled = true\n"@,
        c.enabled == Some(false) ==> config_text(&c).take(CONFIG_HEADER@.len() + 16int) == CONFIG_HEADER@
            + "enabled = false\n"@,
        c.enabled != Some(false) ==> contains(config_text(&c), "\nenabled = true\n"@),
        c.enabled == Some(false) ==> contains(config_text(&c), "\nenabled = false\n"@),
        forall|k: String| c.api_key == Some(k) ==> contains(
            config_text(&c),
            seq!['\n'] + "api_key = "@ + quoted(k@) + seq!['\n'],
        ),
{
    reveal_strlit("# Kuku Assistant configuration\n\n");
    reveal_strlit("enabled = ");
    reveal_strlit("true");
    reveal_strlit("false");
    reveal_strlit("enabled = true\n");
    reveal_strlit("enabled = false\n");
    reveal_strlit("\nenabled = true\n");
    reveal_strlit("\nenabled = false\n");
    reveal_strlit("api_key = ");
    let t = config_text(&c);
    let h = CONFIG_HEADER@;
    let on = match c.enabled {
        Some(b) => b,
        None => true,
    };
    let el = "enabled = "@ + bool_text(on) + seq!['\n'];
    let rest = key_line(&c) + "model = "@ + quoted(effective_model(&c)) + seq!['\n'] + "base_url = "@
        + quoted(effective_base_url(&c)) + seq!['\n'] + headers_line(&c) + MODELS_COMMENT@;
    assert(t =~= h + el + rest);
    let i: int = h.len() - 1;
    if on {
        assert(el =~= "enabled = true\n"@);
        assert(t.take(h.len() + 15int) =~= h + el);
        assert(t.subrange(i, i + 16) =~= "\nenabled = true\n"@);
    } else {
        assert(el =~= "enabled = false\n"@);
        assert(t.take(h.len() + 16int) =~= h + el);
        assert(t.subrange(i, i + 17) =~= "\nenabled = false\n"@);
    }
    assert forall|k: String| c.api_key == Some(k) implies contains(
        t,
        seq!['\n'] + "api_key = "@ + quoted(k@) + seq!['\n'],
    ) by {
        let w = seq!['\n'] + "api_key = "@ + quoted(k@) + seq!['\n'];
        let j: int = h.len() + el.len() - 1;
        assert(key_line(&c) == "api_key = "@ + quoted(k@) + seq!['\n']);
        assert(t.subrange(j, j + w.len()) =~= w);
    }
}

} // verus!
