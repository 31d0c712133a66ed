//! Model Context Protocol servers: their settings, the names under which
//! their tools are offered, and the text a tool call gives back.
use vstd::prelude::*;
use crate::text::{
    append_str, chars_of, find_char, index_of, join_with, string_from_chars, string_from_range,
    string_views,
};

verus! {

/// How to start one server: program, arguments, environment.
pub struct McpServerConfig {
    pub command: String,
    pub args: Vec<String>,
    /// Environment entries, each name at most once (a list of pairs, for
    /// the reason given at `McpConfig`).
    pub env: Vec<(String, String)>,
}

/// The configured servers by name, each name at most once. They are held
/// as a list of pairs in the order in which they were read; `well_formed`
/// keeps the names distinct, and `find_server` looks a name up.
pub struct McpConfig {
    pub servers: Vec<(String, McpServerConfig)>,
}

/// One item of a tool call's `content`: its `type` and its `text`, each
/// where the item holds it as a string.
pub struct ContentItem {
    pub kind: Option<String>,
    pub text: Option<String>,
}

/// The names of the configured servers, in order.
pub open spec fn server_names(c: &McpConfig) -> Seq<Seq<char>> {
    c.servers@.map_values(|e: (String, McpServerConfig)| e.0@)
}

impl McpServerConfig {
    /// Whether no environment name occurs twice.
    pub open spec fn well_formed(&self) -> bool {
        forall|i: int, j: int|
            0 <= i < j < self.env@.len() ==> (#[trigger] self.env@[i]).0@ != (#[trigger] self.env@[j]).0@
    }
}

impl McpConfig {
    /// Whether no server name occurs twice and each server is well formed.
    pub open spec fn well_formed(&self) -> bool {
        &&& forall|i: int, j: int|
            0 <= i < j < self.servers@.len() ==> (#[trigger] self.servers@[i]).0@ != (
            #[trigger] self.servers@[j]).0@
        &&& forall|i: int| 0 <= i < self.servers@.len() ==> (#[trigger] self.servers@[i]).1.well_formed()
    }

    /// The settings when there is no `mcp.toml`: no servers.
    pub fn empty() -> (r: McpConfig)
        ensures
            r.servers@.len() == 0,
            r.well_formed(),
    {
        McpConfig { servers: Vec::new() }
    }

    /// The number of configured servers.
    pub fn server_count(&self) -> (r: usize)
        ensures
            r == self.servers@.len(),
    {
        self.servers.len()
    }

    /// The server names, in order.
    pub fn names(&self) -> (r: Vec<String>)
        ensures
            string_views(r@) == server_names(self),
    {
        let mut out: Vec<String> = Vec::new();
        let mut i: usize = 0;
        while i < self.servers.len()
            invariant
                i <= self.servers@.len(),
                string_views(out@) == server_names(self).take(i as int),
            decreases self.servers@.len() - i,
        {
            let name = self.servers[i].0.clone();
            assert(name@ == server_names(self)[i as int]);
            let ghost old_out = out@;
            out.push(name);
            assert(string_views(out@) =~= string_views(old_out).push(name@));
            i = i + 1;
            assert(server_names(self).take(i as int) =~= server_names(self).take(i - 1).push(
                server_names(self)[i - 1],
            ));
        }
        assert(server_names(self).take(self.servers@.len() as int) =~= server_names(self));
        out
    }
}

/// The name under which a server's tool is offered to the model.
pub open spec fn qualified_name(server: Seq<char>, tool: Seq<char>) -> Seq<char> {
    server + seq!['_'] + tool
}

/// The server and tool that an offered name stands for: split at its first
/// underscore; none where it has none.
pub open spec fn split_qualified(full: Seq<char>) -> Option<(Seq<char>, Seq<char>)> {
    let i = index_of(full, '_');
    if i < full.len() {
        Some((full.take(i), full.skip(i + 1)))
    } else {
        None
    }
}

/// `server_tool`.
pub fn qualified_tool_name(server: &str, tool: &str) -> (r: String)
    ensures
        r@ == qualified_name(server@, tool@),
{
    let mut v = chars_of(server);
    v.push('_');
    append_str(&mut v, tool);
    string_from_chars(v.as_slice())
}

/// The server and tool that an offered name stands for.
pub fn split_tool_name(full: &str) -> (r: Option<(String, String)>)
    ensures
        match r {
            Some(p) => split_qualified(full@) == Some((p.0@, p.1@)),
            None => split_qualified(full@).is_none(),
        },
{
    let v = chars_of(full);
    let i = find_char(v.as_slice(), '_');
    if i < v.len() {
        assert(v@.subrange(0, i as int) =~= full@.take(i as int));
        assert(v@.subrange(i + 1, v@.len() as int) =~= full@.skip(i + 1));
        Some((string_from_range(v.as_slice(), 0, i), string_from_range(v.as_slice(), i + 1, v.len())))
    } else {
        None
    }
}

/// The position of the first entry of `names` equal to `server`.
pub fn find_server(names: &Vec<String>, server: &str) -> (r: Option<usize>)
    ensures
        match r {
            Some(i) => i < names@.len() && names@[i as int]@ == server@ && forall|j: int|
                0 <= j < i ==> (#[trigger] names@[j])@ != server@,
            None => forall|j: int| 0 <= j < names@.len() ==> (#[trigger] names@[j])@ != server@,
        },
{
    let s = chars_of(server);
    let mut i: usize = 0;
    while i < names.len()
        invariant
            i <= names@.len(),
            s@ == server@,
            forall|j: int| 0 <= j < i ==> (#[trigger] names@[j])@ != server@,
        decreases names@.len() - i,
    {
        let n = chars_of(names[i].as_str());
        assert(n@.subrange(0, n@.len() as int) =~= n@);
        if crate::text::range_equals(n.as_slice(), 0, n.len(), s.as_slice()) {
            return Some(i);
        }
        i = i + 1;
    }
    None
}

/// The texts of the items of type `text` that hold one, in order.
pub open spec fn text_items(items: Seq<ContentItem>) -> Seq<Seq<char>>
    decreases items.len(),
{
    if items.len() == 0 {
        Seq::empty()
    } else {
        let p = text_items(items.drop_last());
        let it = items.last();
        match (it.kind, it.text) {
            (Some(k), Some(t)) => if k@ == "text"@ {
                p.push(t@)
            } else {
                p
            },
            _ => p,
        }
    }
}

/// What a tool call gives back: where the result has a `content` list, the
/// texts of its text items joined by newlines; otherwise the result as
/// JSON text (`raw`).
pub fn tool_result_text(content: Option<&Vec<ContentItem>>, raw: String) -> (r: String)
    ensures
        r@ == match content {
            Some(items) => join_with(text_items(items@), seq!['\n']),
            None => raw@,
        },
{
    match content {
        None => raw,
        Some(items) => {
            let text_kind = chars_of("text");
            let mut out: Vec<char> = Vec::new();
            let mut any = false;
            let mut i: usize = 0;
            while i < items.len()
                invariant
                    i <= items@.len(),
                    text_kind@ == "text"@,
                    any == (text_items(items@.take(i as int)).len() > 0),
                    out@ == join_with(text_items(items@.take(i as int)), seq!['\n']),
                decreases items@.len() - i,
            {
                assert(items@.take(i + 1).drop_last() =~= items@.take(i as int));
                let it = &items[i];
                match (&it.kind, &it.text) {
                    (Some(k), Some(t)) => {
                        let kv = chars_of(k.as_str());
                        assert(kv@.subrange(0, kv@.len() as int) =~= kv@);
                        if crate::text::range_equals(kv.as_slice(), 0, kv.len(), text_kind.as_slice()) {
                            if any {
                                out.push('\n');
                            }
                            let ghost before = out@;
                            append_str(&mut out, t.as_str());
                            let ghost p = text_items(items@.take(i as int));
                            assert(text_items(items@.take(i + 1)) == p.push(t@));
                            if !any {
                                assert(out@ =~= join_with(p.push(t@), seq!['\n']));
                            } else {
                                assert(p.push(t@).drop_last() =~= p);
                                assert(out@ =~= join_with(p.push(t@), seq!['\n']));
                            }
                            any = true;
                        }
                    },
                    _ => {},
                }
                i = i + 1;
            }
            assert(items@.take(items@.len() as int) =~= items@);
            string_from_chars(out.as_slice())
        },
    }
}

/// A tool's offered name splits back into its server and tool, where the
/// server's name holds no underscore.
pub proof fn lemma_split_qualified(server: Seq<char>, tool: Seq<char>)
    requires
        forall|k: int| 0 <= k < server.len() ==> server[k] != '_',
    ensures
        split_qualified(qualified_name(server, tool)) == Some((server, tool)),
{
    let full = qualified_name(server, tool);
    crate::text::lemma_index_of(full, '_');
    let i = index_of(full, '_');
    assert(full[server.len() as int] == '_');
    if i < server.len() {
        assert(full[i] == server[i]);
    }
    assert(i == server.len());
    assert(full.take(i) =~= server);
    assert(full.skip(i + 1) =~= tool);
}


/// A tool that a server offers: its name and its description, where it has
/// one. Its input schema stays with the caller, as JSON.
pub struct McpTool {
    pub name: String,
    pub description: Option<String>,
}

/// What a tool is offered as to the chat service: a function under the
/// tool's qualified name, with a description.
pub struct ToolFunction {
    pub name: String,
    pub description: String,
}

/// The function under which `tool` of `server` is offered: the qualified
/// name, and the tool's description or the empty text where it has none.
pub fn tool_function(server: &str, tool: &McpTool) -> (r: ToolFunction)
    ensures
        r.name@ == qualified_name(server@, tool.name@),
        r.description@ == match tool.description {
            Some(d) => d@,
            None => Seq::<char>::empty(),
        },
{
    let description = match &tool.description {
        Some(d) => d.clone(),
        None => string_from_chars(&[]),
    };
    ToolFunction { name: qualified_tool_name(server, tool.name.as_str()), description }
}

/// Whether a request carries a `tools` array: only where a list of tools
/// was given and it holds at least one (`count` is its length).
pub fn sends_tools(count: Option<usize>) -> (r: bool)
    ensures
        r == match count {
            Some(n) => n > 0,
            None => false,
        },
{
    match count {
        Some(n) => n > 0,
        None => false,
    }
}

} // verus!
