//! The environment check: one verdict per item, how each is printed, and
//! the tally at the end.
use vstd::prelude::*;
use crate::api::{
    bool_text, config_text, effective_base_url, effective_model, headers_line, key_line as saved_key_line,
    opt_view, quoted, AssistantConfig, CONFIG_HEADER, MODELS_COMMENT,
};
use crate::mcp::{server_names, McpConfig};
use crate::profile::PROFILE_MARKER;
use crate::text::{
    append_str, chars_of, contains, contains_str, decimal, decimal_usize, join_strings, join_with,
    lemma_pieces_concat, lemma_pieces_len, is_ws, trim_end, trim_start, lemma_pieces_single, lemma_trim_drop_ws_last, lines,
    lines_of, pieces, range_equals, strip_cr, string_from_chars, string_from_range, trim,
    trim_bounds,
};

verus! {

/// The verdict on one item.
#[derive(PartialEq, Eq, Structural, Clone, Copy)]
pub enum Status {
    Pass,
    Warn,
    Fail,
    Info,
}

/// One checked item: its name, verdict, what was found, and how to fix it.
pub struct Check {
    pub name: String,
    pub status: Status,
    pub detail: String,
    pub fix: Option<String>,
}

pub open spec fn status_icon(s: Status) -> Seq<char> {
    match s {
        Status::Pass => "\x1b[32m✓\x1b[0m"@,
        Status::Warn => "\x1b[33m!\x1b[0m"@,
        Status::Fail => "\x1b[31mx\x1b[0m"@,
        Status::Info => "\x1b[36mi\x1b[0m"@,
    }
}

impl Status {
    /// The coloured mark printed before the item.
    pub fn icon(self) -> (r: &'static str)
        ensures
            r@ == status_icon(self),
    {
        match self {
            Status::Pass => "\x1b[32m✓\x1b[0m",
            Status::Warn => "\x1b[33m!\x1b[0m",
            Status::Fail => "\x1b[31mx\x1b[0m",
            Status::Info => "\x1b[36mi\x1b[0m",
        }
    }
}

fn text(s: &str) -> (r: String)
    ensures
        r@ == s@,
{
    string_from_chars(&[]).concat(s)
}

fn joined2(a: &str, b: &str) -> (r: String)
    ensures
        r@ == a@ + b@,
{
    text(a).concat(b)
}

fn check(name: &str, status: Status, detail: String, fix: Option<String>) -> (r: Check)
    ensures
        r.name@ == name@,
        r.status == status,
        r.detail@ == detail@,
        opt_view(r.fix) == opt_view(fix),
{
    Check { name: text(name), status, detail, fix }
}

/// The fix offered for an old or missing PowerShell.
pub const POWERSHELL_FIX: &'static str = "winget install Microsoft.PowerShell";

/// The fix offered for a missing integration.
pub const INIT_FIX: &'static str = "Run `kuku init`";

/// The verdict on PowerShell, given what `--version` printed (`None` where
/// no PowerShell could be run): found with a 7.x version is fine, another
/// version is a warning, none is a failure.
pub fn check_powershell(version_output: Option<&str>) -> (r: Check)
    ensures
        r.name@ == "PowerShell"@,
        match version_output {
            Some(out) => {
                let v = trim(out@);
                &&& r.detail@ == v
                &&& contains(v, "7."@) ==> r.status == Status::Pass && r.fix.is_none()
                &&& !contains(v, "7."@) ==> r.status == Status::Warn && opt_view(r.fix) == Some(POWERSHELL_FIX@)
            },
            None => r.status == Status::Fail && r.detail@ == "PowerShell not found"@ && opt_view(r.fix)
                == Some(POWERSHELL_FIX@),
        },
{
    match version_output {
        Some(out) => {
            let v = crate::text::trim_str(out);
            if contains_str(v.as_str(), "7.") {
                check("PowerShell", Status::Pass, v, None)
            } else {
                check("PowerShell", Status::Warn, v, Some(text(POWERSHELL_FIX)))
            }
        },
        None => check("PowerShell", Status::Fail, text("PowerShell not found"), Some(text(POWERSHELL_FIX))),
    }
}

/// The verdict on the profile, given its path (`None` where it cannot be
/// determined) and its text (`None` where the file does not exist).
pub fn check_profile_integration(path: Option<&str>, content: Option<&str>) -> (r: Check)
    ensures
        r.name@ == "Profile Integration"@,
        match path {
            None => r.status == Status::Warn && r.detail@ == "Cannot determine PowerShell profile path"@
                && opt_view(r.fix) == Some(INIT_FIX@),
            Some(p) => match content {
                None => r.status == Status::Warn && r.detail@ == "Profile not found: "@ + p@ && opt_view(
                    r.fix,
                ) == Some(INIT_FIX@),
                Some(c) => if contains(c@, PROFILE_MARKER@) {
                    r.status == Status::Pass && r.detail@ == "Kuku block found in "@ + p@ && r.fix.is_none()
                } else {
                    r.status == Status::Warn && r.detail@ == "No kuku block in "@ + p@ && opt_view(r.fix)
                        == Some(INIT_FIX@)
                },
            },
        },
{
    let name = "Profile Integration";
    match path {
        None => check(name, Status::Warn, text("Cannot determine PowerShell profile path"), Some(text(INIT_FIX))),
        Some(p) => match content {
            None => check(name, Status::Warn, joined2("Profile not found: ", p), Some(text(INIT_FIX))),
            Some(c) => if contains_str(c, PROFILE_MARKER) {
                check(name, Status::Pass, joined2("Kuku block found in ", p), None)
            } else {
                check(name, Status::Warn, joined2("No kuku block in ", p), Some(text(INIT_FIX)))
            },
        },
    }
}

/// Whether a settings line sets the key: trimmed, it is no comment, starts
/// with `api_key` and holds `=`.
pub open spec fn is_key_line(l: Seq<char>) -> bool {
    let t = trim(l);
    &&& !(t.len() > 0 && t[0] == '#')
    &&& t.len() >= 7 && t.take(7) == "api_key"@
    &&& contains(t, "="@)
}

pub open spec fn has_key_line(raw: Seq<char>) -> bool {
    exists|k: int| 0 <= k < lines(raw).len() && is_key_line(#[trigger] lines(raw)[k])
}

fn key_line(l: &Vec<char>) -> (r: bool)
    ensures
        r == is_key_line(l@),
{
    let (a, b) = trim_bounds(l.as_slice());
    let t = string_from_range(l.as_slice(), a, b);
    let tv = chars_of(t.as_str());
    if tv.len() > 0 && tv[0] == '#' {
        return false;
    }
    let key = chars_of("api_key");
    proof {
        reveal_strlit("api_key");
    }
    if tv.len() < 7 {
        return false;
    }
    if !range_equals(tv.as_slice(), 0, 7, key.as_slice()) {
        return false;
    }
    assert(tv@.subrange(0, 7) =~= tv@.take(7));
    contains_str(t.as_str(), "=")
}

/// The verdict on the assistant settings, given their path and text
/// (`None` where the file does not exist).
pub fn check_assistant_config(path: &str, content: Option<&str>) -> (r: Check)
    ensures
        r.name@ == "AI Assistant Config"@,
        match content {
            None => r.status == Status::Warn && r.detail@ == "Missing "@ + path@ && opt_view(r.fix)
                == Some("Run `kuku ai` to configure"@),
            Some(c) => if has_key_line(c@) {
                r.status == Status::Pass && r.detail@ == "API key configured"@ && r.fix.is_none()
            } else {
                r.status == Status::Warn && r.detail@ == "API key not set"@ && opt_view(r.fix) == Some(
                    "Run `kuku ai` to set API key"@,
                )
            },
        },
{
    let name = "AI Assistant Config";
    match content {
        None => check(name, Status::Warn, joined2("Missing ", path), Some(text("Run `kuku ai` to configure"))),
        Some(c) => {
            let v = chars_of(c);
            let ls = lines_of(v.as_slice());
            let mut found = false;
            let mut i: usize = 0;
            while i < ls.len()
                invariant
                    i <= ls@.len() == lines(c@).len(),
                    forall|t: int| 0 <= t < ls@.len() ==> (#[trigger] ls@[t])@ == lines(c@)[t],
                    found == exists|k: int| 0 <= k < i && is_key_line(#[trigger] lines(c@)[k]),
                decreases ls@.len() - i,
            {
                if key_line(&ls[i]) {
                    found = true;
                }
                i = i + 1;
            }
            if found {
                check(name, Status::Pass, text("API key configured"), None)
            } else {
                check(name, Status::Warn, text("API key not set"), Some(text("Run `kuku ai` to set API key")))
            }
        },
    }
}

/// The fix offered where no MCP server is configured.
pub const MCP_EXAMPLE_FIX: &'static str = "复制 mcp.example.toml 到 ~/.config/kuku/mcp.toml";

/// The verdict on the MCP settings, given them or the reason they could not
/// be read: none configured is a note, some are fine, unreadable settings a
/// warning.
pub fn check_mcp_config(config: Result<&McpConfig, &str>) -> (r: Check)
    ensures
        r.name@ == "MCP Servers"@,
        match config {
            Ok(c) => if c.servers@.len() == 0 {
                r.status == Status::Info && r.detail@ == "没配置 MCP server（可选）"@ && opt_view(r.fix) == Some(
                    MCP_EXAMPLE_FIX@,
                )
            } else {
                r.status == Status::Pass && r.detail@ == decimal(c.servers@.len() as int) + " 个 server: "@
                    + join_with(server_names(c), ", "@) && r.fix.is_none()
            },
            Err(e) => r.status == Status::Warn && r.detail@ == "配置解析失败: "@ + e@ && opt_view(r.fix)
                == Some("检查 ~/.config/kuku/mcp.toml 格式"@),
        },
{
    let name = "MCP Servers";
    match config {
        Ok(c) => {
            let count = c.server_count();
            if count == 0 {
                check(name, Status::Info, text("没配置 MCP server（可选）"), Some(text(MCP_EXAMPLE_FIX)))
            } else {
                let names = c.names();
                let joined = join_strings(&names, ", ");
                let detail = decimal_usize(count).concat(" 个 server: ").concat(joined.as_str());
                check(name, Status::Pass, detail, None)
            }
        },
        Err(e) => check(name, Status::Warn, joined2("配置解析失败: ", e), Some(text("检查 ~/.config/kuku/mcp.toml 格式"))),
    }
}

/// The optional tools looked for: name, program, how to install it. Each
/// is run with `--version`.
pub const TOOL_PROBES: [(&'static str, &'static str, &'static str); 5] = [
    ("starship", "starship", "winget install Starship.Starship"),
    ("delta", "delta", "winget install dandavison.delta"),
    ("lazygit", "lazygit", "winget install jesseduffield.lazygit"),
    ("yazi", "yazi", "winget install sxyazi.yazi"),
    ("zoxide", "zoxide", "winget install ajeetdsouza.zoxide"),
];

/// The first line of some output, trimmed; empty where there is none.
pub open spec fn first_line_trimmed(out: Seq<char>) -> Seq<char> {
    if lines(out).len() > 0 {
        trim(lines(out)[0])
    } else {
        Seq::empty()
    }
}

/// The verdict on an optional tool, given what `--version` printed (`None`
/// where it could not be run): found is fine, missing is a note.
pub fn check_tool(name: &str, version_output: Option<&str>, install: &str) -> (r: Check)
    ensures
        r.name@ == name@,
        match version_output {
            Some(out) => r.status == Status::Pass && r.fix.is_none() && r.detail@ == if first_line_trimmed(
                out@,
            ).len() == 0 {
                "installed"@
            } else {
                first_line_trimmed(out@)
            },
            None => r.status == Status::Info && r.detail@ == "not installed (optional)"@ && opt_view(r.fix)
                == Some(install@),
        },
{
    match version_output {
        Some(out) => {
            let v = chars_of(out);
            let ls = lines_of(v.as_slice());
            let first = if ls.len() > 0 {
                let (a, b) = trim_bounds(ls[0].as_slice());
                string_from_range(ls[0].as_slice(), a, b)
            } else {
                string_from_chars(&[])
            };
            if first.as_str().is_empty() {
                check(name, Status::Pass, text("installed"), None)
            } else {
                check(name, Status::Pass, first, None)
            }
        },
        None => check(name, Status::Info, text("not installed (optional)"), Some(text(install))),
    }
}


/// How many of `cs` have the verdict `st`.
pub open spec fn count_status(cs: Seq<Check>, st: Status) -> nat
    decreases cs.len(),
{
    if cs.len() == 0 {
        0
    } else {
        count_status(cs.drop_last(), st) + if cs.last().status == st {
            1nat
        } else {
            0nat
        }
    }
}

/// The numbers of checks that passed, warned and failed.
pub fn tally(checks: &Vec<Check>) -> (r: (usize, usize, usize))
    ensures
        r.0 == count_status(checks@, Status::Pass),
        r.1 == count_status(checks@, Status::Warn),
        r.2 == count_status(checks@, Status::Fail),
{
    let mut ok: usize = 0;
    let mut warn: usize = 0;
    let mut fail: usize = 0;
    let mut i: usize = 0;
    while i < checks.len()
        invariant
            i <= checks@.len(),
            ok == count_status(checks@.take(i as int), Status::Pass),
            warn == count_status(checks@.take(i as int), Status::Warn),
            fail == count_status(checks@.take(i as int), Status::Fail),
            ok + warn + fail <= i,
        decreases checks@.len() - i,
    {
        assert(checks@.take(i + 1).drop_last() =~= checks@.take(i as int));
        match checks[i].status {
            Status::Pass => ok = ok + 1,
            Status::Warn => warn = warn + 1,
            Status::Fail => fail = fail + 1,
            Status::Info => {},
        }
        i = i + 1;
    }
    assert(checks@.take(checks@.len() as int) =~= checks@);
    (ok, warn, fail)
}

/// Every check has exactly one verdict, so the four counts add up to the
/// number of checks.
pub proof fn lemma_counts_cover(cs: Seq<Check>)
    ensures
        count_status(cs, Status::Pass) + count_status(cs, Status::Warn) + count_status(cs, Status::Fail)
            + count_status(cs, Status::Info) == cs.len(),
    decreases cs.len(),
{
    if cs.len() > 0 {
        lemma_counts_cover(cs.drop_last());
    }
}

/// The closing remark: praise with no warning or failure, the number of
/// warnings where only they occur, the number of failures otherwise.
pub open spec fn summary_text(warn: nat, fail: nat) -> Seq<char> {
    if fail == 0 && warn == 0 {
        "  \x1b[32m曼波！全部没问题！你好棒！\x1b[0m"@
    } else if fail == 0 {
        "  \x1b[33m基本OK~ 就 "@ + decimal(warn as int) + " 个小事情啦\x1b[0m"@
    } else {
        "  \x1b[31m呜呜呜 "@ + decimal(fail as int) + " 个地方坏掉了...别担心我帮你！\x1b[0m"@
    }
}

/// The closing remark for the given counts.
pub fn summary_line(warn: usize, fail: usize) -> (r: String)
    ensures
        r@ == summary_text(warn as nat, fail as nat),
{
    if fail == 0 && warn == 0 {
        text("  \x1b[32m曼波！全部没问题！你好棒！\x1b[0m")
    } else if fail == 0 {
        text("  \x1b[33m基本OK~ 就 ").concat(decimal_usize(warn).as_str()).concat(" 个小事情啦\x1b[0m")
    } else {
        text("  \x1b[31m呜呜呜 ").concat(decimal_usize(fail).as_str()).concat(" 个地方坏掉了...别担心我帮你！\x1b[0m")
    }
}

/// The line with the three counts.
pub fn totals_line(ok: usize, warn: usize, fail: usize) -> (r: String)
    ensures
        r@ == "  "@ + decimal(ok as int) + " ok  "@ + decimal(warn as int) + " warn  "@ + decimal(
            fail as int,
        ) + " fail"@,
{
    text("  ").concat(decimal_usize(ok).as_str()).concat(" ok  ").concat(decimal_usize(warn).as_str()).concat(
        " warn  ",
    ).concat(decimal_usize(fail).as_str()).concat(" fail")
}

impl Check {
    /// The printed form: the mark, name and finding on one line, then the
    /// fix on a line of its own where there is one; each line ends with a
    /// newline.
    pub fn report(&self) -> (r: String)
        ensures
            r@ == "  "@ + status_icon(self.status) + " "@ + self.name@ + ": "@ + self.detail@ + "\n"@
                + match self.fix {
                Some(f) => "    \x1b[90mFix: "@ + f@ + "\x1b[0m\n"@,
                None => Seq::<char>::empty(),
            },
    {
        let mut v: Vec<char> = Vec::new();
        append_str(&mut v, "  ");
        append_str(&mut v, self.status.icon());
        append_str(&mut v, " ");
        append_str(&mut v, self.name.as_str());
        append_str(&mut v, ": ");
        append_str(&mut v, self.detail.as_str());
        append_str(&mut v, "\n");
        let ghost head = v@;
        match &self.fix {
            Some(f) => {
                append_str(&mut v, "    \x1b[90mFix: ");
                append_str(&mut v, f.as_str());
                append_str(&mut v, "\x1b[0m\n");
            },
            None => {},
        }
        assert(v@ =~= "  "@ + status_icon(self.status) + " "@ + self.name@ + ": "@ + self.detail@ + "\n"@
            + match self.fix {
            Some(f) => "    \x1b[90mFix: "@ + f@ + "\x1b[0m\n"@,
            None => Seq::<char>::empty(),
        });
        string_from_chars(v.as_slice())
    }
}

/// A line that sets the key is found wherever it stands in the settings
/// text: after any lines before it (blank ones included) and before any
/// lines after it.
pub proof fn lemma_key_line_found(x: Seq<char>, l: Seq<char>, y: Seq<char>)
    requires
        is_key_line(l),
        forall|j: int| 0 <= j < l.len() ==> l[j] != '\n',
        x.len() == 0 || x.last() == '\n',
        y.len() == 0 || y[0] == '\n',
    ensures
        has_key_line(x + l + y),
{
    let s = x + l + y;
    lemma_pieces_single(l);
    let pre: Seq<Seq<char>> = if x.len() == 0 {
        Seq::empty()
    } else {
        pieces(x.drop_last())
    };
    let post: Seq<Seq<char>> = if y.len() == 0 {
        Seq::empty()
    } else {
        pieces(y.skip(1))
    };
    let ly = l + y;
    if y.len() == 0 {
        assert(ly =~= l);
    } else {
        assert(ly =~= l + seq!['\n'] + y.skip(1));
        lemma_pieces_concat(l, y.skip(1));
        lemma_pieces_len(y.skip(1));
    }
    assert(pieces(ly) == seq![l] + post);
    if x.len() == 0 {
        assert(s =~= ly);
        assert(seq![l] + post =~= pre + seq![l] + post);
    } else {
        assert(s =~= x.drop_last() + seq!['\n'] + ly);
        lemma_pieces_concat(x.drop_last(), ly);
        assert(pre + (seq![l] + post) =~= pre + seq![l] + post);
    }
    let p = pieces(s);
    assert(p == pre + seq![l] + post);
    let k = pre.len() as int;
    let n = p.len() as int;
    assert(p[k] == l);
    assert(l.len() > 0) by {
        if l.len() == 0 {
            assert(trim(l) =~= l);
        }
    }
    if k < n - 1 {
        assert(lines(s)[k] == p.take(n - 1).map_values(|q: Seq<char>| strip_cr(q))[k]);
        assert(lines(s)[k] == strip_cr(l));
        if l.last() == '\r' {
            lemma_trim_drop_ws_last(l);
        }
        assert(is_key_line(lines(s)[k]));
    } else {
        assert(lines(s)[k] == l);
    }
}

/// A settings file saved with a key (one without newlines) passes the
/// key check.
pub proof fn lemma_saved_key_passes_check(c: AssistantConfig)
    requires
        c.api_key.is_some(),
        forall|j: int| 0 <= j < c.api_key.unwrap()@.len() ==> c.api_key.unwrap()@[j] != '\n',
    ensures
        has_key_line(config_text(&c)),
{
    reveal_strlit("# Kuku Assistant configuration\n\n");
    reveal_strlit("enabled = ");
    reveal_strlit("api_key = ");
    reveal_strlit("api_key");
    reveal_strlit("=");
    reveal_strlit("model = ");
    let k = c.api_key.unwrap()@;
    let on = match c.enabled {
        Some(b) => b,
        None => true,
    };
    let x = CONFIG_HEADER@ + "enabled = "@ + bool_text(on) + seq!['\n'];
    let l = "api_key = "@ + quoted(k);
    let y = seq!['\n'] + "model = "@ + quoted(effective_model(&c)) + seq!['\n'] + "base_url = "@
        + quoted(effective_base_url(&c)) + seq!['\n'] + headers_line(&c) + MODELS_COMMENT@;
    assert(saved_key_line(&c) == l + seq!['\n']);
    assert(config_text(&c) =~= x + l + y);
    assert forall|j: int| 0 <= j < l.len() implies l[j] != '\n' by {
        if j >= 11 && j < 11 + k.len() {
            assert(l[j] == k[j - 11]);
        }
    }
    assert(!is_ws(l[0]));
    assert(trim_start(l) == l);
    assert(l.last() == '"');
    assert(trim_end(l) == l);
    assert(trim(l) == l);
    assert(l.take(7) =~= "api_key"@);
    let eq: int = 8;
    assert(l.subrange(eq, eq + "="@.len()) =~= "="@);
    assert(contains(l, "="@));
    assert(x.last() == '\n');
    assert(y[0] == '\n');
    lemma_key_line_found(x, l, y);
}

} // verus!
