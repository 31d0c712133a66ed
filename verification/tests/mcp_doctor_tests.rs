use kuku::doctor::{
    check_assistant_config, check_mcp_config, check_powershell, check_profile_integration,
    check_tool, summary_line, tally, totals_line, Check, Status,
};
use kuku::mcp::{
    find_server, qualified_tool_name, sends_tools, split_tool_name, tool_function,
    tool_result_text, ContentItem, McpConfig, McpServerConfig, McpTool,
};
use kuku::profile::PROFILE_MARKER;

fn server(cmd: &str) -> McpServerConfig {
    McpServerConfig { command: cmd.to_string(), args: vec![], env: vec![] }
}

#[test]
fn tool_names_round_trip() {
    let q = qualified_tool_name("fs", "read_file");
    assert_eq!(q, "fs_read_file");
    assert_eq!(split_tool_name(&q), Some(("fs".to_string(), "read_file".to_string())));
    assert_eq!(split_tool_name("plain"), None);
}

#[test]
fn server_lookup() {
    let names = vec!["a".to_string(), "b".to_string(), "b".to_string()];
    assert_eq!(find_server(&names, "b"), Some(1));
    assert_eq!(find_server(&names, "c"), None);
}

#[test]
fn tool_result_texts() {
    let items = vec![
        ContentItem { kind: Some("text".to_string()), text: Some("one".to_string()) },
        ContentItem { kind: Some("image".to_string()), text: Some("x".to_string()) },
        ContentItem { kind: Some("text".to_string()), text: None },
        ContentItem { kind: Some("text".to_string()), text: Some("two".to_string()) },
    ];
    assert_eq!(tool_result_text(Some(&items), "raw".to_string()), "one\ntwo");
    assert_eq!(tool_result_text(Some(&vec![]), "raw".to_string()), "");
    assert_eq!(tool_result_text(None, "{\"a\":1}".to_string()), "{\"a\":1}");
}

#[test]
fn mcp_config_checks() {
    let empty = McpConfig::empty();
    let c = check_mcp_config(Ok(&empty));
    assert!(c.status == Status::Info);
    assert_eq!(c.detail, "没配置 MCP server（可选）");
    let two = McpConfig { servers: vec![("fs".to_string(), server("npx")), ("git".to_string(), server("uvx"))] };
    let c = check_mcp_config(Ok(&two));
    assert!(c.status == Status::Pass);
    assert_eq!(c.detail, "2 个 server: fs, git");
    assert!(c.fix.is_none());
    let c = check_mcp_config(Err("bad toml"));
    assert!(c.status == Status::Warn);
    assert_eq!(c.detail, "配置解析失败: bad toml");
}

#[test]
fn powershell_checks() {
    let c = check_powershell(Some("PowerShell 7.4.1\n"));
    assert!(c.status == Status::Pass);
    assert_eq!(c.detail, "PowerShell 7.4.1");
    let c = check_powershell(Some("5.1.19041"));
    assert!(c.status == Status::Warn);
    assert_eq!(c.fix.as_deref(), Some("winget install Microsoft.PowerShell"));
    let c = check_powershell(None);
    assert!(c.status == Status::Fail);
    assert_eq!(c.detail, "PowerShell not found");
}

#[test]
fn profile_checks() {
    assert!(check_profile_integration(None, None).status == Status::Warn);
    let c = check_profile_integration(Some("p.ps1"), None);
    assert_eq!(c.detail, "Profile not found: p.ps1");
    let content = format!("x\n{}\n", PROFILE_MARKER);
    let c = check_profile_integration(Some("p.ps1"), Some(&content));
    assert!(c.status == Status::Pass);
    assert_eq!(c.detail, "Kuku block found in p.ps1");
    let c = check_profile_integration(Some("p.ps1"), Some("x\n"));
    assert!(c.status == Status::Warn);
    assert_eq!(c.detail, "No kuku block in p.ps1");
}

#[test]
fn assistant_config_checks() {
    assert!(check_assistant_config("a.toml", None).status == Status::Warn);
    assert_eq!(check_assistant_config("a.toml", None).detail, "Missing a.toml");
    assert!(check_assistant_config("a.toml", Some("  api_key = \"k\"\n")).status == Status::Pass);
    assert!(check_assistant_config("a.toml", Some("# api_key = \"k\"\n")).status == Status::Warn);
    assert!(check_assistant_config("a.toml", Some("api_key\n")).status == Status::Warn);
    assert!(check_assistant_config("a.toml", Some("model = \"x\"\napi_key=1")).status == Status::Pass);
}

#[test]
fn tool_checks() {
    let c = check_tool("delta", Some("delta 0.17.0\nmore\n"), "winget install dandavison.delta");
    assert!(c.status == Status::Pass);
    assert_eq!(c.detail, "delta 0.17.0");
    let c = check_tool("yazi", Some("\n"), "x");
    assert_eq!(c.detail, "installed");
    let c = check_tool("zoxide", None, "winget install ajeetdsouza.zoxide");
    assert!(c.status == Status::Info);
    assert_eq!(c.fix.as_deref(), Some("winget install ajeetdsouza.zoxide"));
}

fn mk(status: Status) -> Check {
    Check { name: "n".to_string(), status, detail: "d".to_string(), fix: None }
}

#[test]
fn tally_and_summary() {
    let checks = vec![mk(Status::Pass), mk(Status::Warn), mk(Status::Info), mk(Status::Pass), mk(Status::Fail)];
    assert_eq!(tally(&checks), (2, 1, 1));
    assert_eq!(summary_line(0, 0), "  \x1b[32m曼波！全部没问题！你好棒！\x1b[0m");
    assert_eq!(summary_line(3, 0), "  \x1b[33m基本OK~ 就 3 个小事情啦\x1b[0m");
    assert_eq!(summary_line(3, 2), "  \x1b[31m呜呜呜 2 个地方坏掉了...别担心我帮你！\x1b[0m");
    assert_eq!(totals_line(2, 1, 1), "  2 ok  1 warn  1 fail");
}

#[test]
fn check_report_text() {
    let c = Check { name: "delta".to_string(), status: Status::Info, detail: "not installed (optional)".to_string(), fix: Some("winget install dandavison.delta".to_string()) };
    assert_eq!(
        c.report(),
        "  \x1b[36mi\x1b[0m delta: not installed (optional)\n    \x1b[90mFix: winget install dandavison.delta\x1b[0m\n"
    );
    assert_eq!(Status::Pass.icon(), "\x1b[32m✓\x1b[0m");
    assert_eq!(Status::Fail.icon(), "\x1b[31mx\x1b[0m");
}

#[test]
fn counts_cover_all_checks() {
    let checks = vec![mk(Status::Info), mk(Status::Info), mk(Status::Warn)];
    let (ok, warn, fail) = tally(&checks);
    assert_eq!(ok + warn + fail + 2, checks.len());
}

#[test]
fn tool_function_names_and_describes() {
    let t = McpTool { name: "read_file".to_string(), description: Some("Reads a file".to_string()) };
    let f = tool_function("fs", &t);
    assert_eq!(f.name, "fs_read_file");
    assert_eq!(f.description, "Reads a file");
    let u = McpTool { name: "ping".to_string(), description: None };
    let g = tool_function("net", &u);
    assert_eq!(g.name, "net_ping");
    assert_eq!(g.description, "");
}

#[test]
fn tools_sent_only_when_some() {
    assert!(!sends_tools(None));
    assert!(!sends_tools(Some(0)));
    assert!(sends_tools(Some(1)));
    assert!(sends_tools(Some(3)));
}
