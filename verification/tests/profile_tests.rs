use kuku::init::{
    compose_profile, default_assistant_toml, default_config_toml, init_confirmed,
    replace_managed_block, DEFAULT_ASSISTANT_TOML,
};
use kuku::profile::{profile_block, PROFILE_MARKER, PROFILE_MARKER_END};
use kuku::api::{DEFAULT_BASE_URL, DEFAULT_MODEL};
use kuku::reset::{remove_managed_block, reset_confirmed};
use kuku::text::escape_backslashes_str;

fn block(body: &str) -> String {
    format!("{}\n{}\n{}\n", PROFILE_MARKER, body, PROFILE_MARKER_END)
}

#[test]
fn remove_managed_block_keeps_outside_lines() {
    let content = format!("a\n{}b\n", block("x"));
    assert_eq!(remove_managed_block(&content), "a\nb\n");
}

#[test]
fn remove_managed_block_keeps_text_without_block() {
    assert_eq!(remove_managed_block("a\n\n\n"), "a\n\n\n");
    assert_eq!(remove_managed_block("a"), "a");
    assert_eq!(remove_managed_block(""), "");
}

#[test]
fn remove_managed_block_reads_crlf_lines() {
    assert_eq!(remove_managed_block("a\r\nb"), "a\r\nb");
    let content = format!("a\r\n{}\r\nx\r\n{}\r\nb\r\n", PROFILE_MARKER, PROFILE_MARKER_END);
    assert_eq!(remove_managed_block(&content), "a\r\nb\r\n");
}

#[test]
fn remove_managed_block_matches_trimmed_markers() {
    let content = format!("a\n  {}  \ninner\n\t{}\nb", PROFILE_MARKER, PROFILE_MARKER_END);
    assert_eq!(remove_managed_block(&content), "a\nb");
}

#[test]
fn remove_managed_block_without_end_drops_rest() {
    let content = format!("a\n{}\nx\ny\n", PROFILE_MARKER);
    assert_eq!(remove_managed_block(&content), "a\n");
    let content = format!("a\n{}\nb\n", PROFILE_MARKER);
    assert_eq!(remove_managed_block(&content), "a\n");
    let content = format!("a\n{}", PROFILE_MARKER);
    assert_eq!(remove_managed_block(&content), "a\n");
}

#[test]
fn replace_managed_block_puts_block_after_blank_line() {
    let content = format!("a\n{}b\n", block("old"));
    let new = block("new");
    assert_eq!(replace_managed_block(&content, &new), format!("a\nb\n\n{}", new));
}

#[test]
fn replace_managed_block_alone_when_nothing_outside() {
    let content = block("old");
    let new = block("new");
    assert_eq!(replace_managed_block(&content, &new), new);
    assert_eq!(replace_managed_block("\n\n", &new), new);
    assert_eq!(replace_managed_block("a", "N"), "a\n\nN");
    assert_eq!(replace_managed_block("a\n\n\n", "N"), "a\n\nN");
}

#[test]
fn replace_is_idempotent_on_example() {
    let c = format!("x\n\n{}y\n", block("old"));
    let b = block("new");
    let once = replace_managed_block(&c, &b);
    let twice = replace_managed_block(&once, &b);
    assert_eq!(once, twice);
}

#[test]
fn compose_profile_cases() {
    let b = block("body");
    assert_eq!(compose_profile("", &b), b);
    assert_eq!(compose_profile("Set-Alias ll ls", &b), format!("Set-Alias ll ls\n{}", b));
    let with_block = format!("top\n{}", block("old"));
    assert_eq!(compose_profile(&with_block, &b), format!("top\n\n{}", b));
}

#[test]
fn reset_undoes_first_init_on_example() {
    let e = "Set-Alias ll ls\nImport-Module posh-git\n";
    let b = profile_block("C:\\\\tools\\\\kuku.exe");
    let after_init = compose_profile(e, &b);
    assert!(after_init.contains(PROFILE_MARKER));
    assert_eq!(remove_managed_block(&after_init), remove_managed_block(e));
    assert_eq!(remove_managed_block(&after_init), e);
}

#[test]
fn reset_undoes_reinit_on_example() {
    let c = format!("one\n{}two\n\n", block("old"));
    let b = profile_block("kuku");
    let again = replace_managed_block(&c, &b);
    assert_eq!(again, format!("one\ntwo\n\n{}", b));
    assert_eq!(remove_managed_block(&c), "one\ntwo\n\n");
    assert_eq!(remove_managed_block(&again), "one\ntwo\n");
    let c = format!("one\n{}two\n", block("old"));
    let again = replace_managed_block(&c, &b);
    assert_eq!(remove_managed_block(&again), remove_managed_block(&c));
}

#[test]
fn profile_block_is_framed_by_markers() {
    let b = profile_block("C:\\\\kuku.exe");
    assert!(b.starts_with(&format!("{}\n", PROFILE_MARKER)));
    assert!(b.ends_with(&format!("{}\n", PROFILE_MARKER_END)));
    assert!(b.contains("$global:KukuExe = \"C:\\\\kuku.exe\""));
    assert_eq!(remove_managed_block(&b), "");
}

#[test]
fn escape_doubles_backslashes() {
    assert_eq!(escape_backslashes_str("C:\\a\\b.exe"), "C:\\\\a\\\\b.exe");
    assert_eq!(escape_backslashes_str("plain"), "plain");
}

#[test]
fn init_answers() {
    assert!(init_confirmed(""));
    assert!(init_confirmed("\n"));
    assert!(init_confirmed(" Y \n"));
    assert!(init_confirmed("YES"));
    assert!(!init_confirmed("n"));
    assert!(!init_confirmed("yep"));
}

#[test]
fn reset_answers() {
    assert!(!reset_confirmed(""));
    assert!(!reset_confirmed("\n"));
    assert!(reset_confirmed("y\n"));
    assert!(reset_confirmed(" Yes "));
    assert!(!reset_confirmed("no"));
}

#[test]
fn default_settings_texts() {
    assert_eq!(default_assistant_toml(), DEFAULT_ASSISTANT_TOML);
    assert!(default_assistant_toml().contains("\nenabled = true\n"));
    assert!(default_assistant_toml().contains(&format!("\nmodel = \"{}\"\n", DEFAULT_MODEL)));
    assert!(default_assistant_toml().contains(&format!("\nbase_url = \"{}\"\n", DEFAULT_BASE_URL)));
    assert!(default_assistant_toml().contains("\nmodel = \"Doubao-Seed-2.0-Code\"\n"));
    assert!(default_assistant_toml()
        .contains("\nbase_url = \"https://ark.cn-beijing.volces.com/api/coding/v1\"\n"));
    assert!(!default_assistant_toml().contains("\napi_key ="));
    assert!(default_config_toml().starts_with("# Kuku configuration\n\n[tools]\n"));
}

fn marker_lines(text: &str) -> usize {
    text.split_inclusive('\n').filter(|l| l.trim() == PROFILE_MARKER).count()
}

#[test]
fn reset_restores_profile_without_final_newline() {
    let b = profile_block("kuku");
    let after_init = compose_profile("x", &b);
    assert_eq!(after_init, format!("x\n{}", b));
    assert_eq!(remove_managed_block(&after_init), "x");
}

#[test]
fn reset_restores_crlf_profile() {
    let e = "Set-Alias ll ls\r\nImport-Module posh-git\r\n";
    let b = profile_block("C:\\\\kuku.exe");
    assert_eq!(remove_managed_block(&compose_profile(e, &b)), e);
    let no_end = "Set-Alias ll ls\r\n\r\n";
    assert_eq!(remove_managed_block(&compose_profile(no_end, &b)), no_end);
}

#[test]
fn reset_keeps_stray_closing_line() {
    let c = format!("a\n{}\nb", PROFILE_MARKER_END);
    assert_eq!(remove_managed_block(&c), c);
    let b = profile_block("kuku");
    assert_eq!(remove_managed_block(&compose_profile(&c, &b)), c);
}

#[test]
fn reset_is_idempotent_on_examples() {
    let cases = [
        String::new(),
        "a\n\n".to_string(),
        format!("a\n{}b\n", block("x")),
        format!("{}", block("x")),
        format!("a\n{}\nx", PROFILE_MARKER),
        format!("a\n{}\n\n", PROFILE_MARKER),
        format!("a\r\n{}\r\nx\r\n", PROFILE_MARKER),
    ];
    for c in cases.iter() {
        let once = remove_managed_block(c);
        assert_eq!(remove_managed_block(&once), once);
        assert_eq!(marker_lines(&once), 0);
    }
}

#[test]
fn init_writes_one_marker_line() {
    let b = profile_block("kuku");
    let cases = [
        String::new(),
        "x".to_string(),
        "x\n".to_string(),
        format!("top\n{}tail\n", block("old")),
        format!("{}mid\n{}", block("one"), block("two")),
        format!("echo '{}'\n", PROFILE_MARKER),
    ];
    for c in cases.iter() {
        let p = compose_profile(c, &b);
        assert_eq!(marker_lines(&p), 1);
        assert!(p.contains(PROFILE_MARKER));
    }
}

#[test]
fn init_is_idempotent_on_examples() {
    let b = profile_block("kuku");
    let cases = [
        String::new(),
        "x\n".to_string(),
        "a\r\nb\r\n".to_string(),
        format!("top\n{}tail", block("old")),
    ];
    for c in cases.iter() {
        let once = compose_profile(c, &b);
        assert_eq!(compose_profile(&once, &b), once);
        assert_eq!(replace_managed_block(&once, &b), once);
    }
}

#[test]
fn init_settles_after_second_run() {
    let b = profile_block("kuku");
    let cases = ["x", "x\n\n", "\n", "a\r\nb"];
    for c in cases.iter() {
        let once = compose_profile(c, &b);
        let twice = compose_profile(&once, &b);
        assert_eq!(compose_profile(&twice, &b), twice);
    }
    let once = compose_profile("x", &b);
    assert_eq!(once, format!("x\n{}", b));
    assert_eq!(compose_profile(&once, &b), format!("x\n\n{}", b));
}

#[test]
fn reset_after_reinit_on_examples() {
    let b = profile_block("kuku");
    let cases = [
        String::new(),
        "\n\n".to_string(),
        format!("{}", block("old")),
        format!("\n\n{}\n", block("old")),
        format!("a\r\n{}b", block("old")),
        format!("a\n\n\n{}", block("old")),
    ];
    for c in cases.iter() {
        let r = remove_managed_block(c);
        let t = r.trim_end_matches('\n');
        let expected = if t.is_empty() { String::new() } else { format!("{}\n", t) };
        assert_eq!(remove_managed_block(&replace_managed_block(c, &b)), expected);
    }
}
