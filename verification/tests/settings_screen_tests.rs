use kuku::ai_config::{can_mask, mask_api_key, Action, App, Field, KeyCode, KeyEvent};
use kuku::api::{AssistantConfig, DEFAULT_BASE_URL};

fn cfg(model: Option<&str>, key: Option<&str>) -> AssistantConfig {
    AssistantConfig {
        enabled: None,
        api_key: key.map(|k| k.to_string()),
        model: model.map(|m| m.to_string()),
        base_url: None,
        custom_headers: None,
    }
}

fn press(code: KeyCode) -> KeyEvent {
    KeyEvent { code, ctrl: false, press: true }
}

#[test]
fn new_app_picks_model_index() {
    assert_eq!(App::new(cfg(Some("GLM-4.7"), None)).model_idx, 4);
    assert_eq!(App::new(cfg(None, None)).model_idx, 0);
    assert_eq!(App::new(cfg(Some("unknown"), None)).model_idx, 0);
    let a = App::new(cfg(Some("DeepSeek-V3.2"), None));
    assert_eq!(a.model_idx, 2);
    assert!(a.current_field() == Field::Enabled);
}

#[test]
fn navigation_and_quit() {
    let mut a = App::new(cfg(None, None));
    assert!(a.handle_key(press(KeyCode::Up)) == Action::Continue);
    assert_eq!(a.selected, 0);
    for _ in 0..10 {
        a.handle_key(press(KeyCode::Char('j')));
    }
    assert_eq!(a.selected, 5);
    assert!(a.current_field() == Field::Save);
    assert!(a.handle_key(press(KeyCode::Enter)) == Action::Save);
    assert!(a.handle_key(press(KeyCode::Char('q'))) == Action::Quit);
    assert!(a.handle_key(KeyEvent { code: KeyCode::Char('c'), ctrl: true, press: true }) == Action::Quit);
    assert!(a.handle_key(press(KeyCode::Char('c'))) == Action::Continue);
    assert!(a.handle_key(KeyEvent { code: KeyCode::Esc, ctrl: false, press: false }) == Action::Continue);
}

#[test]
fn toggle_and_cycle() {
    let mut a = App::new(cfg(None, None));
    a.handle_key(press(KeyCode::Enter));
    assert_eq!(a.config.enabled, Some(false));
    assert_eq!(a.enabled_label(), "OFF");
    a.handle_key(press(KeyCode::Char(' ')));
    assert_eq!(a.config.enabled, Some(true));
    a.handle_key(press(KeyCode::Down));
    a.handle_key(press(KeyCode::Left));
    assert_eq!(a.model_idx, 4);
    assert_eq!(a.config.model.as_deref(), Some("GLM-4.7"));
    a.handle_key(press(KeyCode::Right));
    assert_eq!(a.model_idx, 0);
    assert_eq!(a.model_label(), "< Doubao-Seed-2.0-Code >");
    a.handle_key(press(KeyCode::Char('h')));
    a.handle_key(press(KeyCode::Char('l')));
    assert_eq!(a.model_idx, 0);
}

#[test]
fn editing_key_and_url() {
    let mut a = App::new(cfg(None, Some("old")));
    a.handle_key(press(KeyCode::Down));
    a.handle_key(press(KeyCode::Down));
    assert!(a.current_field() == Field::ApiKey);
    a.handle_key(press(KeyCode::Enter));
    assert!(a.editing);
    assert_eq!(a.edit_text(), "old");
    assert_eq!(a.api_key_label(), "old_");
    a.handle_key(press(KeyCode::Backspace));
    a.handle_key(press(KeyCode::Char('X')));
    a.handle_key(press(KeyCode::Char('q')));
    assert_eq!(a.help_text(), "Enter: confirm | Esc: cancel | type to edit");
    a.handle_key(press(KeyCode::Enter));
    assert!(!a.editing);
    assert_eq!(a.config.api_key.as_deref(), Some("olXq"));
    assert_eq!(a.api_key_label(), "****");
    a.handle_key(press(KeyCode::Down));
    a.handle_key(press(KeyCode::Enter));
    assert_eq!(a.edit_text(), DEFAULT_BASE_URL);
    a.handle_key(press(KeyCode::Esc));
    assert!(!a.editing);
    assert_eq!(a.config.base_url, None);
    assert_eq!(a.base_url_label(), DEFAULT_BASE_URL);
}

#[test]
fn test_and_save_reports() {
    let mut a = App::new(cfg(None, None));
    for _ in 0..4 {
        a.handle_key(press(KeyCode::Down));
    }
    assert!(a.handle_key(press(KeyCode::Enter)) == Action::TestConnection);
    assert_eq!(a.status_msg, "Testing...");
    a.finish_test(Ok(" OK \n".to_string()));
    assert_eq!(a.status_msg, "OK: OK");
    assert!(a.status_ok);
    a.finish_test(Err("timeout".to_string()));
    assert_eq!(a.status_msg, "FAIL: timeout");
    assert!(!a.status_ok);
    a.finish_save(Ok(()));
    assert_eq!(a.status_msg, "Saved!");
    a.finish_save(Err("denied".to_string()));
    assert_eq!(a.status_msg, "Save failed: denied");
}

#[test]
fn key_masking() {
    assert_eq!(mask_api_key("sk-1234567890"), "sk-1...7890");
    assert_eq!(mask_api_key("12345678"), "****");
    assert_eq!(mask_api_key(""), "****");
    let a = App::new(cfg(None, None));
    assert_eq!(a.api_key_label(), "(not set)");
    assert!(!a.key_is_set());
    let b = App::new(cfg(None, Some("abcdefghij")));
    assert_eq!(b.api_key_label(), "abcd...ghij");
    assert!(b.key_is_set());
}

#[test]
fn key_mask_precondition() {
    assert!(can_mask("short"));
    assert!(can_mask("sk-1234567890"));
    assert!(!can_mask("ab\u{20ac}cdefghij"));
    let a = App::new(cfg(None, Some("ab\u{20ac}cdefghij")));
    assert!(!a.key_displayable());
    assert!(!can_mask("\u{20ac}\u{20ac}\u{20ac}\u{20ac}"));
    let b = App::new(cfg(None, Some("\u{20ac}abcdefgh")));
    assert!(b.key_displayable());
    assert_eq!(b.api_key_label(), "\u{20ac}a...efgh");
}

#[test]
fn key_row_shows_buffer_while_edited() {
    let mut a = App::new(cfg(None, Some("ab\u{20ac}cdefghij")));
    assert!(!a.key_displayable());
    a.selected = 2;
    a.handle_key(press(KeyCode::Enter));
    assert!(a.editing);
    assert!(a.key_displayable());
    assert_eq!(a.api_key_label(), "ab\u{20ac}cdefghij_");
    a.handle_key(press(KeyCode::Esc));
    assert!(!a.key_displayable());
}

#[test]
fn edit_then_confirm_keeps_key() {
    let mut a = App::new(cfg(None, Some("secret-key")));
    a.selected = 2;
    a.handle_key(press(KeyCode::Enter));
    a.handle_key(press(KeyCode::Enter));
    assert!(!a.editing);
    assert_eq!(a.config.api_key.as_deref(), Some("secret-key"));
    let mut b = App::new(cfg(None, None));
    b.selected = 2;
    b.handle_key(press(KeyCode::Enter));
    b.handle_key(press(KeyCode::Enter));
    assert_eq!(b.config.api_key.as_deref(), Some(""));
}

#[test]
fn edit_then_cancel_restores() {
    let mut a = App::new(cfg(Some("MiniMax-M2.5"), Some("k")));
    a.selected = 2;
    a.handle_key(press(KeyCode::Enter));
    a.handle_key(press(KeyCode::Char('z')));
    a.handle_key(press(KeyCode::Esc));
    assert!(!a.editing);
    assert_eq!(a.edit_text(), "");
    assert_eq!(a.config.api_key.as_deref(), Some("k"));
    assert_eq!(a.selected, 2);
    assert_eq!(a.model_idx, 3);
}
