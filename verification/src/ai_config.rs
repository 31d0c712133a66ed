//! The settings screen: which field is selected, what is being edited, and
//! what each key does to the settings, as a function from state and key to
//! the next state and the action the screen asks for.
use vstd::prelude::*;
use crate::api::{opt_view, AssistantConfig, AVAILABLE_MODELS, DEFAULT_BASE_URL, DEFAULT_MODEL};
use crate::text::{chars_of, range_equals, string_from_chars, trim, trim_str};
use vstd::utf8::{decode_utf8, encode_utf8, encode_utf8_decode_utf8, is_char_boundary};

verus! {

/// The rows of the settings screen, top to bottom.
#[derive(PartialEq, Eq, Structural, Clone, Copy)]
pub enum Field {
    Enabled,
    Model,
    ApiKey,
    BaseUrl,
    Test,
    Save,
}

/// The number of rows.
pub const FIELD_COUNT: usize = 6;

/// The number of models to choose from.
pub const MODEL_COUNT: usize = 5;

/// A key as the screen distinguishes them.
#[derive(PartialEq, Eq, Structural, Clone, Copy)]
pub enum KeyCode {
    Enter,
    Esc,
    Backspace,
    Up,
    Down,
    Left,
    Right,
    Char(char),
    Other,
}

/// A key event: the key, whether Control was held, and whether it is a
/// press (repeats and releases are not).
#[derive(PartialEq, Eq, Structural, Clone, Copy)]
pub struct KeyEvent {
    pub code: KeyCode,
    pub ctrl: bool,
    pub press: bool,
}

/// What the screen asks of its caller after a key.
#[derive(PartialEq, Eq, Structural, Clone, Copy)]
pub enum Action {
    /// Draw again and wait for the next key.
    Continue,
    /// Leave the screen.
    Quit,
    /// Draw, try the connection, and report back with `finish_test`.
    TestConnection,
    /// Save the settings and report back with `finish_save`.
    Save,
}

/// The state of the settings screen.
pub struct App {
    pub config: AssistantConfig,
    pub selected: usize,
    pub editing: bool,
    pub edit_buffer: Vec<char>,
    pub model_idx: usize,
    pub status_msg: String,
    pub status_ok: bool,
}

/// The screen's state as plain values.
pub struct AppView {
    pub enabled: Option<bool>,
    pub api_key: Option<Seq<char>>,
    pub model: Option<Seq<char>>,
    pub base_url: Option<Seq<char>>,
    pub selected: int,
    pub editing: bool,
    pub edit_buffer: Seq<char>,
    pub model_idx: int,
    pub status_msg: Seq<char>,
    pub status_ok: bool,
}

impl View for App {
    type V = AppView;

    open spec fn view(&self) -> AppView {
        AppView {
            enabled: self.config.enabled,
            api_key: opt_view(self.config.api_key),
            model: opt_view(self.config.model),
            base_url: opt_view(self.config.base_url),
            selected: self.selected as int,
            editing: self.editing,
            edit_buffer: self.edit_buffer@,
            model_idx: self.model_idx as int,
            status_msg: self.status_msg@,
            status_ok: self.status_ok,
        }
    }
}

/// The row at position `i`.
pub open spec fn field_at(i: int) -> Field {
    if i == 0 {
        Field::Enabled
    } else if i == 1 {
        Field::Model
    } else if i == 2 {
        Field::ApiKey
    } else if i == 3 {
        Field::BaseUrl
    } else if i == 4 {
        Field::Test
    } else {
        Field::Save
    }
}

/// The name of the model at position `i` of the list.
pub open spec fn model_at(i: int) -> Seq<char> {
    AVAILABLE_MODELS@[i]@
}

/// Whether a state is one the screen can be in: a row and a model
/// selected, and an empty buffer when nothing is edited.
pub open spec fn view_ok(v: AppView) -> bool {
    &&& 0 <= v.selected < 6
    &&& 0 <= v.model_idx < 5
    &&& !v.editing ==> v.edit_buffer.len() == 0
}

pub open spec fn opt_or(o: Option<Seq<char>>, d: Seq<char>) -> Seq<char> {
    match o {
        Some(s) => s,
        None => d,
    }
}

/// Starting to edit: the buffer holds the current key or API root.
pub open spec fn start_edit_v(v: AppView) -> AppView {
    AppView {
        editing: true,
        edit_buffer: match field_at(v.selected) {
            Field::ApiKey => opt_or(v.api_key, Seq::empty()),
            Field::BaseUrl => opt_or(v.base_url, DEFAULT_BASE_URL@),
            _ => Seq::empty(),
        },
        ..v
    }
}

/// Confirming an edit: the buffer becomes the key or API root.
pub open spec fn commit_edit_v(v: AppView) -> AppView {
    AppView {
        editing: false,
        edit_buffer: Seq::empty(),
        api_key: if field_at(v.selected) == Field::ApiKey {
            Some(v.edit_buffer)
        } else {
            v.api_key
        },
        base_url: if field_at(v.selected) == Field::BaseUrl {
            Some(v.edit_buffer)
        } else {
            v.base_url
        },
        ..v
    }
}

/// Abandoning an edit.
pub open spec fn cancel_edit_v(v: AppView) -> AppView {
    AppView { editing: false, edit_buffer: Seq::empty(), ..v }
}

/// Switching the assistant on or off (it counts as on where unset).
pub open spec fn toggle_v(v: AppView) -> AppView {
    AppView {
        enabled: Some(
            !match v.enabled {
                Some(b) => b,
                None => true,
            },
        ),
        ..v
    }
}

/// The model position after one step forward or back, round the list.
pub open spec fn cycled_index(i: int, forward: bool) -> int {
    if forward {
        (i + 1) % 5
    } else if i > 0 {
        i - 1
    } else {
        4
    }
}

/// Stepping through the models; the settings take the model reached.
pub open spec fn cycle_v(v: AppView, forward: bool) -> AppView {
    let i = cycled_index(v.model_idx, forward);
    AppView { model_idx: i, model: Some(model_at(i)), ..v }
}

/// What a key does: the next state and the action asked for.
pub open spec fn key_step(v: AppView, k: KeyEvent) -> (AppView, Action) {
    if !k.press {
        (v, Action::Continue)
    } else if v.editing {
        match k.code {
            KeyCode::Enter => (commit_edit_v(v), Action::Continue),
            KeyCode::Esc => (cancel_edit_v(v), Action::Continue),
            KeyCode::Backspace => (
                AppView {
                    edit_buffer: if v.edit_buffer.len() > 0 {
                        v.edit_buffer.drop_last()
                    } else {
                        v.edit_buffer
                    },
                    ..v
                },
                Action::Continue,
            ),
            KeyCode::Char(c) => (AppView { edit_buffer: v.edit_buffer.push(c), ..v }, Action::Continue),
            _ => (v, Action::Continue),
        }
    } else {
        let f = field_at(v.selected);
        match k.code {
            KeyCode::Esc => (v, Action::Quit),
            KeyCode::Char('q') => (v, Action::Quit),
            KeyCode::Char('c') if k.ctrl => (v, Action::Quit),
            KeyCode::Up | KeyCode::Char('k') => (
                AppView {
                    selected: if v.selected > 0 {
                        v.selected - 1
                    } else {
                        v.selected
                    },
                    ..v
                },
                Action::Continue,
            ),
            KeyCode::Down | KeyCode::Char('j') => (
                AppView {
                    selected: if v.selected + 1 < 6 {
                        v.selected + 1
                    } else {
                        v.selected
                    },
                    ..v
                },
                Action::Continue,
            ),
            KeyCode::Enter | KeyCode::Char(' ') => match f {
                Field::Enabled => (toggle_v(v), Action::Continue),
                Field::Model => (cycle_v(v, true), Action::Continue),
                Field::ApiKey | Field::BaseUrl => (start_edit_v(v), Action::Continue),
                Field::Test => (
                    AppView { status_msg: "Testing..."@, status_ok: true, ..v },
                    Action::TestConnection,
                ),
                Field::Save => (v, Action::Save),
            },
            KeyCode::Left if f == Field::Model => (cycle_v(v, false), Action::Continue),
            KeyCode::Char('h') if f == Field::Model => (cycle_v(v, false), Action::Continue),
            KeyCode::Right if f == Field::Model => (cycle_v(v, true), Action::Continue),
            KeyCode::Char('l') if f == Field::Model => (cycle_v(v, true), Action::Continue),
            _ => (v, Action::Continue),
        }
    }
}

/// The position of model `m` in the list; the first where it is not there.
pub open spec fn model_index_of(m: Seq<char>) -> int {
    if exists|i: int| 0 <= i < 5 && model_at(i) == m {
        choose|i: int| 0 <= i < 5 && model_at(i) == m && forall|j: int| 0 <= j < i ==> model_at(j) != m
    } else {
        0
    }
}

fn text(s: &str) -> (r: String)
    ensures
        r@ == s@,
{
    string_from_chars(&[]).concat(s)
}

fn field_of(i: usize) -> (r: Field)
    ensures
        r == field_at(i as int),
{
    if i == 0 {
        Field::Enabled
    } else if i == 1 {
        Field::Model
    } else if i == 2 {
        Field::ApiKey
    } else if i == 3 {
        Field::BaseUrl
    } else if i == 4 {
        Field::Test
    } else {
        Field::Save
    }
}

impl App {
    /// Whether the state is one the screen can be in.
    pub open spec fn well_formed(&self) -> bool {
        view_ok(self@)
    }

    /// The screen for the settings `config`: the first row selected,
    /// nothing edited, the current model (or the first one) chosen.
    pub fn new(config: AssistantConfig) -> (r: App)
        ensures
            r.well_formed(),
            r.config == config,
            r.selected == 0,
            !r.editing,
            r.status_msg@.len() == 0,
            r.status_ok,
            r.model_idx == model_index_of(
                match config.model {
                    Some(m) => m@,
                    None => DEFAULT_MODEL@,
                },
            ),
    {
        let current = match &config.model {
            Some(m) => chars_of(m.as_str()),
            None => chars_of(DEFAULT_MODEL),
        };
        let ghost cm = current@;
        let mut idx: usize = 0;
        let mut found = false;
        let mut i: usize = 0;
        while i < MODEL_COUNT
            invariant
                i <= 5,
                current@ == cm,
                !found ==> idx == 0 && forall|j: int| 0 <= j < i ==> model_at(j) != cm,
                found ==> idx < 5 && model_at(idx as int) == cm && forall|j: int| 0 <= j < idx ==> model_at(j) != cm,
            decreases 5 - i,
        {
            if !found {
                let name = chars_of(AVAILABLE_MODELS[i]);
                assert(name@.subrange(0, name@.len() as int) =~= name@);
                if range_equals(name.as_slice(), 0, name.len(), current.as_slice()) {
                    found = true;
                    idx = i;
                }
            }
            i = i + 1;
        }
        proof {
            if found {
                assert(exists|i: int| 0 <= i < 5 && model_at(i) == cm);
                let c = model_index_of(cm);
                assert(0 <= c < 5 && model_at(c) == cm && forall|j: int| 0 <= j < c ==> model_at(j) != cm);
                if c < idx {
                    assert(model_at(c) != cm);
                }
                if idx < c {
                    assert(model_at(idx as int) != cm);
                }
            }
        }
        App {
            config,
            selected: 0,
            editing: false,
            edit_buffer: Vec::new(),
            model_idx: idx,
            status_msg: String::new(),
            status_ok: true,
        }
    }

    /// The selected row.
    pub fn current_field(&self) -> (r: Field)
        ensures
            r == field_at(self.selected as int),
    {
        field_of(self.selected)
    }

    /// The text being edited.
    pub fn edit_text(&self) -> (r: String)
        ensures
            r@ == self.edit_buffer@,
    {
        string_from_chars(self.edit_buffer.as_slice())
    }

    pub fn start_edit(&mut self)
        requires
            old(self).well_formed(),
        ensures
            final(self)@ == start_edit_v(old(self)@),
            final(self).config.custom_headers == old(self).config.custom_headers,
    {
        self.editing = true;
        self.edit_buffer = match self.current_field() {
            Field::ApiKey => match &self.config.api_key {
                Some(k) => chars_of(k.as_str()),
                None => Vec::new(),
            },
            Field::BaseUrl => match &self.config.base_url {
                Some(u) => chars_of(u.as_str()),
                None => chars_of(DEFAULT_BASE_URL),
            },
            _ => Vec::new(),
        };
    }

    pub fn commit_edit(&mut self)
        ensures
            final(self)@ == commit_edit_v(old(self)@),
            final(self).config.custom_headers == old(self).config.custom_headers,
    {
        self.editing = false;
        match self.current_field() {
            Field::ApiKey => self.config.api_key = Some(string_from_chars(self.edit_buffer.as_slice())),
            Field::BaseUrl => self.config.base_url = Some(string_from_chars(self.edit_buffer.as_slice())),
            _ => {},
        }
        self.edit_buffer = Vec::new();
    }

    pub fn cancel_edit(&mut self)
        ensures
            final(self)@ == cancel_edit_v(old(self)@),
            final(self).config.custom_headers == old(self).config.custom_headers,
    {
        self.editing = false;
        self.edit_buffer = Vec::new();
    }

    pub fn toggle_enabled(&mut self)
        ensures
            final(self)@ == toggle_v(old(self)@),
            final(self).config.custom_headers == old(self).config.custom_headers,
    {
        let current = match self.config.enabled {
            Some(b) => b,
            None => true,
        };
        self.config.enabled = Some(!current);
    }

    pub fn cycle_model(&mut self, forward: bool)
        requires
            old(self).well_formed(),
        ensures
            final(self)@ == cycle_v(old(self)@, forward),
            final(self).config.custom_headers == old(self).config.custom_headers,
    {
        if forward {
            self.model_idx = (self.model_idx + 1) % MODEL_COUNT;
        } else if self.model_idx > 0 {
            self.model_idx = self.model_idx - 1;
        } else {
            self.model_idx = MODEL_COUNT - 1;
        }
        self.config.model = Some(text(AVAILABLE_MODELS[self.model_idx]));
    }

    fn move_up(&mut self) -> (r: Action)
        ensures
            final(self)@ == (AppView {
                selected: if old(self).selected > 0 {
                    old(self).selected - 1
                } else {
                    old(self).selected as int
                },
                ..old(self)@
            }),
            final(self).config.custom_headers == old(self).config.custom_headers,
            r == Action::Continue,
    {
        if self.selected > 0 {
            self.selected = self.selected - 1;
        }
        Action::Continue
    }

    fn move_down(&mut self) -> (r: Action)
        ensures
            final(self)@ == (AppView {
                selected: if old(self).selected + 1 < 6 {
                    old(self).selected + 1
                } else {
                    old(self).selected as int
                },
                ..old(self)@
            }),
            final(self).config.custom_headers == old(self).config.custom_headers,
            r == Action::Continue,
    {
        if self.selected < FIELD_COUNT - 1 {
            self.selected = self.selected + 1;
        }
        Action::Continue
    }

    /// Enter or Space on the row `f`.
    fn activate(&mut self, f: Field) -> (r: Action)
        requires
            old(self).well_formed(),
            f == field_at(old(self).selected as int),
        ensures
            (final(self)@, r) == (match f {
                Field::Enabled => (toggle_v(old(self)@), Action::Continue),
                Field::Model => (cycle_v(old(self)@, true), Action::Continue),
                Field::ApiKey | Field::BaseUrl => (start_edit_v(old(self)@), Action::Continue),
                Field::Test => (
                    AppView { status_msg: "Testing..."@, status_ok: true, ..old(self)@ },
                    Action::TestConnection,
                ),
                Field::Save => (old(self)@, Action::Save),
            }),
            final(self).config.custom_headers == old(self).config.custom_headers,
    {
        match f {
            Field::Enabled => {
                self.toggle_enabled();
                Action::Continue
            },
            Field::Model => {
                self.cycle_model(true);
                Action::Continue
            },
            Field::ApiKey | Field::BaseUrl => {
                self.start_edit();
                Action::Continue
            },
            Field::Test => {
                self.status_msg = text("Testing...");
                self.status_ok = true;
                Action::TestConnection
            },
            Field::Save => Action::Save,
        }
    }

    /// Handles one key: changes the state as `key_step` says and returns
    /// the action it asks for.
    pub fn handle_key(&mut self, key: KeyEvent) -> (r: Action)
        requires
            old(self).well_formed(),
        ensures
            (final(self)@, r) == key_step(old(self)@, key),
            final(self).config.custom_headers == old(self).config.custom_headers,
            final(self).well_formed(),
    {
        if !key.press {
            return Action::Continue;
        }
        if self.editing {
            match key.code {
                KeyCode::Enter => self.commit_edit(),
                KeyCode::Esc => self.cancel_edit(),
                KeyCode::Backspace => {
                    self.edit_buffer.pop();
                },
                KeyCode::Char(c) => self.edit_buffer.push(c),
                _ => {},
            }
            return Action::Continue;
        }
        let f = self.current_field();
        let on_model = f == Field::Model;
        let r = match key.code {
            KeyCode::Esc => Action::Quit,
            KeyCode::Char(c) => {
                if c == 'q' || (c == 'c' && key.ctrl) {
                    Action::Quit
                } else if c == 'k' {
                    self.move_up()
                } else if c == 'j' {
                    self.move_down()
                } else if c == ' ' {
                    self.activate(f)
                } else if c == 'h' && on_model {
                    self.cycle_model(false);
                    Action::Continue
                } else if c == 'l' && on_model {
                    self.cycle_model(true);
                    Action::Continue
                } else {
                    Action::Continue
                }
            },
            KeyCode::Up => self.move_up(),
            KeyCode::Down => self.move_down(),
            KeyCode::Enter => self.activate(f),
            KeyCode::Left => {
                if on_model {
                    self.cycle_model(false);
                }
                Action::Continue
            },
            KeyCode::Right => {
                if on_model {
                    self.cycle_model(true);
                }
                Action::Continue
            },
            _ => Action::Continue,
        };
        r
    }
}


/// Whether the key `k` can be shown shortened: where it is longer than
/// eight bytes, the fourth byte from either end starts a character.
pub open spec fn mask_ok(k: Seq<char>) -> bool {
    let b = encode_utf8(k);
    b.len() > 8 ==> is_char_boundary(b, 4) && is_char_boundary(b, b.len() - 4)
}

/// The key as shown: its first and last four bytes around `...` where it
/// is longer than eight bytes, `****` otherwise.
pub open spec fn masked(k: Seq<char>) -> Seq<char> {
    let b = encode_utf8(k);
    if b.len() > 8 {
        decode_utf8(b.take(4)) + "..."@ + decode_utf8(b.skip(b.len() - 4))
    } else {
        "****"@
    }
}

/// Whether the key `k` can be shown shortened (see `mask_ok`).
pub fn can_mask(k: &str) -> (r: bool)
    ensures
        r == mask_ok(k@),
{
    let n = k.as_bytes().len();
    n <= 8 || (k.is_char_boundary(4) && k.is_char_boundary(n - 4))
}

/// The key as shown on the settings screen.
pub fn mask_api_key(k: &str) -> (r: String)
    requires
        mask_ok(k@),
    ensures
        r@ == masked(k@),
{
    let n = k.as_bytes().len();
    assert(n as int == encode_utf8(k@).len());
    if n > 8 {
        let (a, _) = k.split_at(4);
        let (_, b) = k.split_at(n - 4);
        proof {
            encode_utf8_decode_utf8(a@);
            encode_utf8_decode_utf8(b@);
            assert(encode_utf8(a@) =~= encode_utf8(k@).take(4));
            assert(encode_utf8(b@) =~= encode_utf8(k@).skip(n - 4));
        }
        text(a).concat("...").concat(b)
    } else {
        text("****")
    }
}

impl App {
    /// Whether the screen's key row can be shown: while it is edited the
    /// buffer is shown, else the key must be one that can be shortened.
    pub fn key_displayable(&self) -> (r: bool)
        ensures
            r == key_display_ok(self),
    {
        if self.editing && self.current_field() == Field::ApiKey {
            return true;
        }
        match &self.config.api_key {
            Some(k) => can_mask(k.as_str()),
            None => true,
        }
    }
}

/// Whether the screen's key row can be shown: it is being edited, or the
/// key, where there is one, can be shortened.
pub open spec fn key_display_ok(a: &App) -> bool {
    (a.editing && field_at(a.selected as int) == Field::ApiKey) || match a.config.api_key {
        Some(k) => mask_ok(k@),
        None => true,
    }
}

impl App {
    /// `ON` or `OFF`; unset counts as on.
    pub fn enabled_label(&self) -> (r: &'static str)
        ensures
            r@ == if match self.config.enabled {
                Some(b) => b,
                None => true,
            } {
                "ON"@
            } else {
                "OFF"@
            },
    {
        let on = match self.config.enabled {
            Some(b) => b,
            None => true,
        };
        if on {
            "ON"
        } else {
            "OFF"
        }
    }

    /// The model between arrows.
    pub fn model_label(&self) -> (r: String)
        ensures
            r@ == "< "@ + opt_or(opt_view(self.config.model), DEFAULT_MODEL@) + " >"@,
    {
        let m = match &self.config.model {
            Some(m) => m.clone(),
            None => text(DEFAULT_MODEL),
        };
        text("< ").concat(m.as_str()).concat(" >")
    }

    /// Whether a non-empty key is set.
    pub fn key_is_set(&self) -> (r: bool)
        ensures
            r == (match self.config.api_key {
                Some(k) => k@.len() > 0,
                None => false,
            }),
    {
        self.config.has_api_key()
    }

    /// The key row's value: the buffer and a cursor while it is edited,
    /// else the shortened key, or `(not set)`.
    pub fn api_key_label(&self) -> (r: String)
        requires
            key_display_ok(self),
        ensures
            r@ == if self.editing && field_at(self.selected as int) == Field::ApiKey {
                self.edit_buffer@ + "_"@
            } else {
                match self.config.api_key {
                    Some(k) => if k@.len() > 0 {
                        masked(k@)
                    } else {
                        "(not set)"@
                    },
                    None => "(not set)"@,
                }
            },
    {
        if self.editing && self.current_field() == Field::ApiKey {
            return self.edit_text().concat("_");
        }
        match &self.config.api_key {
            Some(k) => if !k.as_str().is_empty() {
                mask_api_key(k.as_str())
            } else {
                text("(not set)")
            },
            None => text("(not set)"),
        }
    }

    /// The API-root row's value: the buffer and a cursor while it is
    /// edited, else the API root (the default where unset).
    pub fn base_url_label(&self) -> (r: String)
        ensures
            r@ == if self.editing && field_at(self.selected as int) == Field::BaseUrl {
                self.edit_buffer@ + "_"@
            } else {
                opt_or(opt_view(self.config.base_url), DEFAULT_BASE_URL@)
            },
    {
        if self.editing && self.current_field() == Field::BaseUrl {
            return self.edit_text().concat("_");
        }
        match &self.config.base_url {
            Some(u) => u.clone(),
            None => text(DEFAULT_BASE_URL),
        }
    }

    /// The key help under the rows.
    pub fn help_text(&self) -> (r: &'static str)
        ensures
            r@ == if self.editing {
                "Enter: confirm | Esc: cancel | type to edit"@
            } else {
                "arrows/jk: navigate | Enter/Space: edit | </>: cycle model | q: quit"@
            },
    {
        if self.editing {
            "Enter: confirm | Esc: cancel | type to edit"
        } else {
            "arrows/jk: navigate | Enter/Space: edit | </>: cycle model | q: quit"
        }
    }

    /// Reports how the connection test went: `OK:` and the trimmed reply,
    /// or `FAIL:` and the reason.
    pub fn finish_test(&mut self, outcome: Result<String, String>)
        ensures
            match outcome {
                Ok(reply) => final(self).status_msg@ == "OK: "@ + trim(reply@) && final(self).status_ok,
                Err(e) => final(self).status_msg@ == "FAIL: "@ + e@ && !final(self).status_ok,
            },
            final(self).config == old(self).config,
            final(self).selected == old(self).selected,
            final(self).editing == old(self).editing,
            final(self).edit_buffer == old(self).edit_buffer,
            final(self).model_idx == old(self).model_idx,
    {
        match outcome {
            Ok(reply) => {
                let t = trim_str(reply.as_str());
                self.status_msg = text("OK: ").concat(t.as_str());
                self.status_ok = true;
            },
            Err(e) => {
                self.status_msg = text("FAIL: ").concat(e.as_str());
                self.status_ok = false;
            },
        }
    }

    /// Reports how saving went.
    pub fn finish_save(&mut self, outcome: Result<(), String>)
        ensures
            match outcome {
                Ok(()) => final(self).status_msg@ == "Saved!"@ && final(self).status_ok,
                Err(e) => final(self).status_msg@ == "Save failed: "@ + e@ && !final(self).status_ok,
            },
            final(self).config == old(self).config,
            final(self).selected == old(self).selected,
            final(self).editing == old(self).editing,
            final(self).edit_buffer == old(self).edit_buffer,
            final(self).model_idx == old(self).model_idx,
    {
        match outcome {
            Ok(()) => {
                self.status_msg = text("Saved!");
                self.status_ok = true;
            },
            Err(e) => {
                self.status_msg = text("Save failed: ").concat(e.as_str());
                self.status_ok = false;
            },
        }
    }
}

/// Every key leaves the screen in a state it can be in.
pub proof fn lemma_key_step_keeps_state_ok(v: AppView, k: KeyEvent)
    requires
        view_ok(v),
    ensures
        view_ok(key_step(v, k).0),
{
}

/// Stepping forward through the models and back again, or back and then
/// forward, returns to the same model.
pub proof fn lemma_cycle_round_trip(i: int)
    requires
        0 <= i < 5,
    ensures
        cycled_index(cycled_index(i, true), false) == i,
        cycled_index(cycled_index(i, false), true) == i,
        0 <= cycled_index(i, true) < 5,
        0 <= cycled_index(i, false) < 5,
{
}

/// Opening the key or API root for editing and pressing Esc leaves the
/// screen exactly as it was.
pub proof fn lemma_edit_then_cancel(v: AppView, enter: KeyEvent, esc: KeyEvent)
    requires
        view_ok(v),
        !v.editing,
        field_at(v.selected) == Field::ApiKey || field_at(v.selected) == Field::BaseUrl,
        enter == (KeyEvent { code: KeyCode::Enter, ctrl: false, press: true }),
        esc == (KeyEvent { code: KeyCode::Esc, ctrl: false, press: true }),
    ensures
        key_step(key_step(v, enter).0, esc) == (v, Action::Continue),
{
    assert(key_step(key_step(v, enter).0, esc).0 =~= v) by {
        assert(v.edit_buffer =~= Seq::<char>::empty());
    }
}

/// Opening the key for editing and confirming it untouched keeps the key
/// (an unset key becomes the empty one).
pub proof fn lemma_edit_then_confirm(v: AppView, enter: KeyEvent)
    requires
        view_ok(v),
        !v.editing,
        field_at(v.selected) == Field::ApiKey,
        enter == (KeyEvent { code: KeyCode::Enter, ctrl: false, press: true }),
    ensures
        key_step(key_step(v, enter).0, enter).0.api_key == Some(opt_or(v.api_key, Seq::empty())),
        !key_step(key_step(v, enter).0, enter).0.editing,
{
}

/// Switching the assistant twice leaves it as it was, counting unset as on.
pub proof fn lemma_toggle_twice(v: AppView)
    ensures
        toggle_v(toggle_v(v)).enabled == Some(
            match v.enabled {
                Some(b) => b,
                None => true,
            },
        ),
{
}

/// Pressing Enter while a row is edited confirms the buffer: on the key
/// row it becomes the key, on the API-root row the API root; the other
/// setting is untouched, and editing ends with an empty buffer.
pub proof fn lemma_enter_commits_edit(v: AppView, enter: KeyEvent)
    requires
        v.editing,
        enter.code == KeyCode::Enter,
        enter.press,
    ensures
        !key_step(v, enter).0.editing,
        key_step(v, enter).0.edit_buffer == Seq::<char>::empty(),
        key_step(v, enter).1 == Action::Continue,
        field_at(v.selected) == Field::ApiKey ==> key_step(v, enter).0.api_key == Some(v.edit_buffer)
            && key_step(v, enter).0.base_url == v.base_url,
        field_at(v.selected) == Field::BaseUrl ==> key_step(v, enter).0.base_url == Some(v.edit_buffer)
            && key_step(v, enter).0.api_key == v.api_key,
        field_at(v.selected) != Field::ApiKey && field_at(v.selected) != Field::BaseUrl
            ==> key_step(v, enter).0.api_key == v.api_key && key_step(v, enter).0.base_url == v.base_url,
        key_step(v, enter).0.enabled == v.enabled,
        key_step(v, enter).0.model == v.model,
        key_step(v, enter).0.selected == v.selected,
{
}

/// Typing while a row is edited adds the character to the end of the
/// buffer; Backspace takes the last one off.
pub proof fn lemma_typing_edits_buffer(v: AppView, k: KeyEvent, c: char)
    requires
        v.editing,
        k.press,
        k.code == KeyCode::Char(c) || k.code == KeyCode::Backspace,
    ensures
        key_step(v, k).0.editing,
        k.code == KeyCode::Char(c) ==> key_step(v, k).0.edit_buffer == v.edit_buffer.push(c),
        k.code == KeyCode::Backspace && v.edit_buffer.len() > 0 ==> key_step(v, k).0.edit_buffer
            == v.edit_buffer.drop_last(),
        key_step(v, k).0.base_url == v.base_url,
        key_step(v, k).0.api_key == v.api_key,
{
}

/// Opening the API-root row, deleting its last character, typing `c` and
/// confirming sets the API root to the old one (the default where unset)
/// with its last character replaced by `c`.
pub proof fn lemma_edit_base_url(v: AppView, enter: KeyEvent, back: KeyEvent, ch: KeyEvent, c: char)
    requires
        view_ok(v),
        !v.editing,
        field_at(v.selected) == Field::BaseUrl,
        enter == (KeyEvent { code: KeyCode::Enter, ctrl: false, press: true }),
        back == (KeyEvent { code: KeyCode::Backspace, ctrl: false, press: true }),
        ch == (KeyEvent { code: KeyCode::Char(c), ctrl: false, press: true }),
        opt_or(v.base_url, DEFAULT_BASE_URL@).len() > 0,
    ensures
        key_step(key_step(key_step(key_step(v, enter).0, back).0, ch).0, enter).0.base_url == Some(
            opt_or(v.base_url, DEFAULT_BASE_URL@).drop_last().push(c),
        ),
{
    let v1 = key_step(v, enter).0;
    assert(v1.editing && v1.edit_buffer == opt_or(v.base_url, DEFAULT_BASE_URL@));
    let v2 = key_step(v1, back).0;
    lemma_typing_edits_buffer(v1, back, c);
    let v3 = key_step(v2, ch).0;
    lemma_typing_edits_buffer(v2, ch, c);
    lemma_enter_commits_edit(v3, enter);
}

} // verus!
