//! Opening the settings file.
use vstd::prelude::*;
use crate::api::opt_view;
use crate::text::string_from_chars;

verus! {

/// The editor used where neither `EDITOR` nor `VISUAL` is set.
pub const FALLBACK_EDITOR: &'static str = "notepad";

/// The editor to open the settings with: `EDITOR`, else `VISUAL`, else
/// Notepad.
pub fn choose_editor(editor: Option<String>, visual: Option<String>) -> (r: String)
    ensures
        r@ == match opt_view(editor) {
            Some(e) => e,
            None => match opt_view(visual) {
                Some(v) => v,
                None => FALLBACK_EDITOR@,
            },
        },
{
    match editor {
        Some(e) => e,
        None => match visual {
            Some(v) => v,
            None => string_from_chars(&[]).concat(FALLBACK_EDITOR),
        },
    }
}

} // verus!
