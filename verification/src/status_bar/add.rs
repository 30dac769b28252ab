use vstd::prelude::*;

use crate::status_bar::shorthands::list::List;
use crate::status_bar::DisplayMode;

verus! {

/// The status-bar item that adds the built-in items by name; the actual
/// item registry lives with the status bar outside the library.
pub struct BuiltinAdd;

impl Default for BuiltinAdd {
    fn default() -> (r: Self) {
        BuiltinAdd
    }
}

impl BuiltinAdd {
    pub fn name(&self) -> (r: String)
        ensures
            r@ == "BuiltinAdd"@,
    {
        "BuiltinAdd".to_owned()
    }

    pub fn display_mode(&self) -> (r: DisplayMode)
        ensures
            r is Hidden,
    {
        DisplayMode::Hidden
    }

    /// The shorthand that turns `config` into the command that shows the
    /// configuration directory.
    pub fn shorthands(&self) -> (r: Option<List>)
        ensures
            r matches Some(l) ==> l.entries().len() == 1 && l.entries()[0].pattern_view()
                == "^config$"@ && l.entries()[0].format_view() == "__show_config"@,
    {
        List::default().add("^config$", "__show_config")
    }
}

} // verus!
