use vstd::prelude::*;

use crate::status_bar::shorthands::list::List;
use crate::status_bar::DisplayMode;

verus! {

/// A piece of script to run: the contents of a script file, or a line
/// typed into the buffer.
pub enum LuaRun {
    File { code: String, allow_duplicate: bool, name: String },
    Repl { code: String },
}

impl LuaRun {
    /// The script text.
    pub open spec fn code_view(&self) -> Seq<char> {
        match self {
            LuaRun::File { code, .. } => code@,
            LuaRun::Repl { code } => code@,
        }
    }

    /// The script's display name; a typed line shows as `Repl`.
    pub open spec fn name_view(&self) -> Seq<char> {
        match self {
            LuaRun::File { name, .. } => name@,
            LuaRun::Repl { .. } => "Repl"@,
        }
    }

    pub fn code(&self) -> (r: String)
        ensures
            r@ == self.code_view(),
    {
        match self {
            LuaRun::File { code, .. } => code.clone(),
            LuaRun::Repl { code } => code.clone(),
        }
    }

    pub fn name(&self) -> (r: String)
        ensures
            r@ == self.name_view(),
    {
        match self {
            LuaRun::File { name, .. } => name.clone(),
            LuaRun::Repl { .. } => "Repl".to_owned(),
        }
    }
}

/// What an eval buffer asks for: running a named script file — loaded
/// outside the library — or evaluating the buffer itself.
pub enum EvalRequest {
    RunFile { name: String, allow_duplicate: bool },
    RunRepl { code: String },
}

/// The status-bar item that runs user scripts; the script engine itself
/// lives outside the library.
pub struct Eval;

impl Default for Eval {
    fn default() -> (r: Self) {
        Eval
    }
}

impl Eval {
    pub fn name(&self) -> (r: String)
        ensures
            r@ == "Eval"@,
    {
        "Eval".to_owned()
    }

    /// Read the buffer: `@name` asks for the script file `name`, with a
    /// leading `!` on the name allowing a duplicate load; anything else
    /// is evaluated as it stands.
    pub fn parse_buffer(buffer: &String) -> (r: EvalRequest)
        ensures
            ({
                let bv = buffer@;
                if bv.len() >= 1 && bv[0] == '@' {
                    if bv.len() >= 2 && bv[1] == '!' {
                        r matches EvalRequest::RunFile { name, allow_duplicate } && name@
                            == bv.skip(2) && allow_duplicate
                    } else {
                        r matches EvalRequest::RunFile { name, allow_duplicate } && name@
                            == bv.skip(1) && !allow_duplicate
                    }
                } else {
                    r matches EvalRequest::RunRepl { code } && code@ == bv
                }
            }),
    {
        let len = buffer.as_str().unicode_len();
        if len >= 1 && buffer.as_str().get_char(0) == '@' {
            if len >= 2 && buffer.as_str().get_char(1) == '!' {
                let name = buffer.as_str().substring_char(2, len).to_owned();
                proof {
                    assert(buffer@.subrange(2, len as int) =~= buffer@.skip(2));
                }
                EvalRequest::RunFile { name, allow_duplicate: true }
            } else {
                let name = buffer.as_str().substring_char(1, len).to_owned();
                proof {
                    assert(buffer@.subrange(1, len as int) =~= buffer@.skip(1));
                }
                EvalRequest::RunFile { name, allow_duplicate: false }
            }
        } else {
            EvalRequest::RunRepl { code: buffer.clone() }
        }
    }

    pub fn display_mode(&self) -> (r: DisplayMode)
        ensures
            r is Hidden,
    {
        DisplayMode::Hidden
    }

    /// The shorthand that turns `=expr` into the expression itself.
    pub fn shorthands(&self) -> (r: Option<List>)
        ensures
            r matches Some(l) ==> l.entries().len() == 1 && l.entries()[0].pattern_view()
                == "^=(.*)"@ && l.entries()[0].format_view() == "$1"@,
    {
        List::default().add("^=(.*)", "$1")
    }
}

} // verus!
