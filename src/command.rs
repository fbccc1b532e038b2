//! Command descriptors and parse errors.
use vstd::prelude::*;

verus! {

/// One program to launch: the alias shown in its output prefix, the program
/// path and its arguments.
#[derive(Debug)]
pub struct Cmd {
    pub alias: String,
    pub program: String,
    pub args: Vec<String>,
}

/// The mathematical value of a [`Cmd`].
pub struct CmdModel {
    pub alias: Seq<char>,
    pub program: Seq<char>,
    pub args: Seq<Seq<char>>,
}

impl View for Cmd {
    type V = CmdModel;

    open spec fn view(&self) -> CmdModel {
        CmdModel {
            alias: self.alias@,
            program: self.program@,
            args: self.args@.map_values(|a: String| a@),
        }
    }
}

/// The parsed command line: the commands in the order they were given.
#[derive(Debug)]
pub struct Options {
    pub cmds: Vec<Cmd>,
}

impl View for Options {
    type V = Seq<CmdModel>;

    open spec fn view(&self) -> Seq<CmdModel> {
        self.cmds@.map_values(|c: Cmd| c@)
    }
}

/// A malformed command line, with a message for the user.
#[derive(Debug)]
pub struct ParseError {
    pub message: String,
}

/// The value of a parse result: the model on success, the message on failure.
pub open spec fn result_view<T: View>(r: Result<T, ParseError>) -> Result<T::V, Seq<char>> {
    match r {
        Ok(v) => Ok(v@),
        Err(e) => Err(e.message@),
    }
}

/// The view of an optional string.
pub open spec fn opt_view(a: Option<String>) -> Option<Seq<char>> {
    match a {
        Some(s) => Some(s@),
        None => None,
    }
}

} // verus!
