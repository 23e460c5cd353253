//! Plain data carried by the command-line interface.  Parsing the command
//! line itself happens outside the library; these types hold the parsed
//! values.

use vstd::prelude::*;

verus! {

/// Arguments of the `add` subcommand: the package to add, by repository
/// name or, with `git` set, by Git URL.
#[derive(Debug, Clone)]
pub struct AddArgs {
    pub what: String,
    pub git: bool,
}

/// Arguments of the `new` subcommand: the project name and whether to
/// scaffold a library or a binary project.
#[derive(Debug, Clone)]
pub struct NewArgs {
    pub name: String,
    pub lib: bool,
    pub bin: bool,
}

/// Arguments of the `build` subcommand: the input file and the output
/// location, both optional.
#[derive(Debug, Clone)]
pub struct BuildArgs {
    pub file: Option<String>,
    pub output: Option<String>,
}

/// Arguments of the `lsp` subcommand: which of install, update and
/// update-check to run.
#[derive(Debug, Clone)]
pub struct LspArgs {
    pub install: bool,
    pub update: bool,
    pub check_update: bool,
}

/// A parsed subcommand.
#[derive(Debug, Clone)]
pub enum Command {
    New(NewArgs),
    Add(AddArgs),
}

} // verus!
