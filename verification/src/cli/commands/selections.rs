//! Token selection command arguments and the export format.

use vstd::prelude::*;
use crate::address_book::types::str_eq;
use crate::text::{lowercase, to_lowercase};

verus! {

#[derive(Debug)]
pub struct SelectionsArgs {
    /// The subcommand; the interactive menu without one.
    pub command: Option<SelectionsSubcommand>,
}

#[derive(Debug)]
pub enum SelectionsSubcommand {
    /// List all selections
    List,
    /// Create a new selection
    Create { name: Option<String> },
    /// Show a selection
    Show { name: String },
    /// Delete a selection
    Delete { name: String, force: bool },
    /// Add tokens to a selection
    Add { name: String, tokens: Vec<String> },
    /// Remove tokens from a selection
    Remove { name: String, tokens: Vec<String> },
    /// Export a selection's tokens
    Export { name: String, format: ExportFormat },
}

/// How a selection's tokens are exported.
#[derive(Debug, Clone, Copy, PartialEq, Eq, Structural)]
pub enum ExportFormat {
    /// One token per line
    List,
    /// Tokens separated by commas
    CommaSeparated,
    /// A JSON array
    Json,
}

/// The format that a lower-cased name selects.
pub open spec fn export_format_named(l: Seq<char>) -> Option<ExportFormat> {
    if l == "list"@ {
        Some(ExportFormat::List)
    } else if l == "comma"@ || l == "csv"@ {
        Some(ExportFormat::CommaSeparated)
    } else if l == "json"@ {
        Some(ExportFormat::Json)
    } else {
        None
    }
}

impl ExportFormat {
    /// Reads an export format, whatever its case: list, comma (or csv), json.
    pub fn parse(s: &str) -> (r: Result<ExportFormat, String>)
        ensures
            match export_format_named(lowercase(s@)) {
                Some(f) => r == Ok::<ExportFormat, String>(f),
                None => r matches Err(m) && m@ == "Unknown format: "@ + s@,
            },
    {
        let l = to_lowercase(s);
        if str_eq(l.as_str(), "list") {
            Ok(ExportFormat::List)
        } else if str_eq(l.as_str(), "comma") || str_eq(l.as_str(), "csv") {
            Ok(ExportFormat::CommaSeparated)
        } else if str_eq(l.as_str(), "json") {
            Ok(ExportFormat::Json)
        } else {
            let mut m = String::from_str("Unknown format: ");
            m.append(s);
            Err(m)
        }
    }
}

impl std::str::FromStr for ExportFormat {
    type Err = String;

    /// Reads an export format as `parse` does.
    fn from_str(s: &str) -> (r: Result<Self, Self::Err>)
        ensures
            match export_format_named(lowercase(s@)) {
                Some(f) => r == Ok::<ExportFormat, String>(f),
                None => r matches Err(m) && m@ == "Unknown format: "@ + s@,
            },
    {
        ExportFormat::parse(s)
    }
}

pub struct SelectionsCommand {
    args: SelectionsArgs,
}

impl View for SelectionsCommand {
    type V = SelectionsArgs;

    closed spec fn view(&self) -> SelectionsArgs {
        self.args
    }
}

impl SelectionsCommand {
    pub fn new(args: SelectionsArgs) -> (r: Self)
        ensures
            r@ == args,
    {
        SelectionsCommand { args }
    }

    /// The arguments the command was made with.
    pub fn args(&self) -> (r: &SelectionsArgs)
        ensures
            *r == self@,
    {
        &self.args
    }
}

} // verus!
