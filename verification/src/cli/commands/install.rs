//! Installation command arguments and its choices of directory and answers.

use vstd::prelude::*;
use crate::address_book::types::str_eq;
use crate::paths::{join, joined};
use crate::text::{lowercase, split_on, split_str, to_lowercase, trim, trim_str};

verus! {

#[derive(Debug)]
pub struct InstallArgs {
    /// Overwrite existing installation without prompting
    pub overwrite: bool,
    /// Custom installation directory (defaults to ~/.local/bin)
    pub bin_dir: Option<String>,
}

pub struct InstallCommand {
    args: InstallArgs,
}

impl View for InstallCommand {
    type V = InstallArgs;

    closed spec fn view(&self) -> InstallArgs {
        self.args
    }
}

impl InstallCommand {
    pub fn new(args: InstallArgs) -> (r: Self)
        ensures
            r@ == args,
    {
        InstallCommand { args: args }
    }

    /// The arguments the command was made with.
    pub fn args(&self) -> (r: &InstallArgs)
        ensures
            *r == self@,
    {
        &self.args
    }
}

/// The installation directory: the one given, else `~/.local/bin` under the
/// home directory, else `/usr/local/bin`.
pub open spec fn install_dir(bin_dir: Option<Seq<char>>, home: Option<Seq<char>>) -> Seq<char> {
    match bin_dir {
        Some(d) => d,
        None => match home {
            Some(h) => joined(joined(h, ".local"@), "bin"@),
            None => "/usr/local/bin"@,
        },
    }
}

/// The installation directory for the given custom directory and home
/// directory (as the platform reports it).
pub fn install_directory(bin_dir: Option<&str>, home: Option<&str>) -> (r: String)
    ensures
        r@ == install_dir(
            match bin_dir {
                Some(d) => Some(d@),
                None => None,
            },
            match home {
                Some(h) => Some(h@),
                None => None,
            },
        ),
{
    match bin_dir {
        Some(d) => String::from_str(d),
        None => match home {
            Some(h) => {
                let local = join(h, ".local");
                join(local.as_str(), "bin")
            },
            None => String::from_str("/usr/local/bin"),
        },
    }
}

/// An overwrite prompt's answer agrees: trimmed and lower-cased, it is `y`
/// or `yes`.
pub open spec fn agrees_to_overwrite(input: Seq<char>) -> bool {
    let r = lowercase(trim(input));
    r == "y"@ || r == "yes"@
}

/// Whether the answer to the overwrite prompt agrees.
pub fn overwrite_confirmed(input: &str) -> (r: bool)
    ensures
        r == agrees_to_overwrite(input@),
{
    let t = trim_str(input);
    let l = to_lowercase(t.as_str());
    str_eq(l.as_str(), "y") || str_eq(l.as_str(), "yes")
}

/// Whether `dir` is one of the `:`-separated entries of `path_var`.
pub fn dir_on_path(path_var: &str, dir: &str) -> (r: bool)
    ensures
        r == split_on(path_var@, ':').contains(dir@),
{
    let parts = split_str(path_var, ':');
    let ghost ps = crate::text::strings_view(parts@);
    let mut i: usize = 0;
    while i < parts.len()
        invariant
            i <= parts.len(),
            ps == crate::text::strings_view(parts@),
            ps == split_on(path_var@, ':'),
            forall|j: int| 0 <= j < i ==> ps[j] != dir@,
        decreases parts.len() - i,
    {
        if str_eq(parts[i].as_str(), dir) {
            proof {
                assert(ps[i as int] == dir@);
            }
            return true;
        }
        i = i + 1;
    }
    false
}

} // verus!
