//! Pipeline command arguments, its choice of mode and its parameters.

use vstd::prelude::*;
use crate::address_book::types::opt_view;
use crate::text::split_once;

verus! {

#[derive(Debug)]
pub struct PipelineArgs {
    /// Pipeline name to execute (not required when listing)
    pub name: Option<String>,
    /// Directory containing pipeline YAML files
    pub pipelines_dir: String,
    /// Additional parameters to pass to the pipeline (key=value format)
    pub param: Vec<String>,
    /// Run in dry-run mode (show commands without executing)
    pub dry_run: bool,
    /// List all available pipelines
    pub list: bool,
}

pub struct PipelineCommand {
    args: PipelineArgs,
}

impl View for PipelineCommand {
    type V = PipelineArgs;

    closed spec fn view(&self) -> PipelineArgs {
        self.args
    }
}

impl PipelineCommand {
    pub fn new(args: PipelineArgs) -> (r: Self)
        ensures
            r@ == args,
    {
        PipelineCommand { args: args }
    }

    /// The arguments the command was made with.
    pub fn args(&self) -> (r: &PipelineArgs)
        ensures
            *r == self@,
    {
        &self.args
    }
}

/// What the pipeline command does.
#[derive(Debug)]
pub enum PipelineMode {
    /// List the available pipelines.
    List,
    /// Let the user pick a pipeline interactively.
    Interactive,
    /// Run the named pipeline.
    Run(String),
}

/// Listing wins; without a name the command turns interactive; else it runs
/// the named pipeline.
pub fn pipeline_mode(args: &PipelineArgs) -> (r: PipelineMode)
    ensures
        args.list ==> r is List,
        !args.list && args.name is None ==> r is Interactive,
        !args.list && args.name is Some ==> (r matches PipelineMode::Run(n) && Some(n@) == opt_view(
            args.name,
        )),
{
    if args.list {
        PipelineMode::List
    } else {
        match &args.name {
            None => PipelineMode::Interactive,
            Some(n) => PipelineMode::Run(n.clone()),
        }
    }
}

/// `p` split at its first `=`, if it has one.
pub open spec fn param_pair(p: Seq<char>) -> Option<(Seq<char>, Seq<char>)> {
    if exists|i: int| 0 <= i < p.len() && p[i] == '=' {
        let i = choose|i: int| 0 <= i < p.len() && p[i] == '=' && forall|j: int| 0 <= j < i ==> p[j] != '=';
        Some((p.take(i), p.skip(i + 1)))
    } else {
        None
    }
}

/// The message for a parameter without `=`.
pub open spec fn invalid_param_message(p: Seq<char>) -> Seq<char> {
    "Invalid parameter format: '"@ + p + "'. Use key=value format."@
}

/// Reads `key=value` parameters, each split at its first `=`, in order; the
/// first one without `=` is refused.
pub fn parse_params(params: &Vec<String>) -> (r: Result<Vec<(String, String)>, String>)
    ensures
        match r {
            Ok(v) => v@.len() == params@.len() && forall|k: int|
                0 <= k < v@.len() ==> param_pair(params@[k]@) == Some((v@[k].0@, v@[k].1@)),
            Err(m) => exists|k: int|
                0 <= k < params@.len() && param_pair(params@[k]@) is None && m@
                    == invalid_param_message(params@[k]@) && forall|j: int|
                    0 <= j < k ==> param_pair(params@[j]@) is Some,
        },
{
    let mut v: Vec<(String, String)> = Vec::new();
    let mut i: usize = 0;
    while i < params.len()
        invariant
            i <= params.len(),
            v@.len() == i,
            forall|k: int| 0 <= k < i ==> param_pair(params@[k]@) == Some((v@[k].0@, v@[k].1@)),
        decreases params.len() - i,
    {
        match split_once(params[i].as_str(), '=') {
            Some((a, b)) => {
                proof {
                    let p = params@[i as int]@;
                    let w = choose|w: int| 0 <= w < p.len() && p[w] == '=' && (forall|j: int| 0 <= j < w ==> p[j] != '=') && a@ == p.take(w) && b@ == p.skip(w + 1);
                    let c = choose|c: int| 0 <= c < p.len() && p[c] == '=' && forall|j: int| 0 <= j < c ==> p[j] != '=';
                    assert(c == w) by {
                        if c < w {
                            assert(p[c] != '=');
                        } else if w < c {
                            assert(p[w] != '=');
                        }
                    }
                }
                v.push((a, b));
            },
            None => {
                let mut m = String::from_str("Invalid parameter format: '");
                m.append(params[i].as_str());
                m.append("'. Use key=value format.");
                proof {
                    assert(param_pair(params@[i as int]@) is None);
                }
                return Err(m);
            },
        }
        i = i + 1;
    }
    Ok(v)
}

} // verus!
