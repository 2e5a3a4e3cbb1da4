//! Dataset management command arguments and its decisions: the action, the scan configuration, the dataset type filter and the names to delete.

use vstd::prelude::*;
use crate::address_book::commands::contains_string;
use crate::address_book::types::str_eq;
use crate::text::{
    chars_of, copy_range, is_prefix, join_strings, joined_with, lowercase, starts_with, string_of,
    strings_view, to_lowercase,
};

verus! {

#[derive(Debug)]
pub struct DatasetsArgs {
    /// Base directory to scan for datasets
    pub base_dir: String,
    /// Additional directories to scan (comma-separated)
    pub scan_dirs: Vec<String>,
    /// Maximum depth for recursive scanning
    pub max_depth: usize,
    /// List all datasets (default if no other action specified)
    pub list: bool,
    /// Show summary statistics
    pub summary: bool,
    /// Launch interactive TUI interface
    pub interactive: bool,
    /// Filter by dataset type
    pub filter_type: Option<String>,
    /// Delete specified datasets (comma-separated names)
    pub delete: Vec<String>,
    /// Force deletion without confirmation
    pub force: bool,
    /// Show detailed information for each dataset
    pub details: bool,
}

pub struct DatasetsCommand {
    args: DatasetsArgs,
}

impl View for DatasetsCommand {
    type V = DatasetsArgs;

    closed spec fn view(&self) -> DatasetsArgs {
        self.args
    }
}

impl DatasetsCommand {
    pub fn new(args: DatasetsArgs) -> (r: Self)
        ensures
            r@ == args,
    {
        DatasetsCommand { args: args }
    }

    /// The arguments the command was made with.
    pub fn args(&self) -> (r: &DatasetsArgs)
        ensures
            *r == self@,
    {
        &self.args
    }
}

/// Where and how deep the dataset manager scans.
#[derive(Debug)]
pub struct DatasetManagerConfig {
    pub base_dir: String,
    pub scan_dirs: Vec<String>,
    pub recursive: bool,
    pub max_depth: usize,
}

/// What the datasets command does.
#[derive(Debug, Clone, Copy, PartialEq, Eq, Structural)]
pub enum DatasetsAction {
    Interactive,
    Delete,
    Summary,
    List,
}

/// The kind of dataset that a type filter names.
#[derive(Debug)]
pub enum DatasetKind {
    MarketData,
    AnalyzedMarkets,
    EnrichedMarkets,
    Mixed,
    Unknown,
    Pipeline(String),
}

/// The directories scanned by default, before the ones given.
pub open spec fn default_scan_dirs(default_datasets_dir: Seq<char>, datasets_dir: Seq<char>) -> Seq<Seq<char>> {
    seq![default_datasets_dir, datasets_dir, "datasets"@, "outputs"@, "results"@, "pipelines"@]
}

/// `s` without its leading run of `c`.
pub open spec fn skip_leading(s: Seq<char>, c: char) -> Seq<char>
    decreases s.len(),
{
    if s.len() > 0 && s[0] == c {
        skip_leading(s.drop_first(), c)
    } else {
        s
    }
}

/// The pipeline name in a lower-cased type filter that starts with
/// `pipeline`: what follows, without leading `_` and then `-`, or `unknown`
/// where nothing is left.
pub open spec fn pipeline_name_of(l: Seq<char>) -> Seq<char> {
    let rest = skip_leading(skip_leading(l.skip(8), '_'), '-');
    if rest.len() == 0 {
        "unknown"@
    } else {
        rest
    }
}

/// The kind a lower-cased type filter names, if any.
pub open spec fn dataset_kind_named(l: Seq<char>) -> Option<DatasetKind> {
    if l == "market_data"@ || l == "market-data"@ || l == "markets"@ {
        Some(DatasetKind::MarketData)
    } else if l == "analyzed_markets"@ || l == "analyzed-markets"@ || l == "analyze"@ || l
        == "analysis"@ {
        Some(DatasetKind::AnalyzedMarkets)
    } else if l == "enriched_markets"@ || l == "enriched-markets"@ || l == "enriched"@ || l
        == "enrich"@ {
        Some(DatasetKind::EnrichedMarkets)
    } else if l == "mixed"@ {
        Some(DatasetKind::Mixed)
    } else if l == "unknown"@ {
        Some(DatasetKind::Unknown)
    } else {
        None
    }
}

/// The message of an unknown dataset type.
pub open spec fn unknown_type_message(s: Seq<char>) -> Seq<char> {
    "Unknown dataset type: "@ + s
        + ". Valid types: market_data, analyzed_markets, enriched_markets, mixed, unknown, pipeline_<name>"@
}

fn skip_leading_exec(v: &Vec<char>, start: usize, c: char) -> (r: usize)
    requires
        start <= v.len(),
    ensures
        start <= r <= v.len(),
        v@.skip(r as int) == skip_leading(v@.skip(start as int), c),
    decreases v.len() - start,
{
    if start < v.len() && v[start] == c {
        proof {
            assert(v@.skip(start as int).drop_first() =~= v@.skip(start + 1));
        }
        skip_leading_exec(v, start + 1, c)
    } else {
        start
    }
}

/// The message naming the requested datasets that do not exist.
pub open spec fn not_found_message(missing: Seq<Seq<char>>) -> Seq<char> {
    "Datasets not found: "@ + joined_with(missing, ", "@)
}

impl DatasetsCommand {
    /// The interface turns interactive when asked, or when no list, summary,
    /// deletion or type filter is asked for; else deletion comes first, then
    /// the summary, else the listing.
    pub fn action(&self) -> (r: DatasetsAction)
        ensures
            r == (if self@.interactive || (!self@.list && !self@.summary && self@.delete@.len() == 0
                && self@.filter_type is None) {
                DatasetsAction::Interactive
            } else if self@.delete@.len() > 0 {
                DatasetsAction::Delete
            } else if self@.summary {
                DatasetsAction::Summary
            } else {
                DatasetsAction::List
            }),
    {
        let a = &self.args;
        if a.interactive || (!a.list && !a.summary && a.delete.len() == 0 && a.filter_type.is_none()) {
            DatasetsAction::Interactive
        } else if a.delete.len() > 0 {
            DatasetsAction::Delete
        } else if a.summary {
            DatasetsAction::Summary
        } else {
            DatasetsAction::List
        }
    }

    /// The scan configuration: the base directory given, the default
    /// directories followed by the ones given, recursive, to the depth given.
    pub fn create_config(&self, default_datasets_dir: &str, datasets_dir: &str) -> (r:
        DatasetManagerConfig)
        ensures
            r.base_dir@ == self@.base_dir@,
            strings_view(r.scan_dirs@) == default_scan_dirs(default_datasets_dir@, datasets_dir@)
                + strings_view(self@.scan_dirs@),
            r.recursive,
            r.max_depth == self@.max_depth,
    {
        let mut scan_dirs: Vec<String> = Vec::new();
        scan_dirs.push(String::from_str(default_datasets_dir));
        scan_dirs.push(String::from_str(datasets_dir));
        scan_dirs.push(String::from_str("datasets"));
        scan_dirs.push(String::from_str("outputs"));
        scan_dirs.push(String::from_str("results"));
        scan_dirs.push(String::from_str("pipelines"));
        let ghost first = strings_view(scan_dirs@);
        proof {
            assert(first =~= default_scan_dirs(default_datasets_dir@, datasets_dir@));
        }
        let extra = &self.args.scan_dirs;
        let mut i: usize = 0;
        while i < extra.len()
            invariant
                i <= extra.len(),
                strings_view(scan_dirs@) == first + strings_view(extra@).take(i as int),
            decreases extra.len() - i,
        {
            let d = extra[i].clone();
            let ghost s0 = scan_dirs@;
            scan_dirs.push(d);
            proof {
                assert(strings_view(scan_dirs@) =~= strings_view(s0).push(d@));
                assert(strings_view(extra@).take(i + 1) =~= strings_view(extra@).take(i as int).push(d@));
            }
            i = i + 1;
        }
        proof {
            assert(strings_view(extra@).take(i as int) =~= strings_view(extra@));
        }
        DatasetManagerConfig {
            base_dir: self.args.base_dir.clone(),
            scan_dirs,
            recursive: true,
            max_depth: self.args.max_depth,
        }
    }

    /// Reads a dataset type filter, whatever its case: market data,
    /// analyzed or enriched markets, mixed, unknown, or `pipeline` followed
    /// by a name.
    pub fn parse_dataset_type(type_str: &str) -> (r: Result<DatasetKind, String>)
        ensures
            ({
                let l = lowercase(type_str@);
                match dataset_kind_named(l) {
                    Some(k) => r == Ok::<DatasetKind, String>(k),
                    None => if is_prefix("pipeline"@, l) {
                        r matches Ok(DatasetKind::Pipeline(n)) && n@ == pipeline_name_of(l)
                    } else {
                        r matches Err(m) && m@ == unknown_type_message(type_str@)
                    },
                }
            }),
    {
        let n = to_lowercase(type_str);
        let l = n.as_str();
        if str_eq(l, "market_data") || str_eq(l, "market-data") || str_eq(l, "markets") {
            Ok(DatasetKind::MarketData)
        } else if str_eq(l, "analyzed_markets") || str_eq(l, "analyzed-markets") || str_eq(l, "analyze")
            || str_eq(l, "analysis") {
            Ok(DatasetKind::AnalyzedMarkets)
        } else if str_eq(l, "enriched_markets") || str_eq(l, "enriched-markets") || str_eq(l, "enriched")
            || str_eq(l, "enrich") {
            Ok(DatasetKind::EnrichedMarkets)
        } else if str_eq(l, "mixed") {
            Ok(DatasetKind::Mixed)
        } else if str_eq(l, "unknown") {
            Ok(DatasetKind::Unknown)
        } else if starts_with(l, "pipeline") {
            let v = chars_of(l);
            proof {
                reveal_strlit("pipeline");
            }
            let a = skip_leading_exec(&v, 8, '_');
            let b = skip_leading_exec(&v, a, '-');
            if b == v.len() {
                proof {
                    assert(v@.skip(b as int).len() == 0);
                }
                Ok(DatasetKind::Pipeline(String::from_str("unknown")))
            } else {
                let rest = copy_range(&v, b, v.len());
                proof {
                    assert(rest@ =~= v@.skip(b as int));
                }
                Ok(DatasetKind::Pipeline(string_of(&rest)))
            }
        } else {
            let mut m = String::from_str("Unknown dataset type: ");
            m.append(type_str);
            m.append(
                ". Valid types: market_data, analyzed_markets, enriched_markets, mixed, unknown, pipeline_<name>",
            );
            Err(m)
        }
    }
}

/// The requested names that are not among the available ones, in order.
pub fn missing_datasets(requested: &Vec<String>, available: &Vec<String>) -> (r: Vec<String>)
    ensures
        strings_view(r@) == strings_view(requested@).filter(
            |n: Seq<char>| !strings_view(available@).contains(n),
        ),
{
    let ghost rq = strings_view(requested@);
    let ghost av = strings_view(available@);
    let ghost f = |n: Seq<char>| !av.contains(n);
    let mut r: Vec<String> = Vec::new();
    let mut i: usize = 0;
    proof {
        assert(rq.take(0).filter(f) =~= Seq::<Seq<char>>::empty());
    }
    while i < requested.len()
        invariant
            i <= requested.len(),
            rq == strings_view(requested@),
            av == strings_view(available@),
            f == (|n: Seq<char>| !av.contains(n)),
            strings_view(r@) == rq.take(i as int).filter(f),
        decreases requested.len() - i,
    {
        proof {
            assert(rq[i as int] == requested@[i as int]@);
            assert(rq.take(i + 1) =~= rq.take(i as int).push(rq[i as int]));
            rq.take(i as int).lemma_filter_push(rq[i as int], f);
        }
        if !contains_string(available, requested[i].as_str()) {
            let n = requested[i].clone();
            let ghost r0 = r@;
            r.push(n);
            proof {
                assert(strings_view(r@) =~= strings_view(r0).push(n@));
            }
        }
        i = i + 1;
    }
    proof {
        assert(rq.take(i as int) =~= rq);
    }
    r
}

/// The refusal of a deletion that names missing datasets, if any do.
pub fn deletion_refusal(requested: &Vec<String>, available: &Vec<String>) -> (r: Option<String>)
    ensures
        ({
            let missing = strings_view(requested@).filter(
                |n: Seq<char>| !strings_view(available@).contains(n),
            );
            match r {
                Some(m) => missing.len() > 0 && m@ == not_found_message(missing),
                None => missing.len() == 0,
            }
        }),
{
    let missing = missing_datasets(requested, available);
    if missing.len() == 0 {
        None
    } else {
        let mut m = String::from_str("Datasets not found: ");
        let j = join_strings(&missing, ", ");
        m.append(j.as_str());
        Some(m)
    }
}

} // verus!
