//! Git worktree management: the command's arguments and the reading of
//! `git worktree list --porcelain`.

use vstd::prelude::*;
use crate::address_book::types::{opt_view, str_eq};
use crate::text::{
    ends_with, is_prefix, is_suffix, lines_of, split_on, split_str, strings_view, strip_prefix,
    text_lines,
};

verus! {

#[derive(Debug)]
pub struct WorktreeArgs {
    pub command: WorktreeCommand,
}

#[derive(Debug)]
pub enum WorktreeCommand {
    /// Create a new worktree with data and environment setup
    Create {
        branch: String,
        path: Option<String>,
        base: String,
        no_data: bool,
        no_env: bool,
        no_creds: bool,
    },
    /// List all worktrees with their status
    List,
    /// Remove a worktree and clean up
    Remove { path: String, force: bool },
    /// Sync data between worktrees
    Sync { source: Option<String>, what: String },
}

/// One worktree of `git worktree list --porcelain`.
#[derive(Debug)]
pub struct WorktreeInfo {
    pub path: String,
    pub head: Option<String>,
    pub branch: Option<String>,
    pub bare: bool,
}

/// The value of a `WorktreeInfo`.
pub struct InfoView {
    pub path: Seq<char>,
    pub head: Option<Seq<char>>,
    pub branch: Option<Seq<char>>,
    pub bare: bool,
}

impl View for WorktreeInfo {
    type V = InfoView;

    open spec fn view(&self) -> InfoView {
        InfoView {
            path: self.path@,
            head: opt_view(self.head),
            branch: opt_view(self.branch),
            bare: self.bare,
        }
    }
}

/// The worktrees read so far and the one being read, after the first `n`
/// lines: a `worktree ` line starts a worktree, `HEAD `, `branch ` and
/// `bare` lines fill in the current one, other lines are passed over.
pub open spec fn porcelain_state(lines: Seq<Seq<char>>, n: int) -> (Seq<InfoView>, Option<InfoView>)
    decreases n,
{
    if n <= 0 {
        (Seq::empty(), None)
    } else {
        let (done, cur) = porcelain_state(lines, n - 1);
        let l = lines[n - 1];
        if is_prefix("worktree "@, l) {
            (
                match cur {
                    Some(c) => done.push(c),
                    None => done,
                },
                Some(InfoView { path: l.skip(9), head: None, branch: None, bare: false }),
            )
        } else if is_prefix("HEAD "@, l) {
            (done, match cur {
                Some(c) => Some(InfoView { head: Some(l.skip(5)), ..c }),
                None => None,
            })
        } else if is_prefix("branch "@, l) {
            (done, match cur {
                Some(c) => Some(InfoView { branch: Some(l.skip(7)), ..c }),
                None => None,
            })
        } else if l == "bare"@ {
            (done, match cur {
                Some(c) => Some(InfoView { bare: true, ..c }),
                None => None,
            })
        } else {
            (done, cur)
        }
    }
}

/// The worktrees that porcelain output lists, in order.
pub open spec fn porcelain_worktrees(lines: Seq<Seq<char>>) -> Seq<InfoView> {
    let (done, cur) = porcelain_state(lines, lines.len() as int);
    match cur {
        Some(c) => done.push(c),
        None => done,
    }
}

/// The values of a list of worktrees.
pub open spec fn infos_view(v: Seq<WorktreeInfo>) -> Seq<InfoView> {
    v.map_values(|w: WorktreeInfo| w@)
}

/// Reads the output of `git worktree list --porcelain`.
pub fn parse_worktree_list(output: &str) -> (r: Vec<WorktreeInfo>)
    ensures
        infos_view(r@) == porcelain_worktrees(text_lines(output@)),
{
    let lines = lines_of(output);
    let ghost ls = strings_view(lines@);
    let mut done: Vec<WorktreeInfo> = Vec::new();
    let mut cur: Option<WorktreeInfo> = None;
    let mut i: usize = 0;
    while i < lines.len()
        invariant
            i <= lines.len(),
            ls == strings_view(lines@),
            ls == text_lines(output@),
            (infos_view(done@), match cur {
                Some(c) => Some(c@),
                None => None,
            }) == porcelain_state(ls, i as int),
        decreases lines.len() - i,
    {
        let line = lines[i].as_str();
        proof {
            assert(ls[i as int] == line@);
            reveal_strlit("worktree ");
            reveal_strlit("HEAD ");
            reveal_strlit("branch ");
        }
        let ghost d0 = done@;
        if let Some(path) = strip_prefix(line, "worktree ") {
            match cur {
                Some(c) => {
                    let ghost cv = c@;
                    done.push(c);
                    proof {
                        assert(infos_view(done@) =~= infos_view(d0).push(cv));
                    }
                },
                None => {},
            }
            cur = Some(WorktreeInfo { path, head: None, branch: None, bare: false });
        } else if let Some(h) = strip_prefix(line, "HEAD ") {
            cur = match cur {
                Some(c) => Some(WorktreeInfo { head: Some(h), ..c }),
                None => None,
            };
        } else if let Some(b) = strip_prefix(line, "branch ") {
            cur = match cur {
                Some(c) => Some(WorktreeInfo { branch: Some(b), ..c }),
                None => None,
            };
        } else if str_eq(line, "bare") {
            cur = match cur {
                Some(c) => Some(WorktreeInfo { bare: true, ..c }),
                None => None,
            };
        }
        i = i + 1;
    }
    let ghost d0 = done@;
    match cur {
        Some(c) => {
            let ghost cv = c@;
            done.push(c);
            proof {
                assert(infos_view(done@) =~= infos_view(d0).push(cv));
            }
        },
        None => {},
    }
    proof {
        assert(ls.len() == i);
    }
    done
}

/// A branch is a main one when it ends in `/main` or `/master`.
pub open spec fn is_main_branch(branch: Seq<char>) -> bool {
    is_suffix("/main"@, branch) || is_suffix("/master"@, branch)
}

/// Whether a worktree's branch is a main one.
pub fn main_branch(branch: &Option<String>) -> (r: bool)
    ensures
        r == match branch {
            Some(b) => is_main_branch(b@),
            None => false,
        },
{
    match branch {
        Some(b) => ends_with(b.as_str(), "/main") || ends_with(b.as_str(), "/master"),
        None => false,
    }
}

/// The short name of a branch: its last `/`-separated part; `(detached)`
/// without a branch.
pub fn branch_display_name(branch: &Option<String>) -> (r: String)
    ensures
        r@ == match branch {
            Some(b) => split_on(b@, '/').last(),
            None => "(detached)"@,
        },
{
    match branch {
        Some(b) => {
            let parts = split_str(b.as_str(), '/');
            proof {
                crate::text::lemma_split_on_nonempty(b@, '/');
                assert(strings_view(parts@)[parts@.len() - 1] == parts@[parts@.len() - 1]@);
            }
            parts[parts.len() - 1].clone()
        },
        None => String::from_str("(detached)"),
    }
}

/// What a sync copies.
#[derive(Debug, Clone, Copy, PartialEq, Eq, Structural)]
pub enum SyncWhat {
    Data,
    Env,
    Creds,
    All,
}

/// Reads what a sync copies: data, env, creds or all.
pub fn parse_sync_what(what: &str) -> (r: Result<SyncWhat, String>)
    ensures
        if what@ == "data"@ {
            r == Ok::<SyncWhat, String>(SyncWhat::Data)
        } else if what@ == "env"@ {
            r == Ok::<SyncWhat, String>(SyncWhat::Env)
        } else if what@ == "creds"@ {
            r == Ok::<SyncWhat, String>(SyncWhat::Creds)
        } else if what@ == "all"@ {
            r == Ok::<SyncWhat, String>(SyncWhat::All)
        } else {
            r matches Err(m) && m@ == "Unknown sync type: "@ + what@ + ". Use: data, env, creds, or all"@
        },
{
    if str_eq(what, "data") {
        Ok(SyncWhat::Data)
    } else if str_eq(what, "env") {
        Ok(SyncWhat::Env)
    } else if str_eq(what, "creds") {
        Ok(SyncWhat::Creds)
    } else if str_eq(what, "all") {
        Ok(SyncWhat::All)
    } else {
        let mut m = String::from_str("Unknown sync type: ");
        m.append(what);
        m.append(". Use: data, env, creds, or all");
        Err(m)
    }
}

/// The arguments of `git` that remove a worktree.
pub fn remove_worktree_args(path: &str, force: bool) -> (r: Vec<String>)
    ensures
        strings_view(r@) == (if force {
            seq!["worktree"@, "remove"@, "--force"@, path@]
        } else {
            seq!["worktree"@, "remove"@, path@]
        }),
{
    let mut r: Vec<String> = Vec::new();
    r.push(String::from_str("worktree"));
    r.push(String::from_str("remove"));
    if force {
        r.push(String::from_str("--force"));
    }
    r.push(String::from_str(path));
    proof {
        if force {
            assert(strings_view(r@) =~= seq!["worktree"@, "remove"@, "--force"@, path@]);
        } else {
            assert(strings_view(r@) =~= seq!["worktree"@, "remove"@, path@]);
        }
    }
    r
}

/// The parts of `s` between the `\n\n` separators, read from `start` with
/// the scan at `i`, as `str::split("\n\n")` gives them.
pub open spec fn blank_split_from(s: Seq<char>, start: int, i: int) -> Seq<Seq<char>>
    decreases s.len() - i,
{
    if i + 1 >= s.len() {
        seq![s.subrange(start, s.len() as int)]
    } else if s[i] == '\n' && s[i + 1] == '\n' {
        seq![s.subrange(start, i)] + blank_split_from(s, i + 2, i + 2)
    } else {
        blank_split_from(s, start, i + 1)
    }
}

/// The parts of `s` between its `\n\n` separators.
pub open spec fn blank_split(s: Seq<char>) -> Seq<Seq<char>> {
    blank_split_from(s, 0, 0)
}

fn split_blank_lines(v: &Vec<char>) -> (r: Vec<Vec<char>>)
    ensures
        r@.map_values(|c: Vec<char>| c@) == blank_split(v@),
{
    let mut r: Vec<Vec<char>> = Vec::new();
    let mut start: usize = 0;
    let mut i: usize = 0;
    while v.len() - i > 1
        invariant
            start <= i <= v.len(),
            r@.map_values(|c: Vec<char>| c@) + blank_split_from(v@, start as int, i as int)
                == blank_split(v@),
        decreases v.len() - i,
    {
        if v[i] == '\n' && v[i + 1] == '\n' {
            let part = crate::text::copy_range(v, start, i);
            let ghost before = r@.map_values(|c: Vec<char>| c@);
            r.push(part);
            proof {
                assert(r@.map_values(|c: Vec<char>| c@) =~= before.push(part@));
                assert(before.push(part@) + blank_split_from(v@, i + 2, i + 2) =~= before + (seq![
                    v@.subrange(start as int, i as int),
                ] + blank_split_from(v@, i + 2, i + 2)));
            }
            i = i + 2;
            start = i;
        } else {
            i = i + 1;
        }
    }
    let last = crate::text::copy_range(v, start, v.len());
    let ghost before = r@.map_values(|c: Vec<char>| c@);
    r.push(last);
    proof {
        assert(r@.map_values(|c: Vec<char>| c@) =~= before.push(last@));
        assert(before.push(last@) =~= before + seq![v@.subrange(start as int, v@.len() as int)]);
    }
    r
}

/// The path of the last `worktree ` line of a chunk.
pub open spec fn chunk_path(lines: Seq<Seq<char>>) -> Option<Seq<char>>
    decreases lines.len(),
{
    if lines.len() == 0 {
        None
    } else if is_prefix("worktree "@, lines.last()) {
        Some(lines.last().skip(9))
    } else {
        chunk_path(lines.drop_last())
    }
}

/// A chunk names a main branch.
pub open spec fn chunk_is_main(lines: Seq<Seq<char>>) -> bool {
    exists|i: int|
        0 <= i < lines.len() && is_prefix("branch "@, #[trigger] lines[i]) && is_main_branch(
            lines[i].skip(7),
        )
}

/// The path of the first chunk that names a main branch and a path.
pub open spec fn main_in_chunks(chunks: Seq<Seq<char>>) -> Option<Seq<char>>
    decreases chunks.len(),
{
    if chunks.len() == 0 {
        None
    } else if chunk_is_main(text_lines(chunks[0])) && chunk_path(text_lines(chunks[0])) is Some {
        chunk_path(text_lines(chunks[0]))
    } else {
        main_in_chunks(chunks.skip(1))
    }
}

/// The main worktree that porcelain output names: the path of the first
/// blank-line separated chunk with a main branch.
pub open spec fn main_worktree(output: Seq<char>) -> Option<Seq<char>> {
    main_in_chunks(blank_split(output))
}

proof fn lemma_chunk_is_main_step(ls: Seq<Seq<char>>, j: int)
    requires
        0 <= j < ls.len(),
    ensures
        chunk_is_main(ls.take(j + 1)) == (chunk_is_main(ls.take(j)) || (is_prefix("branch "@, ls[j])
            && is_main_branch(ls[j].skip(7)))),
{
    let a = ls.take(j);
    let b = ls.take(j + 1);
    assert(b[j] == ls[j]);
    if chunk_is_main(a) {
        let k = choose|k: int|
            0 <= k < a.len() && is_prefix("branch "@, #[trigger] a[k]) && is_main_branch(a[k].skip(7));
        assert(b[k] == a[k]);
    }
    if chunk_is_main(b) {
        let k = choose|k: int|
            0 <= k < b.len() && is_prefix("branch "@, #[trigger] b[k]) && is_main_branch(b[k].skip(7));
        if k < j {
            assert(a[k] == b[k]);
        }
    }
}

/// The path and main-ness of one chunk.
fn read_chunk(chunk: &str) -> (r: (Option<String>, bool))
    ensures
        opt_view(r.0) == chunk_path(text_lines(chunk@)),
        r.1 == chunk_is_main(text_lines(chunk@)),
{
    let lines = lines_of(chunk);
    let ghost ls = strings_view(lines@);
    let mut path: Option<String> = None;
    let mut is_main = false;
    let mut j: usize = 0;
    proof {
        assert(ls.take(0) =~= Seq::<Seq<char>>::empty());
    }
    while j < lines.len()
        invariant
            j <= lines.len(),
            ls == strings_view(lines@),
            ls == text_lines(chunk@),
            opt_view(path) == chunk_path(ls.take(j as int)),
            is_main == chunk_is_main(ls.take(j as int)),
        decreases lines.len() - j,
    {
        let line = lines[j].as_str();
        proof {
            assert(ls[j as int] == line@);
            reveal_strlit("worktree ");
            reveal_strlit("branch ");
            assert(ls.take(j + 1).drop_last() =~= ls.take(j as int));
            assert(ls.take(j + 1).last() == line@);
        }
        if let Some(p) = strip_prefix(line, "worktree ") {
            path = Some(p);
        }
        let m = match strip_prefix(line, "branch ") {
            Some(b) => ends_with(b.as_str(), "/main") || ends_with(b.as_str(), "/master"),
            None => false,
        };
        proof {
            lemma_chunk_is_main_step(ls, j as int);
        }
        is_main = is_main || m;
        j = j + 1;
    }
    proof {
        assert(ls.take(j as int) =~= ls);
    }
    (path, is_main)
}

/// The path of the main worktree in the output of
/// `git worktree list --porcelain`, if it names one.
pub fn main_worktree_path(output: &str) -> (r: Option<String>)
    ensures
        opt_view(r) == main_worktree(output@),
{
    let v = crate::text::chars_of(output);
    let chunks = split_blank_lines(&v);
    let ghost cs = chunks@.map_values(|c: Vec<char>| c@);
    let mut k: usize = 0;
    proof {
        assert(cs.skip(0) =~= cs);
    }
    while k < chunks.len()
        invariant
            k <= chunks.len(),
            cs == chunks@.map_values(|c: Vec<char>| c@),
            cs == blank_split(output@),
            main_in_chunks(cs.skip(k as int)) == main_worktree(output@),
        decreases chunks.len() - k,
    {
        let text = crate::text::string_of(&chunks[k]);
        let (path, is_main) = read_chunk(text.as_str());
        proof {
            assert(cs.skip(k as int)[0] == text@);
            assert(cs.skip(k as int).skip(1) =~= cs.skip(k + 1));
        }
        if is_main && path.is_some() {
            return path;
        }
        k = k + 1;
    }
    None
}

} // verus!
