//! The repository, as the commands have occasion to read and write it.

use vstd::prelude::*;

use crate::boundaries::{distinct, lemma_distinct_contains, lemma_distinct_unique};

verus! {

/// One side of a change git reports: the file's paths before and after it,
/// each where git has one that is valid UTF-8.
#[derive(Debug)]
pub struct Delta {
    pub new_file: Option<String>,
    pub old_file: Option<String>,
}

/// What git's status reports of one path: its change between head and index,
/// and between index and work tree, where there is one.
#[derive(Debug)]
pub struct StatusEntry {
    pub head_to_index: Option<Delta>,
    pub index_to_workdir: Option<Delta>,
}

/// The path, where there is one.
pub open spec fn maybe(path: Option<String>) -> Seq<Seq<char>> {
    match path {
        Some(p) => seq![p@],
        None => seq![],
    }
}

/// Both endpoints of a change, the new one first.
pub open spec fn delta_paths(delta: Option<Delta>) -> Seq<Seq<char>> {
    match delta {
        Some(d) => maybe(d.new_file) + maybe(d.old_file),
        None => seq![],
    }
}

/// Every path the entries name, in the order git reports them, head to index
/// before index to work tree.
pub open spec fn reported(entries: Seq<StatusEntry>) -> Seq<Seq<char>>
    decreases entries.len(),
{
    if entries.len() == 0 {
        seq![]
    } else {
        let e = entries.last();
        reported(entries.drop_last()) + delta_paths(e.head_to_index) + delta_paths(e.index_to_workdir)
    }
}

/// Adds `path`, where there is one, to the paths listed so far, unless it is
/// listed already.
fn remember(paths: &mut Vec<String>, path: &Option<String>)
    ensures
        forall|s: Seq<Seq<char>>| distinct(s) == old(paths).deep_view()
            ==> distinct(s + maybe(*path)) == final(paths).deep_view(),
{
    if let Some(p) = path {
        let mut i: usize = 0;
        let mut seen = false;
        while i < paths.len()
            invariant
                0 <= i <= paths@.len(),
                paths@ == old(paths)@,
                seen == exists|j: int| 0 <= j < i && paths.deep_view()[j] == p@,
            decreases paths.len() - i,
        {
            let same = paths[i] == *p;
            proof {
                assert(paths.deep_view()[i as int] == paths@[i as int]@);
                if !same {
                    assert forall|j: int| 0 <= j < i + 1 && paths.deep_view()[j] == p@ implies j < i by {}
                }
            }
            if same {
                seen = true;
            }
            i += 1;
        }
        let ghost before = paths.deep_view();
        if !seen {
            paths.push(p.clone());
        }
        proof {
            assert forall|s: Seq<Seq<char>>| distinct(s) == before implies distinct(s + maybe(*path))
                == paths.deep_view() by {
                assert((s + seq![p@]).drop_last() =~= s);
                assert((s + seq![p@]).last() == p@);
                if seen {
                    let j = choose|j: int| 0 <= j < i && before[j] == p@;
                    assert(before.contains(p@));
                    assert(paths.deep_view() =~= before);
                } else {
                    assert(!before.contains(p@));
                    assert(paths.deep_view() =~= before.push(p@));
                }
            }
        }
    } else {
        proof {
            assert forall|s: Seq<Seq<char>>| distinct(s) == old(paths).deep_view() implies distinct(
                s + maybe(*path),
            ) == paths.deep_view() by {
                assert(s + maybe(*path) =~= s);
            }
        }
    }
}

/// Every path the repository has a change against, in the order git reports
/// them. Renames and copies move a file, so both endpoints belong to the
/// change, and a path arrived at both ways is listed once.
pub fn changed_paths(entries: &[StatusEntry]) -> (r: Vec<String>)
    ensures
        r.deep_view() == distinct(reported(entries@)),
{
    let mut paths: Vec<String> = Vec::new();
    let mut k: usize = 0;
    while k < entries.len()
        invariant
            0 <= k <= entries@.len(),
            paths.deep_view() == distinct(reported(entries@.take(k as int))),
        decreases entries.len() - k,
    {
        let ghost done = reported(entries@.take(k as int));
        let e = &entries[k];
        let (a, b) = match &e.head_to_index {
            Some(d) => (d.new_file.clone(), d.old_file.clone()),
            None => (None, None),
        };
        let (c, d) = match &e.index_to_workdir {
            Some(d) => (d.new_file.clone(), d.old_file.clone()),
            None => (None, None),
        };
        remember(&mut paths, &a);
        remember(&mut paths, &b);
        remember(&mut paths, &c);
        remember(&mut paths, &d);
        proof {
            assert(entries@.take(k + 1).drop_last() =~= entries@.take(k as int));
            assert(entries@.take(k + 1).last() == entries@[k as int]);
            assert(delta_paths(e.head_to_index) =~= maybe(a) + maybe(b));
            assert(delta_paths(e.index_to_workdir) =~= maybe(c) + maybe(d));
            assert(reported(entries@.take(k + 1)) =~= done + maybe(a) + maybe(b) + maybe(c) + maybe(d));
        }
        k += 1;
    }
    proof {
        assert(entries@.take(entries@.len() as int) =~= entries@);
    }
    paths
}

/// Every path git reports is listed, and none twice.
pub proof fn lemma_listed_once(entries: Seq<StatusEntry>)
    ensures
        forall|p: Seq<char>| reported(entries).contains(p) <==> distinct(reported(entries)).contains(p),
        forall|i: int, j: int| 0 <= i < j < distinct(reported(entries)).len()
            ==> distinct(reported(entries))[i] != distinct(reported(entries))[j],
{
    assert forall|p: Seq<char>| reported(entries).contains(p) <==> distinct(reported(entries)).contains(p) by {
        lemma_distinct_contains(reported(entries), p);
    }
    lemma_distinct_unique(reported(entries));
}

/// Where the repository keeps its files, which is what the paths git reports
/// are relative to; `flake` stands in for a repository with no work tree to
/// speak of.
pub fn workdir<'a>(repo_workdir: Option<&'a str>, flake: &'a str) -> (r: &'a str)
    ensures
        r == match repo_workdir {
            Some(w) => w,
            None => flake,
        },
{
    match repo_workdir {
        Some(w) => w,
        None => flake,
    }
}

/// The arguments `git` is run with to commit `path` on `flake` with
/// `message`: the file named as a pathspec rather than staged, so nothing else
/// sitting in the index goes in with it, and the repository's hooks skipped.
pub fn commit_arguments(flake: &str, message: &str, path: &str) -> (r: Vec<String>)
    ensures
        r.deep_view() == seq![
            "-C"@, flake@, "commit"@, "--message"@, message@, "--no-verify"@, "--"@, path@,
        ],
{
    let mut r: Vec<String> = Vec::new();
    r.push("-C".to_owned());
    r.push(flake.to_owned());
    r.push("commit".to_owned());
    r.push("--message".to_owned());
    r.push(message.to_owned());
    r.push("--no-verify".to_owned());
    r.push("--".to_owned());
    r.push(path.to_owned());
    proof {
        assert(r.deep_view() =~= seq![
            "-C"@, flake@, "commit"@, "--message"@, message@, "--no-verify"@, "--"@, path@,
        ]);
    }
    r
}

} // verus!
