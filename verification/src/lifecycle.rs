//! Workspace lifecycle decisions: which files an indexing pass must embed or
//! remove, which workspaces are stale, whether the vector index is due, and
//! whether a downloaded model directory is complete. The surrounding file
//! walking and store calls stay with the caller; these functions decide.

use vstd::prelude::*;
use vstd::string::*;

use crate::search::contains_string;
use crate::text::is_path_separator;

verus! {

/// An approximate vector index is built only once the table holds this many
/// rows; below it a full scan is both cheaper and exact.
pub const MIN_INDEX_ROWS: usize = 256;

/// Whether the table has grown enough for the approximate vector index.
pub fn vector_index_due(row_count: usize) -> (b: bool)
    ensures
        b == (row_count >= MIN_INDEX_ROWS),
{
    row_count >= MIN_INDEX_ROWS
}

/// The files of `from` that are absent from `others`, in order.
pub open spec fn files_missing_from(from: Seq<Seq<char>>, others: Seq<Seq<char>>) -> Seq<
    Seq<char>,
> {
    from.filter(|f: Seq<char>| !others.contains(f))
}

/// What one reconcile pass must do: delete the embedded rows of files that
/// left the directory, and embed the files that are new to it.
pub struct ReconcilePlan {
    /// Files whose rows must leave the table and the bookkeeping store.
    pub to_delete: Vec<String>,
    /// Files that must be embedded and ingested.
    pub to_embed: Vec<String>,
}

/// A filter whose predicate rejects every element yields the empty sequence.
proof fn lemma_filter_all_false<A>(s: Seq<A>, pred: spec_fn(A) -> bool)
    requires
        forall|i: int| 0 <= i < s.len() ==> !pred(#[trigger] s[i]),
    ensures
        s.filter(pred) =~= Seq::<A>::empty(),
    decreases s.len(),
{
    reveal(Seq::filter);
    if s.len() > 0 {
        let prefix = s.drop_last();
        assert forall|i: int| 0 <= i < prefix.len() implies !pred(#[trigger] prefix[i]) by {
            assert(prefix[i] == s[i]);
        }
        lemma_filter_all_false(prefix, pred);
    }
}

/// Reconciling a directory against itself plans no work: with no change on
/// disk since the recorded file set was written, nothing is deleted and
/// nothing is embedded.
pub proof fn lemma_reconcile_idempotent(files: Seq<Seq<char>>)
    ensures
        files_missing_from(files, files) =~= Seq::<Seq<char>>::empty(),
{
    lemma_filter_all_false(files, |f: Seq<char>| !files.contains(f));
}

/// One helper of [`reconcile_plan`]: the strings of `from` that are absent
/// from `others`, in order.
fn subtract_files(from: &Vec<String>, others: &Vec<String>) -> (r: Vec<String>)
    ensures
        r.deep_view() == files_missing_from(from.deep_view(), others.deep_view()),
{
    let ghost s = from.deep_view();
    let ghost o = others.deep_view();
    let ghost pred = |f: Seq<char>| !o.contains(f);
    let mut out: Vec<String> = Vec::new();
    let mut k: usize = 0;
    proof {
        vstd::std_specs::vec::axiom_spec_len(from);
        assert(s.len() == from@.len());
        reveal(Seq::filter);
        assert(out.deep_view() =~= s.subrange(0, 0).filter(pred));
    }
    while k < from.len()
        invariant
            k <= s.len(),
            s == from.deep_view(),
            o == others.deep_view(),
            s.len() == from@.len(),
            out.deep_view() == s.subrange(0, k as int).filter(pred),
            pred == (|f: Seq<char>| !o.contains(f)),
        decreases s.len() - k,
    {
        let absent = !contains_string(others, &from[k]);
        proof {
            assert(from@[k as int]@ == s[k as int]);
            reveal(Seq::filter);
            assert(s.subrange(0, k + 1).drop_last() =~= s.subrange(0, k as int));
            assert(s.subrange(0, k + 1).last() == s[k as int]);
            assert(absent == pred(s[k as int]));
        }
        if absent {
            out.push(from[k].clone());
            proof {
                assert(out.deep_view() =~= s.subrange(0, k as int).filter(pred).push(
                    s[k as int],
                ));
            }
        }
        k = k + 1;
    }
    proof {
        assert(s.subrange(0, s.len() as int) =~= s);
    }
    out
}

/// Diffs the directory's current files against the recorded embedded files:
/// recorded files gone from the directory are deleted, directory files not
/// yet recorded are embedded. Running the plan and recording `current_files`
/// leaves a second pass with nothing to do.
pub fn reconcile_plan(current_files: &Vec<String>, embedded_files: &Vec<String>) -> (p:
    ReconcilePlan)
    ensures
        p.to_delete.deep_view() == files_missing_from(
            embedded_files.deep_view(),
            current_files.deep_view(),
        ),
        p.to_embed.deep_view() == files_missing_from(
            current_files.deep_view(),
            embedded_files.deep_view(),
        ),
{
    ReconcilePlan {
        to_delete: subtract_files(embedded_files, current_files),
        to_embed: subtract_files(current_files, embedded_files),
    }
}

/// Index of the first character after the last `.` of the path's final
/// component; `-1` where that component holds no dot.
pub open spec fn extension_start(s: Seq<char>) -> int
    decreases s.len(),
{
    if s.len() == 0 {
        -1
    } else if s.last() == '.' {
        s.len() as int
    } else if is_path_separator(s.last()) {
        -1
    } else {
        extension_start(s.drop_last())
    }
}

/// The extension of the path's final component: the characters after its
/// last dot, or nothing where it has no dot.
pub open spec fn extension_of(s: Seq<char>) -> Option<Seq<char>> {
    if extension_start(s) == -1 {
        None
    } else {
        Some(s.subrange(extension_start(s), s.len() as int))
    }
}

/// The file's extension stands in the allow-list.
pub open spec fn extension_allowed(s: Seq<char>, allowed: Seq<Seq<char>>) -> bool {
    match extension_of(s) {
        Some(e) => allowed.contains(e),
        None => false,
    }
}

/// The files whose extension stands in the allow-list, in order.
pub open spec fn allowed_files(files: Seq<Seq<char>>, allowed: Seq<Seq<char>>) -> Seq<Seq<char>> {
    files.filter(|f: Seq<char>| extension_allowed(f, allowed))
}

/// Cuts the extension out of one path.
fn extension(s: &str) -> (r: Option<String>)
    ensures
        match r {
            Some(e) => extension_of(s@) == Some(e@),
            None => extension_of(s@) == None::<Seq<char>>,
        },
{
    let n = s.unicode_len();
    let mut start: usize = 0;
    let mut has_dot = false;
    let mut i: usize = 0;
    while i < n
        invariant
            n == s@.len(),
            i <= n,
            has_dot ==> start as int == extension_start(s@.subrange(0, i as int)) && start <= i,
            !has_dot ==> extension_start(s@.subrange(0, i as int)) == -1,
        decreases n - i,
    {
        let c = s.get_char(i);
        proof {
            assert(s@.subrange(0, i + 1).drop_last() =~= s@.subrange(0, i as int));
            assert(s@.subrange(0, i + 1).last() == s@[i as int]);
        }
        if c == '.' {
            start = i + 1;
            has_dot = true;
        } else if c == '/' || c == '\\' {
            has_dot = false;
        }
        i = i + 1;
    }
    proof {
        assert(s@.subrange(0, n as int) =~= s@);
    }
    if has_dot {
        let e = s.substring_char(start, n);
        Some(String::from_str(e))
    } else {
        None
    }
}

/// Keeps the files whose extension stands in the allow-list, in order: the
/// extension allow-list an indexing pass applies to a directory listing.
pub fn filter_by_extension(files: &Vec<String>, allowed: &Vec<String>) -> (r: Vec<String>)
    ensures
        r.deep_view() == allowed_files(files.deep_view(), allowed.deep_view()),
{
    let ghost s = files.deep_view();
    let ghost a = allowed.deep_view();
    let ghost pred = |f: Seq<char>| extension_allowed(f, a);
    let mut out: Vec<String> = Vec::new();
    let mut k: usize = 0;
    proof {
        vstd::std_specs::vec::axiom_spec_len(files);
        assert(s.len() == files@.len());
        reveal(Seq::filter);
        assert(out.deep_view() =~= s.subrange(0, 0).filter(pred));
    }
    while k < files.len()
        invariant
            k <= s.len(),
            s == files.deep_view(),
            a == allowed.deep_view(),
            s.len() == files@.len(),
            out.deep_view() == s.subrange(0, k as int).filter(pred),
            pred == (|f: Seq<char>| extension_allowed(f, a)),
        decreases s.len() - k,
    {
        let ext = extension(files[k].as_str());
        let keep = match ext {
            Some(e) => contains_string(allowed, &e),
            None => false,
        };
        proof {
            assert(files@[k as int]@ == s[k as int]);
            reveal(Seq::filter);
            assert(s.subrange(0, k + 1).drop_last() =~= s.subrange(0, k as int));
            assert(s.subrange(0, k + 1).last() == s[k as int]);
            assert(keep == pred(s[k as int]));
        }
        if keep {
            out.push(files[k].clone());
            proof {
                assert(out.deep_view() =~= s.subrange(0, k as int).filter(pred).push(
                    s[k as int],
                ));
            }
        }
        k = k + 1;
    }
    proof {
        assert(s.subrange(0, s.len() as int) =~= s);
    }
    out
}

/// The names of the workspaces whose root directory no longer exists, in
/// order: those a startup pass removes from both stores.
pub open spec fn stale_names(names: Seq<Seq<char>>, alive: Seq<bool>) -> Seq<Seq<char>>
    decreases names.len(),
{
    if names.len() == 0 || names.len() != alive.len() {
        Seq::empty()
    } else {
        let prefix = stale_names(names.drop_last(), alive.drop_last());
        if alive.last() {
            prefix
        } else {
            prefix.push(names.last())
        }
    }
}

/// Picks the workspaces to clean up: each name whose root path was found
/// missing. `alive[k]` says whether the directory of `names[k]` still exists.
pub fn workspaces_to_clean(names: &Vec<String>, alive: &Vec<bool>) -> (r: Vec<String>)
    requires
        names@.len() == alive@.len(),
    ensures
        r.deep_view() == stale_names(names.deep_view(), alive@),
{
    let ghost s = names.deep_view();
    let mut out: Vec<String> = Vec::new();
    let mut k: usize = 0;
    proof {
        vstd::std_specs::vec::axiom_spec_len(names);
        assert(s.len() == names@.len());
        assert(out.deep_view() =~= stale_names(s.subrange(0, 0), alive@.subrange(0, 0)));
    }
    while k < names.len()
        invariant
            k <= s.len(),
            s == names.deep_view(),
            s.len() == names@.len(),
            names@.len() == alive@.len(),
            out.deep_view() == stale_names(s.subrange(0, k as int), alive@.subrange(0, k as int)),
        decreases s.len() - k,
    {
        proof {
            assert(names@[k as int]@ == s[k as int]);
            assert(s.subrange(0, k + 1).drop_last() =~= s.subrange(0, k as int));
            assert(alive@.subrange(0, k + 1).drop_last() =~= alive@.subrange(0, k as int));
            assert(s.subrange(0, k + 1).last() == s[k as int]);
            assert(alive@.subrange(0, k + 1).last() == alive@[k as int]);
        }
        if !alive[k] {
            out.push(names[k].clone());
            proof {
                assert(out.deep_view() =~= stale_names(
                    s.subrange(0, k as int),
                    alive@.subrange(0, k as int),
                ).push(s[k as int]));
            }
        }
        k = k + 1;
    }
    proof {
        assert(s.subrange(0, s.len() as int) =~= s);
        assert(alive@.subrange(0, alive@.len() as int) =~= alive@);
    }
    out
}

/// What a caller found on disk about one downloaded model directory.
#[derive(Debug, Clone, Copy, PartialEq, Eq, Structural)]
pub struct ModelDirProbe {
    /// The model directory itself exists.
    pub path_exists: bool,
    /// Its `blobs` directory exists.
    pub has_blobs: bool,
    /// Its `refs` directory exists.
    pub has_refs: bool,
    /// Its `snapshots` directory exists.
    pub has_snapshots: bool,
    /// Its `refs/main` pointer file exists.
    pub has_main_pointer: bool,
}

/// A model directory is complete when it exists with all three required
/// directories and the `refs/main` pointer file.
pub open spec fn model_valid(p: ModelDirProbe) -> bool {
    p.path_exists && p.has_blobs && p.has_refs && p.has_snapshots && p.has_main_pointer
}

/// Check if the model appears to be completely downloaded.
pub fn is_model_valid(probe: &ModelDirProbe) -> (b: bool)
    ensures
        b == model_valid(*probe),
{
    probe.path_exists && probe.has_blobs && probe.has_refs && probe.has_snapshots
        && probe.has_main_pointer
}

} // verus!
