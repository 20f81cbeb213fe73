//! Saving a manifest: normalization, and what must exist on disk before the
//! document is written.
use crate::codec::{document_text, encode_syncfile, ManifestError};
use crate::manifest::{backfilled, cache_path_of, entries_view, strings_view, EntryModel, Syncfile};
use vstd::prelude::*;
use vstd::string::StringExecFns;

verus! {

/// Saving a manifest that has pairs and no cache directories gives every
/// pair the cache directory `<source>/cache`.
pub proof fn lemma_save_fills_every_pair(before: Syncfile, after: Syncfile)
    requires
        before.wf(),
        before.cache_seq().len() == 0,
        backfilled(before, after),
    ensures
        forall|k: Seq<char>|
            #[trigger] before.pairs_map().contains_key(k) ==> after.cache_map().contains_key(k)
                && after.cache_map()[k] == cache_path_of(before.pairs_map()[k]),
{
    assert(before.cache_map() == Map::<Seq<char>, Seq<char>>::empty());
}

/// Saving never changes the cache directory that a pair already has.
pub proof fn lemma_save_keeps_cache_dirs(before: Syncfile, after: Syncfile, k: Seq<char>)
    requires
        before.wf(),
        backfilled(before, after),
        before.cache_map().contains_key(k),
    ensures
        after.cache_map().contains_key(k),
        after.cache_map()[k] == before.cache_map()[k],
{
}

/// The paths of a table, in entry order.
pub open spec fn paths_of(s: Seq<EntryModel>) -> Seq<Seq<char>> {
    s.map_values(|e: EntryModel| e.1)
}

/// What saving a manifest asks of the file system, in order: each source
/// directory is created, parents included, where no directory exists; each
/// cache path where nothing exists gets a file holding `placeholder`; then
/// `document` is written to the destination.
#[derive(Debug, PartialEq, Eq)]
pub struct SavePlan {
    pub source_dirs: Vec<String>,
    pub cache_files: Vec<String>,
    pub placeholder: String,
    pub document: String,
}

/// The paths of the table `v`, in entry order.
fn paths(v: &Vec<(String, String)>) -> (r: Vec<String>)
    ensures
        strings_view(r@) == paths_of(entries_view(v@)),
{
    let mut out: Vec<String> = Vec::new();
    let mut i: usize = 0;
    while i < v.len()
        invariant
            i <= v@.len(),
            strings_view(out@) == paths_of(entries_view(v@)).take(i as int),
        decreases v@.len() - i,
    {
        let ghost before = out@;
        let path = v[i].1.clone();
        let ghost q = path@;
        assert(q == entries_view(v@)[i as int].1);
        out.push(path);
        proof {
            assert(strings_view(out@) =~= strings_view(before).push(q));
            assert(paths_of(entries_view(v@)).take(i + 1) =~= paths_of(entries_view(v@)).take(i as int).push(q));
        }
        i = i + 1;
    }
    proof {
        assert(paths_of(entries_view(v@)).take(v@.len() as int) =~= paths_of(entries_view(v@)));
    }
    out
}

/// Normalizes the manifest for saving and lays out the rest of the save:
/// the directories and placeholder files to materialize and the document
/// to persist.
pub fn write_syncfile(syncfile: &mut Syncfile) -> (r: Result<SavePlan, ManifestError>)
    requires
        old(syncfile).wf(),
    ensures
        backfilled(*old(syncfile), *final(syncfile)),
        r is Ok,
        r matches Ok(plan) ==> strings_view(plan.source_dirs@) == paths_of(final(syncfile).pairs_seq()),
        r matches Ok(plan) ==> strings_view(plan.cache_files@) == paths_of(final(syncfile).cache_seq()),
        r matches Ok(plan) ==> plan.placeholder@ == seq!['{', '}'],
        r matches Ok(plan) ==> plan.document@ == document_text(*final(syncfile)),
{
    syncfile.backfill_cache_dirs();
    let source_dirs = paths(&syncfile.st_pairs);
    let cache_files = paths(&syncfile.cache_dirs);
    let placeholder = String::from_str("{}");
    proof {
        reveal_strlit("{}");
    }
    let document = encode_syncfile(syncfile)?;
    Ok(SavePlan { source_dirs, cache_files, placeholder, document })
}

} // verus!
