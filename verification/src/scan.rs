//! Turning scanned paths into a flat, de-duplicated list of entries. The application
//! walks the filesystem and reads metadata; this module decides what each path becomes
//! and which paths make it into the list.

use vstd::prelude::*;

use crate::engine::{split_name, split_name_spec};
use crate::text::{copy_str, str_eq};
use crate::types::FileEntry;

verus! {

/// The entry for a path, given what the filesystem said about it.
pub open spec fn entry_matches(
    e: FileEntry,
    path: Seq<char>,
    file_name: Seq<char>,
    parent: Option<Seq<char>>,
    is_dir: bool,
    len: u64,
    modified: Option<i64>,
) -> bool {
    &&& e.id@ == path
    &&& e.path@ == path
    &&& e.parent_dir@ == match parent {
        Some(p) => p,
        None => seq![],
    }
    &&& (e.stem@, e.ext@) == if is_dir {
        (file_name, seq![])
    } else {
        split_name_spec(file_name)
    }
    &&& e.is_dir == is_dir
    &&& e.size == if is_dir {
        0
    } else {
        len
    }
    &&& e.modified == modified
}

/// The entry for the path `path` with final component `file_name` in directory `parent`
/// (none for a root); its id is its path, a directory keeps its whole name as its stem and
/// counts as empty, and `modified` is in unix seconds.
pub fn entry_from_parts(
    path: &str,
    file_name: &str,
    parent: Option<String>,
    is_dir: bool,
    len: u64,
    modified: Option<i64>,
) -> (r: FileEntry)
    ensures
        entry_matches(
            r,
            path@,
            file_name@,
            match parent {
                Some(p) => Some(p@),
                None => None,
            },
            is_dir,
            len,
            modified,
        ),
{
    let parent_dir = match parent {
        Some(p) => p,
        None => String::new(),
    };
    let (stem, ext) = if is_dir {
        (copy_str(file_name), String::new())
    } else {
        split_name(file_name)
    };
    FileEntry {
        id: copy_str(path),
        path: copy_str(path),
        parent_dir,
        stem,
        ext,
        is_dir,
        size: if is_dir {
            0
        } else {
            len
        },
        modified,
    }
}

/// A path met while scanning, by its key (the path as a string), with its entry when its
/// metadata could be read.
pub struct ScanCandidate {
    pub key: String,
    pub entry: Option<FileEntry>,
}

pub open spec fn keys_of(c: Seq<ScanCandidate>) -> Seq<Seq<char>> {
    c.map_values(|x: ScanCandidate| x.key@)
}

/// The entries a scan lists: each path the first time it is met, when its metadata could be
/// read, and directories only when they are asked for.
pub open spec fn scan_spec(c: Seq<ScanCandidate>, include_dirs: bool) -> Seq<FileEntry>
    decreases c.len(),
{
    if c.len() == 0 {
        seq![]
    } else {
        let rest = scan_spec(c.drop_last(), include_dirs);
        let x = c.last();
        if !keys_of(c.drop_last()).contains(x.key@) && x.entry is Some && (!x.entry->0.is_dir
            || include_dirs) {
            rest.push(x.entry->0)
        } else {
            rest
        }
    }
}

fn seen_before(keys: &Vec<String>, key: &str) -> (r: bool)
    ensures
        r == keys@.map_values(|s: String| s@).contains(key@),
{
    let ghost kv = keys@.map_values(|s: String| s@);
    let mut i: usize = 0;
    while i < keys.len()
        invariant
            i <= keys.len(),
            kv == keys@.map_values(|s: String| s@),
            forall|k: int| 0 <= k < i ==> kv[k] != key@,
        decreases keys.len() - i,
    {
        if str_eq(keys[i].as_str(), key) {
            assert(kv[i as int] == key@);
            return true;
        }
        i = i + 1;
    }
    false
}

/// The entries of a scan, from the paths in the order they were met.
pub fn collect_scan(candidates: Vec<ScanCandidate>, include_dirs: bool) -> (r: Vec<FileEntry>)
    ensures
        r@ == scan_spec(candidates@, include_dirs),
{
    let ghost all = candidates@;
    let mut rest = candidates;
    let mut seen: Vec<String> = Vec::new();
    let mut out: Vec<FileEntry> = Vec::new();
    let mut i: usize = 0;
    assert(all.len() == rest.len());
    while rest.len() > 0
        invariant
            rest@ == all.skip(i as int),
            i + rest.len() == all.len(),
            all.len() <= usize::MAX,
            seen@.map_values(|s: String| s@) == keys_of(all.take(i as int)),
            out@ == scan_spec(all.take(i as int), include_dirs),
        decreases rest.len(),
    {
        let x = rest.remove(0);
        proof {
            assert(x == all[i as int]);
            assert(rest@ =~= all.skip(i + 1));
            assert(all.take(i + 1).drop_last() =~= all.take(i as int));
            assert(all.take(i + 1).last() == x);
        }
        let dup = seen_before(&seen, x.key.as_str());
        let ghost s0 = seen@;
        seen.push(copy_str(x.key.as_str()));
        proof {
            assert(seen@.map_values(|s: String| s@) =~= s0.map_values(|s: String| s@).push(x.key@));
            assert(keys_of(all.take(i + 1)) =~= keys_of(all.take(i as int)).push(x.key@));
        }
        if !dup {
            match x.entry {
                Some(e) => {
                    if !e.is_dir || include_dirs {
                        out.push(e);
                    }
                },
                None => {},
            }
        }
        i = i + 1;
    }
    assert(all.take(i as int) =~= all);
    out
}

/// When every candidate's entry has its key as id, a scan lists each id at most once.
pub proof fn lemma_scan_ids_distinct(c: Seq<ScanCandidate>, include_dirs: bool)
    requires
        forall|k: int|
            0 <= k < c.len() && (#[trigger] c[k]).entry is Some ==> c[k].entry->0.id@ == c[k].key@,
    ensures
        forall|i: int, j: int|
            0 <= i < j < scan_spec(c, include_dirs).len() ==> (#[trigger] scan_spec(
                c,
                include_dirs,
            )[i]).id@ != (#[trigger] scan_spec(c, include_dirs)[j]).id@,
        forall|i: int|
            0 <= i < scan_spec(c, include_dirs).len() ==> keys_of(c).contains(
                #[trigger] scan_spec(c, include_dirs)[i].id@,
            ),
    decreases c.len(),
{
    if c.len() > 0 {
        let init = c.drop_last();
        assert forall|k: int| 0 <= k < init.len() && (#[trigger] init[k]).entry is Some implies init[k].entry->0.id@
            == init[k].key@ by {
            assert(init[k] == c[k]);
        }
        lemma_scan_ids_distinct(init, include_dirs);
        let rest = scan_spec(init, include_dirs);
        let out = scan_spec(c, include_dirs);
        let x = c.last();
        assert(c[c.len() - 1] == x);
        assert forall|i: int| 0 <= i < out.len() implies keys_of(c).contains(#[trigger] out[i].id@) by {
            if i < rest.len() {
                assert(out[i] == rest[i]);
                let k = choose|k: int| 0 <= k < init.len() && keys_of(init)[k] == rest[i].id@;
                assert(keys_of(c)[k] == keys_of(init)[k]);
            } else {
                assert(keys_of(c)[c.len() - 1] == x.key@);
            }
        }
        assert forall|i: int, j: int| 0 <= i < j < out.len() implies (#[trigger] out[i]).id@
            != (#[trigger] out[j]).id@ by {
            if j < rest.len() {
                assert(out[i] == rest[i]);
                assert(out[j] == rest[j]);
            } else {
                assert(out[i] == rest[i]);
                assert(keys_of(init).contains(rest[i].id@));
            }
        }
    }
}

} // verus!
