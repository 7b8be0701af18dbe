//! The existing-entry enumerator: given the current listing of the watched
//! directory, yield the path of every entry that is a regular file and whose
//! name matches the selector, in listing order. Reading the directory is the
//! caller's I/O; the decision which entries to yield is made and proved here.

use vstd::prelude::*;
use crate::selector::{Selector, name_matches, join_path, join, lemma_join_path_injective};

verus! {

/// What the enumerator reads of one directory entry: its name (relative to
/// the watched directory) and whether it is a regular file. An entry whose
/// type could not be determined is reported as not regular, so it is
/// silently skipped rather than failing the enumeration.
pub struct EntryInfo {
    pub name: Vec<u8>,
    pub is_regular: bool,
}

/// The mathematical image of one directory entry.
pub struct EntryModel {
    pub name: Seq<u8>,
    pub is_regular: bool,
}

impl View for EntryInfo {
    type V = EntryModel;

    open spec fn view(&self) -> EntryModel {
        EntryModel { name: self.name@, is_regular: self.is_regular }
    }
}

/// What one entry contributes to the output: its joined path when it is a
/// regular file with a matching name, nothing otherwise.
pub open spec fn entry_yields(ext: Seq<u8>, dir: Seq<u8>, e: EntryModel) -> Option<Seq<u8>> {
    if e.is_regular && name_matches(ext, e.name) {
        Some(join_path(dir, e.name))
    } else {
        None
    }
}

/// The whole output of the enumerator on a listing, in listing order.
pub open spec fn enum_outputs(ext: Seq<u8>, dir: Seq<u8>, entries: Seq<EntryModel>) -> Seq<Seq<u8>>
    decreases entries.len(),
{
    if entries.len() == 0 {
        Seq::empty()
    } else {
        let rest = enum_outputs(ext, dir, entries.drop_last());
        match entry_yields(ext, dir, entries.last()) {
            Some(p) => rest.push(p),
            None => rest,
        }
    }
}

/// How many entries of the listing are regular files with a matching name.
pub open spec fn matching_count(ext: Seq<u8>, dir: Seq<u8>, entries: Seq<EntryModel>) -> nat
    decreases entries.len(),
{
    if entries.len() == 0 {
        0
    } else {
        matching_count(ext, dir, entries.drop_last())
            + if entry_yields(ext, dir, entries.last()) is Some { 1nat } else { 0nat }
    }
}

/// The entries of a real directory listing bear pairwise distinct names.
pub open spec fn distinct_names(entries: Seq<EntryModel>) -> bool {
    forall|i: int, j: int|
        0 <= i < j < entries.len() ==> entries[i].name != entries[j].name
}

/// The view of a vector of paths, byte sequence by byte sequence.
pub open spec fn paths_view(v: Seq<Vec<u8>>) -> Seq<Seq<u8>> {
    v.map_values(|p: Vec<u8>| p@)
}

/// The view of a vector of directory entries.
pub open spec fn entries_view(v: Seq<EntryInfo>) -> Seq<EntryModel> {
    v.map_values(|e: EntryInfo| e@)
}

impl EntryInfo {
    /// The enumerator's per-entry decision: the joined path of a regular
    /// file with a matching name, and nothing for every other entry.
    pub fn candidate(&self, sel: &Selector, dir: &Vec<u8>) -> (r: Option<Vec<u8>>)
        ensures
            match r {
                Some(p) => entry_yields(sel@, dir@, self@) == Some(p@),
                None => entry_yields(sel@, dir@, self@) is None,
            },
    {
        if self.is_regular && sel.matches(&self.name) {
            Some(join(dir, &self.name))
        } else {
            None
        }
    }
}

/// One pass over a directory listing: the path of every regular file whose
/// name matches the selector, in listing order.
pub fn enumerate_matches(sel: &Selector, dir: &Vec<u8>, entries: &Vec<EntryInfo>) -> (r: Vec<
    Vec<u8>,
>)
    ensures
        paths_view(r@) == enum_outputs(sel@, dir@, entries_view(entries@)),
{
    let mut out: Vec<Vec<u8>> = Vec::new();
    let mut i: usize = 0;
    while i < entries.len()
        invariant
            0 <= i <= entries.len(),
            paths_view(out@) == enum_outputs(sel@, dir@, entries_view(entries@.take(i as int))),
        decreases entries.len() - i,
    {
        proof {
            let pre = entries_view(entries@.take(i as int));
            let cur = entries_view(entries@.take(i + 1));
            assert(cur.drop_last() =~= pre);
            assert(cur.last() == entries@[i as int]@);
        }
        match entries[i].candidate(sel, dir) {
            Some(p) => {
                out.push(p);
                proof {
                    assert(paths_view(out@) =~= paths_view(out@.drop_last()).push(
                        out@.last()@,
                    ));
                }
            },
            None => {},
        }
        i = i + 1;
    }
    proof {
        assert(entries@.take(entries@.len() as int) =~= entries@);
    }
    out
}

/// A path is in the enumerator's output exactly when some entry of the
/// listing yields it.
pub proof fn lemma_enum_outputs_membership(
    ext: Seq<u8>,
    dir: Seq<u8>,
    entries: Seq<EntryModel>,
    p: Seq<u8>,
)
    ensures
        enum_outputs(ext, dir, entries).contains(p) <==> exists|i: int|
            0 <= i < entries.len() && entry_yields(ext, dir, entries[i]) == Some(p),
    decreases entries.len(),
{
    if entries.len() == 0 {
    } else {
        let front = entries.drop_last();
        let last = entries.last();
        lemma_enum_outputs_membership(ext, dir, front, p);
        let rest = enum_outputs(ext, dir, front);
        let all = enum_outputs(ext, dir, entries);
        if all.contains(p) {
            let k = choose|k: int| 0 <= k < all.len() && all[k] == p;
            match entry_yields(ext, dir, last) {
                Some(q) => {
                    assert(all == rest.push(q));
                    if k < rest.len() {
                        assert(rest[k] == p);
                        assert(rest.contains(p));
                        let i = choose|i: int|
                            0 <= i < front.len() && entry_yields(ext, dir, front[i]) == Some(p);
                        assert(entries[i] == front[i]);
                        assert(entry_yields(ext, dir, entries[i]) == Some(p));
                    } else {
                        assert(p == q);
                        assert(entry_yields(ext, dir, entries[entries.len() - 1]) == Some(p));
                    }
                },
                None => {
                    assert(all == rest);
                    assert(rest.contains(p));
                    let i = choose|i: int|
                        0 <= i < front.len() && entry_yields(ext, dir, front[i]) == Some(p);
                    assert(entries[i] == front[i]);
                    assert(entry_yields(ext, dir, entries[i]) == Some(p));
                },
            }
        }
        if exists|i: int| 0 <= i < entries.len() && entry_yields(ext, dir, entries[i]) == Some(p) {
            let i = choose|i: int|
                0 <= i < entries.len() && entry_yields(ext, dir, entries[i]) == Some(p);
            if i == entries.len() - 1 {
                assert(entry_yields(ext, dir, last) == Some(p));
                assert(all == rest.push(p));
                assert(all[all.len() - 1] == p);
                assert(all.contains(p));
            } else {
                assert(front[i] == entries[i]);
                assert(entry_yields(ext, dir, front[i]) == Some(p));
                assert(rest.contains(p));
                let k = choose|k: int| 0 <= k < rest.len() && rest[k] == p;
                match entry_yields(ext, dir, last) {
                    Some(q) => {
                        assert(all == rest.push(q));
                        assert(all[k] == p);
                    },
                    None => {
                        assert(all == rest);
                        assert(all[k] == p);
                    },
                }
                assert(all.contains(p));
            }
        }
    }
}

/// Some entry of the listing is a regular file with a matching name whose
/// joined path is `p`.
pub open spec fn output_justified(
    ext: Seq<u8>,
    dir: Seq<u8>,
    entries: Seq<EntryModel>,
    p: Seq<u8>,
) -> bool {
    exists|i: int|
        0 <= i < entries.len() && entries[i].is_regular && name_matches(ext, entries[i].name) && p
            == join_path(dir, entries[i].name)
}

/// On a listing with `N` matching regular files, the enumerator yields
/// exactly `N` paths, and each one is the joined path of an entry that is a
/// regular file with a matching name.
pub proof fn lemma_enumerator_exact(ext: Seq<u8>, dir: Seq<u8>, entries: Seq<EntryModel>)
    ensures
        enum_outputs(ext, dir, entries).len() == matching_count(ext, dir, entries),
        forall|j: int|
            0 <= j < enum_outputs(ext, dir, entries).len() ==> output_justified(
                ext,
                dir,
                entries,
                #[trigger] enum_outputs(ext, dir, entries)[j],
            ),
{
    lemma_enum_outputs_len(ext, dir, entries);
    let all = enum_outputs(ext, dir, entries);
    assert forall|j: int| 0 <= j < all.len() implies output_justified(
        ext,
        dir,
        entries,
        #[trigger] all[j],
    ) by {
        assert(all.contains(all[j]));
        lemma_enum_outputs_membership(ext, dir, entries, all[j]);
        let i = choose|i: int|
            0 <= i < entries.len() && entry_yields(ext, dir, entries[i]) == Some(all[j]);
        assert(entries[i].is_regular && name_matches(ext, entries[i].name) && all[j] == join_path(
            dir,
            entries[i].name,
        ));
    }
}

/// The enumerator yields one path per matching entry.
pub proof fn lemma_enum_outputs_len(ext: Seq<u8>, dir: Seq<u8>, entries: Seq<EntryModel>)
    ensures
        enum_outputs(ext, dir, entries).len() == matching_count(ext, dir, entries),
    decreases entries.len(),
{
    if entries.len() == 0 {
    } else {
        lemma_enum_outputs_len(ext, dir, entries.drop_last());
    }
}

/// An entry that is not a regular file never contributes its path, even when
/// its name matches the selector.
pub proof fn lemma_non_regular_never_yielded(
    ext: Seq<u8>,
    dir: Seq<u8>,
    entries: Seq<EntryModel>,
    i: int,
)
    requires
        0 <= i < entries.len(),
        !entries[i].is_regular,
        distinct_names(entries),
    ensures
        !enum_outputs(ext, dir, entries).contains(join_path(dir, entries[i].name)),
{
    let p = join_path(dir, entries[i].name);
    lemma_enum_outputs_membership(ext, dir, entries, p);
    if enum_outputs(ext, dir, entries).contains(p) {
        let k = choose|k: int|
            0 <= k < entries.len() && entry_yields(ext, dir, entries[k]) == Some(p);
        assert(entries[k].is_regular);
        assert(join_path(dir, entries[k].name) == join_path(dir, entries[i].name));
        lemma_join_path_injective(dir, entries[k].name, entries[i].name);
        assert(entries[k].name == entries[i].name);
        assert(k != i);
        assert(false);
    }
}

/// On a listing whose entries bear distinct names — as every real directory
/// listing does — the enumerator yields no path twice.
pub proof fn lemma_enumerator_no_duplicates(ext: Seq<u8>, dir: Seq<u8>, entries: Seq<EntryModel>)
    requires
        distinct_names(entries),
    ensures
        forall|a: int, b: int|
            0 <= a < b < enum_outputs(ext, dir, entries).len() ==> enum_outputs(
                ext,
                dir,
                entries,
            )[a] != enum_outputs(ext, dir, entries)[b],
    decreases entries.len(),
{
    if entries.len() == 0 {
    } else {
        let front = entries.drop_last();
        let last = entries.last();
        assert(distinct_names(front)) by {
            assert forall|x: int, y: int| 0 <= x < y < front.len() implies front[x].name
                != front[y].name by {
                assert(front[x] == entries[x] && front[y] == entries[y]);
            }
        }
        lemma_enumerator_no_duplicates(ext, dir, front);
        let rest = enum_outputs(ext, dir, front);
        let all = enum_outputs(ext, dir, entries);
        match entry_yields(ext, dir, last) {
            Some(q) => {
                assert(all == rest.push(q));
                assert(!rest.contains(q)) by {
                    lemma_enum_outputs_membership(ext, dir, front, q);
                    if rest.contains(q) {
                        let i = choose|i: int|
                            0 <= i < front.len() && entry_yields(ext, dir, front[i]) == Some(q);
                        assert(join_path(dir, front[i].name) == join_path(dir, last.name));
                        lemma_join_path_injective(dir, front[i].name, last.name);
                        assert(entries[i].name == entries[entries.len() - 1].name);
                        assert(false);
                    }
                }
                assert forall|a: int, b: int| 0 <= a < b < all.len() implies all[a]
                    != all[b] by {
                    if b < rest.len() {
                        assert(all[a] == rest[a] && all[b] == rest[b]);
                    } else {
                        assert(all[b] == q);
                        assert(all[a] == rest[a]);
                        if rest[a] == q {
                            assert(rest.contains(q));
                        }
                    }
                }
            },
            None => {
                assert(all == rest);
            },
        }
    }
}

/// Two listings of the same entries — two passes over an unchanged
/// directory, in whatever order each pass returns them — yield the same set
/// of paths.
pub proof fn lemma_enumerator_set_stable(
    ext: Seq<u8>,
    dir: Seq<u8>,
    e1: Seq<EntryModel>,
    e2: Seq<EntryModel>,
)
    requires
        e1.to_multiset() == e2.to_multiset(),
    ensures
        enum_outputs(ext, dir, e1).to_set() == enum_outputs(ext, dir, e2).to_set(),
{
    broadcast use vstd::seq_lib::group_to_multiset_ensures;

    e1.to_multiset_ensures();
    e2.to_multiset_ensures();
    assert forall|entry: EntryModel| e1.contains(entry) <==> e2.contains(entry) by {
        assert(e1.contains(entry) <==> e1.to_multiset().count(entry) > 0);
        assert(e2.contains(entry) <==> e2.to_multiset().count(entry) > 0);
    }
    assert forall|p: Seq<u8>| enum_outputs(ext, dir, e1).contains(p) <==> enum_outputs(
        ext,
        dir,
        e2,
    ).contains(p) by {
        lemma_enum_outputs_membership(ext, dir, e1, p);
        lemma_enum_outputs_membership(ext, dir, e2, p);
        if exists|i: int| 0 <= i < e1.len() && entry_yields(ext, dir, e1[i]) == Some(p) {
            let i = choose|i: int| 0 <= i < e1.len() && entry_yields(ext, dir, e1[i]) == Some(p);
            assert(e1.contains(e1[i]));
            assert(e2.contains(e1[i]));
            let k = choose|k: int| 0 <= k < e2.len() && e2[k] == e1[i];
            assert(entry_yields(ext, dir, e2[k]) == Some(p));
        }
        if exists|i: int| 0 <= i < e2.len() && entry_yields(ext, dir, e2[i]) == Some(p) {
            let i = choose|i: int| 0 <= i < e2.len() && entry_yields(ext, dir, e2[i]) == Some(p);
            assert(e2.contains(e2[i]));
            assert(e1.contains(e2[i]));
            let k = choose|k: int| 0 <= k < e1.len() && e1[k] == e2[i];
            assert(entry_yields(ext, dir, e1[k]) == Some(p));
        }
    }
    assert(enum_outputs(ext, dir, e1).to_set() =~= enum_outputs(ext, dir, e2).to_set());
}

} // verus!
