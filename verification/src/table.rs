//! The files that a client describes, keyed by path and kept in path order.
//!
//! A later description of a path replaces the file of an earlier one but
//! keeps the text under which the path was first seen; walking the table
//! gives each path once, in path order.
//!
//! The files are kept in a `Vec` sorted by their paths' components (see
//! `paths`), one entry per path; the table's view is the map from each path's
//! components to its first text and latest file, and its invariant is that
//! the entries are strictly in path order and keyed by their texts.

use vstd::prelude::*;

use crate::paths::{
    compare_keys, key_lt, key_order, lemma_key_lt_irreflexive, lemma_key_lt_transitive,
    lemma_key_order_strict_total,
    path_components, path_key, PathKey, PathOrder,
};
use crate::proto::File;

verus! {

/// A path's components, the text under which it was first seen, and its file.
pub type Listing = Seq<(PathKey, Seq<char>, File)>;

/// Each key comes strictly before every later one.
pub open spec fn strictly_sorted(l: Listing) -> bool {
    forall|i: int, j: int| #![trigger l[i], l[j]] 0 <= i < j < l.len() ==> key_lt(l[i].0, l[j].0)
}

/// Each key is the components of the text beside it.
pub open spec fn keyed_by_text(l: Listing) -> bool {
    forall|i: int| 0 <= i < l.len() ==> #[trigger] l[i].0 == path_components(l[i].1)
}

/// The map from each key of a listing to its text and file.
pub open spec fn listing_map(l: Listing) -> Map<PathKey, (Seq<char>, File)> {
    Map::new(
        |k: PathKey| exists|i: int| 0 <= i < l.len() && #[trigger] l[i].0 == k,
        |k: PathKey|
            {
                let i = choose|i: int| 0 <= i < l.len() && #[trigger] l[i].0 == k;
                (l[i].1, l[i].2)
            },
    )
}

/// Each text in the map is one whose components are its key.
pub open spec fn texts_match_keys(m: Map<PathKey, (Seq<char>, File)>) -> bool {
    forall|k: PathKey| #[trigger] m.contains_key(k) ==> path_components(m[k].0) == k
}

/// The map after recording `file`: a path not yet present is added with the
/// file's text; a present one keeps its text and takes the new file.
pub open spec fn with_file(m: Map<PathKey, (Seq<char>, File)>, file: File) -> Map<PathKey, (Seq<char>, File)> {
    let k = path_components(file.path@);
    m.insert(k, (if m.contains_key(k) { m[k].0 } else { file.path@ }, file))
}

/// `out` lists the map's entries, each once, as (text, file), in path order.
pub open spec fn lists_in_path_order(out: Seq<(String, File)>, m: Map<PathKey, (Seq<char>, File)>) -> bool {
    &&& forall|i: int, j: int|
        #![trigger out[i], out[j]]
        0 <= i < j < out.len() ==> key_lt(path_components(out[i].0@), path_components(out[j].0@))
    &&& forall|i: int|
        0 <= i < out.len() ==> m.contains_key(path_components(#[trigger] out[i].0@)) && m[path_components(
            out[i].0@,
        )] == (out[i].0@, out[i].1)
    &&& forall|k: PathKey| #[trigger]
        m.contains_key(k) ==> exists|i: int| 0 <= i < out.len() && path_components(#[trigger] out[i].0@) == k
}

/// Two sequences of paths, each strictly in path order, that hold the same
/// paths are the same sequence.
proof fn lemma_sorted_keys_unique(a: Seq<PathKey>, b: Seq<PathKey>)
    requires
        forall|i: int, j: int| #![trigger a[i], a[j]] 0 <= i < j < a.len() ==> key_lt(a[i], a[j]),
        forall|i: int, j: int| #![trigger b[i], b[j]] 0 <= i < j < b.len() ==> key_lt(b[i], b[j]),
        forall|k: PathKey| a.contains(k) <==> b.contains(k),
    ensures
        a == b,
    decreases a.len(),
{
    if a.len() == 0 {
        if b.len() > 0 {
            assert(b.contains(b[0]));
        }
        assert(a =~= b);
    } else {
        assert(a.contains(a[0]));
        let j = choose|j: int| 0 <= j < b.len() && b[j] == a[0];
        assert(b.contains(b[0]));
        let k = choose|k: int| 0 <= k < a.len() && a[k] == b[0];
        lemma_key_lt_irreflexive(a[0]);
        lemma_key_lt_irreflexive(b[0]);
        if j > 0 {
            assert(key_lt(b[0], b[j]));
            if k > 0 {
                assert(key_lt(a[0], a[k]));
                lemma_key_lt_transitive(b[0], a[0], b[0]);
            }
        }
        assert(b[0] == a[0]);
        let a2 = a.drop_first();
        let b2 = b.drop_first();
        assert forall|i: int, j2: int| #![trigger a2[i], a2[j2]] 0 <= i < j2 < a2.len() implies key_lt(a2[i], a2[j2]) by {
            assert(a2[i] == a[i + 1] && a2[j2] == a[j2 + 1]);
        }
        assert forall|i: int, j2: int| #![trigger b2[i], b2[j2]] 0 <= i < j2 < b2.len() implies key_lt(b2[i], b2[j2]) by {
            assert(b2[i] == b[i + 1] && b2[j2] == b[j2 + 1]);
        }
        assert forall|x: PathKey| a2.contains(x) <==> b2.contains(x) by {
            if a2.contains(x) {
                let i = choose|i: int| 0 <= i < a2.len() && a2[i] == x;
                assert(a[i + 1] == x);
                assert(key_lt(a[0], a[i + 1]));
                assert(a.contains(x));
                let m = choose|m: int| 0 <= m < b.len() && b[m] == x;
                assert(m != 0);
                assert(b2[m - 1] == x);
            }
            if b2.contains(x) {
                let i = choose|i: int| 0 <= i < b2.len() && b2[i] == x;
                assert(b[i + 1] == x);
                assert(key_lt(b[0], b[i + 1]));
                assert(b.contains(x));
                let m = choose|m: int| 0 <= m < a.len() && a[m] == x;
                assert(m != 0);
                assert(a2[m - 1] == x);
            }
        }
        lemma_sorted_keys_unique(a2, b2);
        assert(a =~= seq![a[0]] + a2);
        assert(b =~= seq![b[0]] + b2);
    }
}

/// The listing of a map in path order is determined by the map: two such
/// listings of one map hold the same texts and files in the same order.
pub proof fn lemma_listing_determined(
    out1: Seq<(String, File)>,
    out2: Seq<(String, File)>,
    m: Map<PathKey, (Seq<char>, File)>,
)
    requires
        lists_in_path_order(out1, m),
        lists_in_path_order(out2, m),
    ensures
        out1.len() == out2.len(),
        forall|i: int| 0 <= i < out1.len() ==> out1[i].0@ == out2[i].0@ && out1[i].1 == out2[i].1,
{
    let k1 = Seq::new(out1.len(), |i: int| path_components(out1[i].0@));
    let k2 = Seq::new(out2.len(), |i: int| path_components(out2[i].0@));
    assert forall|i: int, j: int| #![trigger k1[i], k1[j]] 0 <= i < j < k1.len() implies key_lt(k1[i], k1[j]) by {
        assert(key_lt(path_components(out1[i].0@), path_components(out1[j].0@)));
    }
    assert forall|i: int, j: int| #![trigger k2[i], k2[j]] 0 <= i < j < k2.len() implies key_lt(k2[i], k2[j]) by {
        assert(key_lt(path_components(out2[i].0@), path_components(out2[j].0@)));
    }
    assert forall|x: PathKey| k1.contains(x) <==> k2.contains(x) by {
        if k1.contains(x) {
            let i = choose|i: int| 0 <= i < k1.len() && k1[i] == x;
            assert(m.contains_key(path_components(out1[i].0@)));
            let j = choose|j: int| 0 <= j < out2.len() && path_components(#[trigger] out2[j].0@) == x;
            assert(k2[j] == x);
        }
        if k2.contains(x) {
            let i = choose|i: int| 0 <= i < k2.len() && k2[i] == x;
            assert(m.contains_key(path_components(out2[i].0@)));
            let j = choose|j: int| 0 <= j < out1.len() && path_components(#[trigger] out1[j].0@) == x;
            assert(k1[j] == x);
        }
    }
    lemma_sorted_keys_unique(k1, k2);
    assert forall|i: int| 0 <= i < out1.len() implies out1[i].0@ == out2[i].0@ && out1[i].1 == out2[i].1 by {
        assert(k1[i] == k2[i]);
        assert(m[path_components(out1[i].0@)] == (out1[i].0@, out1[i].1));
        assert(m[path_components(out2[i].0@)] == (out2[i].0@, out2[i].1));
    }
}

/// A listing in path order names each path once.
pub proof fn lemma_listed_paths_distinct(out: Seq<(String, File)>, m: Map<PathKey, (Seq<char>, File)>, i: int, j: int)
    requires
        lists_in_path_order(out, m),
        0 <= i < out.len(),
        0 <= j < out.len(),
        i != j,
    ensures
        path_components(out[i].0@) != path_components(out[j].0@),
{
    lemma_key_lt_irreflexive(path_components(out[i].0@));
    if i < j {
        assert(key_lt(path_components(out[i].0@), path_components(out[j].0@)));
    } else {
        assert(key_lt(path_components(out[j].0@), path_components(out[i].0@)));
    }
}

/// Looking up a path right after recording a file under it gives that file.
pub proof fn lemma_lookup_after_record(m: Map<PathKey, (Seq<char>, File)>, file: File)
    ensures
        with_file(m, file).contains_key(path_components(file.path@)),
        with_file(m, file)[path_components(file.path@)].1 == file,
{
}

/// Recording a file leaves every other path as it was.
pub proof fn lemma_record_keeps_others(m: Map<PathKey, (Seq<char>, File)>, file: File, k: PathKey)
    requires
        k != path_components(file.path@),
    ensures
        with_file(m, file).contains_key(k) == m.contains_key(k),
        m.contains_key(k) ==> with_file(m, file)[k] == m[k],
{
}

/// A path keeps the text under which it was first recorded: recording two
/// files whose paths have the same components leaves one entry, with the
/// first file's text and the second file.
pub proof fn lemma_record_same_path_twice(m: Map<PathKey, (Seq<char>, File)>, first: File, second: File)
    requires
        path_components(first.path@) == path_components(second.path@),
    ensures
        ({
            let k = path_components(first.path@);
            let m2 = with_file(with_file(m, first), second);
            &&& m2.dom() == m.dom().insert(k)
            &&& m2[k] == (if m.contains_key(k) { m[k].0 } else { first.path@ }, second)
        }),
{
    let k = path_components(first.path@);
    assert(with_file(with_file(m, first), second).dom() =~= m.dom().insert(k));
}

/// Every text recorded is one whose components are its key, and recording
/// keeps it so.
pub proof fn lemma_record_keeps_texts_matching(m: Map<PathKey, (Seq<char>, File)>, file: File)
    requires
        texts_match_keys(m),
    ensures
        texts_match_keys(with_file(m, file)),
{
}

struct Entry {
    key: Vec<(u8, Vec<u8>)>,
    text: String,
    file: File,
}

spec fn entry_view(e: Entry) -> (PathKey, Seq<char>, File) {
    (e.key.deep_view(), e.text@, e.file)
}

/// The files of a volume, by path.
pub struct FileTable {
    entries: Vec<Entry>,
}

impl FileTable {
    /// The entries in the order in which they are kept.
    pub closed spec fn listing(&self) -> Listing {
        self.entries@.map_values(|e: Entry| entry_view(e))
    }

    #[verifier::type_invariant]
    spec fn well_formed(&self) -> bool {
        &&& strictly_sorted(self.listing())
        &&& keyed_by_text(self.listing())
    }
}

impl View for FileTable {
    type V = Map<PathKey, (Seq<char>, File)>;

    /// Each path's key, mapped to the text under which it was first seen and
    /// its latest file.
    closed spec fn view(&self) -> Map<PathKey, (Seq<char>, File)> {
        listing_map(self.listing())
    }
}

/// In a sorted listing, the map gives each entry's text and file under its key.
proof fn lemma_map_at(l: Listing, i: int)
    requires
        strictly_sorted(l),
        0 <= i < l.len(),
    ensures
        listing_map(l).contains_key(l[i].0),
        listing_map(l)[l[i].0] == (l[i].1, l[i].2),
{
    let k = l[i].0;
    assert(listing_map(l).contains_key(k));
    let j = choose|j: int| 0 <= j < l.len() && #[trigger] l[j].0 == k;
    lemma_key_lt_irreflexive(k);
    if j < i {
        assert(key_lt(l[j].0, l[i].0));
    } else if j > i {
        assert(key_lt(l[i].0, l[j].0));
    }
    assert(j == i);
    assert(listing_map(l)[k] == (l[j].1, l[j].2));
}

/// Replacing the text and file of an entry updates the map at its key.
proof fn lemma_map_update(l: Listing, i: int, t: Seq<char>, f: File)
    requires
        strictly_sorted(l),
        0 <= i < l.len(),
    ensures
        strictly_sorted(l.update(i, (l[i].0, t, f))),
        listing_map(l.update(i, (l[i].0, t, f))) == listing_map(l).insert(l[i].0, (t, f)),
{
    let k = l[i].0;
    let l2 = l.update(i, (k, t, f));
    assert forall|a: int, b: int| #![trigger l2[a], l2[b]] 0 <= a < b < l2.len() implies key_lt(l2[a].0, l2[b].0) by {
        assert(l2[a].0 == l[a].0 && l2[b].0 == l[b].0);
        assert(key_lt(l[a].0, l[b].0));
    }
    let m = listing_map(l).insert(k, (t, f));
    let m2 = listing_map(l2);
    assert forall|x: PathKey| m2.contains_key(x) <==> m.contains_key(x) by {
        if m2.contains_key(x) {
            let j = choose|j: int| 0 <= j < l2.len() && #[trigger] l2[j].0 == x;
            assert(l[j].0 == x);
        }
        if m.contains_key(x) && x != k {
            let j = choose|j: int| 0 <= j < l.len() && #[trigger] l[j].0 == x;
            assert(l2[j].0 == x);
        }
        if x == k {
            assert(l2[i].0 == x);
        }
    }
    assert forall|x: PathKey| #[trigger] m2.contains_key(x) implies m2[x] == m[x] by {
        let j = choose|j: int| 0 <= j < l2.len() && #[trigger] l2[j].0 == x;
        lemma_map_at(l2, j);
        if j != i {
            lemma_map_at(l, j);
            assert(l2[j] == l[j]);
            lemma_key_lt_irreflexive(k);
            if j < i {
                assert(key_lt(l[j].0, l[i].0));
            } else {
                assert(key_lt(l[i].0, l[j].0));
            }
            assert(x != k);
        }
    }
    assert(m2 =~= m);
}

/// Inserting a new key at its place keeps the listing sorted and adds the
/// key to the map.
proof fn lemma_map_insert(l: Listing, p: int, k: PathKey, t: Seq<char>, f: File)
    requires
        strictly_sorted(l),
        0 <= p <= l.len(),
        forall|j: int| 0 <= j < p ==> key_lt(#[trigger] l[j].0, k),
        forall|j: int| p <= j < l.len() ==> key_lt(k, #[trigger] l[j].0),
    ensures
        strictly_sorted(l.insert(p, (k, t, f))),
        listing_map(l.insert(p, (k, t, f))) == listing_map(l).insert(k, (t, f)),
{
    let l2 = l.insert(p, (k, t, f));
    assert forall|a: int, b: int| #![trigger l2[a], l2[b]] 0 <= a < b < l2.len() implies key_lt(l2[a].0, l2[b].0) by {
        if a < p && b < p {
            assert(key_lt(l[a].0, l[b].0));
        } else if a < p && b == p {
        } else if a < p {
            assert(l2[b] == l[b - 1]);
            assert(key_lt(l[a].0, l[b - 1].0));
        } else if a == p {
            assert(l2[b] == l[b - 1]);
        } else {
            assert(l2[a] == l[a - 1] && l2[b] == l[b - 1]);
            assert(key_lt(l[a - 1].0, l[b - 1].0));
        }
    }
    let m = listing_map(l).insert(k, (t, f));
    let m2 = listing_map(l2);
    assert forall|x: PathKey| m2.contains_key(x) <==> m.contains_key(x) by {
        if m2.contains_key(x) && x != k {
            let j = choose|j: int| 0 <= j < l2.len() && #[trigger] l2[j].0 == x;
            if j < p {
                assert(l[j].0 == x);
            } else {
                assert(j != p);
                assert(l[j - 1].0 == x);
            }
        }
        if m.contains_key(x) && x != k {
            let j = choose|j: int| 0 <= j < l.len() && #[trigger] l[j].0 == x;
            if j < p {
                assert(l2[j].0 == x);
            } else {
                assert(l2[j + 1].0 == x);
            }
        }
        if x == k {
            assert(l2[p].0 == x);
        }
    }
    assert forall|x: PathKey| #[trigger] m2.contains_key(x) implies m2[x] == m[x] by {
        let j = choose|j: int| 0 <= j < l2.len() && #[trigger] l2[j].0 == x;
        lemma_map_at(l2, j);
        lemma_key_lt_irreflexive(k);
        if j < p {
            lemma_map_at(l, j);
            assert(key_lt(l[j].0, k));
            assert(x != k);
        } else if j > p {
            lemma_map_at(l, j - 1);
            assert(l[j - 1] == l2[j]);
            assert(key_lt(k, l[j - 1].0));
            assert(x != k);
        }
    }
    assert(m2 =~= m);
}

/// A key lies before `p` entries of a sorted listing and not before the rest.
spec fn splits_at(l: Listing, k: PathKey, p: int) -> bool {
    &&& 0 <= p <= l.len()
    &&& forall|j: int| 0 <= j < p ==> key_lt(#[trigger] l[j].0, k)
    &&& forall|j: int| p <= j < l.len() ==> !key_lt(#[trigger] l[j].0, k)
}

impl FileTable {
    /// An empty table.
    pub fn new() -> (t: FileTable)
        ensures
            t@ == Map::<PathKey, (Seq<char>, File)>::empty(),
    {
        let t = FileTable { entries: Vec::new() };
        assert(t@ =~= Map::<PathKey, (Seq<char>, File)>::empty());
        t
    }

    /// The first place whose key is not before `key`, and whether that key
    /// is `key` itself.
    fn locate(&self, key: &Vec<(u8, Vec<u8>)>) -> (r: (usize, bool))
        ensures
            splits_at(self.listing(), key.deep_view(), r.0 as int),
            r.1 == (r.0 < self.listing().len() && self.listing()[r.0 as int].0 == key.deep_view()),
    {
        proof {
            use_type_invariant(self);
            lemma_key_order_strict_total();
        }
        let ghost l = self.listing();
        let ghost k = key.deep_view();
        let mut lo: usize = 0;
        let mut hi: usize = self.entries.len();
        while lo < hi
            invariant
                l == self.listing(),
                k == key.deep_view(),
                strictly_sorted(l),
                vstd::relations::strict_total_ordering(key_order()),
                0 <= lo <= hi <= l.len(),
                l.len() == self.entries@.len(),
                forall|j: int| 0 <= j < lo ==> key_lt(#[trigger] l[j].0, k),
                forall|j: int| hi <= j < l.len() ==> !key_lt(#[trigger] l[j].0, k),
            decreases hi - lo,
        {
            let mid = lo + (hi - lo) / 2;
            assert(l[mid as int].0 == self.entries@[mid as int].key.deep_view());
            let c = compare_keys(&self.entries[mid].key, key);
            if c == PathOrder::Less {
                assert forall|j: int| 0 <= j <= mid implies key_lt(#[trigger] l[j].0, k) by {
                    if j < mid {
                        assert(key_lt(l[j].0, l[mid as int].0));
                        assert(key_order()(l[j].0, l[mid as int].0) && key_order()(l[mid as int].0, k));
                    }
                }
                lo = mid + 1;
            } else {
                assert forall|j: int| mid <= j < l.len() implies !key_lt(#[trigger] l[j].0, k) by {
                    if j > mid && key_lt(l[j].0, k) {
                        assert(key_lt(l[mid as int].0, l[j].0));
                        assert(key_order()(l[mid as int].0, l[j].0) && key_order()(l[j].0, k));
                        if c == PathOrder::Equal {
                            assert(key_order()(k, k));
                        }
                    }
                }
                hi = mid;
            }
        }
        if lo < self.entries.len() {
            assert(l[lo as int].0 == self.entries@[lo as int].key.deep_view());
            let c = compare_keys(&self.entries[lo].key, key);
            (lo, c == PathOrder::Equal)
        } else {
            (lo, false)
        }
    }

    /// Records `file` under its path: a path not yet present is added with the
    /// file's text; a present one keeps its text and takes the new file.
    pub fn insert(&mut self, file: File)
        ensures
            final(self)@ == with_file(old(self)@, file),
    {
        proof {
            use_type_invariant(&*self);
            lemma_key_order_strict_total();
        }
        let key = path_key(file.path.as_str());
        let ghost k = key.deep_view();
        let (p, found) = self.locate(&key);
        let ghost l = self.listing();
        let mut entries: Vec<Entry> = Vec::new();
        std::mem::swap(&mut entries, &mut self.entries);
        assert(entries@.map_values(|e: Entry| entry_view(e)) == l);
        if found {
            let old_entry = entries.remove(p);
            proof {
                assert(entry_view(old_entry) == l[p as int]);
                lemma_map_at(l, p as int);
                lemma_map_update(l, p as int, old_entry.text@, file);
            }
            let e = Entry { key: old_entry.key, text: old_entry.text, file };
            entries.insert(p, e);
            proof {
                assert(entries@.map_values(|e: Entry| entry_view(e)) =~= l.update(
                    p as int,
                    (l[p as int].0, l[p as int].1, file),
                ));
            }
        } else {
            let text = file.path.clone();
            proof {
                assert forall|j: int| p <= j < l.len() implies key_lt(k, #[trigger] l[j].0) by {
                    assert(!key_lt(l[j].0, k));
                    if l[j].0 == k {
                        if j > p {
                            assert(key_lt(l[p as int].0, l[j].0));
                        }
                    } else {
                        assert(key_order()(l[j].0, k) || key_order()(k, l[j].0));
                    }
                }
                lemma_map_insert(l, p as int, k, file.path@, file);
                assert(!listing_map(l).contains_key(k)) by {
                    if listing_map(l).contains_key(k) {
                        let j = choose|j: int| 0 <= j < l.len() && #[trigger] l[j].0 == k;
                        if j < p {
                            assert(key_order()(k, k));
                        } else if j > p {
                            assert(key_lt(l[p as int].0, l[j].0));
                        }
                    }
                }
            }
            let e = Entry { key, text, file };
            entries.insert(p, e);
            proof {
                assert(entries@.map_values(|e: Entry| entry_view(e)) =~= l.insert(
                    p as int,
                    (k, file.path@, file),
                ));
            }
        }
        self.entries = entries;
    }

    /// The file recorded under the path of `path`, if any.
    pub fn get(&self, path: &str) -> (r: Option<&File>)
        ensures
            r is Some <==> self@.contains_key(path_components(path@)),
            r matches Some(f) ==> *f == self@[path_components(path@)].1,
    {
        proof {
            use_type_invariant(self);
        }
        let key = path_key(path);
        let (p, found) = self.locate(&key);
        if found {
            proof {
                lemma_map_at(self.listing(), p as int);
            }
            Some(&self.entries[p].file)
        } else {
            proof {
                let l = self.listing();
                let k = key.deep_view();
                if listing_map(l).contains_key(k) {
                    let j = choose|j: int| 0 <= j < l.len() && #[trigger] l[j].0 == k;
                    lemma_key_lt_irreflexive(k);
                    if j > p {
                        assert(key_lt(l[p as int].0, l[j].0));
                        assert(!key_lt(l[p as int].0, k));
                    }
                }
            }
            None
        }
    }

    /// The recorded paths, each as the text under which it was first seen
    /// with its latest file, in path order.
    pub fn into_sorted(self) -> (out: Vec<(String, File)>)
        ensures
            lists_in_path_order(out@, self@),
    {
        proof {
            use_type_invariant(&self);
        }
        let ghost l = self.listing();
        let ghost m = self@;
        let FileTable { mut entries } = self;
        let ghost n = entries@.len();
        let mut reversed: Vec<(String, File)> = Vec::new();
        while entries.len() > 0
            invariant
                entries@.len() + reversed@.len() == n,
                l.len() == n,
                entries@.map_values(|e: Entry| entry_view(e)) == l.take(entries@.len() as int),
                forall|j: int|
                    0 <= j < reversed@.len() ==> (#[trigger] reversed@[j]).0@ == l[n - 1 - j].1
                        && reversed@[j].1 == l[n - 1 - j].2,
            decreases entries@.len(),
        {
            let ghost before = entries@;
            let e = entries.pop().unwrap();
            proof {
                let last = before.len() - 1;
                assert(e == before[last]);
                assert(before.map_values(|e: Entry| entry_view(e))[last] == entry_view(before[last]));
                assert(l.take(before.len() as int)[last] == l[last]);
                assert(entry_view(e) == l[last]);
                assert(entries@.map_values(|e: Entry| entry_view(e)) =~= l.take(entries@.len() as int));
            }
            reversed.push((e.text, e.file));
        }
        let mut out: Vec<(String, File)> = Vec::new();
        while reversed.len() > 0
            invariant
                reversed@.len() + out@.len() == n,
                l.len() == n,
                forall|j: int|
                    0 <= j < reversed@.len() ==> (#[trigger] reversed@[j]).0@ == l[n - 1 - j].1
                        && reversed@[j].1 == l[n - 1 - j].2,
                forall|j: int| 0 <= j < out@.len() ==> (#[trigger] out@[j]).0@ == l[j].1 && out@[j].1 == l[j].2,
            decreases reversed@.len(),
        {
            let x = reversed.pop().unwrap();
            out.push(x);
        }
        proof {
            assert forall|i: int, j: int| #![trigger out@[i], out@[j]] 0 <= i < j < out@.len() implies key_lt(
                path_components(out@[i].0@),
                path_components(out@[j].0@),
            ) by {
                assert(l[i].0 == path_components(l[i].1));
                assert(l[j].0 == path_components(l[j].1));
                assert(key_lt(l[i].0, l[j].0));
            }
            assert forall|i: int| 0 <= i < out@.len() implies m.contains_key(path_components(#[trigger] out@[i].0@))
                && m[path_components(out@[i].0@)] == (out@[i].0@, out@[i].1) by {
                assert(l[i].0 == path_components(l[i].1));
                lemma_map_at(l, i);
            }
            assert forall|k: PathKey| #[trigger] m.contains_key(k) implies exists|i: int|
                0 <= i < out@.len() && path_components(#[trigger] out@[i].0@) == k by {
                let j = choose|j: int| 0 <= j < l.len() && #[trigger] l[j].0 == k;
                assert(l[j].0 == path_components(l[j].1));
                assert(path_components(out@[j].0@) == k);
            }
        }
        out
    }
}

} // verus!
