//! Paths as the ordered keys of the file table.
//!
//! Two paths name the same file when `std::path` splits them into the same
//! components (`a//b/` and `a/b` do), and paths are ordered by comparing
//! their components in turn. A component is held as a pair of a kind
//! (0 prefix, 1 root, 2 `.`, 3 `..`, 4 a name) and its bytes; pairs compare
//! by kind first, then by bytes.
//!
//! This is the order in which `std::path::Path` compares paths: component
//! by component, each component by its kind (in the order listed above) and
//! then by the bytes of its text. The splitting into components is std's,
//! called through one trusted function; the comparison of the resulting
//! plain values is written and proved here.

use vstd::prelude::*;
use vstd::relations::{
    antisymmetric, asymmetric, connected, irreflexive, strict_total_ordering, transitive,
};

verus! {

/// A path as the sequence of its components.
pub type PathKey = Seq<(u8, Seq<u8>)>;

/// The components into which `std::path` splits `path`.
pub uninterp spec fn path_components(path: Seq<char>) -> PathKey;

/// `std::path::Path::components` of `path`, each component given as its
/// kind (in the order of the variants of `std::path::Component`) and the
/// bytes of its text.
///
/// Claimed of it: the result is `path_components` of the text; nothing more
/// (how separators, `.` and trailing separators are folded is std's).
#[verifier::external_body]
fn std_path_components(path: &str) -> (key: Vec<(u8, Vec<u8>)>)
    ensures
        key.deep_view() == path_components(path@),
{
    std::path::Path::new(path).components().map(|c| match c {
        std::path::Component::Prefix(p) => (0u8, p.as_os_str().as_encoded_bytes().to_vec()),
        std::path::Component::RootDir => (1u8, Vec::new()),
        std::path::Component::CurDir => (2u8, Vec::new()),
        std::path::Component::ParentDir => (3u8, Vec::new()),
        std::path::Component::Normal(s) => (4u8, s.as_encoded_bytes().to_vec()),
    }).collect()
}

/// The components of `path`.
pub fn path_key(path: &str) -> (key: Vec<(u8, Vec<u8>)>)
    ensures
        key.deep_view() == path_components(path@),
{
    std_path_components(path)
}

/// Lexicographic order of sequences, from an order of their items: the
/// first differing item decides, and a proper prefix comes first.
pub open spec fn lex_lt<T>(a: Seq<T>, b: Seq<T>, lt: spec_fn(T, T) -> bool) -> bool
    decreases a.len(),
{
    if a.len() == 0 {
        b.len() > 0
    } else if b.len() == 0 {
        false
    } else if a[0] == b[0] {
        lex_lt(a.drop_first(), b.drop_first(), lt)
    } else {
        lt(a[0], b[0])
    }
}

/// Bytes in numeric order.
pub open spec fn byte_order() -> spec_fn(u8, u8) -> bool {
    |x: u8, y: u8| x < y
}

/// Components by kind, then by bytes.
pub open spec fn component_order() -> spec_fn((u8, Seq<u8>), (u8, Seq<u8>)) -> bool {
    |x: (u8, Seq<u8>), y: (u8, Seq<u8>)| x.0 < y.0 || (x.0 == y.0 && lex_lt(x.1, y.1, byte_order()))
}

/// The order of paths: component by component.
pub open spec fn key_lt(a: PathKey, b: PathKey) -> bool {
    lex_lt(a, b, component_order())
}

/// The order of paths, as a relation.
pub open spec fn key_order() -> spec_fn(PathKey, PathKey) -> bool {
    |a: PathKey, b: PathKey| key_lt(a, b)
}

proof fn lemma_lex_irreflexive<T>(a: Seq<T>, lt: spec_fn(T, T) -> bool)
    ensures
        !lex_lt(a, a, lt),
    decreases a.len(),
{
    if a.len() > 0 {
        lemma_lex_irreflexive(a.drop_first(), lt);
    }
}

proof fn lemma_lex_asymmetric<T>(a: Seq<T>, b: Seq<T>, lt: spec_fn(T, T) -> bool)
    requires
        asymmetric(lt),
        lex_lt(a, b, lt),
    ensures
        !lex_lt(b, a, lt),
    decreases a.len(),
{
    if a.len() > 0 && b.len() > 0 {
        if a[0] == b[0] {
            lemma_lex_asymmetric(a.drop_first(), b.drop_first(), lt);
        } else {
            assert(lt(a[0], b[0]));
        }
    }
}

proof fn lemma_lex_transitive<T>(a: Seq<T>, b: Seq<T>, c: Seq<T>, lt: spec_fn(T, T) -> bool)
    requires
        transitive(lt),
        irreflexive(lt),
        lex_lt(a, b, lt),
        lex_lt(b, c, lt),
    ensures
        lex_lt(a, c, lt),
    decreases a.len(),
{
    if a.len() > 0 {
        if a[0] == b[0] && b[0] == c[0] {
            lemma_lex_transitive(a.drop_first(), b.drop_first(), c.drop_first(), lt);
        } else if a[0] != b[0] && b[0] != c[0] {
            assert(lt(a[0], b[0]) && lt(b[0], c[0]));
            assert(lt(a[0], c[0]));
            assert(a[0] != c[0]) by {
                if a[0] == c[0] {
                    assert(lt(a[0], a[0]) == false);
                }
            }
        }
    }
}

proof fn lemma_lex_connected<T>(a: Seq<T>, b: Seq<T>, lt: spec_fn(T, T) -> bool)
    requires
        connected(lt),
        a != b,
    ensures
        lex_lt(a, b, lt) || lex_lt(b, a, lt),
    decreases a.len(),
{
    if a.len() == 0 {
        if b.len() == 0 {
            assert(a =~= b);
        }
    } else if b.len() > 0 {
        if a[0] == b[0] {
            if a.drop_first() == b.drop_first() {
                assert(a =~= seq![a[0]] + a.drop_first());
                assert(b =~= seq![b[0]] + b.drop_first());
            }
            lemma_lex_connected(a.drop_first(), b.drop_first(), lt);
        } else {
            assert(lt(a[0], b[0]) || lt(b[0], a[0]));
        }
    }
}

/// Lexicographic order over a strict total order of items is a strict total
/// order.
pub proof fn lemma_lex_strict_total<T>(lt: spec_fn(T, T) -> bool)
    requires
        strict_total_ordering(lt),
    ensures
        strict_total_ordering(|a: Seq<T>, b: Seq<T>| lex_lt(a, b, lt)),
{
    let r = |a: Seq<T>, b: Seq<T>| lex_lt(a, b, lt);
    assert(asymmetric(lt)) by {
        assert forall|x: T, y: T| #[trigger] lt(x, y) implies lt(y, x) == false by {
            if lt(y, x) {
                assert(lt(x, x));
            }
        }
    }
    assert forall|a: Seq<T>| #[trigger] r(a, a) == false by {
        lemma_lex_irreflexive(a, lt);
    }
    assert forall|a: Seq<T>, b: Seq<T>| #[trigger] r(a, b) && #[trigger] r(b, a) implies a == b by {
        lemma_lex_asymmetric(a, b, lt);
    }
    assert forall|a: Seq<T>, b: Seq<T>, c: Seq<T>| #[trigger] r(a, b) && #[trigger] r(b, c) implies r(a, c) by {
        lemma_lex_transitive(a, b, c, lt);
    }
    assert forall|a: Seq<T>, b: Seq<T>| a != b implies #[trigger] r(a, b) || #[trigger] r(b, a) by {
        lemma_lex_connected(a, b, lt);
    }
}

/// Paths are ordered strictly and totally: no path comes before itself,
/// the order is transitive, and of two paths with different components
/// one comes first.
pub proof fn lemma_key_order_strict_total()
    ensures
        strict_total_ordering(key_order()),
{
    let bo = byte_order();
    assert(strict_total_ordering(bo));
    lemma_lex_strict_total(bo);
    let bl = |a: Seq<u8>, b: Seq<u8>| lex_lt(a, b, bo);
    assert(strict_total_ordering(bl));
    let co = component_order();
    assert forall|x: (u8, Seq<u8>)| #[trigger] co(x, x) == false by {
        assert(bl(x.1, x.1) == false);
    }
    assert forall|x: (u8, Seq<u8>), y: (u8, Seq<u8>)| #[trigger] co(x, y) && #[trigger] co(y, x) implies x == y by {
        if x.0 == y.0 {
            assert(bl(x.1, y.1) && bl(y.1, x.1));
        }
    }
    assert forall|x: (u8, Seq<u8>), y: (u8, Seq<u8>), z: (u8, Seq<u8>)|
        #[trigger] co(x, y) && #[trigger] co(y, z) implies co(x, z) by {
        if x.0 == y.0 && y.0 == z.0 {
            assert(bl(x.1, y.1) && bl(y.1, z.1));
        }
    }
    assert forall|x: (u8, Seq<u8>), y: (u8, Seq<u8>)| x != y implies #[trigger] co(x, y) || #[trigger] co(y, x) by {
        if x.0 == y.0 {
            assert(x.1 != y.1);
            assert(bl(x.1, y.1) || bl(y.1, x.1));
        }
    }
    assert(strict_total_ordering(co));
    lemma_lex_strict_total(co);
    let ko = key_order();
    let lo = |a: PathKey, b: PathKey| lex_lt(a, b, co);
    assert forall|a: PathKey, b: PathKey| #[trigger] ko(a, b) == lo(a, b) by {}
    assert(irreflexive(ko)) by {
        assert forall|a: PathKey| #[trigger] ko(a, a) == false by {
            assert(lo(a, a) == false);
        }
    }
    assert(antisymmetric(ko)) by {
        assert forall|a: PathKey, b: PathKey| #[trigger] ko(a, b) && #[trigger] ko(b, a) implies a == b by {
            assert(lo(a, b) && lo(b, a));
        }
    }
    assert(transitive(ko)) by {
        assert forall|a: PathKey, b: PathKey, c: PathKey| #[trigger] ko(a, b) && #[trigger] ko(b, c) implies ko(a, c) by {
            assert(lo(a, b) && lo(b, c));
        }
    }
    assert(connected(ko)) by {
        assert forall|a: PathKey, b: PathKey| a != b implies #[trigger] ko(a, b) || #[trigger] ko(b, a) by {
            assert(lo(a, b) || lo(b, a));
        }
    }
}

/// No path comes before itself.
pub proof fn lemma_key_lt_irreflexive(a: PathKey)
    ensures
        !key_lt(a, a),
{
    lemma_lex_irreflexive(a, component_order());
}

/// The order of paths is transitive.
pub proof fn lemma_key_lt_transitive(a: PathKey, b: PathKey, c: PathKey)
    requires
        key_lt(a, b),
        key_lt(b, c),
    ensures
        key_lt(a, c),
{
    lemma_key_order_strict_total();
    assert(key_order()(a, b) && key_order()(b, c));
}

/// Of two paths with different components, one comes first.
pub proof fn lemma_key_lt_connected(a: PathKey, b: PathKey)
    requires
        a != b,
    ensures
        key_lt(a, b) || key_lt(b, a),
{
    lemma_key_order_strict_total();
    assert(key_order()(a, b) || key_order()(b, a));
}

/// How one path stands to another.
#[derive(Debug, Clone, Copy, PartialEq, Eq, Structural)]
pub enum PathOrder {
    Less,
    Equal,
    Greater,
}

/// What `lex_lt` gives once two sequences agree on their first `i` items.
proof fn lemma_lex_skip<T>(a: Seq<T>, b: Seq<T>, lt: spec_fn(T, T) -> bool, i: int)
    requires
        0 <= i < a.len(),
        i < b.len(),
        a[i] == b[i],
    ensures
        lex_lt(a.skip(i), b.skip(i), lt) == lex_lt(a.skip(i + 1), b.skip(i + 1), lt),
{
    assert(a.skip(i).drop_first() =~= a.skip(i + 1));
    assert(b.skip(i).drop_first() =~= b.skip(i + 1));
}

/// Compares two byte strings in lexicographic order.
pub fn compare_bytes(a: &Vec<u8>, b: &Vec<u8>) -> (r: PathOrder)
    ensures
        (r == PathOrder::Equal) == (a@ == b@),
        (r == PathOrder::Less) == lex_lt(a@, b@, byte_order()),
        (r == PathOrder::Greater) == lex_lt(b@, a@, byte_order()),
{
    let n = if a.len() < b.len() { a.len() } else { b.len() };
    let mut i: usize = 0;
    assert(a@.skip(0) =~= a@);
    assert(b@.skip(0) =~= b@);
    while i < n
        invariant
            n <= a@.len(),
            n <= b@.len(),
            n == a@.len() || n == b@.len(),
            i <= n,
            forall|j: int| 0 <= j < i ==> a@[j] == b@[j],
            lex_lt(a@, b@, byte_order()) == lex_lt(a@.skip(i as int), b@.skip(i as int), byte_order()),
            lex_lt(b@, a@, byte_order()) == lex_lt(b@.skip(i as int), a@.skip(i as int), byte_order()),
        decreases n - i,
    {
        if a[i] != b[i] {
            assert(a@.skip(i as int)[0] == a@[i as int]);
            assert(b@.skip(i as int)[0] == b@[i as int]);
            assert(a@[i as int] != b@[i as int]);
            if a[i] < b[i] {
                return PathOrder::Less;
            } else {
                return PathOrder::Greater;
            }
        }
        proof {
            lemma_lex_skip(a@, b@, byte_order(), i as int);
            lemma_lex_skip(b@, a@, byte_order(), i as int);
        }
        i = i + 1;
    }
    if a.len() == b.len() {
        assert(a@ =~= b@);
        PathOrder::Equal
    } else if a.len() < b.len() {
        assert(a@ != b@);
        PathOrder::Less
    } else {
        assert(a@ != b@);
        PathOrder::Greater
    }
}

/// The deep view of a byte vector is its view.
proof fn lemma_bytes_deep_view(v: Vec<u8>)
    ensures
        v.deep_view() == v@,
{
    assert(v.deep_view() =~= v@);
}

/// Compares two paths, given by their components, in path order.
pub fn compare_keys(a: &Vec<(u8, Vec<u8>)>, b: &Vec<(u8, Vec<u8>)>) -> (r: PathOrder)
    ensures
        (r == PathOrder::Equal) == (a.deep_view() == b.deep_view()),
        (r == PathOrder::Less) == key_lt(a.deep_view(), b.deep_view()),
        (r == PathOrder::Greater) == key_lt(b.deep_view(), a.deep_view()),
{
    let ghost da = a.deep_view();
    let ghost db = b.deep_view();
    let n = if a.len() < b.len() { a.len() } else { b.len() };
    let mut i: usize = 0;
    assert(da.skip(0) =~= da);
    assert(db.skip(0) =~= db);
    while i < n
        invariant
            da == a.deep_view(),
            db == b.deep_view(),
            n <= a@.len(),
            n <= b@.len(),
            n == a@.len() || n == b@.len(),
            i <= n,
            forall|j: int| 0 <= j < i ==> da[j] == db[j],
            key_lt(da, db) == lex_lt(da.skip(i as int), db.skip(i as int), component_order()),
            key_lt(db, da) == lex_lt(db.skip(i as int), da.skip(i as int), component_order()),
        decreases n - i,
    {
        let (ka, ref ba) = a[i];
        let (kb, ref bb) = b[i];
        proof {
            lemma_bytes_deep_view(*ba);
            lemma_bytes_deep_view(*bb);
            assert(da[i as int] == (ka, ba@));
            assert(db[i as int] == (kb, bb@));
        }
        let same = if ka != kb {
            false
        } else {
            compare_bytes(ba, bb) == PathOrder::Equal
        };
        if !same {
            assert(da.skip(i as int)[0] == da[i as int]);
            assert(db.skip(i as int)[0] == db[i as int]);
            assert(da[i as int] != db[i as int]);
            let less = if ka < kb {
                true
            } else if ka > kb {
                false
            } else {
                compare_bytes(ba, bb) == PathOrder::Less
            };
            if less {
                return PathOrder::Less;
            } else {
                proof {
                    lemma_key_order_strict_total();
                    assert(component_order()(db[i as int], da[i as int]) || component_order()(da[i as int], db[i as int]));
                }
                return PathOrder::Greater;
            }
        }
        proof {
            lemma_lex_skip(da, db, component_order(), i as int);
            lemma_lex_skip(db, da, component_order(), i as int);
        }
        i = i + 1;
    }
    if a.len() == b.len() {
        assert(da =~= db);
        PathOrder::Equal
    } else if a.len() < b.len() {
        assert(da.len() != db.len());
        PathOrder::Less
    } else {
        assert(da.len() != db.len());
        PathOrder::Greater
    }
}

} // verus!
