use vstd::prelude::*;
use vstd::string::*;
use core::cmp::Ordering;
use crate::lex::{
    compare_paths, lemma_path_lt_irreflexive, lemma_path_lt_transitive,
    path_lt, strictly_sorted,
};

verus! {

/// The fingerprint of one path of a layer snapshot.
pub struct FileHash {
    pub path: String,
    pub hash: String,
    pub is_dir: bool,
    pub size: u64,
}

/// The four path-sorted, pairwise disjoint classes of a snapshot comparison.
pub struct LayerDiff {
    pub added: Vec<String>,
    pub removed: Vec<String>,
    pub modified: Vec<String>,
    pub unchanged: Vec<String>,
}

/// What two fingerprints of one path are compared by: digest and size.
pub open spec fn fp_of(h: FileHash) -> (Seq<char>, u64) {
    (h.hash@, h.size)
}

/// The snapshot that a list of fingerprints describes: path to (digest, size), where a
/// later record for a path replaces an earlier one.
pub open spec fn snapshot(s: Seq<FileHash>) -> Map<Seq<char>, (Seq<char>, u64)>
    decreases s.len(),
{
    if s.len() == 0 {
        Map::empty()
    } else {
        snapshot(s.drop_last()).insert(s.last().path@, fp_of(s.last()))
    }
}

/// The character sequences of a list of strings.
pub open spec fn names(v: Seq<String>) -> Seq<Seq<char>> {
    v.map_values(|s: String| s@)
}

pub open spec fn added_set(
    a: Map<Seq<char>, (Seq<char>, u64)>,
    b: Map<Seq<char>, (Seq<char>, u64)>,
) -> Set<Seq<char>> {
    Set::new(|p: Seq<char>| b.contains_key(p) && !a.contains_key(p))
}

pub open spec fn removed_set(
    a: Map<Seq<char>, (Seq<char>, u64)>,
    b: Map<Seq<char>, (Seq<char>, u64)>,
) -> Set<Seq<char>> {
    Set::new(|p: Seq<char>| a.contains_key(p) && !b.contains_key(p))
}

pub open spec fn modified_set(
    a: Map<Seq<char>, (Seq<char>, u64)>,
    b: Map<Seq<char>, (Seq<char>, u64)>,
) -> Set<Seq<char>> {
    Set::new(|p: Seq<char>| a.contains_key(p) && b.contains_key(p) && a[p] != b[p])
}

pub open spec fn unchanged_set(
    a: Map<Seq<char>, (Seq<char>, u64)>,
    b: Map<Seq<char>, (Seq<char>, u64)>,
) -> Set<Seq<char>> {
    Set::new(|p: Seq<char>| a.contains_key(p) && b.contains_key(p) && a[p] == b[p])
}

/// `v` lists exactly the members of `s`, in listing order.
pub open spec fn lists_exactly(v: Seq<String>, s: Set<Seq<char>>) -> bool {
    &&& strictly_sorted(names(v))
    &&& forall|p: Seq<char>| names(v).contains(p) <==> s.contains(p)
}

/// `r` is the comparison of snapshot `a` (older) with snapshot `b` (newer).
pub open spec fn is_diff_of(
    r: LayerDiff,
    a: Map<Seq<char>, (Seq<char>, u64)>,
    b: Map<Seq<char>, (Seq<char>, u64)>,
) -> bool {
    &&& lists_exactly(r.added@, added_set(a, b))
    &&& lists_exactly(r.removed@, removed_set(a, b))
    &&& lists_exactly(r.modified@, modified_set(a, b))
    &&& lists_exactly(r.unchanged@, unchanged_set(a, b))
}

spec fn key_at(v: Seq<FileHash>, idx: Seq<usize>, k: int) -> Seq<char> {
    v[idx[k] as int].path@
}

spec fn keys(v: Seq<FileHash>, idx: Seq<usize>) -> Seq<Seq<char>> {
    Seq::new(idx.len(), |k: int| key_at(v, idx, k))
}

/// `idx` is a sorted, duplicate-free index of the snapshot of the first `n` records of `v`.
spec fn index_of(v: Seq<FileHash>, idx: Seq<usize>, n: int) -> bool {
    &&& 0 <= n <= v.len()
    &&& forall|k: int| 0 <= k < idx.len() ==> #[trigger] idx[k] < n
    &&& strictly_sorted(keys(v, idx))
    &&& forall|p: Seq<char>|
        #[trigger] snapshot(v.subrange(0, n)).contains_key(p) <==> keys(v, idx).contains(p)
    &&& forall|k: int|
        0 <= k < idx.len() ==> snapshot(v.subrange(0, n))[#[trigger] key_at(v, idx, k)]
            == fp_of(v[idx[k] as int])
}

/// Binary search of `key` among the keys of a sorted index: `(true, i)` where key `i` is
/// `key`, else `(false, i)` where `i` is the place that `key` would take.
fn search(v: &Vec<FileHash>, idx: &Vec<usize>, key: &str) -> (r: (bool, usize))
    requires
        forall|k: int| 0 <= k < idx@.len() ==> #[trigger] idx@[k] < v@.len(),
        strictly_sorted(keys(v@, idx@)),
    ensures
        r.1 <= idx@.len(),
        forall|j: int| 0 <= j < r.1 ==> path_lt(#[trigger] keys(v@, idx@)[j], key@),
        r.0 ==> r.1 < idx@.len() && keys(v@, idx@)[r.1 as int] == key@,
        !r.0 ==> forall|j: int|
            r.1 <= j < idx@.len() ==> path_lt(key@, #[trigger] keys(v@, idx@)[j]),
{
    let ghost ks = keys(v@, idx@);
    let mut lo: usize = 0;
    let mut hi: usize = idx.len();
    while lo < hi
        invariant
            ks == keys(v@, idx@),
            forall|k: int| 0 <= k < idx@.len() ==> #[trigger] idx@[k] < v@.len(),
            strictly_sorted(ks),
            lo <= hi <= idx@.len(),
            forall|j: int| 0 <= j < lo ==> path_lt(#[trigger] ks[j], key@),
            forall|j: int| hi <= j < idx@.len() ==> path_lt(key@, #[trigger] ks[j]),
        decreases hi - lo,
    {
        let mid = lo + (hi - lo) / 2;
        let c = compare_paths(key, v[idx[mid]].path.as_str());
        assert(ks[mid as int] == v@[idx@[mid as int] as int].path@);
        match c {
            Ordering::Equal => {
                return (true, mid);
            },
            Ordering::Less => {
                assert forall|j: int| mid <= j < idx@.len() implies path_lt(
                    key@,
                    #[trigger] ks[j],
                ) by {
                    if j > mid {
                        lemma_path_lt_transitive(key@, ks[mid as int], ks[j]);
                    }
                }
                hi = mid;
            },
            Ordering::Greater => {
                assert forall|j: int| 0 <= j <= mid implies path_lt(#[trigger] ks[j], key@) by {
                    if j < mid {
                        lemma_path_lt_transitive(ks[j], ks[mid as int], key@);
                    }
                }
                lo = mid + 1;
            },
        }
    }
    (false, lo)
}

proof fn lemma_snapshot_step(v: Seq<FileHash>, n: int)
    requires
        0 <= n < v.len(),
    ensures
        snapshot(v.subrange(0, n + 1)) == snapshot(v.subrange(0, n)).insert(
            v[n].path@,
            fp_of(v[n]),
        ),
{
    assert(v.subrange(0, n + 1).drop_last() =~= v.subrange(0, n));
}

/// Builds the sorted index of the snapshot of `v`.
fn build_index(v: &Vec<FileHash>) -> (idx: Vec<usize>)
    ensures
        index_of(v@, idx@, v@.len() as int),
{
    let mut idx: Vec<usize> = Vec::new();
    let n = v.len();
    let mut i: usize = 0;
    assert(v@.subrange(0, 0) =~= Seq::<FileHash>::empty());
    assert(keys(v@, idx@) =~= Seq::<Seq<char>>::empty());
    while i < n
        invariant
            n == v@.len(),
            i <= n,
            index_of(v@, idx@, i as int),
        decreases n - i,
    {
        let ghost old_idx = idx@;
        let ghost old_keys = keys(v@, idx@);
        let ghost key = v@[i as int].path@;
        proof {
            lemma_snapshot_step(v@, i as int);
        }
        let (found, pos) = search(v, &idx, v[i].path.as_str());
        if found {
            idx.set(pos, i);
            assert(keys(v@, idx@) =~= old_keys);
            assert forall|k: int| 0 <= k < idx@.len() implies snapshot(
                v@.subrange(0, i + 1),
            )[#[trigger] key_at(v@, idx@, k)] == fp_of(v@[idx@[k] as int]) by {
                if k != pos {
                    assert(old_keys[k] == key_at(v@, old_idx, k));
                    if k < pos {
                        assert(path_lt(old_keys[k], old_keys[pos as int]));
                    } else {
                        assert(path_lt(old_keys[pos as int], old_keys[k]));
                    }
                    lemma_path_lt_irreflexive(key);
                }
            }
            assert forall|p: Seq<char>|
                #[trigger] snapshot(v@.subrange(0, i + 1)).contains_key(p) <==> keys(
                    v@,
                    idx@,
                ).contains(p) by {
                if p == key {
                    assert(keys(v@, idx@)[pos as int] == key);
                }
            }
        } else {
            idx.insert(pos, i);
            let ghost nk = keys(v@, idx@);
            assert(nk =~= old_keys.insert(pos as int, key));
            assert forall|a: int, b: int| 0 <= a < b < nk.len() implies path_lt(
                #[trigger] nk[a],
                #[trigger] nk[b],
            ) by {
                if a < pos && b == pos {
                } else if a == pos && b > pos {
                } else if a < pos && b > pos {
                    lemma_path_lt_transitive(nk[a], key, nk[b]);
                } else if a < pos && b < pos {
                    assert(nk[a] == old_keys[a] && nk[b] == old_keys[b]);
                } else if a > pos {
                    assert(nk[a] == old_keys[a - 1] && nk[b] == old_keys[b - 1]);
                } else {
                    assert(nk[a] == old_keys[a] && nk[b] == old_keys[b - 1]);
                }
            }
            assert forall|p: Seq<char>|
                #[trigger] snapshot(v@.subrange(0, i + 1)).contains_key(p) <==> nk.contains(
                    p,
                ) by {
                if p == key {
                    assert(nk[pos as int] == key);
                } else if nk.contains(p) {
                    let j = choose|j: int| 0 <= j < nk.len() && nk[j] == p;
                    if j < pos {
                        assert(old_keys[j] == p);
                    } else {
                        assert(old_keys[j - 1] == p);
                    }
                } else if old_keys.contains(p) {
                    let j = choose|j: int| 0 <= j < old_keys.len() && old_keys[j] == p;
                    if j < pos {
                        assert(nk[j] == p);
                    } else {
                        assert(nk[j + 1] == p);
                    }
                }
            }
            assert forall|k: int| 0 <= k < idx@.len() implies snapshot(
                v@.subrange(0, i + 1),
            )[#[trigger] key_at(v@, idx@, k)] == fp_of(v@[idx@[k] as int]) by {
                if k < pos {
                    assert(nk[k] == old_keys[k]);
                    assert(old_keys[k] == key_at(v@, old_idx, k));
                    lemma_path_lt_irreflexive(key);
                } else if k > pos {
                    assert(nk[k] == old_keys[k - 1]);
                    assert(old_keys[k - 1] == key_at(v@, old_idx, k - 1));
                    lemma_path_lt_irreflexive(key);
                }
            }
            assert forall|k: int| 0 <= k < idx@.len() implies #[trigger] idx@[k] < i + 1 by {
                if k < pos {
                    assert(idx@[k] == old_idx[k]);
                } else if k > pos {
                    assert(idx@[k] == old_idx[k - 1]);
                }
            }
        }
        i = i + 1;
    }
    assert(v@.subrange(0, n as int) =~= v@);
    idx
}


proof fn lemma_names_push(l: Seq<String>, x: String)
    ensures
        names(l.push(x)) == names(l).push(x@),
{
    assert(names(l.push(x)) =~= names(l).push(x@));
}

/// Appending a path greater than every listed one keeps the list sorted and loses nothing.
proof fn lemma_append_sorted(l: Seq<Seq<char>>, x: Seq<char>)
    requires
        strictly_sorted(l),
        forall|j: int| 0 <= j < l.len() ==> path_lt(#[trigger] l[j], x),
    ensures
        strictly_sorted(l.push(x)),
        l.push(x).contains(x),
        forall|y: Seq<char>| l.contains(y) ==> #[trigger] l.push(x).contains(y),
        forall|y: Seq<char>| #[trigger] l.push(x).contains(y) ==> l.contains(y) || y == x,
{
    assert(l.push(x)[l.len() as int] == x);
    assert forall|y: Seq<char>| l.contains(y) implies #[trigger] l.push(x).contains(y) by {
        let j = choose|j: int| 0 <= j < l.len() && l[j] == y;
        assert(l.push(x)[j] == y);
    }
    assert forall|y: Seq<char>| #[trigger] l.push(x).contains(y) implies l.contains(y) || y
        == x by {
        let j = choose|j: int| 0 <= j < l.len() + 1 && l.push(x)[j] == y;
        if j < l.len() {
            assert(l[j] == y);
        }
    }
}

/// Every listed path is below `bound`; a path below `bound` that is below `next` too
/// leaves every listed path below `next`.
proof fn lemma_raise_bound(l: Seq<Seq<char>>, bound: Seq<char>, next: Seq<char>)
    requires
        forall|j: int| 0 <= j < l.len() ==> path_lt(#[trigger] l[j], bound),
        path_lt(bound, next),
    ensures
        forall|j: int| 0 <= j < l.len() ==> path_lt(#[trigger] l[j], next),
{
    assert forall|j: int| 0 <= j < l.len() implies path_lt(#[trigger] l[j], next) by {
        lemma_path_lt_transitive(l[j], bound, next);
    }
}

/// Whether `key` is a path of the snapshot that the sorted index `idx` describes, and
/// where.
proof fn lemma_search_result(ks: Seq<Seq<char>>, key: Seq<char>, found: bool, pos: int)
    requires
        strictly_sorted(ks),
        0 <= pos <= ks.len(),
        forall|j: int| 0 <= j < pos ==> path_lt(#[trigger] ks[j], key),
        found ==> pos < ks.len() && ks[pos] == key,
        !found ==> forall|j: int| pos <= j < ks.len() ==> path_lt(key, #[trigger] ks[j]),
    ensures
        ks.contains(key) == found,
{
    if !found && ks.contains(key) {
        let j = choose|j: int| 0 <= j < ks.len() && ks[j] == key;
        lemma_path_lt_irreflexive(key);
        if j < pos {
            assert(path_lt(ks[j], key));
        } else {
            assert(path_lt(key, ks[j]));
        }
    }
}

/// Sorts each path of the newer snapshot into added, modified or unchanged.
#[verifier::rlimit(40)]
fn classify_newer(a: &Vec<FileHash>, ia: &Vec<usize>, b: &Vec<FileHash>, ib: &Vec<usize>) -> (r: (
    Vec<String>,
    Vec<String>,
    Vec<String>,
))
    requires
        index_of(a@, ia@, a@.len() as int),
        index_of(b@, ib@, b@.len() as int),
    ensures
        ({
            let sa = snapshot(a@);
            let sb = snapshot(b@);
            &&& lists_exactly(r.0@, added_set(sa, sb))
            &&& lists_exactly(r.1@, modified_set(sa, sb))
            &&& lists_exactly(r.2@, unchanged_set(sa, sb))
        }),
{
    assert(a@.subrange(0, a@.len() as int) =~= a@);
    assert(b@.subrange(0, b@.len() as int) =~= b@);
    let ghost sa = snapshot(a@);
    let ghost sb = snapshot(b@);
    let ghost ka = keys(a@, ia@);
    let ghost kb = keys(b@, ib@);
    let mut added: Vec<String> = Vec::new();
    let mut modified: Vec<String> = Vec::new();
    let mut unchanged: Vec<String> = Vec::new();
    let nb = ib.len();
    let mut k: usize = 0;
    while k < nb
        invariant
            nb == ib@.len(),
            k <= nb,
            index_of(a@, ia@, a@.len() as int),
            index_of(b@, ib@, b@.len() as int),
            sa == snapshot(a@),
            sb == snapshot(b@),
            ka == keys(a@, ia@),
            kb == keys(b@, ib@),
            a@.subrange(0, a@.len() as int) == a@,
            b@.subrange(0, b@.len() as int) == b@,
            strictly_sorted(names(added@)),
            strictly_sorted(names(modified@)),
            strictly_sorted(names(unchanged@)),
            k < nb ==> forall|j: int|
                0 <= j < added@.len() ==> path_lt(#[trigger] names(added@)[j], kb[k as int]),
            k < nb ==> forall|j: int|
                0 <= j < modified@.len() ==> path_lt(
                    #[trigger] names(modified@)[j],
                    kb[k as int],
                ),
            k < nb ==> forall|j: int|
                0 <= j < unchanged@.len() ==> path_lt(
                    #[trigger] names(unchanged@)[j],
                    kb[k as int],
                ),
            forall|p: Seq<char>| #[trigger]
                names(added@).contains(p) ==> added_set(sa, sb).contains(p),
            forall|p: Seq<char>| #[trigger]
                names(modified@).contains(p) ==> modified_set(sa, sb).contains(p),
            forall|p: Seq<char>| #[trigger]
                names(unchanged@).contains(p) ==> unchanged_set(sa, sb).contains(p),
            forall|j: int|
                0 <= j < k ==> (added_set(sa, sb).contains(#[trigger] kb[j]) ==> names(
                    added@,
                ).contains(kb[j])) && (modified_set(sa, sb).contains(kb[j]) ==> names(
                    modified@,
                ).contains(kb[j])) && (unchanged_set(sa, sb).contains(kb[j]) ==> names(
                    unchanged@,
                ).contains(kb[j])),
        decreases nb - k,
    {
        let ghost key = kb[k as int];
        let hb = &b[ib[k]];
        assert(hb.path@ == key);
        assert(sb.contains_key(key)) by {
            assert(kb[k as int] == key);
        }
        assert(sb[key] == fp_of(*hb)) by {
            assert(key_at(b@, ib@, k as int) == key);
        }
        let (found, pos) = search(a, ia, hb.path.as_str());
        proof {
            lemma_search_result(ka, key, found, pos as int);
        }
        let ghost na = names(added@);
        let ghost nm = names(modified@);
        let ghost nu = names(unchanged@);
        if found {
            let ha = &a[ia[pos]];
            assert(sa.contains_key(key));
            assert(sa[key] == fp_of(*ha)) by {
                assert(key_at(a@, ia@, pos as int) == key);
            }
            if ha.hash == hb.hash && ha.size == hb.size {
                assert(unchanged_set(sa, sb).contains(key));
                proof {
                    lemma_names_push(unchanged@, hb.path);
                    lemma_append_sorted(nu, key);
                }
                unchanged.push(hb.path.clone());
            } else {
                assert(modified_set(sa, sb).contains(key));
                proof {
                    lemma_names_push(modified@, hb.path);
                    lemma_append_sorted(nm, key);
                }
                modified.push(hb.path.clone());
            }
        } else {
            assert(added_set(sa, sb).contains(key));
            proof {
                lemma_names_push(added@, hb.path);
                lemma_append_sorted(na, key);
            }
            added.push(hb.path.clone());
        }
        proof {
            if k + 1 < nb {
                let next = kb[k + 1];
                assert(path_lt(key, next));
                lemma_raise_bound(na, key, next);
                lemma_raise_bound(nm, key, next);
                lemma_raise_bound(nu, key, next);
                assert(names(added@) == na || names(added@) == na.push(key));
                assert(names(modified@) == nm || names(modified@) == nm.push(key));
                assert(names(unchanged@) == nu || names(unchanged@) == nu.push(key));
                assert forall|j: int| 0 <= j < added@.len() implies path_lt(
                    #[trigger] names(added@)[j],
                    next,
                ) by {
                    if j >= na.len() {
                        assert(names(added@)[j] == key);
                    } else {
                        assert(names(added@)[j] == na[j]);
                    }
                }
                assert forall|j: int| 0 <= j < modified@.len() implies path_lt(
                    #[trigger] names(modified@)[j],
                    next,
                ) by {
                    if j >= nm.len() {
                        assert(names(modified@)[j] == key);
                    } else {
                        assert(names(modified@)[j] == nm[j]);
                    }
                }
                assert forall|j: int| 0 <= j < unchanged@.len() implies path_lt(
                    #[trigger] names(unchanged@)[j],
                    next,
                ) by {
                    if j >= nu.len() {
                        assert(names(unchanged@)[j] == key);
                    } else {
                        assert(names(unchanged@)[j] == nu[j]);
                    }
                }
            }
        }
        k = k + 1;
    }
    proof {
        assert forall|p: Seq<char>| added_set(sa, sb).contains(p) implies #[trigger] names(
            added@,
        ).contains(p) by {
            assert(kb.contains(p));
            let j = choose|j: int| 0 <= j < kb.len() && kb[j] == p;
        }
        assert forall|p: Seq<char>| modified_set(sa, sb).contains(p) implies #[trigger] names(
            modified@,
        ).contains(p) by {
            assert(kb.contains(p));
            let j = choose|j: int| 0 <= j < kb.len() && kb[j] == p;
        }
        assert forall|p: Seq<char>| unchanged_set(sa, sb).contains(p) implies #[trigger] names(
            unchanged@,
        ).contains(p) by {
            assert(kb.contains(p));
            let j = choose|j: int| 0 <= j < kb.len() && kb[j] == p;
        }
    }
    (added, modified, unchanged)
}


/// Lists the paths of the older snapshot that the newer one lacks.
fn collect_removed(a: &Vec<FileHash>, ia: &Vec<usize>, b: &Vec<FileHash>, ib: &Vec<usize>) -> (r:
    Vec<String>)
    requires
        index_of(a@, ia@, a@.len() as int),
        index_of(b@, ib@, b@.len() as int),
    ensures
        lists_exactly(r@, removed_set(snapshot(a@), snapshot(b@))),
{
    assert(a@.subrange(0, a@.len() as int) =~= a@);
    assert(b@.subrange(0, b@.len() as int) =~= b@);
    let ghost sa = snapshot(a@);
    let ghost sb = snapshot(b@);
    let ghost ka = keys(a@, ia@);
    let ghost kb = keys(b@, ib@);
    let mut removed: Vec<String> = Vec::new();
    let na_len = ia.len();
    let mut k: usize = 0;
    while k < na_len
        invariant
            na_len == ia@.len(),
            k <= na_len,
            index_of(a@, ia@, a@.len() as int),
            index_of(b@, ib@, b@.len() as int),
            sa == snapshot(a@),
            sb == snapshot(b@),
            ka == keys(a@, ia@),
            kb == keys(b@, ib@),
            a@.subrange(0, a@.len() as int) == a@,
            b@.subrange(0, b@.len() as int) == b@,
            strictly_sorted(names(removed@)),
            k < na_len ==> forall|j: int|
                0 <= j < removed@.len() ==> path_lt(#[trigger] names(removed@)[j], ka[k as int]),
            forall|p: Seq<char>| #[trigger]
                names(removed@).contains(p) ==> removed_set(sa, sb).contains(p),
            forall|j: int|
                0 <= j < k ==> (removed_set(sa, sb).contains(#[trigger] ka[j]) ==> names(
                    removed@,
                ).contains(ka[j])),
        decreases na_len - k,
    {
        let ghost key = ka[k as int];
        let ha = &a[ia[k]];
        assert(ha.path@ == key);
        assert(sa.contains_key(key)) by {
            assert(ka[k as int] == key);
        }
        let (found, pos) = search(b, ib, ha.path.as_str());
        proof {
            lemma_search_result(kb, key, found, pos as int);
        }
        let ghost nr = names(removed@);
        if !found {
            assert(removed_set(sa, sb).contains(key));
            proof {
                lemma_names_push(removed@, ha.path);
                lemma_append_sorted(nr, key);
            }
            removed.push(ha.path.clone());
        }
        proof {
            if k + 1 < na_len {
                let next = ka[k + 1];
                assert(path_lt(key, next));
                lemma_raise_bound(nr, key, next);
                assert forall|j: int| 0 <= j < removed@.len() implies path_lt(
                    #[trigger] names(removed@)[j],
                    next,
                ) by {
                    if j >= nr.len() {
                        assert(names(removed@)[j] == key);
                    } else {
                        assert(names(removed@)[j] == nr[j]);
                    }
                }
            }
        }
        k = k + 1;
    }
    proof {
        assert forall|p: Seq<char>| removed_set(sa, sb).contains(p) implies #[trigger] names(
            removed@,
        ).contains(p) by {
            assert(ka.contains(p));
            let j = choose|j: int| 0 <= j < ka.len() && ka[j] == p;
        }
    }
    removed
}

/// Compares the fingerprints of an older layer with those of a newer one. Each path of
/// the newer layer is added (absent from the older), unchanged (same digest and size)
/// or modified; each path only the older layer has is removed. Every list is sorted.
pub fn compare_hashes(layer1_hashes: Vec<FileHash>, layer2_hashes: Vec<FileHash>) -> (r: LayerDiff)
    ensures
        is_diff_of(r, snapshot(layer1_hashes@), snapshot(layer2_hashes@)),
{
    let ia = build_index(&layer1_hashes);
    let ib = build_index(&layer2_hashes);
    let (added, modified, unchanged) = classify_newer(&layer1_hashes, &ia, &layer2_hashes, &ib);
    let removed = collect_removed(&layer1_hashes, &ia, &layer2_hashes, &ib);
    LayerDiff { added, removed, modified, unchanged }
}

/// The four classes of a comparison are pairwise disjoint, and together they hold every
/// path of either snapshot and nothing else.
pub proof fn lemma_diff_partitions(
    a: Map<Seq<char>, (Seq<char>, u64)>,
    b: Map<Seq<char>, (Seq<char>, u64)>,
)
    ensures
        added_set(a, b).disjoint(removed_set(a, b)),
        added_set(a, b).disjoint(modified_set(a, b)),
        added_set(a, b).disjoint(unchanged_set(a, b)),
        removed_set(a, b).disjoint(modified_set(a, b)),
        removed_set(a, b).disjoint(unchanged_set(a, b)),
        modified_set(a, b).disjoint(unchanged_set(a, b)),
        added_set(a, b) + removed_set(a, b) + modified_set(a, b) + unchanged_set(a, b) == a.dom()
            + b.dom(),
{
    assert(added_set(a, b) + removed_set(a, b) + modified_set(a, b) + unchanged_set(a, b)
        =~= a.dom() + b.dom());
}

/// Every comparison that `compare_hashes` returns partitions the paths of its two inputs.
pub proof fn lemma_compare_hashes_partitions(
    layer1_hashes: Seq<FileHash>,
    layer2_hashes: Seq<FileHash>,
    r: LayerDiff,
)
    requires
        is_diff_of(r, snapshot(layer1_hashes), snapshot(layer2_hashes)),
    ensures
        forall|p: Seq<char>|
            #![trigger names(r.added@).contains(p)]
            #![trigger names(r.removed@).contains(p)]
            #![trigger names(r.modified@).contains(p)]
            #![trigger names(r.unchanged@).contains(p)]
            (snapshot(layer1_hashes).contains_key(p) || snapshot(layer2_hashes).contains_key(p))
                <==> (names(r.added@).contains(p) || names(r.removed@).contains(p) || names(
                r.modified@,
            ).contains(p) || names(r.unchanged@).contains(p)),
        forall|p: Seq<char>|
            #![trigger names(r.added@).contains(p)]
            #![trigger names(r.removed@).contains(p)]
            #![trigger names(r.modified@).contains(p)]
            #![trigger names(r.unchanged@).contains(p)]
            (names(r.added@).contains(p) as int) + (names(r.removed@).contains(p) as int) + (names(
                r.modified@,
            ).contains(p) as int) + (names(r.unchanged@).contains(p) as int) <= 1,
{
    let a = snapshot(layer1_hashes);
    let b = snapshot(layer2_hashes);
    lemma_diff_partitions(a, b);
    assert(lists_exactly(r.added@, added_set(a, b)));
    assert(lists_exactly(r.removed@, removed_set(a, b)));
    assert(lists_exactly(r.modified@, modified_set(a, b)));
    assert(lists_exactly(r.unchanged@, unchanged_set(a, b)));
    assert forall|p: Seq<char>|
        #![trigger names(r.added@).contains(p)]
        #![trigger names(r.removed@).contains(p)]
        #![trigger names(r.modified@).contains(p)]
        #![trigger names(r.unchanged@).contains(p)]
        (a.contains_key(p) || b.contains_key(p)) <==> (names(r.added@).contains(p) || names(
            r.removed@,
        ).contains(p) || names(r.modified@).contains(p) || names(r.unchanged@).contains(p)) by {
        assert(names(r.added@).contains(p) == added_set(a, b).contains(p));
        assert(names(r.removed@).contains(p) == removed_set(a, b).contains(p));
        assert(names(r.modified@).contains(p) == modified_set(a, b).contains(p));
        assert(names(r.unchanged@).contains(p) == unchanged_set(a, b).contains(p));
    }
    assert forall|p: Seq<char>|
        #![trigger names(r.added@).contains(p)]
        #![trigger names(r.removed@).contains(p)]
        #![trigger names(r.modified@).contains(p)]
        #![trigger names(r.unchanged@).contains(p)]
        (names(r.added@).contains(p) as int) + (names(r.removed@).contains(p) as int) + (names(
            r.modified@,
        ).contains(p) as int) + (names(r.unchanged@).contains(p) as int) <= 1 by {
        assert(names(r.added@).contains(p) == added_set(a, b).contains(p));
        assert(names(r.removed@).contains(p) == removed_set(a, b).contains(p));
        assert(names(r.modified@).contains(p) == modified_set(a, b).contains(p));
        assert(names(r.unchanged@).contains(p) == unchanged_set(a, b).contains(p));
    }
}

/// Comparing a snapshot with itself finds nothing added, removed or modified, and every
/// path unchanged.
pub proof fn lemma_diff_with_itself(s: Seq<FileHash>, r: LayerDiff)
    requires
        is_diff_of(r, snapshot(s), snapshot(s)),
    ensures
        r.added@.len() == 0,
        r.removed@.len() == 0,
        r.modified@.len() == 0,
        forall|p: Seq<char>|
            #[trigger] names(r.unchanged@).contains(p) <==> snapshot(s).contains_key(p),
{
    let m = snapshot(s);
    assert(lists_exactly(r.added@, added_set(m, m)));
    assert(lists_exactly(r.removed@, removed_set(m, m)));
    assert(lists_exactly(r.modified@, modified_set(m, m)));
    assert(lists_exactly(r.unchanged@, unchanged_set(m, m)));
    if r.added@.len() > 0 {
        let x = names(r.added@)[0];
        assert(names(r.added@).contains(x));
        assert(added_set(m, m).contains(x));
    }
    if r.removed@.len() > 0 {
        let x = names(r.removed@)[0];
        assert(names(r.removed@).contains(x));
        assert(removed_set(m, m).contains(x));
    }
    if r.modified@.len() > 0 {
        let x = names(r.modified@)[0];
        assert(names(r.modified@).contains(x));
        assert(modified_set(m, m).contains(x));
    }
    assert forall|p: Seq<char>|
        #[trigger] names(r.unchanged@).contains(p) <==> m.contains_key(p) by {
        assert(names(r.unchanged@).contains(p) <==> unchanged_set(m, m).contains(p));
    }
}

} // verus!
