use vstd::prelude::*;
use vstd::string::*;
use crate::error::EngineError;
use crate::lex::{lemma_path_lt_irreflexive, path_lt, strictly_sorted};
use crate::diff::names;
use crate::toc::{
    ArchiveEntry, dirs_with_ancestors, entry_of, entry_path, entry_paths, has_dir, is_ancestor,
    lemma_synthesis_idempotent, listed_dirs, listed_paths, scan_listing, search_entry, with_ancestors,
};

verus! {

/// Position `k` of path `c` is a separator that ends one of its directories.
pub open spec fn is_cut(c: Seq<char>, k: int) -> bool {
    &&& 0 < k < c.len()
    &&& c[k] == '/'
    &&& c[k - 1] != '/'
    &&& !(k == 1 && c[0] == '.')
}

/// The last cut of `c` before position `i`, or -1.
pub open spec fn last_cut(c: Seq<char>, i: int) -> int
    decreases i,
{
    if i <= 0 {
        -1
    } else if is_cut(c, i - 1) {
        i - 1
    } else {
        last_cut(c, i - 1)
    }
}

/// The directory that path `c` lies in directly; `None` at the top level.
pub open spec fn parent_of(c: Seq<char>) -> Option<Seq<char>> {
    let k = last_cut(c, c.len() as int);
    if k < 0 {
        None
    } else {
        Some(c.subrange(0, k))
    }
}

pub proof fn lemma_ancestor_is_cut(a: Seq<char>, c: Seq<char>)
    ensures
        is_ancestor(a, c) <==> (is_cut(c, a.len() as int) && a == c.subrange(0, a.len() as int)),
{
    if is_cut(c, a.len() as int) && a == c.subrange(0, a.len() as int) {
        assert(a.last() == c[a.len() - 1]);
        if a.len() == 1 {
            assert(a =~= seq![c[0]]);
        }
        assert(a != seq!['.']) by {
            if a == seq!['.'] {
                assert(c[0] == a[0]);
            }
        }
    }
    if is_ancestor(a, c) {
        assert(a.last() == c[a.len() - 1]);
        if a.len() == 1 && c[0] == '.' {
            assert(a =~= seq!['.']);
        }
    }
}

proof fn lemma_last_cut_range(c: Seq<char>, i: int)
    ensures
        -1 <= last_cut(c, i),
        i > 0 ==> last_cut(c, i) < i,
        last_cut(c, i) >= 0 ==> is_cut(c, last_cut(c, i)),
        forall|k: int| last_cut(c, i) < k < i ==> !is_cut(c, k),
    decreases i,
{
    if i > 0 && !is_cut(c, i - 1) {
        lemma_last_cut_range(c, i - 1);
    }
}

/// The parent of a path is its longest ancestor, and the only ancestor that no other
/// ancestor of the path lies under.
pub proof fn lemma_parent_is_longest_ancestor(c: Seq<char>)
    ensures
        parent_of(c) is None <==> forall|a: Seq<char>| !is_ancestor(a, c),
        parent_of(c) is Some ==> is_ancestor(parent_of(c)->0, c),
        parent_of(c) is Some ==> forall|a: Seq<char>|
            is_ancestor(a, c) ==> a.len() <= (parent_of(c)->0).len(),
{
    lemma_last_cut_range(c, c.len() as int);
    let k = last_cut(c, c.len() as int);
    if k >= 0 {
        lemma_ancestor_is_cut(c.subrange(0, k), c);
    }
    assert forall|a: Seq<char>| is_ancestor(a, c) implies a.len() <= k by {
        lemma_ancestor_is_cut(a, c);
    }
}


/// Decides `is_ancestor(a, p)`.
pub fn ancestor_of(a: &str, p: &str) -> (r: bool)
    ensures
        r == is_ancestor(a@, p@),
{
    let la = a.unicode_len();
    let lp = p.unicode_len();
    if la == 0 || la >= lp {
        return false;
    }
    if p.get_char(la) != '/' || a.get_char(la - 1) == '/' {
        return false;
    }
    if la == 1 && a.get_char(0) == '.' {
        assert(a@ =~= seq!['.']);
        return false;
    }
    let mut k: usize = 0;
    while k < la
        invariant
            la == a@.len(),
            lp == p@.len(),
            la < lp,
            k <= la,
            forall|m: int| 0 <= m < k ==> a@[m] == p@[m],
        decreases la - k,
    {
        if a.get_char(k) != p.get_char(k) {
            assert(a@[k as int] != p@.subrange(0, la as int)[k as int]);
            return false;
        }
        k = k + 1;
    }
    assert(a@ =~= p@.subrange(0, la as int));
    assert(a@ != seq!['.']) by {
        if a@ == seq!['.'] {
            assert(a@[0] == '.');
        }
    }
    true
}

/// Computes `parent_of(c)`.
pub fn parent_path(c: &str) -> (r: Option<String>)
    ensures
        match r {
            Some(s) => parent_of(c@) == Some(s@),
            None => parent_of(c@) is None,
        },
{
    let n = c.unicode_len();
    let mut i: usize = n;
    while i > 0
        invariant
            n == c@.len(),
            i <= n,
            last_cut(c@, n as int) == last_cut(c@, i as int),
        decreases i,
    {
        let k = i - 1;
        if k > 0 && c.get_char(k) == '/' && c.get_char(k - 1) != '/' && !(k == 1 && c.get_char(0)
            == '.') {
            assert(is_cut(c@, k as int));
            return Some(String::from_str(c.substring_char(0, k)));
        }
        assert(!is_cut(c@, k as int));
        i = k;
    }
    None
}


/// How many of `s` lie directly in `c`.
pub open spec fn count_children(s: Seq<Seq<char>>, c: Seq<char>) -> nat
    decreases s.len(),
{
    if s.len() == 0 {
        0
    } else {
        count_children(s.drop_last(), c) + if parent_of(s.last()) == Some(c) {
            1nat
        } else {
            0nat
        }
    }
}

/// Distinct positions of a strictly sorted list hold distinct paths.
pub proof fn lemma_sorted_distinct(s: Seq<Seq<char>>, i: int, j: int)
    requires
        strictly_sorted(s),
        0 <= i < s.len(),
        0 <= j < s.len(),
        i != j,
    ensures
        s[i] != s[j],
{
    lemma_path_lt_irreflexive(s[i]);
    if i < j {
        assert(path_lt(s[i], s[j]));
    } else {
        assert(path_lt(s[j], s[i]));
    }
}


/// One child as a browser shows it.
pub struct DirectoryNode {
    pub relative_path: String,
    pub is_directory: bool,
    pub extracted: bool,
    /// Entries lying directly in it, from the table of contents.
    pub child_count: usize,
    /// Neither it nor its parent is extracted: its size is not known yet.
    pub pending: bool,
}

/// `p` is the subtree root `q`, lies under it, or is a directory that `q` lies in.
pub open spec fn related(q: Seq<char>, p: Seq<char>) -> bool {
    p == q || is_ancestor(q, p) || is_ancestor(p, q)
}

/// The extracted paths after extracting subtree `q` of a tree with paths `paths` whose
/// extracted paths were `x`.
pub open spec fn extraction_after(paths: Seq<Seq<char>>, x: Set<Seq<char>>, q: Seq<char>) -> Set<
    Seq<char>,
> {
    x + Set::new(|p: Seq<char>| paths.contains(p) && related(q, p))
}

/// Extracting a subtree a second time changes nothing more.
pub proof fn lemma_extract_idempotent(paths: Seq<Seq<char>>, x: Set<Seq<char>>, q: Seq<char>)
    ensures
        extraction_after(paths, extraction_after(paths, x, q), q) == extraction_after(paths, x, q),
{
    assert(extraction_after(paths, extraction_after(paths, x, q), q) =~= extraction_after(paths, x, q));
}

/// Two directories of one path: one lies in the other, or they are the same.
pub proof fn lemma_ancestors_comparable(a: Seq<char>, q: Seq<char>, p: Seq<char>)
    requires
        is_ancestor(a, p),
        is_ancestor(q, p),
    ensures
        a == q || is_ancestor(a, q) || is_ancestor(q, a),
{
    if a.len() < q.len() {
        assert(a =~= q.subrange(0, a.len() as int));
        assert(q[a.len() as int] == p[a.len() as int]);
    } else if q.len() < a.len() {
        assert(q =~= a.subrange(0, q.len() as int));
        assert(a[q.len() as int] == p[q.len() as int]);
    } else {
        assert(a =~= q);
    }
}

/// A directory of a path related to `q` is related to `q`.
pub proof fn lemma_related_ancestor(q: Seq<char>, p: Seq<char>, a: Seq<char>)
    requires
        related(q, p),
        is_ancestor(a, p),
    ensures
        related(q, a),
{
    if is_ancestor(q, p) {
        lemma_ancestors_comparable(a, q, p);
    } else if is_ancestor(p, q) {
        crate::toc::lemma_ancestor_transitive(a, p, q);
    }
}


/// The paths of a list of nodes.
pub open spec fn node_paths(v: Seq<DirectoryNode>) -> Seq<Seq<char>> {
    v.map_values(|d: DirectoryNode| d.relative_path@)
}

/// The directory whose children are listed: the top level for the empty path.
pub open spec fn listed_parent(dir: Seq<char>) -> Option<Seq<char>> {
    if dir.len() == 0 {
        None
    } else {
        Some(dir)
    }
}

/// `v` lists the entries of `t` that lie directly in `dir`, as `list_children` does.
pub open spec fn children_listing(t: LayerTree, dir: Seq<char>, v: Seq<DirectoryNode>) -> bool {
    &&& strictly_sorted(node_paths(v))
    &&& forall|p: Seq<char>|
        #[trigger] node_paths(v).contains(p) <==> (t.paths().contains(p) && parent_of(p)
            == listed_parent(dir))
    &&& forall|k: int|
        0 <= k < v.len() ==> {
            let c = #[trigger] v[k].relative_path@;
            &&& v[k].is_directory == t.dirs().contains(c)
            &&& v[k].extracted == t.extracted_set().contains(c)
            &&& v[k].child_count == count_children(t.paths(), c)
            &&& v[k].pending == (!t.extracted_set().contains(c) && !(dir.len() > 0
                && t.extracted_set().contains(dir)))
        }
}


/// How many cuts `c` has before position `i`.
pub open spec fn cuts_before(c: Seq<char>, i: int) -> nat
    decreases i,
{
    if i <= 0 {
        0
    } else {
        cuts_before(c, i - 1) + if is_cut(c, i - 1) {
            1nat
        } else {
            0nat
        }
    }
}

/// How many directories path `c` lies in: 0 at the top level.
pub open spec fn depth_of(c: Seq<char>) -> nat {
    cuts_before(c, c.len() as int)
}

/// Computes `depth_of(c)`.
pub fn path_depth(c: &str) -> (r: usize)
    ensures
        r == depth_of(c@),
{
    let n = c.unicode_len();
    let mut d: usize = 0;
    let mut i: usize = 0;
    while i < n
        invariant
            n == c@.len(),
            i <= n,
            d == cuts_before(c@, i as int),
            d <= i,
        decreases n - i,
    {
        if i > 0 && c.get_char(i) == '/' && c.get_char(i - 1) != '/' && !(i == 1 && c.get_char(0) == '.') {
            assert(is_cut(c@, i as int));
            d = d + 1;
        } else {
            assert(!is_cut(c@, i as int));
        }
        i = i + 1;
    }
    d
}

/// One row of a depth-limited overview.
pub struct OverviewEntry {
    pub path: String,
    pub is_directory: bool,
    pub depth: usize,
    /// A directory at the depth limit that has entries of its own, not listed.
    pub more_available: bool,
}

pub open spec fn overview_paths(v: Seq<OverviewEntry>) -> Seq<Seq<char>> {
    v.map_values(|e: OverviewEntry| e.path@)
}

/// The directory tree of one layer's archive, browsable before it is extracted.
pub struct LayerTree {
    entries: Vec<ArchiveEntry>,
    extracted: Vec<bool>,
    parent: Vec<Option<usize>>,
    child_counts: Vec<usize>,
}

impl LayerTree {
    /// The paths of the tree, in listing order.
    pub closed spec fn paths(&self) -> Seq<Seq<char>> {
        entry_paths(self.entries@)
    }

    /// The paths that are directories.
    pub closed spec fn dirs(&self) -> Set<Seq<char>> {
        Set::new(|p: Seq<char>| has_dir(self.entries@, p))
    }

    /// The paths whose content has been extracted.
    pub closed spec fn extracted_set(&self) -> Set<Seq<char>> {
        Set::new(
            |p: Seq<char>|
                exists|i: int|
                    0 <= i < self.entries@.len() && self.entries@[i].path@ == p
                        && #[trigger] self.extracted@[i],
        )
    }

    pub closed spec fn wf(&self) -> bool {
        let ps = self.paths();
        &&& strictly_sorted(ps)
        &&& self.extracted@.len() == ps.len()
        &&& self.parent@.len() == ps.len()
        &&& self.child_counts@.len() == ps.len()
        &&& forall|i: int, a: Seq<char>|
            0 <= i < ps.len() && #[trigger] is_ancestor(a, ps[i]) ==> ps.contains(a)
        &&& forall|p: Seq<char>, a: Seq<char>|
            #[trigger] self.extracted_set().contains(p) && #[trigger] is_ancestor(a, p)
                ==> self.extracted_set().contains(a)
        &&& forall|j: int|
            0 <= j < ps.len() ==> match #[trigger] self.parent@[j] {
                None => parent_of(ps[j]) is None,
                Some(k) => 0 <= k < ps.len() && parent_of(ps[j]) == Some(ps[k as int]),
            }
        &&& forall|k: int|
            0 <= k < ps.len() ==> #[trigger] self.child_counts@[k] == count_children(ps, ps[k])
    }

    /// Builds the tree of an archive from the lines of its listing, with nothing extracted.
    pub fn from_listing(lines: &Vec<String>) -> (r: LayerTree)
        ensures
            r.wf(),
            strictly_sorted(r.paths()),
            forall|p: Seq<char>|
                #[trigger] r.paths().contains(p) <==> with_ancestors(listed_paths(names(lines@))).contains(p),
            r.dirs() == dirs_with_ancestors(listed_paths(names(lines@)), listed_dirs(names(lines@))),
            r.extracted_set() == Set::<Seq<char>>::empty(),
    {
        let entries = scan_listing(lines);
        let ghost ps = entry_paths(entries@);
        let ghost listed = listed_paths(names(lines@));
        proof {
            lemma_synthesis_idempotent(listed, listed_dirs(names(lines@)));
            assert forall|i: int, a: Seq<char>|
                0 <= i < ps.len() && #[trigger] is_ancestor(a, ps[i]) implies ps.contains(a) by {
                assert(ps.contains(ps[i]));
                assert(with_ancestors(with_ancestors(listed)).contains(a));
            }
        }
        let n = entries.len();
        let mut extracted: Vec<bool> = Vec::new();
        let mut parent: Vec<Option<usize>> = Vec::new();
        let mut child_counts: Vec<usize> = Vec::new();
        let mut j: usize = 0;
        while j < n
            invariant
                n == entries@.len(),
                ps == entry_paths(entries@),
                strictly_sorted(ps),
                forall|i: int, a: Seq<char>|
                    0 <= i < ps.len() && #[trigger] is_ancestor(a, ps[i]) ==> ps.contains(a),
                j <= n,
                extracted@.len() == j,
                parent@.len() == j,
                child_counts@.len() == j,
                forall|m: int| 0 <= m < j ==> !(#[trigger] extracted@[m]),
                forall|m: int| 0 <= m < j ==> #[trigger] child_counts@[m] == 0,
                forall|m: int|
                    0 <= m < j ==> match #[trigger] parent@[m] {
                        None => parent_of(ps[m]) is None,
                        Some(k) => 0 <= k < ps.len() && parent_of(ps[m]) == Some(ps[k as int]),
                    },
            decreases n - j,
        {
            assert(ps[j as int] == entries@[j as int].path@);
            let pp = parent_path(entries[j].path.as_str());
            match pp {
                None => {
                    parent.push(None);
                },
                Some(s) => {
                    proof {
                        lemma_parent_is_longest_ancestor(ps[j as int]);
                        assert(is_ancestor(s@, ps[j as int]));
                        assert(ps.contains(s@));
                    }
                    let (found, pos) = search_entry(&entries, s.as_str());
                    proof {
                        if !found {
                            let m = choose|m: int| 0 <= m < ps.len() && ps[m] == s@;
                            lemma_path_lt_irreflexive(s@);
                            if m < pos {
                                assert(path_lt(ps[m], s@));
                            } else {
                                assert(path_lt(s@, ps[m]));
                            }
                        }
                    }
                    parent.push(Some(pos));
                },
            }
            extracted.push(false);
            child_counts.push(0);
            j = j + 1;
        }
        let mut j: usize = 0;
        while j < n
            invariant
                n == entries@.len(),
                ps == entry_paths(entries@),
                strictly_sorted(ps),
                j <= n,
                parent@.len() == n,
                child_counts@.len() == n,
                forall|m: int|
                    0 <= m < n ==> match #[trigger] parent@[m] {
                        None => parent_of(ps[m]) is None,
                        Some(k) => 0 <= k < ps.len() && parent_of(ps[m]) == Some(ps[k as int]),
                    },
                forall|k: int|
                    0 <= k < n ==> #[trigger] child_counts@[k] == count_children(
                        ps.subrange(0, j as int),
                        ps[k],
                    ),
                forall|k: int| 0 <= k < n ==> #[trigger] child_counts@[k] <= j,
            decreases n - j,
        {
            let ghost before = child_counts@;
            proof {
                assert(ps.subrange(0, j + 1).drop_last() =~= ps.subrange(0, j as int));
                assert(ps.subrange(0, j + 1).last() == ps[j as int]);
            }
            match parent[j] {
                None => {
                    assert forall|k: int| 0 <= k < n implies #[trigger] child_counts@[k]
                        == count_children(ps.subrange(0, j + 1), ps[k]) by {}
                },
                Some(k0) => {
                    let c = child_counts[k0];
                    child_counts.set(k0, c + 1);
                    assert forall|k: int| 0 <= k < n implies #[trigger] child_counts@[k]
                        == count_children(ps.subrange(0, j + 1), ps[k]) by {
                        if k != k0 {
                            lemma_sorted_distinct(ps, k, k0 as int);
                        }
                    }
                },
            }
            j = j + 1;
        }
        assert(ps.subrange(0, n as int) =~= ps);
        let r = LayerTree { entries, extracted, parent, child_counts };
        assert(r.extracted_set() =~= Set::<Seq<char>>::empty());
        proof {
            let d = dirs_with_ancestors(listed_paths(names(lines@)), listed_dirs(names(lines@)));
            assert forall|p: Seq<char>| #[trigger] r.dirs().contains(p) <==> d.contains(p) by {
                if has_dir(r.entries@, p) {
                    let i = choose|i: int| 0 <= i < r.entries@.len() && #[trigger] r.entries@[i].path@ == p
                        && r.entries@[i].is_dir;
                    assert(r.entries@[i].is_dir <==> d.contains(r.entries@[i].path@));
                }
                if d.contains(p) {
                    let ls = names(lines@);
                    if listed_dirs(ls).contains(p) {
                        let j = choose|j: int| 0 <= j < ls.len() && #[trigger] entry_of(ls[j]) == Some((p, true));
                        assert(entry_path(ls[j]) == Some(p));
                        assert(listed_paths(ls).contains(p));
                    }
                    assert(with_ancestors(listed_paths(names(lines@))).contains(p));
                    assert(ps.contains(p));
                    let i = choose|i: int| 0 <= i < ps.len() && ps[i] == p;
                    assert(r.entries@[i].path@ == p);
                    assert(r.entries@[i].is_dir <==> d.contains(r.entries@[i].path@));
                }
            }
            assert(r.dirs() =~= d);
        }
        r
    }

    /// A path is matched by some entry (as the entry itself or a directory it lies in)
    /// exactly when it is an entry, since every directory of an entry is an entry.
    pub proof fn lemma_matched_iff_entry(&self, q: Seq<char>)
        requires
            self.wf(),
        ensures
            self.paths().contains(q) <==> exists|p: Seq<char>|
                #[trigger] self.paths().contains(p) && (p == q || is_ancestor(q, p)),
    {
        let ps = self.paths();
        if exists|p: Seq<char>| #[trigger] ps.contains(p) && (p == q || is_ancestor(q, p)) {
            let p = choose|p: Seq<char>| #[trigger] ps.contains(p) && (p == q || is_ancestor(q, p));
            let i = choose|i: int| 0 <= i < ps.len() && ps[i] == p;
            if p != q {
                assert(is_ancestor(q, ps[i]));
            }
        }
        if ps.contains(q) {
            assert(ps.contains(q) && (q == q || is_ancestor(q, q)));
        }
    }

    /// Whether `path` has been extracted.
    pub fn is_extracted(&self, path: &str) -> (r: bool)
        requires
            self.wf(),
        ensures
            r == self.extracted_set().contains(path@),
    {
        let (found, pos) = search_entry(&self.entries, path);
        let ghost ps = self.paths();
        if found {
            assert(self.entries@[pos as int].path@ == path@);
            let r = self.extracted[pos];
            proof {
                if self.extracted_set().contains(path@) {
                    let i = choose|i: int|
                        0 <= i < self.entries@.len() && self.entries@[i].path@ == path@
                            && #[trigger] self.extracted@[i];
                    if i != pos {
                        assert(ps[i] == path@);
                        lemma_sorted_distinct(ps, i, pos as int);
                    }
                }
            }
            r
        } else {
            proof {
                if self.extracted_set().contains(path@) {
                    let i = choose|i: int|
                        0 <= i < self.entries@.len() && self.entries@[i].path@ == path@
                            && #[trigger] self.extracted@[i];
                    assert(ps[i] == path@);
                    lemma_path_lt_irreflexive(path@);
                    if i < pos {
                        assert(path_lt(ps[i], path@));
                    } else {
                        assert(path_lt(path@, ps[i]));
                    }
                }
            }
            false
        }
    }

    /// Extracts subtree `path`: it, every entry under it and every directory it lies in
    /// are marked extracted; what was extracted stays so. Fails with `SubtreeNotFound`
    /// where no entry is `path` or lies under it, and then changes nothing.
    pub fn extract_subtree(&mut self, path: &str) -> (r: Result<(), EngineError>)
        requires
            old(self).wf(),
        ensures
            final(self).wf(),
            final(self).paths() == old(self).paths(),
            final(self).dirs() == old(self).dirs(),
            r is Err <==> !old(self).paths().contains(path@),
            r is Err ==> r matches Err(EngineError::SubtreeNotFound),
            r is Err ==> final(self).extracted_set() == old(self).extracted_set(),
            r is Ok ==> final(self).extracted_set() == extraction_after(
                old(self).paths(),
                old(self).extracted_set(),
                path@,
            ),
            r is Ok ==> final(self).extracted_set().contains(path@),
            r is Ok ==> forall|a: Seq<char>|
                #[trigger] is_ancestor(a, path@) ==> final(self).extracted_set().contains(a),
    {
        let ghost ps = self.paths();
        let ghost q = path@;
        let ghost old_x = self.extracted@;
        let ghost old_set = self.extracted_set();
        let (found, pos) = search_entry(&self.entries, path);
        if !found {
            proof {
                if ps.contains(q) {
                    let m = choose|m: int| 0 <= m < ps.len() && ps[m] == q;
                    lemma_path_lt_irreflexive(q);
                    if m < pos {
                        assert(path_lt(ps[m], q));
                    } else {
                        assert(path_lt(q, ps[m]));
                    }
                }
            }
            return Err(EngineError::SubtreeNotFound);
        }
        assert(ps[pos as int] == q);
        let n = self.entries.len();
        let mut i: usize = 0;
        while i < n
            invariant
                n == self.entries@.len(),
                ps == self.paths(),
                self.entries == old(self).entries,
                self.parent == old(self).parent,
                self.child_counts == old(self).child_counts,
                strictly_sorted(ps),
                q == path@,
                old_x == old(self).extracted@,
                old_set == old(self).extracted_set(),
                i <= n,
                pos < n,
                ps[pos as int] == q,
                self.extracted@.len() == n,
                forall|m: int|
                    0 <= m < n ==> #[trigger] self.extracted@[m] == (old_x[m] || (m < i && related(
                        q,
                        ps[m],
                    ))),
            decreases n - i,
        {
            assert(ps[i as int] == self.entries@[i as int].path@);
            let here = self.entries[i].path.as_str();
            assert(here@ == ps[i as int]);
            let below = ancestor_of(path, here);
            let above = ancestor_of(here, path);
            let hit = i == pos || below || above;
            assert(below == is_ancestor(q, ps[i as int]));
            assert(above == is_ancestor(ps[i as int], q));
            proof {
                if ps[i as int] == q && i != pos {
                    lemma_sorted_distinct(ps, i as int, pos as int);
                }
            }
            assert(hit == related(q, ps[i as int]));
            if hit {
                self.extracted.set(i, true);
            }
            i = i + 1;
        }
        proof {
            let want = extraction_after(ps, old_set, q);
            assert forall|p: Seq<char>| #[trigger] self.extracted_set().contains(p) <==> want.contains(p) by {
                if self.extracted_set().contains(p) {
                    let m = choose|m: int|
                        0 <= m < self.entries@.len() && self.entries@[m].path@ == p
                            && #[trigger] self.extracted@[m];
                    assert(ps[m] == p);
                    if old_x[m] {
                        assert(old_set.contains(p));
                    }
                }
                if old_set.contains(p) {
                    let m = choose|m: int|
                        0 <= m < self.entries@.len() && self.entries@[m].path@ == p && #[trigger] old_x[m];
                    assert(self.extracted@[m]);
                }
                if ps.contains(p) && related(q, p) {
                    let m = choose|m: int| 0 <= m < ps.len() && ps[m] == p;
                    assert(self.entries@[m].path@ == p);
                    assert(self.extracted@[m]);
                }
            }
            assert(self.extracted_set() =~= want);
            assert forall|p: Seq<char>, a: Seq<char>|
                #[trigger] self.extracted_set().contains(p) && #[trigger] is_ancestor(a, p)
                    implies self.extracted_set().contains(a) by {
                if old_set.contains(p) {
                    assert(old_set.contains(a));
                } else {
                    lemma_related_ancestor(q, p, a);
                    let m = choose|m: int| 0 <= m < ps.len() && ps[m] == p;
                    assert(is_ancestor(a, ps[m]));
                    assert(ps.contains(a));
                }
            }
            assert(ps.contains(q));
            assert(related(q, q));
            assert forall|a: Seq<char>| #[trigger] is_ancestor(a, q) implies self.extracted_set().contains(a) by {
                assert(is_ancestor(a, ps[pos as int]));
                assert(ps.contains(a));
                assert(related(q, a));
            }
        }
        Ok(())
    }

    /// Extracts the whole archive: every path is then extracted.
    pub fn extract_all(&mut self)
        requires
            old(self).wf(),
        ensures
            final(self).wf(),
            final(self).paths() == old(self).paths(),
            final(self).dirs() == old(self).dirs(),
            forall|p: Seq<char>| #[trigger] final(self).extracted_set().contains(p) <==> old(self).paths().contains(p),
    {
        let ghost ps = self.paths();
        let n = self.entries.len();
        let mut i: usize = 0;
        while i < n
            invariant
                n == self.entries@.len(),
                ps == self.paths(),
                self.entries == old(self).entries,
                self.parent == old(self).parent,
                self.child_counts == old(self).child_counts,
                i <= n,
                self.extracted@.len() == n,
                forall|m: int| 0 <= m < n ==> #[trigger] self.extracted@[m] == (m < i || old(self).extracted@[m]),
            decreases n - i,
        {
            self.extracted.set(i, true);
            i = i + 1;
        }
        proof {
            assert forall|p: Seq<char>| #[trigger] self.extracted_set().contains(p) <==> ps.contains(p) by {
                if ps.contains(p) {
                    let m = choose|m: int| 0 <= m < ps.len() && ps[m] == p;
                    assert(self.entries@[m].path@ == p && self.extracted@[m]);
                }
                if self.extracted_set().contains(p) {
                    let m = choose|m: int|
                        0 <= m < self.entries@.len() && self.entries@[m].path@ == p
                            && #[trigger] self.extracted@[m];
                    assert(ps[m] == p);
                }
            }
            assert forall|p: Seq<char>, a: Seq<char>|
                #[trigger] self.extracted_set().contains(p) && #[trigger] is_ancestor(a, p)
                    implies self.extracted_set().contains(a) by {
                let m = choose|m: int| 0 <= m < ps.len() && ps[m] == p;
                assert(is_ancestor(a, ps[m]));
            }
        }
    }

    /// Lists the entries lying directly in `dir` (the top level where `dir` is empty), in
    /// listing order, from the table of contents whatever has been extracted. Each node
    /// tells whether it is a directory and extracted, how many entries lie directly in it,
    /// and whether it is pending: neither it nor `dir` extracted. Fails with
    /// `SubtreeNotFound` where `dir` is not empty and not an entry.
    pub fn list_children(&self, dir: &str) -> (r: Result<Vec<DirectoryNode>, EngineError>)
        requires
            self.wf(),
        ensures
            r is Err <==> (dir@.len() > 0 && !self.paths().contains(dir@)),
            r is Err ==> r matches Err(EngineError::SubtreeNotFound),
            r matches Ok(v) ==> children_listing(*self, dir@, v@),
    {
        let ghost ps = self.paths();
        let top = dir.unicode_len() == 0;
        let mut di: usize = 0;
        let mut dir_done = false;
        if !top {
            let (found, pos) = search_entry(&self.entries, dir);
            if !found {
                proof {
                    if ps.contains(dir@) {
                        let m = choose|m: int| 0 <= m < ps.len() && ps[m] == dir@;
                        lemma_path_lt_irreflexive(dir@);
                        if m < pos {
                            assert(path_lt(ps[m], dir@));
                        } else {
                            assert(path_lt(dir@, ps[m]));
                        }
                    }
                }
                return Err(EngineError::SubtreeNotFound);
            }
            di = pos;
            dir_done = self.extracted[pos];
            proof {
                assert(ps[pos as int] == dir@);
                assert(self.entries@[pos as int].path@ == dir@);
                if self.extracted_set().contains(dir@) && !dir_done {
                    let m = choose|m: int|
                        0 <= m < self.entries@.len() && self.entries@[m].path@ == dir@
                            && #[trigger] self.extracted@[m];
                    lemma_sorted_distinct(ps, m, pos as int);
                }
            }
        }
        assert(dir_done == (dir@.len() > 0 && self.extracted_set().contains(dir@)));
        let mut out: Vec<DirectoryNode> = Vec::new();
        let n = self.entries.len();
        let mut j: usize = 0;
        while j < n
            invariant
                self.wf(),
                ps == self.paths(),
                n == ps.len(),
                j <= n,
                top == (dir@.len() == 0),
                !top ==> di < n && ps[di as int] == dir@,
                dir_done == (dir@.len() > 0 && self.extracted_set().contains(dir@)),
                strictly_sorted(node_paths(out@)),
                j < n ==> forall|k: int|
                    0 <= k < out@.len() ==> path_lt(#[trigger] node_paths(out@)[k], ps[j as int]),
                forall|p: Seq<char>|
                    #[trigger] node_paths(out@).contains(p) <==> (exists|m: int|
                        0 <= m < j && ps[m] == p && parent_of(p) == listed_parent(dir@)),
                forall|k: int|
                    0 <= k < out@.len() ==> {
                        let c = #[trigger] out@[k].relative_path@;
                        &&& out@[k].is_directory == self.dirs().contains(c)
                        &&& out@[k].extracted == self.extracted_set().contains(c)
                        &&& out@[k].child_count == count_children(ps, c)
                        &&& out@[k].pending == (!self.extracted_set().contains(c) && !dir_done)
                    },
            decreases n - j,
        {
            let ghost c = ps[j as int];
            let ghost before = node_paths(out@);
            assert(self.entries@[j as int].path@ == c);
            let take = match self.parent[j] {
                None => top,
                Some(k) => !top && k == di,
            };
            proof {
                match self.parent@[j as int] {
                    None => {},
                    Some(k) => {
                        if !top && k != di && parent_of(c) == listed_parent(dir@) {
                            lemma_sorted_distinct(ps, k as int, di as int);
                        }
                    },
                }
            }
            assert(take == (parent_of(c) == listed_parent(dir@)));
            if take {
                let e = &self.entries[j];
                let x = self.extracted[j];
                proof {
                    assert(self.dirs().contains(c) == e.is_dir) by {
                        if has_dir(self.entries@, c) && !e.is_dir {
                            let m = choose|m: int| 0 <= m < self.entries@.len()
                                && #[trigger] self.entries@[m].path@ == c && self.entries@[m].is_dir;
                            lemma_sorted_distinct(ps, m, j as int);
                        }
                    }
                    assert(self.extracted_set().contains(c) == x) by {
                        if self.extracted_set().contains(c) && !x {
                            let m = choose|m: int|
                                0 <= m < self.entries@.len() && self.entries@[m].path@ == c
                                    && #[trigger] self.extracted@[m];
                            lemma_sorted_distinct(ps, m, j as int);
                        }
                    }
                }
                let node = DirectoryNode {
                    relative_path: e.path.clone(),
                    is_directory: e.is_dir,
                    extracted: x,
                    child_count: self.child_counts[j],
                    pending: !x && !dir_done,
                };
                out.push(node);
                proof {
                    assert(node_paths(out@) =~= before.push(c));
                    assert(out@[out@.len() - 1].relative_path@ == c);
                }
            }
            proof {
                let now = node_paths(out@);
                assert forall|p: Seq<char>|
                    #[trigger] now.contains(p) <==> (exists|m: int|
                        0 <= m < j + 1 && ps[m] == p && parent_of(p) == listed_parent(dir@)) by {
                    if now.contains(p) {
                        let k = choose|k: int| 0 <= k < now.len() && now[k] == p;
                        if k < before.len() {
                            assert(before[k] == p);
                            assert(before.contains(p));
                        }
                    }
                    if exists|m: int| 0 <= m < j + 1 && ps[m] == p && parent_of(p) == listed_parent(dir@) {
                        let m = choose|m: int| 0 <= m < j + 1 && ps[m] == p && parent_of(p) == listed_parent(dir@);
                        if m < j {
                            assert(before.contains(p));
                            let k = choose|k: int| 0 <= k < before.len() && before[k] == p;
                            assert(now[k] == p);
                        } else {
                            assert(now[now.len() - 1] == p);
                        }
                    }
                }
                if j + 1 < n {
                    let next = ps[j + 1];
                    assert(path_lt(c, next));
                    assert forall|k: int| 0 <= k < out@.len() implies path_lt(#[trigger] node_paths(out@)[k], next) by {
                        if k < before.len() {
                            assert(node_paths(out@)[k] == before[k]);
                            crate::lex::lemma_path_lt_transitive(before[k], c, next);
                        } else {
                            assert(node_paths(out@)[k] == c);
                        }
                    }
                }
                if take {
                    assert forall|a: int, b: int| 0 <= a < b < now.len() implies path_lt(#[trigger] now[a], #[trigger] now[b]) by {
                        if b == now.len() - 1 {
                            assert(now[b] == c);
                            assert(now[a] == before[a]);
                        } else {
                            assert(now[a] == before[a] && now[b] == before[b]);
                        }
                    }
                }
            }
            j = j + 1;
        }
        proof {
            assert forall|p: Seq<char>|
                #[trigger] node_paths(out@).contains(p) <==> (ps.contains(p) && parent_of(p) == listed_parent(dir@)) by {
                if ps.contains(p) && parent_of(p) == listed_parent(dir@) {
                    let m = choose|m: int| 0 <= m < ps.len() && ps[m] == p;
                    assert(0 <= m < n && ps[m] == p && parent_of(p) == listed_parent(dir@));
                }
            }
        }
        Ok(out)
    }

    /// An overview of the top of the tree: every entry lying in fewer than `max_depth`
    /// directories, in listing order, with its depth. A directory at the last listed depth
    /// that has entries of its own is marked as having more available, in place of listing
    /// them.
    pub fn overview(&self, max_depth: usize) -> (r: Vec<OverviewEntry>)
        requires
            self.wf(),
        ensures
            strictly_sorted(overview_paths(r@)),
            forall|p: Seq<char>|
                #[trigger] overview_paths(r@).contains(p) <==> (self.paths().contains(p) && depth_of(p) < max_depth),
            forall|k: int|
                0 <= k < r@.len() ==> {
                    let c = #[trigger] r@[k].path@;
                    &&& r@[k].depth == depth_of(c)
                    &&& r@[k].is_directory == self.dirs().contains(c)
                    &&& r@[k].more_available == (self.dirs().contains(c) && depth_of(c) + 1 == max_depth
                        && count_children(self.paths(), c) > 0)
                },
    {
        let ghost ps = self.paths();
        let mut out: Vec<OverviewEntry> = Vec::new();
        let n = self.entries.len();
        let mut j: usize = 0;
        while j < n
            invariant
                self.wf(),
                ps == self.paths(),
                n == ps.len(),
                j <= n,
                strictly_sorted(overview_paths(out@)),
                j < n ==> forall|k: int|
                    0 <= k < out@.len() ==> path_lt(#[trigger] overview_paths(out@)[k], ps[j as int]),
                forall|p: Seq<char>|
                    #[trigger] overview_paths(out@).contains(p) <==> (exists|m: int|
                        0 <= m < j && ps[m] == p && depth_of(p) < max_depth),
                forall|k: int|
                    0 <= k < out@.len() ==> {
                        let c = #[trigger] out@[k].path@;
                        &&& out@[k].depth == depth_of(c)
                        &&& out@[k].is_directory == self.dirs().contains(c)
                        &&& out@[k].more_available == (self.dirs().contains(c) && depth_of(c) + 1
                            == max_depth && count_children(ps, c) > 0)
                    },
            decreases n - j,
        {
            let ghost c = ps[j as int];
            let ghost before = overview_paths(out@);
            let e = &self.entries[j];
            assert(e.path@ == c);
            let d = path_depth(e.path.as_str());
            if d < max_depth {
                proof {
                    assert(self.dirs().contains(c) == e.is_dir) by {
                        if has_dir(self.entries@, c) && !e.is_dir {
                            let m = choose|m: int| 0 <= m < self.entries@.len()
                                && #[trigger] self.entries@[m].path@ == c && self.entries@[m].is_dir;
                            lemma_sorted_distinct(ps, m, j as int);
                        }
                    }
                }
                let more = e.is_dir && d + 1 == max_depth && self.child_counts[j] > 0;
                out.push(OverviewEntry { path: e.path.clone(), is_directory: e.is_dir, depth: d, more_available: more });
                proof {
                    assert(overview_paths(out@) =~= before.push(c));
                }
            }
            proof {
                let now = overview_paths(out@);
                assert forall|p: Seq<char>|
                    #[trigger] now.contains(p) <==> (exists|m: int|
                        0 <= m < j + 1 && ps[m] == p && depth_of(p) < max_depth) by {
                    if now.contains(p) {
                        let k = choose|k: int| 0 <= k < now.len() && now[k] == p;
                        if k < before.len() {
                            assert(before[k] == p);
                            assert(before.contains(p));
                        }
                    }
                    if exists|m: int| 0 <= m < j + 1 && ps[m] == p && depth_of(p) < max_depth {
                        let m = choose|m: int| 0 <= m < j + 1 && ps[m] == p && depth_of(p) < max_depth;
                        if m < j {
                            assert(before.contains(p));
                            let k = choose|k: int| 0 <= k < before.len() && before[k] == p;
                            assert(now[k] == p);
                        } else {
                            assert(now[now.len() - 1] == p);
                        }
                    }
                }
                if j + 1 < n {
                    let next = ps[j + 1];
                    assert(path_lt(c, next));
                    assert forall|k: int| 0 <= k < out@.len() implies path_lt(#[trigger] overview_paths(out@)[k], next) by {
                        if k < before.len() {
                            assert(overview_paths(out@)[k] == before[k]);
                            crate::lex::lemma_path_lt_transitive(before[k], c, next);
                        } else {
                            assert(overview_paths(out@)[k] == c);
                        }
                    }
                }
                if d < max_depth {
                    assert forall|a: int, b: int| 0 <= a < b < now.len() implies path_lt(#[trigger] now[a], #[trigger] now[b]) by {
                        if b == now.len() - 1 {
                            assert(now[b] == c);
                            assert(now[a] == before[a]);
                        } else {
                            assert(now[a] == before[a] && now[b] == before[b]);
                        }
                    }
                }
            }
            j = j + 1;
        }
        proof {
            assert forall|p: Seq<char>|
                #[trigger] overview_paths(out@).contains(p) <==> (ps.contains(p) && depth_of(p) < max_depth) by {
                if ps.contains(p) && depth_of(p) < max_depth {
                    let m = choose|m: int| 0 <= m < ps.len() && ps[m] == p;
                    assert(0 <= m < n && ps[m] == p && depth_of(p) < max_depth);
                }
            }
        }
        out
    }
}

} // verus!
