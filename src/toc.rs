use vstd::prelude::*;
use vstd::string::*;
use core::cmp::Ordering;
use crate::diff::names;
use crate::lex::{compare_paths, lemma_path_lt_irreflexive, lemma_path_lt_transitive, path_lt, strictly_sorted};

verus! {

/// One path of an archive's table of contents.
pub struct ArchiveEntry {
    pub path: String,
    pub is_dir: bool,
}

/// White space as Unicode's `White_Space` property has it, which is what `str::trim`
/// removes and what a regular expression's `\s` matches.
pub open spec fn is_space(c: char) -> bool {
    let u = c as u32;
    (0x09 <= u && u <= 0x0d) || u == 0x20 || u == 0x85 || u == 0xa0 || u == 0x1680 || (0x2000 <= u
        && u <= 0x200a) || u == 0x2028 || u == 0x2029 || u == 0x202f || u == 0x205f || u == 0x3000
}

/// `s` without trailing white space.
pub open spec fn trim_end(s: Seq<char>) -> Seq<char>
    decreases s.len(),
{
    if s.len() > 0 && is_space(s.last()) {
        trim_end(s.drop_last())
    } else {
        s
    }
}

/// `s` without leading white space.
pub open spec fn trim_start(s: Seq<char>) -> Seq<char>
    decreases s.len(),
{
    if s.len() > 0 && is_space(s[0]) {
        trim_start(s.drop_first())
    } else {
        s
    }
}

/// `s` without trailing separators.
pub open spec fn strip_slashes(s: Seq<char>) -> Seq<char>
    decreases s.len(),
{
    if s.len() > 0 && s.last() == '/' {
        strip_slashes(s.drop_last())
    } else {
        s
    }
}

/// A path that names an entry: not empty, and not the archive root `.`.
pub open spec fn names_entry(p: Seq<char>) -> bool {
    p.len() > 0 && p != seq!['.']
}

/// The entry that one line of a listing names, if any: its path without surrounding
/// white space and trailing separators, and whether a trailing separator marked it as a
/// directory.
pub open spec fn entry_of(line: Seq<char>) -> Option<(Seq<char>, bool)> {
    let t = trim_start(trim_end(line));
    let c = strip_slashes(t);
    if names_entry(c) {
        Some((c, t.last() == '/'))
    } else {
        None
    }
}

/// The path of the entry that one line of a listing names, if any.
pub open spec fn entry_path(line: Seq<char>) -> Option<Seq<char>> {
    match entry_of(line) {
        Some((c, _)) => Some(c),
        None => None,
    }
}

/// `a` is a directory that path `p` lies in: a proper prefix of `p` that ends right
/// before a separator of `p`, is not itself ended by one, and names an entry.
pub open spec fn is_ancestor(a: Seq<char>, p: Seq<char>) -> bool {
    &&& names_entry(a)
    &&& a.len() < p.len()
    &&& a == p.subrange(0, a.len() as int)
    &&& p[a.len() as int] == '/'
    &&& a.last() != '/'
}

/// The paths that the lines of a listing name.
pub open spec fn listed_paths(lines: Seq<Seq<char>>) -> Set<Seq<char>> {
    Set::new(
        |p: Seq<char>|
            exists|j: int| 0 <= j < lines.len() && #[trigger] entry_path(lines[j]) == Some(p),
    )
}

/// The paths that the lines of a listing mark as directories.
pub open spec fn listed_dirs(lines: Seq<Seq<char>>) -> Set<Seq<char>> {
    Set::new(
        |p: Seq<char>|
            exists|j: int|
                0 <= j < lines.len() && #[trigger] entry_of(lines[j]) == Some((p, true)),
    )
}

/// The paths of `s` together with every directory that one of them lies in.
pub open spec fn with_ancestors(s: Set<Seq<char>>) -> Set<Seq<char>> {
    Set::new(
        |p: Seq<char>| s.contains(p) || exists|q: Seq<char>| s.contains(q) && #[trigger] is_ancestor(p, q),
    )
}

/// The directories among `with_ancestors(paths)`: those marked in `dirs`, and every
/// directory that a path of `paths` lies in.
pub open spec fn dirs_with_ancestors(paths: Set<Seq<char>>, dirs: Set<Seq<char>>) -> Set<Seq<char>> {
    Set::new(
        |p: Seq<char>|
            dirs.contains(p) || exists|q: Seq<char>| paths.contains(q) && #[trigger] is_ancestor(p, q),
    )
}

/// The paths of a list of entries.
pub open spec fn entry_paths(s: Seq<ArchiveEntry>) -> Seq<Seq<char>> {
    s.map_values(|e: ArchiveEntry| e.path@)
}

/// Some entry of `s` has path `p` and is a directory.
pub open spec fn has_dir(s: Seq<ArchiveEntry>, p: Seq<char>) -> bool {
    exists|i: int| 0 <= i < s.len() && #[trigger] s[i].path@ == p && s[i].is_dir
}

/// `r` holds exactly the entries of `paths`, each once, in listing order, each marked a
/// directory exactly when it is in `dirs`.
pub open spec fn holds_entries(r: Seq<ArchiveEntry>, paths: Set<Seq<char>>, dirs: Set<Seq<char>>) -> bool {
    &&& strictly_sorted(entry_paths(r))
    &&& forall|p: Seq<char>| #[trigger] entry_paths(r).contains(p) <==> paths.contains(p)
    &&& forall|i: int| 0 <= i < r.len() ==> (#[trigger] r[i].is_dir <==> dirs.contains(r[i].path@))
}

/// Ancestor of an ancestor is an ancestor.
pub proof fn lemma_ancestor_transitive(a: Seq<char>, b: Seq<char>, c: Seq<char>)
    requires
        is_ancestor(a, b),
        is_ancestor(b, c),
    ensures
        is_ancestor(a, c),
{
    assert(a =~= c.subrange(0, a.len() as int));
    assert(c[a.len() as int] == b[a.len() as int]);
}

/// Synthesizing the directories that the paths lie in is idempotent: doing it a second
/// time adds no path and marks no further directory.
pub proof fn lemma_synthesis_idempotent(paths: Set<Seq<char>>, dirs: Set<Seq<char>>)
    ensures
        with_ancestors(with_ancestors(paths)) == with_ancestors(paths),
        dirs_with_ancestors(with_ancestors(paths), dirs_with_ancestors(paths, dirs))
            == dirs_with_ancestors(paths, dirs),
{
    let w = with_ancestors(paths);
    assert forall|p: Seq<char>| #[trigger] with_ancestors(w).contains(p) implies w.contains(p) by {
        if !w.contains(p) {
            let q = choose|q: Seq<char>| w.contains(q) && #[trigger] is_ancestor(p, q);
            if !paths.contains(q) {
                let r = choose|r: Seq<char>| paths.contains(r) && #[trigger] is_ancestor(q, r);
                lemma_ancestor_transitive(p, q, r);
            }
        }
    }
    assert(with_ancestors(w) =~= w);
    let d = dirs_with_ancestors(paths, dirs);
    assert forall|p: Seq<char>| #[trigger] dirs_with_ancestors(w, d).contains(p) implies d.contains(p) by {
        if !d.contains(p) {
            let q = choose|q: Seq<char>| w.contains(q) && #[trigger] is_ancestor(p, q);
            if !paths.contains(q) {
                let r = choose|r: Seq<char>| paths.contains(r) && #[trigger] is_ancestor(q, r);
                lemma_ancestor_transitive(p, q, r);
            }
        }
    }
    assert(dirs_with_ancestors(w, d) =~= d);
}


/// How the closure grows when a listing gains one line that names entry `(c, d)`.
proof fn lemma_listing_step(lines: Seq<Seq<char>>, j: int)
    requires
        0 <= j < lines.len(),
    ensures
        ({
            let before = lines.subrange(0, j);
            let after = lines.subrange(0, j + 1);
            match entry_of(lines[j]) {
                Some((c, d)) => {
                    &&& forall|p: Seq<char>|
                        #[trigger] with_ancestors(listed_paths(after)).contains(p) <==> (
                        with_ancestors(listed_paths(before)).contains(p) || p == c || is_ancestor(p, c))
                    &&& forall|p: Seq<char>|
                        #[trigger] dirs_with_ancestors(listed_paths(after), listed_dirs(after)).contains(p)
                            <==> (dirs_with_ancestors(listed_paths(before), listed_dirs(before)).contains(p)
                            || (p == c && d) || is_ancestor(p, c))
                },
                None => {
                    &&& with_ancestors(listed_paths(after)) == with_ancestors(listed_paths(before))
                    &&& dirs_with_ancestors(listed_paths(after), listed_dirs(after))
                        == dirs_with_ancestors(listed_paths(before), listed_dirs(before))
                },
            }
        }),
{
    let before = lines.subrange(0, j);
    let after = lines.subrange(0, j + 1);
    assert forall|k: int| 0 <= k < j implies after[k] == before[k] by {}
    assert(after[j] == lines[j]);
    match entry_of(lines[j]) {
        Some((c, d)) => {
            assert(entry_path(after[j]) == Some(c));
            assert forall|p: Seq<char>|
                #[trigger] listed_paths(after).contains(p) <==> (listed_paths(before).contains(p) || p == c) by {
                if listed_paths(after).contains(p) {
                    let k = choose|k: int| 0 <= k < after.len() && #[trigger] entry_path(after[k]) == Some(p);
                    if k < j {
                        assert(entry_path(before[k]) == Some(p));
                    }
                }
                if listed_paths(before).contains(p) {
                    let k = choose|k: int| 0 <= k < before.len() && #[trigger] entry_path(before[k]) == Some(p);
                    assert(entry_path(after[k]) == Some(p));
                }
            }
            assert forall|p: Seq<char>|
                #[trigger] listed_dirs(after).contains(p) <==> (listed_dirs(before).contains(p) || (p == c && d)) by {
                if listed_dirs(after).contains(p) {
                    let k = choose|k: int| 0 <= k < after.len() && #[trigger] entry_of(after[k]) == Some((p, true));
                    if k < j {
                        assert(entry_of(before[k]) == Some((p, true)));
                    }
                }
                if listed_dirs(before).contains(p) {
                    let k = choose|k: int| 0 <= k < before.len() && #[trigger] entry_of(before[k]) == Some((p, true));
                    assert(entry_of(after[k]) == Some((p, true)));
                }
                if p == c && d {
                    assert(entry_of(after[j]) == Some((p, true)));
                }
            }
            assert forall|p: Seq<char>|
                #[trigger] with_ancestors(listed_paths(after)).contains(p) <==> (
                with_ancestors(listed_paths(before)).contains(p) || p == c || is_ancestor(p, c)) by {
                if with_ancestors(listed_paths(after)).contains(p) && !listed_paths(after).contains(p) {
                    let q = choose|q: Seq<char>| listed_paths(after).contains(q) && #[trigger] is_ancestor(p, q);
                }
                if with_ancestors(listed_paths(before)).contains(p) && !listed_paths(before).contains(p) {
                    let q = choose|q: Seq<char>| listed_paths(before).contains(q) && #[trigger] is_ancestor(p, q);
                    assert(listed_paths(after).contains(q));
                }
                if is_ancestor(p, c) {
                    assert(listed_paths(after).contains(c));
                }
            }
            assert forall|p: Seq<char>|
                #[trigger] dirs_with_ancestors(listed_paths(after), listed_dirs(after)).contains(p)
                    <==> (dirs_with_ancestors(listed_paths(before), listed_dirs(before)).contains(p)
                    || (p == c && d) || is_ancestor(p, c)) by {
                if dirs_with_ancestors(listed_paths(after), listed_dirs(after)).contains(p)
                    && !listed_dirs(after).contains(p) {
                    let q = choose|q: Seq<char>| listed_paths(after).contains(q) && #[trigger] is_ancestor(p, q);
                }
                if dirs_with_ancestors(listed_paths(before), listed_dirs(before)).contains(p)
                    && !listed_dirs(before).contains(p) {
                    let q = choose|q: Seq<char>| listed_paths(before).contains(q) && #[trigger] is_ancestor(p, q);
                    assert(listed_paths(after).contains(q));
                }
                if is_ancestor(p, c) {
                    assert(listed_paths(after).contains(c));
                }
            }
        },
        None => {
            assert(entry_path(after[j]) == None::<Seq<char>>);
            assert forall|p: Seq<char>|
                #[trigger] listed_paths(after).contains(p) <==> listed_paths(before).contains(p) by {
                if listed_paths(after).contains(p) {
                    let k = choose|k: int| 0 <= k < after.len() && #[trigger] entry_path(after[k]) == Some(p);
                    assert(entry_path(before[k]) == Some(p));
                }
                if listed_paths(before).contains(p) {
                    let k = choose|k: int| 0 <= k < before.len() && #[trigger] entry_path(before[k]) == Some(p);
                    assert(entry_path(after[k]) == Some(p));
                }
            }
            assert forall|p: Seq<char>|
                #[trigger] listed_dirs(after).contains(p) <==> listed_dirs(before).contains(p) by {
                if listed_dirs(after).contains(p) {
                    let k = choose|k: int| 0 <= k < after.len() && #[trigger] entry_of(after[k]) == Some((p, true));
                    assert(entry_of(before[k]) == Some((p, true)));
                }
                if listed_dirs(before).contains(p) {
                    let k = choose|k: int| 0 <= k < before.len() && #[trigger] entry_of(before[k]) == Some((p, true));
                    assert(entry_of(after[k]) == Some((p, true)));
                }
            }
            assert(listed_paths(after) =~= listed_paths(before));
            assert(listed_dirs(after) =~= listed_dirs(before));
        },
    }
}


pub(crate) fn is_space_char(c: char) -> (r: bool)
    ensures
        r == is_space(c),
{
    let u = c as u32;
    (0x09 <= u && u <= 0x0d) || u == 0x20 || u == 0x85 || u == 0xa0 || u == 0x1680 || (0x2000 <= u
        && u <= 0x200a) || u == 0x2028 || u == 0x2029 || u == 0x202f || u == 0x205f || u == 0x3000
}

/// Reads the entry that one listing line names.
pub fn parse_line(line: &str) -> (r: Option<(String, bool)>)
    ensures
        match r {
            Some((p, d)) => entry_of(line@) == Some((p@, d)),
            None => entry_of(line@) is None,
        },
{
    let ghost s = line@;
    let n = line.unicode_len();
    let mut hi: usize = n;
    assert(s.subrange(0, n as int) =~= s);
    while hi > 0 && is_space_char(line.get_char(hi - 1))
        invariant
            s == line@,
            n == s.len(),
            hi <= n,
            trim_end(s) == trim_end(s.subrange(0, hi as int)),
        decreases hi,
    {
        assert(s.subrange(0, hi as int).drop_last() =~= s.subrange(0, hi - 1));
        hi = hi - 1;
    }
    let mut lo: usize = 0;
    assert(trim_end(s) == s.subrange(0, hi as int));
    assert(s.subrange(0, hi as int) =~= s.subrange(lo as int, hi as int));
    while lo < hi && is_space_char(line.get_char(lo))
        invariant
            s == line@,
            n == s.len(),
            lo <= hi <= n,
            trim_start(trim_end(s)) == trim_start(s.subrange(lo as int, hi as int)),
        decreases hi - lo,
    {
        assert(s.subrange(lo as int, hi as int).drop_first() =~= s.subrange(lo + 1, hi as int));
        lo = lo + 1;
    }
    let ghost t = s.subrange(lo as int, hi as int);
    assert(trim_start(trim_end(s)) == t);
    let ends_with_slash = hi > lo && line.get_char(hi - 1) == '/';
    assert(ends_with_slash == (t.len() > 0 && t.last() == '/'));
    let mut e: usize = hi;
    assert(t =~= s.subrange(lo as int, e as int));
    while e > lo && line.get_char(e - 1) == '/'
        invariant
            s == line@,
            n == s.len(),
            lo <= e <= hi <= n,
            t == s.subrange(lo as int, hi as int),
            strip_slashes(t) == strip_slashes(s.subrange(lo as int, e as int)),
        decreases e,
    {
        assert(s.subrange(lo as int, e as int).drop_last() =~= s.subrange(lo as int, e - 1));
        e = e - 1;
    }
    let ghost c = s.subrange(lo as int, e as int);
    assert(strip_slashes(t) == c);
    if e == lo {
        return None;
    }
    if e == lo + 1 && line.get_char(lo) == '.' {
        assert(c =~= seq!['.']);
        return None;
    }
    assert(c != seq!['.']) by {
        if c.len() == 1 {
            assert(c[0] == s[lo as int]);
        }
    }
    let path = String::from_str(line.substring_char(lo, e));
    if ends_with_slash {
        assert(t.last() == '/');
    }
    Some((path, ends_with_slash))
}

pub(crate) fn search_entry(entries: &Vec<ArchiveEntry>, key: &str) -> (r: (bool, usize))
    requires
        strictly_sorted(entry_paths(entries@)),
    ensures
        r.1 <= entries@.len(),
        forall|j: int| 0 <= j < r.1 ==> path_lt(#[trigger] entry_paths(entries@)[j], key@),
        r.0 ==> r.1 < entries@.len() && entry_paths(entries@)[r.1 as int] == key@,
        !r.0 ==> forall|j: int|
            r.1 <= j < entries@.len() ==> path_lt(key@, #[trigger] entry_paths(entries@)[j]),
{
    let ghost ks = entry_paths(entries@);
    let mut lo: usize = 0;
    let mut hi: usize = entries.len();
    while lo < hi
        invariant
            ks == entry_paths(entries@),
            strictly_sorted(ks),
            lo <= hi <= entries@.len(),
            forall|j: int| 0 <= j < lo ==> path_lt(#[trigger] ks[j], key@),
            forall|j: int| hi <= j < entries@.len() ==> path_lt(key@, #[trigger] ks[j]),
        decreases hi - lo,
    {
        let mid = lo + (hi - lo) / 2;
        let c = compare_paths(key, entries[mid].path.as_str());
        assert(ks[mid as int] == entries@[mid as int].path@);
        match c {
            Ordering::Equal => {
                return (true, mid);
            },
            Ordering::Less => {
                assert forall|j: int| mid <= j < entries@.len() implies path_lt(key@, #[trigger] ks[j]) by {
                    if j > mid {
                        lemma_path_lt_transitive(key@, ks[mid as int], ks[j]);
                    }
                }
                hi = mid;
            },
            Ordering::Greater => {
                assert forall|j: int| 0 <= j <= mid implies path_lt(#[trigger] ks[j], key@) by {
                    if j < mid {
                        lemma_path_lt_transitive(ks[j], ks[mid as int], key@);
                    }
                }
                lo = mid + 1;
            },
        }
    }
    (false, lo)
}

/// Adds entry `(path, is_dir)` to a sorted list of entries; a path already listed stays
/// once, and is a directory if either record says so.
fn insert_entry(entries: &mut Vec<ArchiveEntry>, path: String, is_dir: bool)
    requires
        strictly_sorted(entry_paths(old(entries)@)),
    ensures
        strictly_sorted(entry_paths(final(entries)@)),
        forall|p: Seq<char>|
            #[trigger] entry_paths(final(entries)@).contains(p) <==> (entry_paths(old(entries)@).contains(p)
                || p == path@),
        forall|p: Seq<char>|
            #[trigger] has_dir(final(entries)@, p) <==> (has_dir(old(entries)@, p) || (p == path@ && is_dir)),
{
    let ghost old_e = entries@;
    let ghost ks = entry_paths(entries@);
    let ghost key = path@;
    let (found, pos) = search_entry(entries, path.as_str());
    if found {
        if is_dir && !entries[pos].is_dir {
            entries.set(pos, ArchiveEntry { path, is_dir: true });
            assert(entry_paths(entries@) =~= ks);
            assert forall|p: Seq<char>|
                #[trigger] has_dir(entries@, p) <==> (has_dir(old_e, p) || (p == key && is_dir)) by {
                if has_dir(old_e, p) {
                    let i = choose|i: int| 0 <= i < old_e.len() && #[trigger] old_e[i].path@ == p && old_e[i].is_dir;
                    assert(entries@[i].path@ == p && entries@[i].is_dir);
                }
                if has_dir(entries@, p) {
                    let i = choose|i: int| 0 <= i < entries@.len() && #[trigger] entries@[i].path@ == p
                        && entries@[i].is_dir;
                    if i != pos {
                        assert(old_e[i].path@ == p && old_e[i].is_dir);
                    }
                }
                if p == key && is_dir {
                    assert(entries@[pos as int].path@ == p && entries@[pos as int].is_dir);
                }
            }
        } else {
            assert forall|p: Seq<char>|
                #[trigger] has_dir(entries@, p) <==> (has_dir(old_e, p) || (p == key && is_dir)) by {
                if p == key && is_dir {
                    assert(ks[pos as int] == key);
                    assert(entries@[pos as int].path@ == p && entries@[pos as int].is_dir);
                }
            }
            assert(ks[pos as int] == key);
        }
    } else {
        entries.insert(pos, ArchiveEntry { path, is_dir });
        let ghost nk = entry_paths(entries@);
        assert(nk =~= ks.insert(pos as int, key));
        assert forall|a: int, b: int| 0 <= a < b < nk.len() implies path_lt(#[trigger] nk[a], #[trigger] nk[b]) by {
            if a < pos && b == pos {
            } else if a == pos && b > pos {
            } else if a < pos && b > pos {
                lemma_path_lt_transitive(nk[a], key, nk[b]);
            } else if a < pos && b < pos {
                assert(nk[a] == ks[a] && nk[b] == ks[b]);
            } else if a > pos {
                assert(nk[a] == ks[a - 1] && nk[b] == ks[b - 1]);
            } else {
                assert(nk[a] == ks[a] && nk[b] == ks[b - 1]);
            }
        }
        assert forall|p: Seq<char>| #[trigger] nk.contains(p) <==> (ks.contains(p) || p == key) by {
            if p == key {
                assert(nk[pos as int] == key);
            } else if nk.contains(p) {
                let j = choose|j: int| 0 <= j < nk.len() && nk[j] == p;
                if j < pos {
                    assert(ks[j] == p);
                } else {
                    assert(ks[j - 1] == p);
                }
            } else if ks.contains(p) {
                let j = choose|j: int| 0 <= j < ks.len() && ks[j] == p;
                if j < pos {
                    assert(nk[j] == p);
                } else {
                    assert(nk[j + 1] == p);
                }
            }
        }
        assert forall|p: Seq<char>|
            #[trigger] has_dir(entries@, p) <==> (has_dir(old_e, p) || (p == key && is_dir)) by {
            if has_dir(old_e, p) {
                let i = choose|i: int| 0 <= i < old_e.len() && #[trigger] old_e[i].path@ == p && old_e[i].is_dir;
                if i < pos {
                    assert(entries@[i] == old_e[i]);
                } else {
                    assert(entries@[i + 1] == old_e[i]);
                }
            }
            if has_dir(entries@, p) {
                let i = choose|i: int| 0 <= i < entries@.len() && #[trigger] entries@[i].path@ == p && entries@[i].is_dir;
                if i < pos {
                    assert(old_e[i] == entries@[i]);
                } else if i > pos {
                    assert(old_e[i - 1] == entries@[i]);
                }
            }
            if p == key && is_dir {
                assert(entries@[pos as int].path@ == p && entries@[pos as int].is_dir);
            }
        }
    }
}


/// Reads an archive's table of contents from the lines of its listing: each line names
/// one entry (white space around it and trailing separators dropped, `.` skipped), and
/// every directory that a named entry lies in is added though no line names it. Each
/// path comes once, in listing order; it is a directory when a line marks it so with a
/// trailing separator, or when another entry lies in it.
pub fn scan_listing(lines: &Vec<String>) -> (r: Vec<ArchiveEntry>)
    ensures
        holds_entries(
            r@,
            with_ancestors(listed_paths(names(lines@))),
            dirs_with_ancestors(listed_paths(names(lines@)), listed_dirs(names(lines@))),
        ),
{
    let ghost all = names(lines@);
    let mut entries: Vec<ArchiveEntry> = Vec::new();
    let n = lines.len();
    let mut j: usize = 0;
    assert(all.subrange(0, 0) =~= Seq::<Seq<char>>::empty());
    assert(entry_paths(entries@) =~= Seq::<Seq<char>>::empty());
    while j < n
        invariant
            n == lines@.len(),
            all == names(lines@),
            j <= n,
            strictly_sorted(entry_paths(entries@)),
            forall|p: Seq<char>|
                #[trigger] entry_paths(entries@).contains(p) <==> with_ancestors(
                    listed_paths(all.subrange(0, j as int)),
                ).contains(p),
            forall|p: Seq<char>|
                #[trigger] has_dir(entries@, p) <==> dirs_with_ancestors(
                    listed_paths(all.subrange(0, j as int)),
                    listed_dirs(all.subrange(0, j as int)),
                ).contains(p),
        decreases n - j,
    {
        let ghost before_paths = with_ancestors(listed_paths(all.subrange(0, j as int)));
        let ghost before_dirs = dirs_with_ancestors(
            listed_paths(all.subrange(0, j as int)),
            listed_dirs(all.subrange(0, j as int)),
        );
        proof {
            lemma_listing_step(all, j as int);
        }
        assert(all[j as int] == lines@[j as int]@);
        let parsed = parse_line(lines[j].as_str());
        match parsed {
            None => {},
            Some((c, d)) => {
                let ghost cv = c@;
                let clen = c.unicode_len();
                let mut i: usize = 1;
                while i < clen
                    invariant
                        cv == c@,
                        clen == cv.len(),
                        1 <= i,
                        strictly_sorted(entry_paths(entries@)),
                        forall|p: Seq<char>|
                            #[trigger] entry_paths(entries@).contains(p) <==> (before_paths.contains(p)
                                || (is_ancestor(p, cv) && p.len() < i)),
                        forall|p: Seq<char>|
                            #[trigger] has_dir(entries@, p) <==> (before_dirs.contains(p) || (
                            is_ancestor(p, cv) && p.len() < i)),
                    decreases clen - i,
                {
                    let ghost a = cv.subrange(0, i as int);
                    let here = c.get_char(i) == '/' && c.get_char(i - 1) != '/' && !(i == 1
                        && c.get_char(0) == '.');
                    assert forall|p: Seq<char>| p.len() == i implies (is_ancestor(p, cv) <==> (here
                        && p == a)) by {
                        if is_ancestor(p, cv) {
                            assert(p == a);
                            assert(p.last() == cv[i - 1]);
                            if i == 1 {
                                assert(p =~= seq![cv[0]]);
                            }
                        }
                        if here && p == a {
                            assert(a.last() == cv[i - 1]);
                            if i == 1 {
                                assert(a[0] == cv[0]);
                            }
                        }
                    }
                    if here {
                        let anc = String::from_str(c.as_str().substring_char(0, i));
                        insert_entry(&mut entries, anc, true);
                    }
                    i = i + 1;
                }
                assert forall|p: Seq<char>| is_ancestor(p, cv) implies p.len() < i by {}
                insert_entry(&mut entries, c, d);
            },
        }
        j = j + 1;
    }
    assert(all.subrange(0, n as int) =~= all);
    let ghost paths = with_ancestors(listed_paths(all));
    let ghost dirs = dirs_with_ancestors(listed_paths(all), listed_dirs(all));
    assert forall|i: int| 0 <= i < entries@.len() implies (#[trigger] entries@[i].is_dir <==> dirs.contains(
        entries@[i].path@,
    )) by {
        let p = entries@[i].path@;
        if dirs.contains(p) {
            assert(has_dir(entries@, p));
            let k = choose|k: int| 0 <= k < entries@.len() && #[trigger] entries@[k].path@ == p
                && entries@[k].is_dir;
            if k != i {
                let ks = entry_paths(entries@);
                assert(ks[k] == p && ks[i] == p);
                lemma_path_lt_irreflexive(p);
                if k < i {
                    assert(path_lt(ks[k], ks[i]));
                } else {
                    assert(path_lt(ks[i], ks[k]));
                }
            }
        }
        if entries@[i].is_dir {
            assert(has_dir(entries@, p));
        }
    }
    entries
}


/// Two strictly sorted lists that hold the same paths are the same list.
pub proof fn lemma_sorted_lists_equal(a: Seq<Seq<char>>, b: Seq<Seq<char>>)
    requires
        strictly_sorted(a),
        strictly_sorted(b),
        forall|p: Seq<char>| a.contains(p) <==> b.contains(p),
    ensures
        a == b,
    decreases a.len() + b.len(),
{
    if a.len() == 0 || b.len() == 0 {
        if a.len() > 0 {
            assert(a.contains(a[0]));
        }
        if b.len() > 0 {
            assert(b.contains(b[0]));
        }
        assert(a =~= b);
    } else {
        assert(a.contains(a[0]));
        assert(b.contains(b[0]));
        let i = choose|i: int| 0 <= i < b.len() && b[i] == a[0];
        let j = choose|j: int| 0 <= j < a.len() && a[j] == b[0];
        if i > 0 {
            assert(path_lt(b[0], b[i]));
            if j > 0 {
                assert(path_lt(a[0], a[j]));
                lemma_path_lt_transitive(b[0], a[0], b[0]);
                lemma_path_lt_irreflexive(b[0]);
            } else {
                lemma_path_lt_irreflexive(b[0]);
            }
        } else if j > 0 {
            assert(path_lt(a[0], a[j]));
            lemma_path_lt_irreflexive(a[0]);
        }
        assert(a[0] == b[0]);
        let ra = a.drop_first();
        let rb = b.drop_first();
        assert forall|p: Seq<char>| ra.contains(p) <==> rb.contains(p) by {
            if ra.contains(p) {
                let k = choose|k: int| 0 <= k < ra.len() && ra[k] == p;
                assert(a[k + 1] == p);
                assert(path_lt(a[0], p));
                assert(b.contains(p));
                let m = choose|m: int| 0 <= m < b.len() && b[m] == p;
                if m == 0 {
                    lemma_path_lt_irreflexive(p);
                }
                assert(rb[m - 1] == p);
            }
            if rb.contains(p) {
                let k = choose|k: int| 0 <= k < rb.len() && rb[k] == p;
                assert(b[k + 1] == p);
                assert(path_lt(b[0], p));
                assert(a.contains(p));
                let m = choose|m: int| 0 <= m < a.len() && a[m] == p;
                if m == 0 {
                    lemma_path_lt_irreflexive(p);
                }
                assert(ra[m - 1] == p);
            }
        }
        lemma_sorted_lists_equal(ra, rb);
        assert(a =~= seq![a[0]] + ra);
        assert(b =~= seq![b[0]] + rb);
    }
}

/// The table of contents is determined by the listing: any two results of reading the
/// same listing (so, two readings of one archive) hold the same entries in the same
/// order, with the same directory marks.
pub proof fn lemma_scan_deterministic(
    lines: Seq<String>,
    r1: Seq<ArchiveEntry>,
    r2: Seq<ArchiveEntry>,
)
    requires
        holds_entries(
            r1,
            with_ancestors(listed_paths(names(lines))),
            dirs_with_ancestors(listed_paths(names(lines)), listed_dirs(names(lines))),
        ),
        holds_entries(
            r2,
            with_ancestors(listed_paths(names(lines))),
            dirs_with_ancestors(listed_paths(names(lines)), listed_dirs(names(lines))),
        ),
    ensures
        entry_paths(r1) == entry_paths(r2),
        forall|i: int| 0 <= i < r1.len() ==> #[trigger] r1[i].is_dir == r2[i].is_dir,
{
    let first = entry_paths(r1);
    let second = entry_paths(r2);
    assert forall|p: Seq<char>| first.contains(p) <==> second.contains(p) by {
        assert(first.contains(p) <==> with_ancestors(listed_paths(names(lines))).contains(p));
        assert(second.contains(p) <==> with_ancestors(listed_paths(names(lines))).contains(p));
    }
    lemma_sorted_lists_equal(first, second);
    assert forall|i: int| 0 <= i < r1.len() implies #[trigger] r1[i].is_dir == r2[i].is_dir by {
        assert(first[i] == second[i]);
        assert(r1[i].path@ == r2[i].path@);
    }
}

} // verus!
