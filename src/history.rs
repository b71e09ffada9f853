use vstd::prelude::*;
use vstd::string::*;
use crate::diff::names;
use crate::error::EngineError;
use crate::layer_ref::{layer_number, resolve_layer};
use crate::lex::paths_equal;
use crate::records::DockerImage;

verus! {

/// The pieces of `s` between occurrences of `sep`; a string without `sep` is one piece.
pub open spec fn split_on(s: Seq<char>, sep: char) -> Seq<Seq<char>>
    decreases s.len(),
{
    if s.len() == 0 {
        seq![Seq::<char>::empty()]
    } else if s.last() == sep {
        split_on(s.drop_last(), sep).push(Seq::<char>::empty())
    } else {
        let f = split_on(s.drop_last(), sep);
        f.update(f.len() - 1, f.last().push(s.last()))
    }
}

/// The `|`-separated fields of `s`.
pub open spec fn fields(s: Seq<char>) -> Seq<Seq<char>> {
    split_on(s, '|')
}

pub proof fn lemma_split_nonempty(s: Seq<char>, sep: char)
    ensures
        split_on(s, sep).len() >= 1,
    decreases s.len(),
{
    if s.len() > 0 {
        lemma_split_nonempty(s.drop_last(), sep);
    }
}

/// Splits `line` at every `|`.
pub fn split_fields(line: &str) -> (r: Vec<String>)
    ensures
        names(r@) == fields(line@),
{
    split_at_char(line, '|')
}

/// Splits `line` at every `sep`.
pub fn split_at_char(line: &str, sep: char) -> (r: Vec<String>)
    ensures
        names(r@) == split_on(line@, sep),
{
    let ghost s = line@;
    let n = line.unicode_len();
    let mut out: Vec<String> = Vec::new();
    let mut start: usize = 0;
    let mut i: usize = 0;
    assert(s.subrange(0, 0) =~= Seq::<char>::empty());
    assert(names(out@).push(s.subrange(0, 0)) =~= split_on(s.subrange(0, 0), sep));
    while i < n
        invariant
            s == line@,
            n == s.len(),
            start <= i <= n,
            names(out@).push(s.subrange(start as int, i as int)) == split_on(s.subrange(0, i as int), sep),
        decreases n - i,
    {
        let ghost prev = s.subrange(0, i as int);
        assert(s.subrange(0, i + 1).drop_last() =~= prev);
        assert(s.subrange(0, i + 1).last() == s[i as int]);
        proof {
            lemma_split_nonempty(prev, sep);
        }
        if line.get_char(i) == sep {
            let piece = String::from_str(line.substring_char(start, i));
            let ghost before = names(out@);
            out.push(piece);
            assert(names(out@) =~= before.push(s.subrange(start as int, i as int)));
            start = i + 1;
            assert(s.subrange(start as int, i + 1) =~= Seq::<char>::empty());
        } else {
            assert(s.subrange(start as int, i + 1) =~= s.subrange(start as int, i as int).push(s[i as int]));
            assert(names(out@).push(s.subrange(start as int, i + 1)) =~= split_on(prev, sep).update(
                split_on(prev, sep).len() - 1,
                split_on(prev, sep).last().push(s[i as int]),
            ));
        }
        i = i + 1;
    }
    let last = String::from_str(line.substring_char(start, n));
    let ghost before = names(out@);
    out.push(last);
    assert(names(out@) =~= before.push(s.subrange(start as int, n as int)));
    assert(s.subrange(0, n as int) =~= s);
    out
}

/// One line of an image's history: `id|created|size|command`.
#[derive(Debug)]
pub struct HistoryEntry {
    pub id: String,
    pub created: String,
    pub size: String,
    pub command: String,
}

/// The history entry that `line` holds, where it has at least four fields; further
/// fields are ignored.
pub open spec fn history_entry_of(line: Seq<char>) -> Option<(Seq<char>, Seq<char>, Seq<char>, Seq<char>)> {
    let f = fields(line);
    if f.len() >= 4 {
        Some((f[0], f[1], f[2], f[3]))
    } else {
        None
    }
}

/// Reads one history line.
pub fn parse_history_line(line: &str) -> (r: Option<HistoryEntry>)
    ensures
        match r {
            Some(e) => history_entry_of(line@) == Some((e.id@, e.created@, e.size@, e.command@)),
            None => history_entry_of(line@) is None,
        },
{
    let mut f = split_fields(line);
    if f.len() < 4 {
        return None;
    }
    let ghost v = names(f@);
    f.truncate(4);
    let command = f.pop().unwrap();
    let size = f.pop().unwrap();
    let created = f.pop().unwrap();
    let id = f.pop().unwrap();
    assert(id@ == v[0] && created@ == v[1] && size@ == v[2] && command@ == v[3]);
    Some(HistoryEntry { id, created, size, command })
}

/// The history entry of layer `layer_id` (`layer_<n>`, counted from 1 at the top of the
/// history). Fails with `InvalidLayerReference` where the identifier is malformed or out
/// of range, or its line is not a history entry.
pub fn layer_history(history: &Vec<String>, layer_id: &str) -> (r: Result<HistoryEntry, EngineError>)
    ensures
        match r {
            Ok(e) => match layer_number(layer_id@) {
                Some(n) => 1 <= n <= history@.len() && history_entry_of(history@[n - 1]@) == Some(
                    (e.id@, e.created@, e.size@, e.command@),
                ),
                None => false,
            },
            Err(err) => err matches EngineError::InvalidLayerReference && match layer_number(layer_id@) {
                Some(n) => n < 1 || n > history@.len() || history_entry_of(history@[n - 1]@) is None,
                None => true,
            },
        },
{
    let n = resolve_layer(layer_id, history.len())?;
    match parse_history_line(history[n - 1].as_str()) {
        Some(e) => Ok(e),
        None => Err(EngineError::InvalidLayerReference),
    }
}


/// The image row that a line of the image list holds: `id|repository|tag|created|size`,
/// kept unless both repository and tag are `<none>` or the repository is `layers`, the
/// tag this tool gives its working copy.
pub open spec fn image_row_of(line: Seq<char>) -> Option<(Seq<char>, Seq<char>, Seq<char>, Seq<char>, Seq<char>)> {
    let f = fields(line);
    if f.len() >= 5 && (f[1] != "<none>"@ || f[2] != "<none>"@) && f[1] != "layers"@ {
        Some((f[0], f[1], f[2], f[3], f[4]))
    } else {
        None
    }
}

/// Reads one line of the image list.
pub fn parse_image_line(line: &str) -> (r: Option<DockerImage>)
    ensures
        match r {
            Some(i) => image_row_of(line@) == Some((i.id@, i.repository@, i.tag@, i.created@, i.size@)),
            None => image_row_of(line@) is None,
        },
{
    let mut f = split_fields(line);
    if f.len() < 5 {
        return None;
    }
    let ghost v = names(f@);
    let untagged_repo = paths_equal(f[1].as_str(), "<none>");
    let untagged = paths_equal(f[2].as_str(), "<none>");
    let own = paths_equal(f[1].as_str(), "layers");
    assert(untagged_repo == (v[1] == "<none>"@));
    if (untagged_repo && untagged) || own {
        return None;
    }
    f.truncate(5);
    let size = f.pop().unwrap();
    let created = f.pop().unwrap();
    let tag = f.pop().unwrap();
    let repository = f.pop().unwrap();
    let id = f.pop().unwrap();
    assert(id@ == v[0] && repository@ == v[1] && tag@ == v[2] && created@ == v[3] && size@ == v[4]);
    Some(DockerImage { id, repository, tag, created, size })
}

} // verus!
