use vstd::prelude::*;
use vstd::string::*;
use regex::Regex;
use crate::diff::names;
use crate::history::{lemma_split_nonempty, split_at_char, split_on};
use crate::toc::{is_space, is_space_char, trim_start};

verus! {

#[verifier::external_type_specification]
#[verifier::external_body]
pub struct ExRegex(Regex);

/// The instruction keywords that start a block, in the order the pattern tries them.
pub open spec fn keywords() -> Seq<Seq<char>> {
    seq![
        "FROM"@, "RUN"@, "CMD"@, "LABEL"@, "EXPOSE"@, "ENV"@, "ADD"@, "COPY"@, "ENTRYPOINT"@,
        "VOLUME"@, "USER"@, "WORKDIR"@, "ARG"@, "ONBUILD"@, "STOPSIGNAL"@, "HEALTHCHECK"@, "SHELL"@,
    ]
}

/// How many white-space characters `s` starts with.
pub open spec fn leading_spaces(s: Seq<char>) -> nat
    decreases s.len(),
{
    if s.len() > 0 && is_space(s[0]) {
        1 + leading_spaces(s.drop_first())
    } else {
        0
    }
}

/// Keyword `k` stands at position `i` of `s` and white space follows it.
pub open spec fn keyword_at(s: Seq<char>, i: int, k: Seq<char>) -> bool {
    &&& i + k.len() < s.len()
    &&& s.subrange(i, i + k.len() as int) == k
    &&& is_space(s[i + k.len()])
}

/// The first of `keywords()[j..]` that stands at position `i` of `s`.
pub open spec fn first_keyword_from(s: Seq<char>, i: int, j: int) -> Option<Seq<char>>
    decreases keywords().len() - j,
{
    if j < 0 || j >= keywords().len() {
        None
    } else if keyword_at(s, i, keywords()[j]) {
        Some(keywords()[j])
    } else {
        first_keyword_from(s, i, j + 1)
    }
}

/// The keyword that the instruction pattern `^\s*(FROM|RUN|...)\s+` captures in `s`:
/// after the leading white space, the first keyword in pattern order that white space
/// follows.
pub open spec fn leading_keyword(s: Seq<char>) -> Option<Seq<char>> {
    first_keyword_from(s, leading_spaces(s) as int, 0)
}

/// The compiled pattern that recognizes the first line of a Dockerfile instruction.
pub struct InstructionMatcher {
    re: Regex,
}

impl InstructionMatcher {
    /// Compiles the instruction pattern; `None` where the regex engine refuses it.
    pub fn compile() -> (r: Option<InstructionMatcher>) {
        compile_instruction_pattern()
    }
}

/// Relies on `regex::Regex::new`, which fails only for an invalid or oversized pattern.
#[verifier::external_body]
fn compile_instruction_pattern() -> (r: Option<InstructionMatcher>) {
    match Regex::new(
        r"^\s*(FROM|RUN|CMD|LABEL|EXPOSE|ENV|ADD|COPY|ENTRYPOINT|VOLUME|USER|WORKDIR|ARG|ONBUILD|STOPSIGNAL|HEALTHCHECK|SHELL)\s+",
    ) {
        Ok(re) => Some(InstructionMatcher { re }),
        Err(_) => None,
    }
}

/// Relies on `regex::Regex::captures` and `Captures::get`: the text of group 1 of the
/// first match of the instruction pattern, whose `\s` is Unicode white space and whose
/// alternation takes the first keyword that lets the whole pattern match.
#[verifier::external_body]
fn captured_keyword(m: &InstructionMatcher, line: &str) -> (r: Option<String>)
    ensures
        match r {
            Some(k) => leading_keyword(line@) == Some(k@),
            None => leading_keyword(line@) is None,
        },
{
    match m.re.captures(line) {
        Some(c) => match c.get(1) {
            Some(g) => Some(g.as_str().to_string()),
            None => None,
        },
        None => None,
    }
}

/// `s` without one trailing carriage return.
pub open spec fn strip_cr(s: Seq<char>) -> Seq<char> {
    if s.len() > 0 && s.last() == '\r' {
        s.drop_last()
    } else {
        s
    }
}

/// The lines of `c` as `str::lines` gives them: split at `\n`, a `\r` right before a
/// `\n` dropped, and no empty line after a final line ending.
pub open spec fn text_lines(c: Seq<char>) -> Seq<Seq<char>> {
    let p = split_on(c, '\n');
    let body = p.drop_last().map_values(|s: Seq<char>| strip_cr(s));
    if p.last().len() == 0 {
        body
    } else {
        body.push(p.last())
    }
}

/// A block: first line, last line and keyword.
pub type Block = (nat, nat, Seq<char>);

/// A line that cannot start a block: blank, or a comment.
pub open spec fn skipped(line: Seq<char>) -> bool {
    let t = trim_start(line);
    t.len() == 0 || t[0] == '#'
}

/// The blocks closed after the first `i` lines, and the block still open, if any.
pub open spec fn blocks_upto(lines: Seq<Seq<char>>, i: nat) -> (Seq<Block>, Option<(nat, Seq<char>)>)
    decreases i,
{
    if i == 0 || i > lines.len() {
        (Seq::empty(), None)
    } else {
        let (done, open) = blocks_upto(lines, (i - 1) as nat);
        let n = (i - 1) as nat;
        if skipped(lines[n as int]) {
            (done, open)
        } else {
            match leading_keyword(lines[n as int]) {
                None => (done, open),
                Some(k) => (
                    match open {
                        Some((start, word)) => done.push((start, (n - 1) as nat, word)),
                        None => done,
                    },
                    Some((n, k)),
                ),
            }
        }
    }
}

/// The instruction blocks of a Dockerfile's text: each runs from a line that starts an
/// instruction to the line before the next such line, the last one to the last line.
pub open spec fn blocks_of(content: Seq<char>) -> Seq<Block> {
    let lines = text_lines(content);
    let (done, open) = blocks_upto(lines, lines.len());
    match open {
        Some((start, word)) => done.push((start, (lines.len() - 1) as nat, word)),
        None => done,
    }
}

pub open spec fn block_views(v: Seq<(usize, usize, String)>) -> Seq<Block> {
    v.map_values(|b: (usize, usize, String)| (b.0 as nat, b.1 as nat, b.2@))
}


fn strip_cr_exec(s: &str) -> (r: String)
    ensures
        r@ == strip_cr(s@),
{
    let n = s.unicode_len();
    if n > 0 && s.get_char(n - 1) == '\r' {
        String::from_str(s.substring_char(0, n - 1))
    } else {
        String::from_str(s)
    }
}

/// Splits `content` into lines as `str::lines` does.
pub fn text_lines_of(content: &str) -> (r: Vec<String>)
    ensures
        names(r@) == text_lines(content@),
{
    let pieces = split_at_char(content, '\n');
    let ghost p = names(pieces@);
    proof {
        lemma_split_nonempty(content@, '\n');
    }
    let m = pieces.len();
    let mut out: Vec<String> = Vec::new();
    let mut j: usize = 0;
    while j + 1 < m
        invariant
            p == names(pieces@),
            p == split_on(content@, '\n'),
            m == p.len(),
            m >= 1,
            j + 1 <= m,
            names(out@) == p.drop_last().subrange(0, j as int).map_values(|s: Seq<char>| strip_cr(s)),
        decreases m - j,
    {
        let ghost before = names(out@);
        let line = strip_cr_exec(pieces[j].as_str());
        out.push(line);
        assert(p[j as int] == pieces@[j as int]@);
        assert(names(out@) =~= before.push(strip_cr(p[j as int])));
        assert(p.drop_last().subrange(0, j + 1).map_values(|s: Seq<char>| strip_cr(s)) =~= p.drop_last().subrange(
            0,
            j as int,
        ).map_values(|s: Seq<char>| strip_cr(s)).push(strip_cr(p[j as int])));
        j = j + 1;
    }
    assert(p.drop_last().subrange(0, j as int) =~= p.drop_last());
    let last = &pieces[m - 1];
    assert(last@ == p.last());
    if last.as_str().unicode_len() > 0 {
        let ghost before = names(out@);
        out.push(last.clone());
        assert(names(out@) =~= before.push(p.last()));
    }
    out
}

fn is_skipped(line: &str) -> (r: bool)
    ensures
        r == skipped(line@),
{
    let ghost v = line@;
    let n = line.unicode_len();
    let mut lo: usize = 0;
    assert(v.subrange(0, n as int) =~= v);
    while lo < n && is_space_char(line.get_char(lo))
        invariant
            v == line@,
            n == v.len(),
            lo <= n,
            trim_start(v) == trim_start(v.subrange(lo as int, n as int)),
        decreases n - lo,
    {
        assert(v.subrange(lo as int, n as int).drop_first() =~= v.subrange(lo + 1, n as int));
        lo = lo + 1;
    }
    if lo == n {
        assert(v.subrange(lo as int, n as int) =~= Seq::<char>::empty());
        true
    } else {
        assert(trim_start(v) == v.subrange(lo as int, n as int));
        line.get_char(lo) == '#'
    }
}

pub open spec fn open_view(o: Option<(usize, String)>) -> Option<(nat, Seq<char>)> {
    match o {
        Some((s, w)) => Some((s as nat, w@)),
        None => None,
    }
}

/// The instruction blocks of a Dockerfile's text, as `(first line, last line, keyword)`
/// with lines counted from 0, found with an instruction matcher.
pub fn blocks_with(matcher: &InstructionMatcher, content: &str) -> (r: Vec<(usize, usize, String)>)
    ensures
        block_views(r@) == blocks_of(content@),
{
    let lines = text_lines_of(content);
    let ghost ls = names(lines@);
    let mut done: Vec<(usize, usize, String)> = Vec::new();
    let mut open: Option<(usize, String)> = None;
    let mut i: usize = 0;
    assert(block_views(done@) =~= Seq::<Block>::empty());
    while i < lines.len()
        invariant
            ls == names(lines@),
            ls == text_lines(content@),
            i <= lines@.len(),
            (block_views(done@), open_view(open)) == blocks_upto(ls, i as nat),
            open matches Some((s, _)) ==> s < i,
        decreases lines@.len() - i,
    {
        let line = lines[i].as_str();
        assert(line@ == ls[i as int]);
        if !is_skipped(line) {
            match captured_keyword(matcher, line) {
                None => {},
                Some(k) => {
                    let ghost before = block_views(done@);
                    match open.take() {
                        Some((start, word)) => {
                            done.push((start, i - 1, word));
                            assert(block_views(done@) =~= before.push((start as nat, (i - 1) as nat, word@)));
                        },
                        None => {},
                    }
                    open = Some((i, k));
                },
            }
        }
        i = i + 1;
    }
    match open {
        Some((start, word)) => {
            let ghost before = block_views(done@);
            done.push((start, lines.len() - 1, word));
            assert(block_views(done@) =~= before.push((start as nat, (lines@.len() - 1) as nat, word@)));
        },
        None => {},
    }
    done
}

/// The instruction blocks of a Dockerfile's text, as `(first line, last line, keyword)`
/// with lines counted from 0. Empty where the instruction pattern cannot be compiled.
pub fn parse_dockerfile_blocks(content: &str) -> (r: Vec<(usize, usize, String)>)
    ensures
        r@.len() == 0 || block_views(r@) == blocks_of(content@),
{
    match compile_instruction_pattern() {
        Some(m) => blocks_with(&m, content),
        None => Vec::new(),
    }
}

} // verus!
