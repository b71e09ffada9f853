use vstd::prelude::*;
use vstd::string::*;
use crate::dockerfile::{Dockerfile, DockerfileInstruction};
use crate::history::{split_at_char, split_on};
use crate::diff::names;
use crate::lex::paths_equal;
use crate::toc::{is_space_char, trim_end, trim_start};

verus! {

/// Upper-case ASCII letters, in order.
pub open spec fn upper_letters() -> Seq<char> {
    seq![
        'A', 'B', 'C', 'D', 'E', 'F', 'G', 'H', 'I', 'J', 'K', 'L', 'M', 'N', 'O', 'P', 'Q',
        'R', 'S', 'T', 'U', 'V', 'W', 'X', 'Y', 'Z',
    ]
}

/// `c` with an ASCII lower-case letter made upper case.
pub open spec fn upper_char(c: char) -> char {
    if 'a' <= c && c <= 'z' {
        upper_letters()[c as int - 'a' as int]
    } else {
        c
    }
}

/// `s` with its ASCII letters made upper case.
pub open spec fn upper_ascii(s: Seq<char>) -> Seq<char> {
    s.map_values(|c: char| upper_char(c))
}

/// `s` without surrounding white space.
pub open spec fn trim(s: Seq<char>) -> Seq<char> {
    trim_start(trim_end(s))
}

pub open spec fn ends_with_backslash(s: Seq<char>) -> bool {
    s.len() > 0 && s.last() == '\\'
}

/// An instruction as the parser records it: word, arguments, line number.
pub type Record = (Seq<char>, Seq<char>, nat);

/// Where the parser stands after some lines: the instructions recorded, the base image,
/// and the instruction whose arguments continue on the next line, if any.
pub struct ParseModel {
    pub done: Seq<Record>,
    pub base: Option<Seq<char>>,
    pub open: Option<(Seq<char>, Seq<char>)>,
}

pub open spec fn is_from(word: Seq<char>) -> bool {
    word == seq!['F', 'R', 'O', 'M']
}

/// Records instruction `word` with `args`, ended on line `n`.
pub open spec fn record(m: ParseModel, word: Seq<char>, args: Seq<char>, n: nat) -> ParseModel {
    ParseModel {
        done: m.done.push((word, args, n)),
        base: if is_from(word) { Some(args) } else { m.base },
        open: None,
    }
}

/// The first space of `s`, if any.
pub open spec fn first_space(s: Seq<char>) -> Option<int> {
    if exists|k: int| 0 <= k < s.len() && s[k] == ' ' {
        Some(choose|k: int| 0 <= k < s.len() && s[k] == ' ' && forall|j: int| 0 <= j < k ==> s[j] != ' ')
    } else {
        None
    }
}

/// The parser after line `n` (counted from 1) whose text is `raw`. Blank lines and
/// comments are skipped. A line that continues an instruction adds to its arguments,
/// and ends it unless it ends with a backslash itself. Any other line is an instruction
/// word, a space and its arguments; it stays open when its arguments end with a
/// backslash, which becomes a space. A line without a space is skipped.
pub open spec fn step(m: ParseModel, n: nat, raw: Seq<char>) -> ParseModel {
    let line = trim(raw);
    if line.len() == 0 || line[0] == '#' {
        m
    } else {
        match m.open {
            Some((word, args)) => {
                let joined = args + line;
                if ends_with_backslash(line) {
                    ParseModel { open: Some((word, joined.drop_last().push(' '))), ..m }
                } else {
                    record(m, word, joined, n)
                }
            },
            None => match first_space(line) {
                None => m,
                Some(k) => {
                    let word = upper_ascii(line.subrange(0, k));
                    let args = trim(line.subrange(k + 1, line.len() as int));
                    if ends_with_backslash(args) {
                        ParseModel { open: Some((word, args.drop_last().push(' '))), ..m }
                    } else {
                        record(m, word, args, n)
                    }
                },
            },
        }
    }
}

/// The parser after the first `i` of `lines`.
pub open spec fn parse_upto(lines: Seq<Seq<char>>, i: nat) -> ParseModel
    decreases i,
{
    if i == 0 || i > lines.len() {
        ParseModel { done: Seq::empty(), base: None, open: None }
    } else {
        step(parse_upto(lines, (i - 1) as nat), i, lines[i - 1])
    }
}

/// The parser after all lines of `content`.
pub open spec fn parse_model(content: Seq<char>) -> ParseModel {
    let lines = split_on(content, '\n');
    parse_upto(lines, lines.len())
}

pub open spec fn instruction_views(v: Seq<DockerfileInstruction>) -> Seq<Record> {
    v.map_values(|i: DockerfileInstruction| (i.instruction@, i.arguments@, i.line_number as nat))
}

pub(crate) fn trimmed(s: &str) -> (r: String)
    ensures
        r@ == trim(s@),
{
    let ghost v = s@;
    let n = s.unicode_len();
    let mut hi: usize = n;
    assert(v.subrange(0, n as int) =~= v);
    while hi > 0 && is_space_char(s.get_char(hi - 1))
        invariant
            v == s@,
            n == v.len(),
            hi <= n,
            trim_end(v) == trim_end(v.subrange(0, hi as int)),
        decreases hi,
    {
        assert(v.subrange(0, hi as int).drop_last() =~= v.subrange(0, hi - 1));
        hi = hi - 1;
    }
    let mut lo: usize = 0;
    assert(trim_end(v) == v.subrange(0, hi as int));
    assert(v.subrange(0, hi as int) =~= v.subrange(lo as int, hi as int));
    while lo < hi && is_space_char(s.get_char(lo))
        invariant
            v == s@,
            n == v.len(),
            lo <= hi <= n,
            trim_start(trim_end(v)) == trim_start(v.subrange(lo as int, hi as int)),
        decreases hi - lo,
    {
        assert(v.subrange(lo as int, hi as int).drop_first() =~= v.subrange(lo + 1, hi as int));
        lo = lo + 1;
    }
    String::from_str(s.substring_char(lo, hi))
}


/// The one-letter string of upper-case letter `d` of the alphabet.
fn letter_str(d: u32) -> (r: &'static str)
    requires
        d < 26,
    ensures
        r@ == seq![upper_letters()[d as int]],
{
    proof {
        reveal_strlit("A");
        reveal_strlit("B");
        reveal_strlit("C");
        reveal_strlit("D");
        reveal_strlit("E");
        reveal_strlit("F");
        reveal_strlit("G");
        reveal_strlit("H");
        reveal_strlit("I");
        reveal_strlit("J");
        reveal_strlit("K");
        reveal_strlit("L");
        reveal_strlit("M");
        reveal_strlit("N");
        reveal_strlit("O");
        reveal_strlit("P");
        reveal_strlit("Q");
        reveal_strlit("R");
        reveal_strlit("S");
        reveal_strlit("T");
        reveal_strlit("U");
        reveal_strlit("V");
        reveal_strlit("W");
        reveal_strlit("X");
        reveal_strlit("Y");
        reveal_strlit("Z");
    }
    let r = if d == 0 {
        "A"
    } else if d == 1 {
        "B"
    } else if d == 2 {
        "C"
    } else if d == 3 {
        "D"
    } else if d == 4 {
        "E"
    } else if d == 5 {
        "F"
    } else if d == 6 {
        "G"
    } else if d == 7 {
        "H"
    } else if d == 8 {
        "I"
    } else if d == 9 {
        "J"
    } else if d == 10 {
        "K"
    } else if d == 11 {
        "L"
    } else if d == 12 {
        "M"
    } else if d == 13 {
        "N"
    } else if d == 14 {
        "O"
    } else if d == 15 {
        "P"
    } else if d == 16 {
        "Q"
    } else if d == 17 {
        "R"
    } else if d == 18 {
        "S"
    } else if d == 19 {
        "T"
    } else if d == 20 {
        "U"
    } else if d == 21 {
        "V"
    } else if d == 22 {
        "W"
    } else if d == 23 {
        "X"
    } else if d == 24 {
        "Y"
    } else {
        "Z"
    };
    assert(r@ =~= seq![upper_letters()[d as int]]);
    r
}

/// `s` with its ASCII letters made upper case.
fn upper_ascii_str(s: &str) -> (r: String)
    ensures
        r@ == upper_ascii(s@),
{
    let n = s.unicode_len();
    let mut out = String::new();
    let mut i: usize = 0;
    while i < n
        invariant
            n == s@.len(),
            i <= n,
            out@ == upper_ascii(s@.subrange(0, i as int)),
        decreases n - i,
    {
        let c = s.get_char(i);
        let ghost before = out@;
        if 'a' <= c && c <= 'z' {
            out.append(letter_str(c as u32 - 'a' as u32));
        } else {
            out.append(s.substring_char(i, i + 1));
            assert(s@.subrange(i as int, i + 1) =~= seq![c]);
        }
        assert(upper_ascii(s@.subrange(0, i + 1)) =~= upper_ascii(s@.subrange(0, i as int)).push(upper_char(c)));
        assert(out@ =~= before.push(upper_char(c)));
        i = i + 1;
    }
    assert(s@.subrange(0, n as int) =~= s@);
    out
}

/// The position of the first space of `s`.
fn find_space(s: &str) -> (r: Option<usize>)
    ensures
        match r {
            Some(k) => k < s@.len() && first_space(s@) == Some(k as int),
            None => first_space(s@) is None,
        },
{
    let n = s.unicode_len();
    let mut k: usize = 0;
    while k < n
        invariant
            n == s@.len(),
            k <= n,
            forall|j: int| 0 <= j < k ==> s@[j] != ' ',
        decreases n - k,
    {
        if s.get_char(k) == ' ' {
            proof {
                let c = choose|c: int| 0 <= c < s@.len() && s@[c] == ' ' && forall|j: int| 0 <= j < c ==> s@[j] != ' ';
                if c < k {
                    assert(s@[c] != ' ');
                } else if c > k {
                    assert(s@[k as int] != ' ');
                }
            }
            return Some(k);
        }
        k = k + 1;
    }
    None
}

/// The parser state as the model sees it.
pub open spec fn model_of(
    done: Seq<DockerfileInstruction>,
    base: Option<String>,
    open: Option<(String, String)>,
) -> ParseModel {
    ParseModel {
        done: instruction_views(done),
        base: match base {
            Some(b) => Some(b@),
            None => None,
        },
        open: match open {
            Some((w, a)) => Some((w@, a@)),
            None => None,
        },
    }
}

/// `s` with its last character replaced by a space.
fn last_to_space(s: &str) -> (r: String)
    requires
        s@.len() > 0,
    ensures
        r@ == s@.drop_last().push(' '),
{
    proof {
        reveal_strlit(" ");
    }
    let n = s.unicode_len();
    let mut r = String::from_str(s.substring_char(0, n - 1));
    r.append(" ");
    assert(r@ =~= s@.drop_last().push(' '));
    r
}

fn record_exec(
    done: &mut Vec<DockerfileInstruction>,
    base: &mut Option<String>,
    word: String,
    args: String,
    n: usize,
)
    ensures
        model_of(final(done)@, *final(base), None) == record(model_of(old(done)@, *old(base), None), word@, args@, n as nat),
{
    proof {
        reveal_strlit("FROM");
    }
    if paths_equal(word.as_str(), "FROM") {
        assert("FROM"@ =~= seq!['F', 'R', 'O', 'M']);
        *base = Some(args.clone());
    } else {
        assert("FROM"@ =~= seq!['F', 'R', 'O', 'M']);
    }
    let ghost before = done@;
    done.push(DockerfileInstruction { instruction: word, arguments: args, line_number: n });
    assert(instruction_views(done@) =~= instruction_views(before).push((word@, args@, n as nat)));
}

/// Feeds line `n`, whose text is `raw`, to the parser.
fn parse_step(
    done: &mut Vec<DockerfileInstruction>,
    base: &mut Option<String>,
    open: &mut Option<(String, String)>,
    n: usize,
    raw: &str,
)
    ensures
        model_of(final(done)@, *final(base), *final(open)) == step(model_of(old(done)@, *old(base), *old(open)), n as nat, raw@),
{
    let line = trimmed(raw);
    let l = line.as_str();
    let len = l.unicode_len();
    if len == 0 || l.get_char(0) == '#' {
        return;
    }
    match open.take() {
        Some((word, args)) => {
            let mut joined = args;
            joined.append(l);
            if l.get_char(len - 1) == '\\' {
                let next = last_to_space(joined.as_str());
                *open = Some((word, next));
            } else {
                record_exec(done, base, word, joined, n);
            }
        },
        None => match find_space(l) {
            None => {},
            Some(k) => {
                let word = upper_ascii_str(l.substring_char(0, k));
                let args = trimmed(l.substring_char(k + 1, len));
                let al = args.as_str().unicode_len();
                if al > 0 && args.as_str().get_char(al - 1) == '\\' {
                    let next = last_to_space(args.as_str());
                    *open = Some((word, next));
                } else {
                    record_exec(done, base, word, args, n);
                }
            },
        },
    }
}

impl Dockerfile {
    /// Parses the text of a Dockerfile read from `path`: one instruction per line, with
    /// continuation lines joined, blank lines and comments skipped, instruction words in
    /// upper case, and the base image taken from the last `FROM`.
    pub fn parse(content: &str, path: String) -> (r: Dockerfile)
        ensures
            instruction_views(r.instructions@) == parse_model(content@).done,
            match r.base_image {
                Some(b) => parse_model(content@).base == Some(b@),
                None => parse_model(content@).base is None,
            },
            r.path == path,
    {
        let lines = split_at_char(content, '\n');
        let ghost ls = names(lines@);
        let mut done: Vec<DockerfileInstruction> = Vec::new();
        let mut base: Option<String> = None;
        let mut open: Option<(String, String)> = None;
        let mut i: usize = 0;
        assert(instruction_views(done@) =~= Seq::<Record>::empty());
        while i < lines.len()
            invariant
                ls == names(lines@),
                ls == split_on(content@, '\n'),
                i <= lines@.len(),
                model_of(done@, base, open) == parse_upto(ls, i as nat),
            decreases lines@.len() - i,
        {
            assert(ls[i as int] == lines@[i as int]@);
            parse_step(&mut done, &mut base, &mut open, i + 1, lines[i].as_str());
            i = i + 1;
        }
        Dockerfile { instructions: done, path, base_image: base }
    }
}

} // verus!
