use vstd::prelude::*;
use vstd::string::*;
use crate::lex::paths_equal;
use crate::text::{decimal, push_decimal};

verus! {

/// One instruction of a Dockerfile, with the line it ends on.
#[derive(Debug, Clone)]
pub struct DockerfileInstruction {
    pub instruction: String,
    pub arguments: String,
    pub line_number: usize,
}

/// A parsed Dockerfile.
#[derive(Debug, Clone)]
pub struct Dockerfile {
    pub instructions: Vec<DockerfileInstruction>,
    pub path: String,
    pub base_image: Option<String>,
}

/// The character pairs of a list of string pairs.
pub open spec fn pair_views(v: Seq<(String, String)>) -> Seq<(Seq<char>, Seq<char>)> {
    v.map_values(|p: (String, String)| (p.0@, p.1@))
}

/// `needle` occurs in `hay`.
pub open spec fn has_text(hay: Seq<char>, needle: Seq<char>) -> bool {
    exists|i: int|
        0 <= i && i + needle.len() <= hay.len() && #[trigger] hay.subrange(i, i + needle.len())
            == needle
}

/// Instructions that change only the image's metadata.
pub open spec fn is_metadata(k: Seq<char>) -> bool {
    k == "ENV"@ || k == "LABEL"@ || k == "WORKDIR"@ || k == "USER"@ || k == "EXPOSE"@ || k
        == "VOLUME"@ || k == "ENTRYPOINT"@ || k == "CMD"@
}

/// `Line <n>: <instruction>`.
pub open spec fn line_label(i: DockerfileInstruction) -> Seq<char> {
    "Line "@ + decimal(i.line_number as nat) + ": "@ + i.instruction@
}

/// What an instruction does to the image's layers.
pub open spec fn impact_of(i: DockerfileInstruction) -> Seq<char> {
    let k = i.instruction@;
    let a = i.arguments@;
    if k == "FROM"@ {
        "Base image: "@ + a + ". Creates a new base layer."@
    } else if k == "RUN"@ {
        "Creates a new layer with changes from: "@ + a
    } else if k == "COPY"@ || k == "ADD"@ {
        "Creates a new layer with files: "@ + a
    } else if is_metadata(k) {
        "Metadata change only, no new layer: "@ + a
    } else {
        "Unknown instruction: "@ + a
    }
}

fn text_contains(hay: &str, needle: &str) -> (r: bool)
    ensures
        r == has_text(hay@, needle@),
{
    let n = hay.unicode_len();
    let m = needle.unicode_len();
    if m > n {
        return false;
    }
    if m == 0 {
        assert(hay@.subrange(0, 0 + needle@.len() as int) =~= needle@);
        return true;
    }
    let mut i: usize = 0;
    let last = n - m;
    while i <= last
        invariant
            last == n - m,
            n == hay@.len(),
            m == needle@.len(),
            0 < m <= n,
            i <= n - m + 1,
            forall|j: int| 0 <= j < i ==> #[trigger] hay@.subrange(j, j + m) != needle@,
        decreases last + 1 - i,
    {
        if paths_equal(hay.substring_char(i, i + m), needle) {
            return true;
        }
        i = i + 1;
    }
    assert forall|j: int| 0 <= j && j + m <= n implies #[trigger] hay@.subrange(j, j + m) != needle@ by {
        assert(j < i);
    }
    false
}

fn concat(a: &str, b: &str) -> (r: String)
    ensures
        r@ == a@ + b@,
{
    let mut s = String::from_str(a);
    s.append(b);
    s
}

fn label_of(i: &DockerfileInstruction) -> (r: String)
    ensures
        r@ == line_label(*i),
{
    let mut s = String::from_str("Line ");
    push_decimal(&mut s, i.line_number as u64);
    s.append(": ");
    s.append(i.instruction.as_str());
    s
}

fn impact_text(i: &DockerfileInstruction) -> (r: String)
    ensures
        r@ == impact_of(*i),
{
    let k = i.instruction.as_str();
    let a = i.arguments.as_str();
    if paths_equal(k, "FROM") {
        let mut s = concat("Base image: ", a);
        s.append(". Creates a new base layer.");
        s
    } else if paths_equal(k, "RUN") {
        concat("Creates a new layer with changes from: ", a)
    } else if paths_equal(k, "COPY") || paths_equal(k, "ADD") {
        concat("Creates a new layer with files: ", a)
    } else if paths_equal(k, "ENV") || paths_equal(k, "LABEL") || paths_equal(k, "WORKDIR")
        || paths_equal(k, "USER") || paths_equal(k, "EXPOSE") || paths_equal(k, "VOLUME")
        || paths_equal(k, "ENTRYPOINT") || paths_equal(k, "CMD") {
        concat("Metadata change only, no new layer: ", a)
    } else {
        concat("Unknown instruction: ", a)
    }
}

/// How many of the instructions are of kind `k`.
pub open spec fn count_kind(s: Seq<DockerfileInstruction>, k: Seq<char>) -> nat
    decreases s.len(),
{
    if s.len() == 0 {
        0
    } else {
        count_kind(s.drop_last(), k) + if s.last().instruction@ == k {
            1nat
        } else {
            0nat
        }
    }
}

/// A `RUN` that installs packages with apt-get and cleans up nothing after.
pub open spec fn lacks_cleanup(i: DockerfileInstruction) -> bool {
    &&& i.instruction@ == "RUN"@
    &&& has_text(i.arguments@, "apt-get install"@)
    &&& !has_text(i.arguments@, "apt-get clean"@)
    &&& !has_text(i.arguments@, "rm -rf /var/lib/apt/lists"@)
}

pub open spec fn cleanup_advice() -> Seq<char> {
    "apt-get install without cleanup. Add 'apt-get clean && rm -rf /var/lib/apt/lists/*' to reduce layer size."@
}

/// One finding for each instruction that lacks cleanup, in order.
pub open spec fn cleanup_findings(s: Seq<DockerfileInstruction>) -> Seq<(Seq<char>, Seq<char>)>
    decreases s.len(),
{
    if s.len() == 0 {
        Seq::empty()
    } else if lacks_cleanup(s.last()) {
        cleanup_findings(s.drop_last()).push(
            ("Line "@ + decimal(s.last().line_number as nat) + ": Missing cleanup"@, cleanup_advice()),
        )
    } else {
        cleanup_findings(s.drop_last())
    }
}

pub open spec fn adds_files(k: Seq<char>) -> bool {
    k == "COPY"@ || k == "ADD"@
}

/// Some `RUN` comes after a `COPY` or `ADD`.
pub open spec fn run_after_copy(s: Seq<DockerfileInstruction>) -> bool {
    exists|i: int, j: int|
        0 <= i < j < s.len() && adds_files(#[trigger] s[i].instruction@) && #[trigger] s[j].instruction@
            == "RUN"@
}

pub open spec fn multiple_runs_text(n: nat) -> Seq<char> {
    "Found "@ + decimal(n) + " RUN instructions. Consider combining them to reduce layers."@
}

pub open spec fn caching_advice() -> Seq<char> {
    "Consider moving COPY commands for application code after installing dependencies to improve build caching."@
}

/// The optimization suggestions for a list of instructions.
pub open spec fn suggestions_for(s: Seq<DockerfileInstruction>) -> Seq<(Seq<char>, Seq<char>)> {
    let runs = count_kind(s, "RUN"@);
    (if runs > 1 {
        seq![("Multiple RUN Instructions"@, multiple_runs_text(runs))]
    } else {
        Seq::empty()
    }) + cleanup_findings(s) + (if run_after_copy(s) {
        seq![("Dependency Caching"@, caching_advice())]
    } else {
        Seq::empty()
    })
}

pub open spec fn found_text(n: nat, k: Seq<char>) -> Seq<char> {
    "Found "@ + decimal(n) + " "@ + k + " instructions"@
}

/// The counts of `RUN`, `COPY` and `ADD` instructions that `analyze` reports.
pub open spec fn count_findings(s: Seq<DockerfileInstruction>) -> Seq<(Seq<char>, Seq<char>)> {
    let runs = count_kind(s, "RUN"@);
    let copies = count_kind(s, "COPY"@);
    let adds = count_kind(s, "ADD"@);
    (if runs > 0 {
        seq![("RUN Instructions"@, found_text(runs, "RUN"@))]
    } else {
        Seq::empty()
    }) + (if copies > 0 {
        seq![("COPY Instructions"@, found_text(copies, "COPY"@))]
    } else {
        Seq::empty()
    }) + (if adds > 0 {
        seq![("ADD Instructions"@, found_text(adds, "ADD"@))]
    } else {
        Seq::empty()
    })
}

fn count_instructions(v: &Vec<DockerfileInstruction>, k: &str) -> (r: usize)
    ensures
        r == count_kind(v@, k@),
{
    let mut c: usize = 0;
    let mut i: usize = 0;
    while i < v.len()
        invariant
            i <= v@.len(),
            c == count_kind(v@.subrange(0, i as int), k@),
            c <= i,
        decreases v@.len() - i,
    {
        assert(v@.subrange(0, i + 1).drop_last() =~= v@.subrange(0, i as int));
        if paths_equal(v[i].instruction.as_str(), k) {
            c = c + 1;
        }
        i = i + 1;
    }
    assert(v@.subrange(0, v@.len() as int) =~= v@);
    c
}

impl Dockerfile {
    /// What each instruction does to the image's layers, in order: its line label and
    /// the effect of its kind.
    pub fn analyze_layer_impact(&self) -> (r: Vec<(String, String)>)
        ensures
            pair_views(r@) == self.instructions@.map_values(
                |i: DockerfileInstruction| (line_label(i), impact_of(i)),
            ),
    {
        let v = &self.instructions;
        let mut out: Vec<(String, String)> = Vec::new();
        let mut i: usize = 0;
        while i < v.len()
            invariant
                v == &self.instructions,
                i <= v@.len(),
                pair_views(out@) == v@.subrange(0, i as int).map_values(
                    |x: DockerfileInstruction| (line_label(x), impact_of(x)),
                ),
            decreases v@.len() - i,
        {
            let ghost before = pair_views(out@);
            let label = label_of(&v[i]);
            let impact = impact_text(&v[i]);
            out.push((label, impact));
            assert(pair_views(out@) =~= before.push((line_label(v@[i as int]), impact_of(v@[i as int]))));
            assert(v@.subrange(0, i + 1).map_values(|x: DockerfileInstruction| (line_label(x), impact_of(x)))
                =~= v@.subrange(0, i as int).map_values(
                |x: DockerfileInstruction| (line_label(x), impact_of(x)),
            ).push((line_label(v@[i as int]), impact_of(v@[i as int]))));
            i = i + 1;
        }
        assert(v@.subrange(0, v@.len() as int) =~= v@);
        out
    }

    /// Suggestions for fewer layers and better caching: combining several `RUN`
    /// instructions, cleaning up after each apt-get install, and copying application
    /// code after installing dependencies.
    pub fn optimize_suggestions(&self) -> (r: Vec<(String, String)>)
        ensures
            pair_views(r@) == suggestions_for(self.instructions@),
    {
        let v = &self.instructions;
        let mut out: Vec<(String, String)> = Vec::new();
        let runs = count_instructions(v, "RUN");
        if runs > 1 {
            let mut text = String::from_str("Found ");
            push_decimal(&mut text, runs as u64);
            text.append(" RUN instructions. Consider combining them to reduce layers.");
            out.push((String::from_str("Multiple RUN Instructions"), text));
        }
        let ghost head = pair_views(out@);
        assert(head =~= if runs > 1 {
            seq![("Multiple RUN Instructions"@, multiple_runs_text(runs as nat))]
        } else {
            Seq::empty()
        });
        let mut i: usize = 0;
        while i < v.len()
            invariant
                v == &self.instructions,
                i <= v@.len(),
                pair_views(out@) == head + cleanup_findings(v@.subrange(0, i as int)),
            decreases v@.len() - i,
        {
            let ghost before = pair_views(out@);
            assert(v@.subrange(0, i + 1).drop_last() =~= v@.subrange(0, i as int));
            assert(v@.subrange(0, i + 1).last() == v@[i as int]);
            let x = &v[i];
            let needs = paths_equal(x.instruction.as_str(), "RUN") && text_contains(
                x.arguments.as_str(),
                "apt-get install",
            ) && !text_contains(x.arguments.as_str(), "apt-get clean") && !text_contains(
                x.arguments.as_str(),
                "rm -rf /var/lib/apt/lists",
            );
            assert(needs == lacks_cleanup(*x));
            if needs {
                let mut title = String::from_str("Line ");
                push_decimal(&mut title, x.line_number as u64);
                title.append(": Missing cleanup");
                let advice = String::from_str(
                    "apt-get install without cleanup. Add 'apt-get clean && rm -rf /var/lib/apt/lists/*' to reduce layer size.",
                );
                out.push((title, advice));
                assert(pair_views(out@) =~= before.push(
                    ("Line "@ + decimal(x.line_number as nat) + ": Missing cleanup"@, cleanup_advice()),
                ));
            }
            i = i + 1;
        }
        assert(v@.subrange(0, v@.len() as int) =~= v@);
        let mut found_copy = false;
        let mut found_run_after_copy = false;
        let mut j: usize = 0;
        while j < v.len()
            invariant
                v == &self.instructions,
                j <= v@.len(),
                found_copy == exists|a: int| 0 <= a < j && adds_files(#[trigger] v@[a].instruction@),
                found_run_after_copy == exists|a: int, b: int|
                    0 <= a < b < j && adds_files(#[trigger] v@[a].instruction@) && #[trigger] v@[b].instruction@
                        == "RUN"@,
            decreases v@.len() - j,
        {
            let k = v[j].instruction.as_str();
            let is_add = paths_equal(k, "COPY") || paths_equal(k, "ADD");
            let is_run = paths_equal(k, "RUN");
            let ghost fc = found_copy;
            let ghost fr = found_run_after_copy;
            assert(is_add == adds_files(v@[j as int].instruction@));
            assert(is_run == (v@[j as int].instruction@ == "RUN"@));
            if is_add {
                found_copy = true;
            } else if found_copy && is_run {
                found_run_after_copy = true;
            }
            proof {
                let jj = j as int;
                reveal_strlit("RUN");
                reveal_strlit("COPY");
                reveal_strlit("ADD");
                assert("COPY"@.len() == 4 && "RUN"@.len() == 3);
                assert("ADD"@[0] == 'A' && "RUN"@[0] == 'R');
                assert("COPY"@ != "RUN"@ && "ADD"@ != "RUN"@);
                assert(found_run_after_copy == (fr || (fc && is_run)));
                if fr || (fc && is_run) {
                    if fr {
                        let (a, b) = choose|a: int, b: int|
                            0 <= a < b < jj && adds_files(#[trigger] v@[a].instruction@) && #[trigger] v@[b].instruction@
                                == "RUN"@;
                        assert(0 <= a < b < jj + 1 && adds_files(v@[a].instruction@) && v@[b].instruction@ == "RUN"@);
                    } else {
                        let a = choose|a: int| 0 <= a < jj && adds_files(#[trigger] v@[a].instruction@);
                        assert(0 <= a < jj < jj + 1 && adds_files(v@[a].instruction@) && v@[jj].instruction@ == "RUN"@);
                    }
                }
                if exists|a: int, b: int|
                    0 <= a < b < jj + 1 && adds_files(#[trigger] v@[a].instruction@) && #[trigger] v@[b].instruction@
                        == "RUN"@ {
                    let (a, b) = choose|a: int, b: int|
                        0 <= a < b < jj + 1 && adds_files(#[trigger] v@[a].instruction@) && #[trigger] v@[b].instruction@
                            == "RUN"@;
                    if b == jj {
                        assert(fc);
                    } else {
                        assert(fr);
                    }
                }
                if is_add {
                    assert(adds_files(v@[jj].instruction@));
                }
                if fc || is_add {
                    if !fc {
                        assert(0 <= jj < jj + 1 && adds_files(v@[jj].instruction@));
                    }
                }
            }
            j = j + 1;
        }
        if found_run_after_copy {
            let ghost before = pair_views(out@);
            out.push((
                String::from_str("Dependency Caching"),
                String::from_str(
                    "Consider moving COPY commands for application code after installing dependencies to improve build caching.",
                ),
            ));
            assert(pair_views(out@) =~= before.push(("Dependency Caching"@, caching_advice())));
        }
        assert(pair_views(out@) =~= suggestions_for(v@));
        out
    }

    /// Everything known of the file: its base image, how many `RUN`, `COPY` and `ADD`
    /// instructions it has, then the optimization suggestions and the layer impacts.
    pub fn analyze(&self) -> (r: Vec<(String, String)>)
        ensures
            pair_views(r@) == (match self.base_image {
                Some(b) => seq![("Base Image"@, "Using "@ + b@ + " as the base image"@)],
                None => Seq::empty(),
            }) + count_findings(self.instructions@) + suggestions_for(self.instructions@)
                + self.instructions@.map_values(
                |i: DockerfileInstruction| (line_label(i), impact_of(i)),
            ),
    {
        let mut out: Vec<(String, String)> = Vec::new();
        match &self.base_image {
            Some(b) => {
                let mut text = String::from_str("Using ");
                text.append(b.as_str());
                text.append(" as the base image");
                out.push((String::from_str("Base Image"), text));
            },
            None => {},
        }
        let ghost base = pair_views(out@);
        let v = &self.instructions;
        let runs = count_instructions(v, "RUN");
        let copies = count_instructions(v, "COPY");
        let adds = count_instructions(v, "ADD");
        if runs > 0 {
            let mut text = String::from_str("Found ");
            push_decimal(&mut text, runs as u64);
            text.append(" ");
            text.append("RUN");
            text.append(" instructions");
            out.push((String::from_str("RUN Instructions"), text));
        }
        if copies > 0 {
            let mut text = String::from_str("Found ");
            push_decimal(&mut text, copies as u64);
            text.append(" ");
            text.append("COPY");
            text.append(" instructions");
            out.push((String::from_str("COPY Instructions"), text));
        }
        if adds > 0 {
            let mut text = String::from_str("Found ");
            push_decimal(&mut text, adds as u64);
            text.append(" ");
            text.append("ADD");
            text.append(" instructions");
            out.push((String::from_str("ADD Instructions"), text));
        }
        assert(pair_views(out@) =~= base + count_findings(v@));
        let ghost counted = pair_views(out@);
        let suggestions = self.optimize_suggestions();
        let impacts = self.analyze_layer_impact();
        let mut k: usize = 0;
        while k < suggestions.len()
            invariant
                k <= suggestions@.len(),
                pair_views(out@) == counted + pair_views(suggestions@).subrange(0, k as int),
            decreases suggestions@.len() - k,
        {
            let ghost before = pair_views(out@);
            let a = suggestions[k].0.clone();
            let b = suggestions[k].1.clone();
            assert(a@ == suggestions@[k as int].0@ && b@ == suggestions@[k as int].1@);
            out.push((a, b));
            assert(pair_views(out@) =~= before.push(pair_views(suggestions@)[k as int]));
            assert(pair_views(suggestions@).subrange(0, k + 1) =~= pair_views(suggestions@).subrange(0, k as int).push(
                pair_views(suggestions@)[k as int],
            ));
            assert(pair_views(out@) =~= counted + pair_views(suggestions@).subrange(0, k + 1));
            k = k + 1;
        }
        assert(pair_views(suggestions@).subrange(0, suggestions@.len() as int) =~= pair_views(suggestions@));
        let ghost suggested = pair_views(out@);
        let mut k: usize = 0;
        while k < impacts.len()
            invariant
                k <= impacts@.len(),
                pair_views(out@) == suggested + pair_views(impacts@).subrange(0, k as int),
            decreases impacts@.len() - k,
        {
            let ghost before = pair_views(out@);
            let a = impacts[k].0.clone();
            let b = impacts[k].1.clone();
            assert(a@ == impacts@[k as int].0@ && b@ == impacts@[k as int].1@);
            out.push((a, b));
            assert(pair_views(out@) =~= before.push(pair_views(impacts@)[k as int]));
            assert(pair_views(impacts@).subrange(0, k + 1) =~= pair_views(impacts@).subrange(0, k as int).push(
                pair_views(impacts@)[k as int],
            ));
            assert(pair_views(out@) =~= suggested + pair_views(impacts@).subrange(0, k + 1));
            k = k + 1;
        }
        assert(pair_views(impacts@).subrange(0, impacts@.len() as int) =~= pair_views(impacts@));
        out
    }
}

} // verus!
