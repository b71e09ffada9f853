use layers::blocks::{blocks_with, parse_dockerfile_blocks, text_lines_of, InstructionMatcher};
use layers::dockerfile::{Dockerfile, DockerfileInstruction};
use layers::error::EngineError;
use layers::history::{layer_history, parse_history_line, parse_image_line, split_fields};
use layers::records::lazy_directories;
use layers::tree::LayerTree;

fn ins(kind: &str, args: &str, line: usize) -> DockerfileInstruction {
    DockerfileInstruction { instruction: kind.to_string(), arguments: args.to_string(), line_number: line }
}

fn file(instructions: Vec<DockerfileInstruction>, base: Option<&str>) -> Dockerfile {
    Dockerfile { instructions, path: "Dockerfile".to_string(), base_image: base.map(str::to_string) }
}

fn pair(a: &str, b: &str) -> (String, String) {
    (a.to_string(), b.to_string())
}

#[test]
fn split_fields_keeps_empty_fields() {
    assert_eq!(split_fields("a|b||c"), vec!["a", "b", "", "c"]);
    assert_eq!(split_fields(""), vec![""]);
    assert_eq!(split_fields("|"), vec!["", ""]);
}

#[test]
fn history_lines() {
    let e = parse_history_line("sha256:1|2 days ago|5MB|/bin/sh -c apk add curl").unwrap();
    assert_eq!(e.id, "sha256:1");
    assert_eq!(e.created, "2 days ago");
    assert_eq!(e.size, "5MB");
    assert_eq!(e.command, "/bin/sh -c apk add curl");
    assert!(parse_history_line("only|three|fields").is_none());
}

#[test]
fn history_of_layer_by_ordinal() {
    let history = vec!["top|1s|0B|CMD".to_string(), "base|2d|5MB|ADD file".to_string(), "broken".to_string()];
    assert_eq!(layer_history(&history, "layer_1").unwrap().id, "top");
    assert_eq!(layer_history(&history, "layer_2").unwrap().command, "ADD file");
    assert!(matches!(layer_history(&history, "layer_3"), Err(EngineError::InvalidLayerReference)));
    assert!(matches!(layer_history(&history, "layer_4"), Err(EngineError::InvalidLayerReference)));
    assert!(matches!(layer_history(&history, "base"), Err(EngineError::InvalidLayerReference)));
}

#[test]
fn image_list_rows() {
    let row = parse_image_line("abc|alpine|latest|2 weeks ago|7MB").unwrap();
    assert_eq!(row.repository, "alpine");
    assert_eq!(row.size, "7MB");
    assert!(parse_image_line("abc|<none>|<none>|1h|1MB").is_none());
    assert!(parse_image_line("abc|<none>|v1|1h|1MB").is_some());
    assert!(parse_image_line("abc|layers|latest|1h|1MB").is_none());
    assert!(parse_image_line("abc|short").is_none());
}

#[test]
fn layer_impact_messages() {
    let d = file(
        vec![ins("FROM", "alpine", 1), ins("RUN", "make", 2), ins("ADD", "a b", 3), ins("ENV", "X=1", 4), ins("HEALTHCHECK", "x", 5)],
        Some("alpine"),
    );
    assert_eq!(
        d.analyze_layer_impact(),
        vec![
            pair("Line 1: FROM", "Base image: alpine. Creates a new base layer."),
            pair("Line 2: RUN", "Creates a new layer with changes from: make"),
            pair("Line 3: ADD", "Creates a new layer with files: a b"),
            pair("Line 4: ENV", "Metadata change only, no new layer: X=1"),
            pair("Line 5: HEALTHCHECK", "Unknown instruction: x"),
        ]
    );
}

#[test]
fn optimization_suggestions() {
    let d = file(
        vec![
            ins("FROM", "debian", 1),
            ins("COPY", ". /app", 2),
            ins("RUN", "apt-get update && apt-get install -y curl", 3),
            ins("RUN", "apt-get install -y git && apt-get clean", 4),
        ],
        Some("debian"),
    );
    assert_eq!(
        d.optimize_suggestions(),
        vec![
            pair("Multiple RUN Instructions", "Found 2 RUN instructions. Consider combining them to reduce layers."),
            pair(
                "Line 3: Missing cleanup",
                "apt-get install without cleanup. Add 'apt-get clean && rm -rf /var/lib/apt/lists/*' to reduce layer size."
            ),
            pair(
                "Dependency Caching",
                "Consider moving COPY commands for application code after installing dependencies to improve build caching."
            ),
        ]
    );
    let quiet = file(vec![ins("RUN", "make", 1), ins("COPY", "x y", 2)], None);
    assert!(quiet.optimize_suggestions().is_empty());
}

#[test]
fn full_analysis_order() {
    let d = file(vec![ins("FROM", "alpine", 1), ins("COPY", "a b", 2), ins("RUN", "make", 3)], Some("alpine"));
    let a = d.analyze();
    assert_eq!(a[0], pair("Base Image", "Using alpine as the base image"));
    assert_eq!(a[1], pair("RUN Instructions", "Found 1 RUN instructions"));
    assert_eq!(a[2], pair("COPY Instructions", "Found 1 COPY instructions"));
    assert_eq!(a[3].0, "Dependency Caching");
    assert_eq!(a[4], pair("Line 1: FROM", "Base image: alpine. Creates a new base layer."));
    assert_eq!(a.len(), 7);
}

#[test]
fn sidecar_records_of_top_level() {
    let mut t = LayerTree::from_listing(&vec!["etc/passwd".to_string(), "README".to_string(), "bin/sh".to_string()]);
    t.extract_subtree("bin").unwrap();
    let top = t.list_children("").unwrap();
    let info = lazy_directories(&top);
    let got: Vec<(String, bool, usize)> = info.iter().map(|d| (d.path.clone(), d.is_extracted, d.child_count)).collect();
    assert_eq!(got, vec![("bin".to_string(), true, 1), ("etc".to_string(), false, 1)]);
}

fn parsed(content: &str) -> Vec<(String, String, usize)> {
    Dockerfile::parse(content, "Dockerfile".to_string())
        .instructions
        .iter()
        .map(|i| (i.instruction.clone(), i.arguments.clone(), i.line_number))
        .collect()
}

#[test]
fn parse_simple_dockerfile() {
    let d = Dockerfile::parse("# base\nfrom alpine:3.19\n\nRUN  apk add curl  \nCOPY . /app\n", "df".to_string());
    assert_eq!(d.path, "df");
    assert_eq!(d.base_image.as_deref(), Some("alpine:3.19"));
    assert_eq!(
        parsed("# base\nfrom alpine:3.19\n\nRUN  apk add curl  \nCOPY . /app\n"),
        vec![
            ("FROM".to_string(), "alpine:3.19".to_string(), 2),
            ("RUN".to_string(), "apk add curl".to_string(), 4),
            ("COPY".to_string(), ". /app".to_string(), 5),
        ]
    );
}

#[test]
fn parse_joins_continuation_lines() {
    assert_eq!(
        parsed("RUN apt-get update && \\\n    apt-get install -y git \\\n    && apt-get clean\nEXPOSE 80"),
        vec![
            ("RUN".to_string(), "apt-get update &&  apt-get install -y git  && apt-get clean".to_string(), 3),
            ("EXPOSE".to_string(), "80".to_string(), 4),
        ]
    );
}

#[test]
fn parse_skips_words_without_arguments_and_unterminated_continuations() {
    assert_eq!(parsed("HEALTHCHECK\nRUN a \\"), Vec::<(String, String, usize)>::new());
    let d = Dockerfile::parse("FROM a\nFROM b AS build\n", "x".to_string());
    assert_eq!(d.base_image.as_deref(), Some("b AS build"));
    assert!(Dockerfile::parse("", "x".to_string()).instructions.is_empty());
}


fn block(a: usize, b: usize, k: &str) -> (usize, usize, String) {
    (a, b, k.to_string())
}

#[test]
fn dockerfile_blocks() {
    let content = "FROM alpine\n\nRUN a \\\n  b\n# c\nCMD x\n";
    assert_eq!(
        parse_dockerfile_blocks(content),
        vec![block(0, 1, "FROM"), block(2, 4, "RUN"), block(5, 5, "CMD")]
    );
}

#[test]
fn dockerfile_blocks_need_white_space_after_keyword() {
    let content = "RUNNER x\nrun y\nRUN\n  ENTRYPOINT [\"sh\"]\nENV\tX=1";
    assert_eq!(parse_dockerfile_blocks(content), vec![block(3, 3, "ENTRYPOINT"), block(4, 4, "ENV")]);
}

#[test]
fn dockerfile_blocks_unicode_space() {
    let m = InstructionMatcher::compile().unwrap();
    assert_eq!(blocks_with(&m, "\u{a0}COPY\u{3000}a b"), vec![block(0, 0, "COPY")]);
    assert!(blocks_with(&m, "").is_empty());
    assert!(blocks_with(&m, "# only a comment\n").is_empty());
}

#[test]
fn text_lines_like_std() {
    for text in ["a\nb", "a\r\nb\r\n", "", "\n", "x\r", "a\n\nb\n"] {
        let ours = text_lines_of(text);
        let std: Vec<String> = text.lines().map(str::to_string).collect();
        assert_eq!(ours, std, "{:?}", text);
    }
}

#[test]
fn command_help_table() {
    let table = layers::dockerfile_editor::get_dockerfile_commands();
    assert_eq!(table.len(), 17);
    let (name, from) = &table[0];
    assert_eq!(name, "FROM");
    assert_eq!(from.example, "FROM ubuntu:20.04");
    assert_eq!(from.description, "Sets the base image for subsequent instructions.");
    let keys: Vec<&str> = table.iter().map(|(k, _)| k.as_str()).collect();
    assert!(keys.contains(&"HEALTHCHECK") && keys.contains(&"SHELL") && keys.contains(&"CMD"));
}
