use headson::{
    Budgets, ColorMode, FilesetInput, FilesetInputKind, GrepConfig, GrepShow, InputKind,
    OutputTemplate, PriorityConfig, RenderConfig, Style, TextMode,
};

fn config(template: OutputTemplate, style: Style) -> RenderConfig {
    RenderConfig {
        template,
        indent_unit: "  ".to_string(),
        space: " ".to_string(),
        newline: "\n".to_string(),
        prefer_tail_arrays: false,
        color_mode: ColorMode::Off,
        color_enabled: false,
        style,
        string_free_prefix_graphemes: None,
        debug: false,
        primary_source_name: None,
        show_fileset_headers: true,
        fileset_tree: false,
        count_fileset_headers_in_budgets: false,
        grep_highlight: None,
    }
}

fn compact(template: OutputTemplate, style: Style) -> RenderConfig {
    let mut cfg = config(template, style);
    cfg.indent_unit = String::new();
    cfg.space = String::new();
    cfg.newline = String::new();
    cfg
}

fn bytes_cap(cap: usize) -> Budgets {
    Budgets { byte_budget: Some(cap), char_budget: None, line_budget: None }
}

fn prio() -> PriorityConfig {
    PriorityConfig::new(500, 1000)
}

fn grep_for(pattern: &str, weak: bool) -> GrepConfig {
    GrepConfig { regex: Some(regex::Regex::new(pattern).unwrap()), weak, show: GrepShow::Matching }
}

#[test]
fn strict_json_under_a_wide_budget_is_the_minified_document() {
    let out = headson::headson(
        InputKind::Json(br#"{"a":1,"b":2}"#.to_vec()),
        &compact(OutputTemplate::Json, Style::Strict),
        &prio(),
        &GrepConfig::default(),
        bytes_cap(1000),
    )
    .unwrap();
    assert_eq!(out, r#"{"a":1,"b":2}"#);
}

#[test]
fn strict_json_with_line_breaks_is_indented() {
    let out = headson::headson(
        InputKind::Json(br#"{"a":1,"b":[true,null]}"#.to_vec()),
        &config(OutputTemplate::Json, Style::Strict),
        &prio(),
        &GrepConfig::default(),
        bytes_cap(1000),
    )
    .unwrap();
    assert_eq!(out, "{\n  \"a\": 1,\n  \"b\": [\n    true,\n    null\n  ]\n}");
}

#[test]
fn strong_grep_expands_a_tiny_budget() {
    let out = headson::headson(
        InputKind::Json(br#"{"outer":{"inner":"needle"},"other":"zzzz"}"#.to_vec()),
        &compact(OutputTemplate::Json, Style::Strict),
        &prio(),
        &grep_for("needle", false),
        bytes_cap(5),
    )
    .unwrap();
    assert!(out.contains("needle"), "{out:?}");
    assert!(out.contains("outer") && out.contains("inner"), "{out:?}");
    assert!(out.len() > 5);
    assert_eq!(out, r#"{"outer":{"inner":"needle"}}"#);
}

#[test]
fn weak_grep_honours_the_budget() {
    let out = headson::headson(
        InputKind::Json(br#"{"keep":"needle"}"#.to_vec()),
        &compact(OutputTemplate::Json, Style::Strict),
        &prio(),
        &grep_for("needle", true),
        bytes_cap(5),
    )
    .unwrap();
    assert!(out.len() <= 5, "{out:?}");
    assert_eq!(out, "{}");
}

#[test]
fn array_under_a_byte_cap_keeps_its_first_items() {
    let out = headson::headson(
        InputKind::Json(b"[1,2,3,4,5,6,7,8,9,10]".to_vec()),
        &compact(OutputTemplate::Json, Style::Strict),
        &prio(),
        &GrepConfig::default(),
        bytes_cap(12),
    )
    .unwrap();
    assert!(out.len() <= 12);
    assert_eq!(out, "[1,2,3,4,5]");
}

#[test]
fn pseudo_marks_what_is_left_out() {
    let out = headson::headson(
        InputKind::Json(b"[1,2,3,4,5,6,7,8,9,10]".to_vec()),
        &compact(OutputTemplate::Pseudo, Style::Default),
        &prio(),
        &GrepConfig::default(),
        bytes_cap(12),
    )
    .unwrap();
    assert_eq!(out, "[1,2,3,\u{2026}]");
}

#[test]
fn detailed_counts_what_is_left_out() {
    let out = headson::headson(
        InputKind::Json(b"[1,2,3,4,5,6,7,8,9,10]".to_vec()),
        &compact(OutputTemplate::Js, Style::Detailed),
        &prio(),
        &GrepConfig::default(),
        bytes_cap(30),
    )
    .unwrap();
    assert_eq!(out, "[1,2,3,4,5,/* 5 more items */]");
}

#[test]
fn fileset_with_a_line_cap_shows_each_file() {
    let files = vec![
        FilesetInput {
            name: "a.txt".to_string(),
            bytes: b"a1\na2\na3\n".to_vec(),
            kind: FilesetInputKind::Text { atomic_lines: false },
        },
        FilesetInput {
            name: "b.txt".to_string(),
            bytes: b"b1\nb2\nb3\n".to_vec(),
            kind: FilesetInputKind::Text { atomic_lines: false },
        },
    ];
    let out = headson::headson(
        InputKind::Fileset(files),
        &config(OutputTemplate::Auto, Style::Default),
        &prio(),
        &GrepConfig::default(),
        Budgets { byte_budget: None, char_budget: None, line_budget: Some(4) },
    )
    .unwrap();
    assert_eq!(out, "==> a.txt <==\na1\n\u{2026}\n\n==> b.txt <==\nb1\n\u{2026}");
}

#[test]
fn code_lines_carry_their_numbers() {
    let out = headson::headson(
        InputKind::Text { bytes: b"fn main(){}\n// x\n".to_vec(), mode: TextMode::CodeLike },
        &config(OutputTemplate::Code, Style::Default),
        &prio(),
        &GrepConfig::default(),
        Budgets { byte_budget: None, char_budget: Some(200), line_budget: None },
    )
    .unwrap();
    assert_eq!(out, " 1: fn main(){}\n 2: // x");
    assert!(!out.contains('\u{1b}'));
}

#[test]
fn a_byte_cap_of_zero_leaves_nothing() {
    for input in ["[]", "{}", "\"x\"", "0", "true", "null"] {
        for template in [OutputTemplate::Json, OutputTemplate::Pseudo, OutputTemplate::Js] {
            let out = headson::headson(
                InputKind::Json(input.as_bytes().to_vec()),
                &config(template, Style::Default),
                &prio(),
                &GrepConfig::default(),
                bytes_cap(0),
            )
            .unwrap();
            assert_eq!(out, "", "input={input}");
        }
    }
}

#[test]
fn yaml_document_renders_as_a_block() {
    let out = headson::headson(
        InputKind::Yaml(b"name: demo\nitems:\n  - 1\n  - two\nempty: []\n".to_vec()),
        &config(OutputTemplate::Yaml, Style::Default),
        &prio(),
        &GrepConfig::default(),
        bytes_cap(1000),
    )
    .unwrap();
    assert_eq!(out, "name: demo\nitems:\n  - 1\n  - two\nempty: []");
}

#[test]
fn invalid_json_fails_to_ingest() {
    let r = headson::headson(
        InputKind::Json(b"{not json".to_vec()),
        &config(OutputTemplate::Json, Style::Strict),
        &prio(),
        &GrepConfig::default(),
        bytes_cap(100),
    );
    assert_eq!(r, Err(headson::HeadsonError::IngestFailed(headson::IngestFailure::Syntax)));
}

#[test]
fn invalid_utf8_text_fails_to_ingest() {
    let r = headson::headson(
        InputKind::Text { bytes: vec![0xff, 0xfe, 0x00], mode: TextMode::Plain },
        &config(OutputTemplate::Text, Style::Default),
        &prio(),
        &GrepConfig::default(),
        bytes_cap(100),
    );
    assert_eq!(r, Err(headson::HeadsonError::IngestFailed(headson::IngestFailure::InvalidUtf8)));
}

#[test]
fn a_failure_names_the_input_that_cannot_be_read() {
    let mut named = config(OutputTemplate::Json, Style::Strict);
    named.primary_source_name = Some("data.json".to_string());
    let r = headson::headson(
        InputKind::Json(b"{not json".to_vec()),
        &named,
        &prio(),
        &GrepConfig::default(),
        bytes_cap(100),
    );
    let e = r.unwrap_err();
    assert_eq!(
        e,
        headson::HeadsonError::InputFailed {
            input: "data.json".to_string(),
            failure: headson::IngestFailure::Syntax
        }
    );
    assert_eq!(e.message(), "data.json: input could not be parsed");

    let files = vec![
        FilesetInput { name: "good.json".to_string(), bytes: b"[1]".to_vec(), kind: FilesetInputKind::Json },
        FilesetInput { name: "bad.txt".to_string(), bytes: vec![0xff], kind: FilesetInputKind::Text { atomic_lines: false } },
        FilesetInput { name: "worse.json".to_string(), bytes: b"{".to_vec(), kind: FilesetInputKind::Json },
    ];
    let e = headson::headson(
        InputKind::Fileset(files),
        &config(OutputTemplate::Auto, Style::Default),
        &prio(),
        &GrepConfig::default(),
        bytes_cap(100),
    )
    .unwrap_err();
    assert_eq!(e.message(), "bad.txt: input is not valid UTF-8 text");

    let unnamed = headson::HeadsonError::IngestFailed(headson::IngestFailure::Syntax);
    assert_eq!(unnamed.message(), "input could not be parsed");
}
