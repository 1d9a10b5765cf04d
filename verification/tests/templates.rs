use headson::cli::args::{
    exit_code, get_render_config_from, map_json_template_for_style, sorts_inputs, validate, Cli,
    InputFormat, OutputFormat, Terminal,
};
use headson::cli::budget::{build_priority_config, compute_effective, render_config_for_budgets};
use headson::cli::run::{
    detect_fileset_input_kind, grep_config_from, ingest_paths, resolve_effective_template_for_single,
    resolve_effective_template_for_stdin, sniff_binary, PathInput,
};
use headson::serialization::color::{apply, ColorRole};
use headson::utils::extensions::is_code_like_name;
use headson::{
    resolve_color_enabled, summarize, ArrayBias, ArraySamplerStrategy, Budgets, ColorMode,
    FilesetInput, FilesetInputKind, GrepConfig, GrepShow, HeadsonError, InputKind, OutputTemplate,
    PriorityConfig, RenderConfig, Style, TextMode,
};

fn config(template: OutputTemplate, style: Style) -> RenderConfig {
    RenderConfig {
        template,
        indent_unit: "  ".to_string(),
        space: " ".to_string(),
        newline: "\n".to_string(),
        prefer_tail_arrays: false,
        color_mode: ColorMode::Off,
        color_enabled: false,
        style,
        string_free_prefix_graphemes: None,
        debug: false,
        primary_source_name: None,
        show_fileset_headers: true,
        fileset_tree: false,
        count_fileset_headers_in_budgets: false,
        grep_highlight: None,
    }
}

fn wide() -> Budgets {
    Budgets { byte_budget: Some(100_000), char_budget: None, line_budget: None }
}

fn render(input: InputKind, cfg: &RenderConfig, budgets: Budgets) -> String {
    headson::headson(input, cfg, &PriorityConfig::new(5, 1000), &GrepConfig::default(), budgets).unwrap()
}

fn json(text: &str) -> InputKind {
    InputKind::Json(text.as_bytes().to_vec())
}

const DOC: &str = r#"{"name":"demo","list":[1,2,3],"empty":{},"flag":null}"#;

#[test]
fn pseudo_marks_an_omitted_tail_with_an_ellipsis() {
    let out = render(json(DOC), &config(OutputTemplate::Pseudo, Style::Default), Budgets { byte_budget: None, char_budget: None, line_budget: Some(6) });
    assert_eq!(out, "{\n  \"name\": \"demo\",\n  \"list\": [ \u{2026} ],\n  \"empty\": {},\n  \u{2026}\n}");
    let tight = render(json(DOC), &config(OutputTemplate::Pseudo, Style::Default), Budgets { byte_budget: None, char_budget: None, line_budget: Some(4) });
    assert_eq!(tight, "{\n  \"name\": \"demo\",\n  \u{2026}\n}");
    let none = render(json(DOC), &config(OutputTemplate::Pseudo, Style::Default), Budgets { byte_budget: None, char_budget: None, line_budget: Some(1) });
    assert_eq!(none, "{ \u{2026} }");
}

#[test]
fn the_automatic_template_follows_the_style() {
    let doc = json("[1,2]");
    let strict = render(doc, &config(OutputTemplate::Auto, Style::Strict), Budgets { byte_budget: Some(11), char_budget: None, line_budget: None });
    assert_eq!(strict, "[\n  1\n]");
    let default = render(json("[1,222222]"), &config(OutputTemplate::Auto, Style::Default), Budgets { byte_budget: Some(16), char_budget: None, line_budget: None });
    assert_eq!(default, "[\n  1,\n  \u{2026}\n]");
    let detailed = render(json("[1,2222222222222222222222]"), &config(OutputTemplate::Auto, Style::Detailed), Budgets { byte_budget: Some(30), char_budget: None, line_budget: None });
    assert_eq!(detailed, "[\n  1,\n  /* 1 more items */\n]");
}

#[test]
fn strings_are_escaped_as_in_json() {
    let out = render(json(r#"["q\"b\\s", "n\nr\rt\t", "\u0001\u001b", "é"]"#), &config(OutputTemplate::Json, Style::Strict), wide());
    assert_eq!(out, "[\n  \"q\\\"b\\\\s\",\n  \"n\\nr\\rt\\t\",\n  \"\\u0001\\u001b\",\n  \"\u{e9}\"\n]");
}

#[test]
fn a_split_string_shows_a_prefix() {
    let cfg = config(OutputTemplate::Json, Style::Strict);
    let out = render(json(r#"["abcdefghij"]"#), &cfg, Budgets { byte_budget: Some(14), char_budget: None, line_budget: None });
    assert_eq!(out, "[\n  \"abc\u{2026}\"\n]");
    // the whole value stands once every part is selected
    let all = render(json(r#"["abcdefghij"]"#), &cfg, wide());
    assert_eq!(all, "[\n  \"abcdefghij\"\n]");
}

#[test]
fn the_free_start_of_a_string_comes_with_the_string() {
    let chars = |cap: usize| Budgets { byte_budget: None, char_budget: Some(cap), line_budget: None };
    let mut cfg = config(OutputTemplate::Json, Style::Strict);
    // without a free start, the string alone is shown as an ellipsis
    assert_eq!(render(json(r#"["abcdefghij"]"#), &cfg, chars(9)), "[\n  \"\u{2026}\"\n]");
    assert_eq!(render(json(r#"["abcdefghij"]"#), &cfg, chars(10)), "[\n  \"a\u{2026}\"\n]");
    // with one, the start is shown and measured with the string
    cfg.string_free_prefix_graphemes = Some(3);
    assert_eq!(render(json(r#"["abcdefghij"]"#), &cfg, chars(9)), "[]");
    assert_eq!(render(json(r#"["abcdefghij"]"#), &cfg, chars(12)), "[\n  \"abc\u{2026}\"\n]");
    assert_eq!(render(json(r#"["abcdefghij"]"#), &cfg, chars(13)), "[\n  \"abcd\u{2026}\"\n]");
    cfg.string_free_prefix_graphemes = Some(100);
    assert_eq!(render(json(r#"["abcdefghij"]"#), &cfg, chars(18)), "[\n  \"abcdefghij\"\n]");
    assert_eq!(render(json(r#"["abcdefghij"]"#), &cfg, chars(17)), "[]");
}

#[test]
fn code_lines_are_clipped_by_user_perceived_characters() {
    let long = "e\u{301}".repeat(151);
    let input = InputKind::Text { bytes: long.clone().into_bytes(), mode: TextMode::CodeLike };
    let out = render(input, &config(OutputTemplate::Code, Style::Default), wide());
    assert_eq!(out, format!(" 1: {}\u{2026}", "e\u{301}".repeat(150)));
    let fits = "e\u{301}".repeat(150);
    let input = InputKind::Text { bytes: fits.clone().into_bytes(), mode: TextMode::CodeLike };
    assert_eq!(render(input, &config(OutputTemplate::Code, Style::Default), wide()), format!(" 1: {fits}"));
}

#[test]
fn yaml_nests_blocks_and_marks_omissions_in_comments() {
    let doc = "root:\n  list:\n    - a\n    - b: 1\n      c: [x, y]\n  text: \"has: colon\"\n  yes: true\n  n: 12\n";
    let cfg = config(OutputTemplate::Yaml, Style::Default);
    let out = render(InputKind::Yaml(doc.as_bytes().to_vec()), &cfg, wide());
    assert_eq!(
        out,
        "root:\n  list:\n    - a\n    -\n      b: 1\n      c:\n        - x\n        - y\n  text: \"has: colon\"\n  \"yes\": true\n  n: 12"
    );
    let cut = render(InputKind::Yaml(doc.as_bytes().to_vec()), &cfg, Budgets { byte_budget: None, char_budget: None, line_budget: Some(3) });
    assert_eq!(cut, "root:\n  # \u{2026}");
    let detailed = render(
        InputKind::Yaml(b"- 1\n- 2\n- 3\n".to_vec()),
        &config(OutputTemplate::Yaml, Style::Detailed),
        Budgets { byte_budget: None, char_budget: None, line_budget: Some(2) },
    );
    assert_eq!(detailed, "- 1\n# 2 more items");
    let strict = render(
        InputKind::Yaml(b"- 1\n- 2\n- 3\n".to_vec()),
        &config(OutputTemplate::Yaml, Style::Strict),
        Budgets { byte_budget: None, char_budget: None, line_budget: Some(2) },
    );
    assert_eq!(strict, "- 1\n- 2");
}

#[test]
fn yaml_without_line_breaks_falls_back_to_the_json_like_templates() {
    let mut cfg = config(OutputTemplate::Yaml, Style::Default);
    cfg.newline = String::new();
    cfg.indent_unit = String::new();
    cfg.space = String::new();
    let out = render(InputKind::Yaml(b"a: [1, 2]\n".to_vec()), &cfg, wide());
    assert_eq!(out, "{\"a\":[1,2]}");
}

#[test]
fn text_shows_its_lines_and_counts_omissions_in_detail() {
    let text = InputKind::Text { bytes: b"one\ntwo\nthree\nfour\n".to_vec(), mode: TextMode::Plain };
    let out = render(text, &config(OutputTemplate::Text, Style::Detailed), Budgets { byte_budget: None, char_budget: None, line_budget: Some(3) });
    assert_eq!(out, "one\ntwo\n\u{2026} 2 more lines \u{2026}");
    let text = InputKind::Text { bytes: b"one\ntwo\nthree\nfour\n".to_vec(), mode: TextMode::Plain };
    let strict = render(text, &config(OutputTemplate::Text, Style::Strict), Budgets { byte_budget: None, char_budget: None, line_budget: Some(3) });
    assert_eq!(strict, "one\ntwo\nthree");
}

#[test]
fn code_numbers_its_lines_by_their_place_in_the_file() {
    let body: String = (1..=12).map(|i| format!("line {i}\n")).collect();
    let input = InputKind::Text { bytes: body.into_bytes(), mode: TextMode::CodeLike };
    let cfg = config(OutputTemplate::Code, Style::Default);
    let out = headson::headson(input, &cfg, &PriorityConfig::new(500, 4), &GrepConfig::default(), wide()).unwrap();
    assert_eq!(out, "  1: line 1\n  2: line 2\n\u{2026}\n  7: line 7\n\u{2026}\n 12: line 12");
}

#[test]
fn long_code_lines_are_clipped() {
    let long = "x".repeat(200);
    let input = InputKind::Text { bytes: format!("{long}\nshort\n").into_bytes(), mode: TextMode::CodeLike };
    let out = render(input, &config(OutputTemplate::Code, Style::Default), wide());
    assert_eq!(out, format!(" 1: {}\u{2026}\n 2: short", "x".repeat(150)));
}

#[test]
fn a_fileset_sums_up_the_files_it_leaves_out() {
    let files = |n: usize| -> Vec<FilesetInput> {
        (0..n)
            .map(|i| FilesetInput { name: format!("f{i}.json"), bytes: b"[1,2]".to_vec(), kind: FilesetInputKind::Json })
            .collect()
    };
    let mut cfg = config(OutputTemplate::Auto, Style::Strict);
    cfg.count_fileset_headers_in_budgets = true;
    // a file of which nothing is shown is counted with the files left out
    let out = render(InputKind::Fileset(files(3)), &cfg, Budgets { byte_budget: None, char_budget: None, line_budget: Some(4) });
    assert_eq!(out, "==> 3 more files <==");
    let out = render(InputKind::Fileset(files(3)), &cfg, Budgets { byte_budget: None, char_budget: None, line_budget: Some(6) });
    assert_eq!(out, "==> f0.json <==\n[\n  1\n]\n\n==> 2 more files <==");
    cfg.show_fileset_headers = false;
    let bare = render(InputKind::Fileset(files(2)), &cfg, wide());
    assert_eq!(bare, "[\n  1,\n  2\n]\n[\n  1,\n  2\n]");
}

#[test]
fn syntax_is_colored_by_role() {
    let mut cfg = config(OutputTemplate::Json, Style::Strict);
    cfg.indent_unit = String::new();
    cfg.space = String::new();
    cfg.newline = String::new();
    cfg.color_enabled = true;
    let out = render(json(r#"{"k":["s",1,true,null]}"#), &cfg, wide());
    assert_eq!(
        out,
        "{\u{1b}[1;34m\"k\"\u{1b}[0m:[\u{1b}[32m\"s\"\u{1b}[0m,\u{1b}[36m1\u{1b}[0m,\u{1b}[33mtrue\u{1b}[0m,\u{1b}[90mnull\u{1b}[0m]}"
    );
    assert_eq!(apply(ColorRole::Key, "k", true), "\u{1b}[1;34mk\u{1b}[0m");
    assert_eq!(apply(ColorRole::Match, "m", true), "\u{1b}[31mm\u{1b}[39m");
    assert_eq!(apply(ColorRole::Pipe, "|", true), "\u{1b}[90m|\u{1b}[0m");
    assert_eq!(apply(ColorRole::Punct, ",", true), ",");
    assert_eq!(apply(ColorRole::String, "s", false), "s");
}

#[test]
fn matches_are_highlighted_once_and_punctuation_never() {
    let mut cfg = config(OutputTemplate::Json, Style::Strict);
    cfg.indent_unit = String::new();
    cfg.space = String::new();
    cfg.newline = String::new();
    cfg.color_enabled = true;
    let grep = GrepConfig { regex: Some(regex::Regex::new("a+|\"|:").unwrap()), weak: false, show: GrepShow::Matching };
    let out = headson::headson(json(r#"{"banana":"caab"}"#), &cfg, &PriorityConfig::new(500, 100), &grep, wide()).unwrap();
    let m = |s: &str| format!("\u{1b}[31m{s}\u{1b}[39m");
    assert_eq!(out, format!("{{\"b{}n{}n{}\":\"c{}b\"}}", m("a"), m("a"), m("a"), m("aa")));
    // without color nothing is highlighted
    cfg.color_enabled = false;
    let plain = headson::headson(json(r#"{"banana":"caab"}"#), &cfg, &PriorityConfig::new(500, 100), &grep, wide()).unwrap();
    assert_eq!(plain, r#"{"banana":"caab"}"#);
}

#[test]
fn a_summary_carries_the_notice_of_a_search_without_matches() {
    let files = vec![FilesetInput { name: "a.json".to_string(), bytes: b"[1]".to_vec(), kind: FilesetInputKind::Json }];
    let grep = GrepConfig { regex: Some(regex::Regex::new("zzz").unwrap()), weak: false, show: GrepShow::All };
    let summary = summarize(InputKind::Fileset(files), &config(OutputTemplate::Auto, Style::Default), &PriorityConfig::new(500, 100), &grep, wide()).unwrap();
    assert_eq!(summary.text, "");
    assert_eq!(summary.notices, vec!["No grep matches found"]);
    // a single document is summarized as without a search
    let single = summarize(json("[1]"), &config(OutputTemplate::Json, Style::Strict), &PriorityConfig::new(500, 100), &grep, wide()).unwrap();
    assert_eq!(single.text, "[\n  1\n]");
    assert!(single.notices.is_empty());
}

#[test]
fn color_follows_the_mode_and_the_terminal() {
    assert!(resolve_color_enabled(ColorMode::On, false, false));
    assert!(!resolve_color_enabled(ColorMode::Off, true, true));
    assert!(!resolve_color_enabled(ColorMode::Auto, false, false));
    assert!(resolve_color_enabled(ColorMode::Auto, true, false));
    assert!(resolve_color_enabled(ColorMode::Auto, false, true));
}

fn cli() -> Cli {
    Cli {
        bytes: None,
        chars: None,
        lines: None,
        global_bytes: None,
        global_chars: None,
        global_lines: None,
        format: OutputFormat::Auto,
        style: Style::Default,
        input_format: None,
        tree: false,
        compact: false,
        no_newline: false,
        no_header: false,
        count_headers: false,
        head: false,
        tail: false,
        grep: None,
        weak_grep: None,
        grep_show: None,
        debug: false,
        color: ColorMode::Auto,
        no_sort: false,
        inputs: Vec::new(),
    }
}

#[test]
fn files_are_read_by_their_names() {
    assert_eq!(detect_fileset_input_kind("a.JSON"), FilesetInputKind::Json);
    assert_eq!(detect_fileset_input_kind("dir/b.yaml"), FilesetInputKind::Yaml);
    assert_eq!(detect_fileset_input_kind("c.YML"), FilesetInputKind::Yaml);
    assert_eq!(detect_fileset_input_kind("main.rs"), FilesetInputKind::Text { atomic_lines: true });
    assert_eq!(detect_fileset_input_kind("notes.txt"), FilesetInputKind::Text { atomic_lines: false });
    assert_eq!(detect_fileset_input_kind("json"), FilesetInputKind::Text { atomic_lines: false });
    for name in ["a.py", "a.ts", "a.tsx", "a.js", "a.jsx", "a.go", "a.rs", "a.cpp", "a.cc", "a.java", "a.sh", "a.c", "a.h"] {
        assert!(is_code_like_name(name), "{name}");
    }
    for name in ["a.txt", "a.md", "py", "a.rs.bak", "a.json", ""] {
        assert!(!is_code_like_name(name), "{name}");
    }
}

#[test]
fn templates_follow_format_style_and_name() {
    type F = OutputFormat;
    type T = OutputTemplate;
    assert_eq!(map_json_template_for_style(Style::Strict), T::Json);
    assert_eq!(map_json_template_for_style(Style::Default), T::Pseudo);
    assert_eq!(map_json_template_for_style(Style::Detailed), T::Js);
    assert_eq!(resolve_effective_template_for_stdin(F::Auto, Style::Strict), T::Json);
    assert_eq!(resolve_effective_template_for_stdin(F::Json, Style::Detailed), T::Js);
    assert_eq!(resolve_effective_template_for_stdin(F::Yaml, Style::Strict), T::Yaml);
    assert_eq!(resolve_effective_template_for_stdin(F::Text, Style::Strict), T::Text);
    assert_eq!(resolve_effective_template_for_stdin(F::Code, Style::Strict), T::Code);
    assert_eq!(resolve_effective_template_for_single(F::Auto, Style::Default, "a.yaml"), T::Yaml);
    assert_eq!(resolve_effective_template_for_single(F::Auto, Style::Default, "a.yml"), T::Yaml);
    assert_eq!(resolve_effective_template_for_single(F::Auto, Style::Default, "a.json"), T::Pseudo);
    assert_eq!(resolve_effective_template_for_single(F::Auto, Style::Default, "a.rs"), T::Text);
    assert_eq!(resolve_effective_template_for_single(F::Json, Style::Strict, "a.yaml"), T::Json);
    assert_eq!(resolve_effective_template_for_single(F::Yaml, Style::Strict, "a.json"), T::Yaml);
    assert_eq!(resolve_effective_template_for_single(F::Text, Style::Strict, "a.json"), T::Text);
    assert_eq!(resolve_effective_template_for_single(F::Code, Style::Strict, "a.json"), T::Code);
}

#[test]
fn budgets_scale_with_the_number_of_inputs() {
    let mut args = cli();
    let e = compute_effective(&args, 3);
    assert_eq!(e.budgets, Budgets { byte_budget: Some(1500), char_budget: None, line_budget: None });
    assert_eq!(e.per_file_for_priority, 500);
    assert!(!e.line_budget_only);

    args.bytes = Some(40);
    args.global_bytes = Some(100);
    let e = compute_effective(&args, 3);
    assert_eq!(e.budgets.byte_budget, Some(100));
    assert_eq!(compute_effective(&args, 2).budgets.byte_budget, Some(80));
    assert_eq!(e.per_file_for_priority, 40);

    let mut args = cli();
    args.lines = Some(2);
    let e = compute_effective(&args, 4);
    assert_eq!(e.budgets, Budgets { byte_budget: None, char_budget: None, line_budget: Some(8) });
    assert!(e.line_budget_only);
    assert_eq!(e.per_file_for_priority, usize::MAX);
    let prio = build_priority_config(&args, &e);
    assert_eq!(prio.array_max_items, usize::MAX / 2);
    assert!(prio.line_budget_only);
    let cfg = render_config_for_budgets(config(OutputTemplate::Auto, Style::Default), &e);
    assert_eq!(cfg.string_free_prefix_graphemes, Some(500));

    let mut args = cli();
    args.global_chars = Some(90);
    args.tail = true;
    let e = compute_effective(&args, 4);
    assert_eq!(e.budgets, Budgets { byte_budget: None, char_budget: Some(90), line_budget: None });
    assert_eq!(e.per_file_for_priority, 22);
    let prio = build_priority_config(&args, &e);
    assert_eq!(
        prio,
        PriorityConfig {
            max_string_graphemes: 500,
            array_max_items: 11,
            prefer_tail_arrays: true,
            array_bias: ArrayBias::HeadMidTail,
            array_sampler: ArraySamplerStrategy::Tail,
            line_budget_only: false,
        }
    );
    args.bytes = Some(usize::MAX);
    assert_eq!(compute_effective(&args, 2).budgets.byte_budget, Some(usize::MAX));
    args.bytes = Some(1);
    assert_eq!(build_priority_config(&args, &compute_effective(&args, 1)).array_max_items, 1);
}

#[test]
fn the_arguments_decide_the_render_configuration() {
    let mut args = cli();
    args.format = OutputFormat::Json;
    args.style = Style::Detailed;
    args.count_headers = true;
    args.tree = true;
    args.debug = true;
    let off = Terminal { force_color: false, stdout_is_terminal: false };
    let cfg = get_render_config_from(&args, off);
    assert_eq!(cfg.template, OutputTemplate::Js);
    assert_eq!((cfg.indent_unit.as_str(), cfg.space.as_str(), cfg.newline.as_str()), ("  ", " ", "\n"));
    assert!(!cfg.color_enabled && cfg.count_fileset_headers_in_budgets && cfg.fileset_tree && cfg.debug);
    assert!(cfg.show_fileset_headers);
    args.compact = true;
    let cfg = get_render_config_from(&args, Terminal { force_color: true, stdout_is_terminal: false });
    assert_eq!((cfg.indent_unit.as_str(), cfg.space.as_str(), cfg.newline.as_str()), ("", "", ""));
    assert!(cfg.color_enabled);
    args.compact = false;
    args.no_newline = true;
    let cfg = get_render_config_from(&args, off);
    assert_eq!((cfg.indent_unit.as_str(), cfg.space.as_str(), cfg.newline.as_str()), ("  ", " ", ""));
}

#[test]
fn faults_in_the_arguments_are_found_in_order() {
    assert_eq!(validate(&cli()), Ok(()));
    let mut args = cli();
    args.bytes = Some(1);
    args.lines = Some(1);
    args.grep = Some("a".to_string());
    args.weak_grep = Some("b".to_string());
    assert_eq!(validate(&args), Err(HeadsonError::BudgetConflict));
    args.lines = None;
    assert_eq!(validate(&args), Err(HeadsonError::GrepConflict));
    args.weak_grep = None;
    args.head = true;
    args.tail = true;
    assert_eq!(validate(&args), Err(HeadsonError::ArgumentConflict));
    args.head = false;
    assert_eq!(validate(&args), Ok(()));
    args.global_chars = Some(1);
    args.global_lines = Some(1);
    assert_eq!(validate(&args), Err(HeadsonError::BudgetConflict));
}

#[test]
fn the_search_of_the_arguments_is_compiled() {
    let mut args = cli();
    assert!(grep_config_from(&args).unwrap().regex.is_none());
    args.grep = Some("ne+dle".to_string());
    args.grep_show = Some(GrepShow::All);
    let strong = grep_config_from(&args).unwrap();
    assert!(strong.regex.unwrap().is_match("xx needle"));
    assert!(!strong.weak);
    assert_eq!(strong.show, GrepShow::All);
    args.grep = None;
    args.grep_show = None;
    args.weak_grep = Some("a|b".to_string());
    let weak = grep_config_from(&args).unwrap();
    assert!(weak.weak);
    assert_eq!(weak.show, GrepShow::Matching);
    args.weak_grep = Some("(".to_string());
    assert_eq!(grep_config_from(&args).err(), Some(HeadsonError::InvalidPattern));
}

#[test]
fn paths_are_sorted_into_inputs_and_notices() {
    let paths = vec![
        PathInput { display: "docs".to_string(), is_dir: true, bytes: Vec::new() },
        PathInput { display: "a.txt".to_string(), is_dir: false, bytes: b"text".to_vec() },
        PathInput { display: "img.png".to_string(), is_dir: false, bytes: b"\x89PNG\r\n\x1a\n\0\0\0\rIHDR".to_vec() },
        PathInput { display: "empty".to_string(), is_dir: false, bytes: Vec::new() },
    ];
    let (entries, ignored) = ingest_paths(paths);
    assert_eq!(entries, vec![("a.txt".to_string(), b"text".to_vec()), ("empty".to_string(), Vec::new())]);
    assert_eq!(ignored, vec!["Ignored directory: docs", "Ignored binary file: img.png"]);
    assert!(!sniff_binary(&Vec::new()));
    assert!(!sniff_binary(&b"plain text".to_vec()));
    assert!(sniff_binary(&vec![0u8; 16]));
    // only the start of a file is looked at
    let mut late = vec![b'a'; 70_000];
    late.push(0);
    assert!(!sniff_binary(&late));
    assert_eq!(InputFormat::Json, InputFormat::Json);
}

#[test]
fn binary_data_is_told_by_zero_bytes_and_magic_numbers() {
    // a zero byte among the first 1024 bytes
    let mut early = vec![b'a'; 2000];
    early[1023] = 0;
    assert!(sniff_binary(&early));
    let mut behind = vec![b'a'; 2000];
    behind[1024] = 0;
    assert!(!sniff_binary(&behind));
    // a byte-order mark makes text of whatever follows
    assert!(!sniff_binary(&vec![0xEF, 0xBB, 0xBF, 0x00, 0x00]));
    assert!(!sniff_binary(&vec![0xFF, 0xFE, 0x00, 0x00, b'a', 0x00]));
    assert!(!sniff_binary(&vec![0xFE, 0xFF, 0x00, b'a']));
    assert!(!sniff_binary(&vec![0x00, 0x00, 0xFE, 0xFF, 0x00]));
    // the first bytes of a PDF or a PNG file
    assert!(sniff_binary(&b"%PDF-1.7 and text".to_vec()));
    assert!(sniff_binary(&vec![0x89, b'P', b'N', b'G', b'\r', b'\n']));
    assert!(!sniff_binary(&b"%PD".to_vec()));
}

#[test]
fn a_text_is_cut_at_the_matches_of_a_pattern() {
    let re = regex::Regex::new("ne+dle").unwrap();
    let cut = headson::serialization::highlight::split_at_matches(&re, "needle in a neeedlestack");
    assert_eq!(cut, vec!["", "needle", " in a ", "neeedle", "stack"]);
    let none = headson::serialization::highlight::split_at_matches(&re, "hay");
    assert_eq!(none, vec!["hay"]);
    let all = headson::serialization::highlight::split_at_matches(&re, "needle");
    assert_eq!(all, vec!["", "needle", ""]);
    let empty = regex::Regex::new("x*").unwrap();
    let cut = headson::serialization::highlight::split_at_matches(&empty, "axb");
    assert_eq!(cut.concat(), "axb");
    assert_eq!(cut.len() % 2, 1);
}

#[test]
fn argument_faults_end_with_status_two() {
    for e in [
        HeadsonError::BudgetConflict,
        HeadsonError::GrepConflict,
        HeadsonError::ArgumentConflict,
        HeadsonError::InvalidPattern,
        HeadsonError::UnknownValue(headson::error::Argument::Skew),
        HeadsonError::TreeWithoutFiles,
    ] {
        assert_eq!(exit_code(&e), 2, "{e:?}");
    }
    for e in [
        HeadsonError::FilesetFormatForbidden,
        HeadsonError::IngestFailed(headson::IngestFailure::Syntax),
        HeadsonError::InputFailed { input: "a.json".to_string(), failure: headson::IngestFailure::InvalidUtf8 },
    ] {
        assert_eq!(exit_code(&e), 1, "{e:?}");
    }
}

#[test]
fn several_inputs_are_sorted_unless_that_is_switched_off() {
    let mut args = cli();
    assert!(!sorts_inputs(&args));
    args.inputs = vec!["a".to_string()];
    assert!(!sorts_inputs(&args));
    args.inputs = vec!["a".to_string(), "b".to_string()];
    assert!(sorts_inputs(&args));
    args.no_sort = true;
    assert!(!sorts_inputs(&args));
}

#[test]
fn the_file_tree_excludes_other_layouts_and_needs_files() {
    let mut args = cli();
    args.tree = true;
    args.inputs = vec!["a.txt".to_string()];
    assert_eq!(validate(&args), Ok(()));
    args.inputs.clear();
    assert_eq!(validate(&args), Err(HeadsonError::TreeWithoutFiles));
    args.inputs = vec!["a.txt".to_string()];
    for set in [0, 1, 2] {
        let mut bad = cli();
        bad.tree = true;
        bad.inputs = vec!["a.txt".to_string()];
        match set {
            0 => bad.no_header = true,
            1 => bad.compact = true,
            _ => bad.no_newline = true,
        }
        assert_eq!(validate(&bad), Err(HeadsonError::ArgumentConflict));
    }
    // a conflict of options is found before the missing files are
    args.inputs.clear();
    args.compact = true;
    assert_eq!(validate(&args), Err(HeadsonError::ArgumentConflict));
    // headers can be switched off and counted apart
    let mut plain = cli();
    plain.no_header = true;
    let off = Terminal { force_color: false, stdout_is_terminal: false };
    let cfg = get_render_config_from(&plain, off);
    assert!(!cfg.show_fileset_headers && !cfg.count_fileset_headers_in_budgets);
    plain.no_header = false;
    plain.count_headers = true;
    let cfg = get_render_config_from(&plain, off);
    assert!(cfg.show_fileset_headers && cfg.count_fileset_headers_in_budgets);
}

#[test]
fn a_file_of_which_nothing_is_shown() {
    let text = |name: &str, atomic: bool| FilesetInput {
        name: name.to_string(),
        bytes: b"one\ntwo\nthree\n".to_vec(),
        kind: FilesetInputKind::Text { atomic_lines: atomic },
    };
    let one_line = Budgets { byte_budget: None, char_budget: None, line_budget: Some(2) };
    // plain text under free headers stands as a mark of omission
    let cfg = config(OutputTemplate::Auto, Style::Default);
    let out = render(InputKind::Fileset(vec![text("a.txt", false), text("b.txt", false)]), &cfg, one_line);
    assert_eq!(out, "==> a.txt <==\n\u{2026}\n\n==> b.txt <==\n\u{2026}");
    // code is left out and counted
    let tight = Budgets { byte_budget: None, char_budget: None, line_budget: Some(1) };
    let out = render(InputKind::Fileset(vec![text("a.rs", true), text("b.rs", true)]), &cfg, tight);
    assert_eq!(out, "==> 2 more files <==");
    let out = render(InputKind::Fileset(vec![text("a.rs", true), text("b.rs", true)]), &cfg, one_line);
    assert_eq!(out, "==> a.rs <==\n 1: one\n\u{2026}\n\n==> 1 more files <==");
    // and so is any file whose header counts toward the budgets
    let mut counted = config(OutputTemplate::Auto, Style::Default);
    counted.count_fileset_headers_in_budgets = true;
    let out = render(InputKind::Fileset(vec![text("a.txt", false), text("b.txt", false)]), &counted, one_line);
    assert_eq!(out, "==> 2 more files <==");
}
