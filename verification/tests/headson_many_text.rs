use headson::{
    Budgets, ColorMode, FilesetInput, FilesetInputKind, GrepConfig, InputKind, OutputTemplate,
    PriorityConfig, RenderConfig, Style,
};

#[test]
fn headson_many_text_smoke() {
    // Cover the public library entrypoint for multi-file text ingest.
    let cfg = RenderConfig {
        template: OutputTemplate::Text,
        indent_unit: "  ".to_string(),
        space: " ".to_string(),
        newline: "\n".to_string(),
        prefer_tail_arrays: false,
        color_mode: ColorMode::Off,
        color_enabled: false,
        style: Style::Default,
        string_free_prefix_graphemes: None,
        debug: false,
        primary_source_name: None,
        show_fileset_headers: true,
        fileset_tree: false,
        count_fileset_headers_in_budgets: false,
        grep_highlight: None,
    };
    let prio = PriorityConfig::new(100, 100);
    let inputs = vec![
        FilesetInput {
            name: "a.txt".to_string(),
            bytes: b"one\ntwo\n".to_vec(),
            kind: FilesetInputKind::Text { atomic_lines: false },
        },
        FilesetInput {
            name: "b.log".to_string(),
            bytes: b"alpha\nbeta\n".to_vec(),
            kind: FilesetInputKind::Text { atomic_lines: false },
        },
    ];
    let out = headson::headson(
        InputKind::Fileset(inputs),
        &cfg,
        &prio,
        &GrepConfig::default(),
        Budgets { byte_budget: Some(10_000), char_budget: None, line_budget: None },
    )
    .unwrap();
    assert!(out.contains("a.txt"));
    assert!(out.contains("b.log"));
    assert!(out.contains("one\n"));
    assert!(out.contains("alpha\n"));
    assert_eq!(out, "==> a.txt <==\none\ntwo\n\n==> b.log <==\nalpha\nbeta");
}
