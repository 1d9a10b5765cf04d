use headson::{
    Budgets, ColorMode, GrepConfig, InputKind, OutputTemplate, PriorityConfig, RenderConfig, Style,
};

fn strip_ansi(s: &str) -> String {
    // Minimal SGR stripper for tests: remove ESC [ ... m sequences, preserve UTF-8.
    let bytes = s.as_bytes();
    let mut out: Vec<u8> = Vec::with_capacity(bytes.len());
    let mut i = 0;
    while i < bytes.len() {
        if bytes[i] == 0x1b && i + 1 < bytes.len() && bytes[i + 1] == b'[' {
            // Skip until an 'm' or end
            i += 2;
            while i < bytes.len() {
                let b = bytes[i];
                i += 1;
                if b == b'm' {
                    break;
                }
            }
        } else {
            out.push(bytes[i]);
            i += 1;
        }
    }
    String::from_utf8(out).expect("valid utf8 after strip")
}

fn config(color_enabled: bool) -> RenderConfig {
    RenderConfig {
        template: OutputTemplate::Json,
        indent_unit: "  ".to_string(),
        space: " ".to_string(),
        newline: "\n".to_string(),
        prefer_tail_arrays: false,
        color_mode: ColorMode::On,
        color_enabled,
        style: Style::Strict,
        string_free_prefix_graphemes: None,
        debug: false,
        primary_source_name: None,
        show_fileset_headers: true,
        fileset_tree: false,
        count_fileset_headers_in_budgets: false,
        grep_highlight: None,
    }
}

#[test]
fn colored_and_plain_outputs_should_match_after_stripping() {
    // Arrange a small array whose render sits near the byte budget edge.
    // Coloring adds ANSI SGR sequences to strings, which do not count toward
    // the budget: measuring is done on uncolored output, so inclusion is
    // identical after stripping colors.
    let input = b"[\"x\",\"x\",\"x\",\"x\",\"x\",\"x\",\"x\",\"x\",\"x\",\"x\",\"x\"]";

    let cfg_plain = config(false);
    let cfg_color = config(true);
    let prio = PriorityConfig::new(usize::MAX, usize::MAX);

    // Use a tight budget so the number of kept items is sensitive to extra bytes.
    let budget = 50usize;

    let budgets = Budgets { byte_budget: Some(budget), char_budget: None, line_budget: None };
    let grep = GrepConfig::default();

    let plain = headson::headson(InputKind::Json(input.to_vec()), &cfg_plain, &prio, &grep, budgets)
        .expect("plain render");
    let colored =
        headson::headson(InputKind::Json(input.to_vec()), &cfg_color, &prio, &grep, budgets)
            .expect("color render");

    let colored_stripped = strip_ansi(&colored);

    // Expect identical logical output after stripping ANSI.
    assert_eq!(plain, colored_stripped);
    assert!(plain.len() <= budget);
    assert!(plain.starts_with('['), "{plain:?}");
    assert!(colored.contains("\u{1b}[32m"), "{colored:?}");
}

#[test]
fn colored_vs_plain_match_after_stripping_under_char_budget() {
    // Arrange a small array whose render sits near the char budget edge.
    let input = b"[\"x\",\"x\",\"x\",\"x\",\"x\",\"x\",\"x\",\"x\",\"x\",\"x\",\"x\"]";

    let cfg_plain = config(false);
    let cfg_color = RenderConfig { color_enabled: true, ..cfg_plain.clone() };
    let prio = PriorityConfig::new(usize::MAX, usize::MAX);

    let budgets = Budgets { byte_budget: None, char_budget: Some(50), line_budget: None };
    let grep = GrepConfig::default();

    let plain = headson::headson(InputKind::Json(input.to_vec()), &cfg_plain, &prio, &grep, budgets)
        .expect("plain render under char budget");
    let colored = headson::headson(InputKind::Json(input.to_vec()), &cfg_color, &prio, &grep, budgets)
        .expect("colored render under char budget");

    // Ensure char budget enforced on uncolored output
    assert!(plain.chars().count() <= budgets.char_budget.unwrap());
    // Stripping ANSI from colored should match plain logical content
    let colored_stripped = strip_ansi(&colored);
    assert_eq!(plain, colored_stripped);
}

#[test]
fn yaml_coloring_applies_and_strips_to_plain() {
    // A small YAML mapping + array exercising keys, unquoted and quoted strings, and numbers.
    let input = b"name: Alice\nage: 42\nlikes: [tea, \"ice cream\", 7]\n".to_vec();

    let cfg_plain = RenderConfig {
        template: OutputTemplate::Yaml,
        indent_unit: "  ".to_string(),
        space: " ".to_string(),
        newline: "\n".to_string(),
        prefer_tail_arrays: false,
        color_mode: ColorMode::On,
        color_enabled: false,
        style: Style::Default,
        string_free_prefix_graphemes: None,
        debug: false,
        primary_source_name: None,
        show_fileset_headers: true,
        fileset_tree: false,
        count_fileset_headers_in_budgets: false,
        grep_highlight: None,
    };
    let cfg_color = RenderConfig { color_enabled: true, ..cfg_plain.clone() };
    let prio = PriorityConfig::new(usize::MAX, usize::MAX);

    let budget = 10_000usize;
    let budgets = Budgets { byte_budget: Some(budget), char_budget: None, line_budget: None };
    let grep = GrepConfig::default();
    let plain = headson::headson(InputKind::Yaml(input.clone()), &cfg_plain, &prio, &grep, budgets)
        .expect("plain yaml");
    let colored =
        headson::headson(InputKind::Yaml(input), &cfg_color, &prio, &grep, budgets).expect("colored yaml");

    // Contains ANSI SGR and specific roles (blue for keys, green for strings).
    assert!(colored.contains("\u{001b}["), "expected ANSI escapes in colored output");
    assert!(colored.contains("\u{001b}[1;34m"), "expected key color (bold blue) present");
    assert!(colored.contains("\u{001b}[32m"), "expected string color (green) present");

    // Stripped output should be identical to the plain render.
    let stripped = strip_ansi(&colored);
    assert_eq!(plain, stripped);
}

#[test]
fn grep_highlights_for_library_calls_without_extra_config() {
    let cfg = RenderConfig {
        template: OutputTemplate::Pseudo,
        indent_unit: "  ".to_string(),
        space: " ".to_string(),
        newline: "\n".to_string(),
        prefer_tail_arrays: false,
        color_mode: ColorMode::On,
        color_enabled: true,
        style: Style::Default,
        string_free_prefix_graphemes: None,
        debug: false,
        primary_source_name: None,
        show_fileset_headers: true,
        fileset_tree: false,
        count_fileset_headers_in_budgets: false,
        grep_highlight: None,
    };
    let prio = PriorityConfig::new(usize::MAX, usize::MAX);
    let budgets = Budgets { byte_budget: Some(200), char_budget: None, line_budget: None };
    let grep = GrepConfig {
        regex: Some(regex::Regex::new("needle").unwrap()),
        weak: false,
        show: headson::GrepShow::Matching,
    };
    let out = headson::headson(InputKind::Json(br#"{"needle":1,"other":2}"#.to_vec()), &cfg, &prio, &grep, budgets)
        .expect("render");
    assert!(
        out.contains("\u{001b}[31mneedle\u{001b}[39m"),
        "library calls should auto-wire grep highlights when color is on: {out:?}"
    );
    // Syntax colors should be suppressed in grep mode.
    assert!(
        !out.contains("\u{001b}[1;34m") && !out.contains("\u{001b}[32m"),
        "grep mode should disable syntax colors for library calls: {out:?}"
    );
}
