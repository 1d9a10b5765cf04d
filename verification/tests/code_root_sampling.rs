use headson::cli::args::{Cli, OutputFormat, Terminal};
use headson::cli::run::{run, PathInput};
use headson::{ColorMode, Style};

/// Shared code fixture set for multi-file fairness tests.
const CODE_FILESET_PATHS: &[&str] = &[
    "tests/fixtures/code/big_sample.py",
    "tests/fixtures/code/sample.py",
    "tests/fixtures/code/sample.ts",
];

fn fixture(path: &str) -> String {
    let mut text = String::new();
    if path.ends_with("big_sample.py") {
        for i in 0..200 {
            text.push_str(&format!("def handler_{i}(request):\n    return respond(request, {i})\n\n"));
        }
    } else if path.ends_with("sample.py") {
        text.push_str("import os\n\n\ndef greet(name):\n    print(f\"hello {name}\")\n\n\ngreet(os.getlogin())\n");
    } else {
        text.push_str("export function add(a: number, b: number): number {\n  return a + b;\n}\n\nconsole.log(add(1, 2));\n");
    }
    text
}

fn cli_with_bytes(per_file: usize) -> Cli {
    Cli {
        bytes: Some(per_file),
        chars: None,
        lines: None,
        global_bytes: None,
        global_chars: None,
        global_lines: None,
        format: OutputFormat::Auto,
        style: Style::Default,
        input_format: None,
        tree: false,
        compact: false,
        no_newline: false,
        no_header: false,
        count_headers: false,
        head: false,
        tail: false,
        grep: None,
        weak_grep: None,
        grep_show: None,
        debug: false,
        color: ColorMode::Off,
        no_sort: true,
        inputs: CODE_FILESET_PATHS.iter().map(|p| p.to_string()).collect(),
    }
}

fn run_code_fileset_with_budget(budget: usize) -> String {
    let cli = cli_with_bytes(budget);
    let paths = CODE_FILESET_PATHS
        .iter()
        .map(|p| PathInput {
            display: p.to_string(),
            is_dir: false,
            bytes: fixture(p).into_bytes(),
        })
        .collect();
    let terminal = Terminal { force_color: false, stdout_is_terminal: false };
    let (out, notices) = run(&cli, terminal, Vec::new(), paths).expect("run succeeds");
    assert!(notices.is_empty());
    format!("{out}\n")
}

fn run_large_code_fileset_small_budget() -> String {
    run_code_fileset_with_budget(120)
}

fn parse_section_header(line: &str) -> Option<&str> {
    if line.starts_with("==>") && line.ends_with("<==") {
        Some(line.trim().trim_start_matches("==>").trim_end_matches("<==").trim())
    } else {
        None
    }
}

fn is_numbered_line(line: &str) -> bool {
    let trimmed = line.trim_start();
    trimmed.chars().next().map(|ch| ch.is_ascii_digit()).unwrap_or(false) && trimmed.contains(':')
}

fn fileset_section_line_counts(output: &str) -> Vec<(String, usize)> {
    let mut counts = Vec::new();
    let mut current: Option<(String, usize)> = None;
    for line in output.lines() {
        if let Some(name) = parse_section_header(line) {
            if let Some(section) = current.take() {
                counts.push(section);
            }
            current = Some((name.to_string(), 0));
        } else if let Some((_, count)) = current.as_mut() {
            if is_numbered_line(line) {
                *count += 1;
            }
        }
    }
    if let Some(section) = current.take() {
        counts.push(section);
    }
    counts
}

#[test]
fn fileset_code_small_budget_keeps_each_file_nonempty() {
    let out = run_large_code_fileset_small_budget();
    let counts = fileset_section_line_counts(&out);
    assert_eq!(counts.len(), CODE_FILESET_PATHS.len(), "{out}");
    let missing: Vec<String> = counts
        .into_iter()
        .filter_map(|(name, count)| if count == 0 { Some(name) } else { None })
        .collect();
    assert!(
        missing.is_empty(),
        "expected every fileset section to include at least one line, missing: {missing:?}\n{out}"
    );
}

#[test]
fn code_fileset_respects_total_byte_budget() {
    let per_file_budget = 10;
    let out = run_code_fileset_with_budget(per_file_budget);
    let total_cap = per_file_budget * CODE_FILESET_PATHS.len();
    let trimmed_len = out.trim_end_matches('\n').len();
    assert!(
        trimmed_len <= total_cap,
        "expected total output <= {total_cap} bytes, got {trimmed_len}\n{out}"
    );
}
