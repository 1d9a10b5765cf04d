use headson::error::Argument;
use headson::python::{
    bind, map_output_template, parse_skew, priority_config, render_config_with_sampler, summarize,
    to_style,
};
use headson::{
    ArrayBias, ArraySamplerStrategy, ColorMode, HeadsonError, IngestFailure, OutputTemplate,
    PriorityConfig, Style,
};

#[test]
fn styles_are_named_in_any_case() {
    assert_eq!(to_style("strict"), Ok(Style::Strict));
    assert_eq!(to_style("Default"), Ok(Style::Default));
    assert_eq!(to_style("DETAILED"), Ok(Style::Detailed));
    assert_eq!(to_style("fancy"), Err(HeadsonError::UnknownValue(Argument::Style)));
    assert_eq!(to_style(""), Err(HeadsonError::UnknownValue(Argument::Style)));
}

#[test]
fn formats_name_their_templates() {
    assert_eq!(map_output_template("auto", Style::Strict), Ok(OutputTemplate::Json));
    assert_eq!(map_output_template("JSON", Style::Default), Ok(OutputTemplate::Pseudo));
    assert_eq!(map_output_template("json", Style::Detailed), Ok(OutputTemplate::Js));
    assert_eq!(map_output_template("yaml", Style::Strict), Ok(OutputTemplate::Yaml));
    assert_eq!(map_output_template("yml", Style::Strict), Ok(OutputTemplate::Yaml));
    assert_eq!(map_output_template("Text", Style::Strict), Ok(OutputTemplate::Text));
    assert_eq!(map_output_template("code", Style::Strict), Ok(OutputTemplate::Code));
    assert_eq!(map_output_template("xml", Style::Strict), Err(HeadsonError::UnknownValue(Argument::Format)));
}

#[test]
fn skews_name_their_samplers() {
    assert_eq!(parse_skew("balanced"), Ok(ArraySamplerStrategy::Default));
    assert_eq!(parse_skew("Head"), Ok(ArraySamplerStrategy::Head));
    assert_eq!(parse_skew("TAIL"), Ok(ArraySamplerStrategy::Tail));
    assert_eq!(parse_skew("middle"), Err(HeadsonError::UnknownValue(Argument::Skew)));
}

#[test]
fn the_priority_configuration_follows_the_budget() {
    assert_eq!(
        priority_config(500, ArraySamplerStrategy::Tail),
        PriorityConfig {
            max_string_graphemes: 500,
            array_max_items: 250,
            prefer_tail_arrays: true,
            array_bias: ArrayBias::HeadMidTail,
            array_sampler: ArraySamplerStrategy::Tail,
            line_budget_only: false,
        }
    );
    assert_eq!(priority_config(1, ArraySamplerStrategy::Default).array_max_items, 1);
    assert_eq!(priority_config(0, ArraySamplerStrategy::Default).array_max_items, 1);
    assert!(!priority_config(9, ArraySamplerStrategy::Head).prefer_tail_arrays);
}

#[test]
fn the_render_configuration_of_a_binding_call() {
    let cfg = render_config_with_sampler("json", "strict", ArraySamplerStrategy::Tail).unwrap();
    assert_eq!(cfg.template, OutputTemplate::Json);
    assert_eq!(cfg.style, Style::Strict);
    assert_eq!((cfg.indent_unit.as_str(), cfg.space.as_str(), cfg.newline.as_str()), ("  ", " ", "\n"));
    assert!(cfg.prefer_tail_arrays && cfg.show_fileset_headers);
    assert!(!cfg.color_enabled && !cfg.debug && !cfg.count_fileset_headers_in_budgets);
    assert_eq!(cfg.color_mode, ColorMode::Off);
    assert!(cfg.grep_highlight.is_none() && cfg.primary_source_name.is_none());
    assert_eq!(render_config_with_sampler("json", "loud", ArraySamplerStrategy::Head).err(), Some(HeadsonError::UnknownValue(Argument::Style)));
    assert_eq!(render_config_with_sampler("toml", "strict", ArraySamplerStrategy::Head).err(), Some(HeadsonError::UnknownValue(Argument::Format)));
}

#[test]
fn a_text_is_summarized_under_the_default_budget() {
    let out = summarize(r#"{"a": 1, "b": [true, null]}"#, "auto", "strict", None, "balanced", "json", None).unwrap();
    assert_eq!(out, "{\n  \"a\": 1,\n  \"b\": [\n    true,\n    null\n  ]\n}");
    let small = summarize("[1,2,3,4,5,6,7,8,9]", "json", "default", Some(20), "balanced", "json", None).unwrap();
    assert!(small.len() <= 20, "{small:?}");
    assert_eq!(small, "[\n  1,\n  2,\n  \u{2026}\n]");
    let yaml = summarize("a: 1\n", "yaml", "default", Some(100), "head", "YAML", None).unwrap();
    assert_eq!(yaml, "a: 1");
    let text = summarize("one\ntwo\n", "text", "default", Some(100), "tail", "text", None).unwrap();
    assert_eq!(text, "one\ntwo");
    let code = summarize("x = 1\n", "code", "default", Some(100), "balanced", "text", None).unwrap();
    assert_eq!(code, " 1: x = 1");
}

#[test]
fn a_pattern_makes_the_search_a_strong_one() {
    let out = summarize(r#"{"far":{"down":"needle"},"x":1}"#, "json", "strict", Some(2), "balanced", "json", Some("needle")).unwrap();
    assert_eq!(out, "{\n  \"far\": {\n    \"down\": \"needle\"\n  }\n}");
}

#[test]
fn faults_are_reported_in_order() {
    let call = |format: &str, style: &str, skew: &str, input: &str, grep: Option<&str>| {
        bind("{}", format, style, None, skew, input, grep)
    };
    assert_eq!(call("json", "strict", "balanced", "json", Some("(")), Err(HeadsonError::InvalidPattern));
    assert_eq!(call("json", "strict", "sideways", "json", None), Err(HeadsonError::UnknownValue(Argument::Skew)));
    assert_eq!(call("json", "odd", "balanced", "json", None), Err(HeadsonError::UnknownValue(Argument::Style)));
    assert_eq!(call("csv", "strict", "balanced", "json", None), Err(HeadsonError::UnknownValue(Argument::Format)));
    assert_eq!(call("json", "strict", "balanced", "csv", None), Err(HeadsonError::UnknownValue(Argument::InputFormat)));
    assert_eq!(call("csv", "odd", "sideways", "csv", Some("(")), Err(HeadsonError::InvalidPattern));
    assert_eq!(call("csv", "odd", "sideways", "csv", None), Err(HeadsonError::UnknownValue(Argument::Skew)));
    assert_eq!(call("csv", "odd", "head", "csv", None), Err(HeadsonError::UnknownValue(Argument::Style)));
    assert_eq!(
        bind("{", "json", "strict", None, "balanced", "json", None),
        Err(HeadsonError::IngestFailed(IngestFailure::Syntax))
    );
}

#[test]
fn an_unknown_value_is_named_in_the_message() {
    let call = |format: &str, style: &str, skew: &str, input: &str| {
        summarize("{}", format, style, None, skew, input, None)
    };
    assert_eq!(
        call("auto", "default", "balanced", "xml"),
        Err("unknown input_format: xml (expected 'json' | 'yaml' | 'text')".to_string())
    );
    assert_eq!(
        call("auto", "default", "balanced", "XML"),
        Err("unknown input_format: xml (expected 'json' | 'yaml' | 'text')".to_string())
    );
    assert_eq!(
        call("auto", "Fancy", "balanced", "json"),
        Err("unknown style: fancy (expected 'strict' | 'default' | 'detailed')".to_string())
    );
    assert_eq!(
        call("toml", "strict", "balanced", "json"),
        Err("unknown format: toml (expected 'auto' | 'json' | 'yaml' | 'text' | 'code')".to_string())
    );
    assert_eq!(
        call("auto", "default", "middle", "json"),
        Err("unknown skew: middle (expected 'balanced' | 'head' | 'tail')".to_string())
    );
    assert_eq!(call("auto", "default", "balanced", "JSON"), Ok("{}".to_string()));
    assert_eq!(call("auto", "default", "balanced", "Yml"), Ok("{}".to_string()));
    assert_eq!(
        summarize("{", "json", "strict", None, "balanced", "json", None),
        Err("input could not be parsed".to_string())
    );
}
