use coral_turbo::{MatchResult, TurboEngine, UtilityPattern};

#[test]
fn test_engine_default() {
    let engine = TurboEngine::default();
    // Should work the same as new()
    let parsed = engine.parse("p-4");
    assert_eq!(parsed.len(), 1);
}

#[test]
fn test_parse_simple_class() {
    let engine = TurboEngine::new();
    let parsed = engine.parse("p-4 m-2 bg-red-500");
    assert_eq!(parsed.len(), 3);
}

#[test]
fn test_parse_variants() {
    let engine = TurboEngine::new();
    let parsed = engine.parse("hover:bg-blue-500 dark:text-white");
    assert_eq!(parsed.len(), 2);
    assert_eq!(parsed[0].variants, vec!["hover"]);
    assert_eq!(parsed[1].variants, vec!["dark"]);
}

#[test]
fn test_match_class() {
    let engine = TurboEngine::new();
    let parsed = engine.parse("p-4");
    let result = engine.match_class(&parsed[0]);

    assert!(result.is_some());
    let result = result.unwrap();
    assert_eq!(result.properties[0].property, "padding");
}

#[test]
fn test_generate() {
    let engine = TurboEngine::new();
    let parsed = engine.parse("p-4");
    let results: Vec<MatchResult> = parsed
        .iter()
        .filter_map(|p| engine.match_class(p))
        .collect();

    let css = engine.generate(&results);
    assert!(css.contains(".p-4"));
    assert!(css.contains("padding"));
}

#[test]
fn test_process_pipeline() {
    let engine = TurboEngine::new();
    let css = engine.process("p-4 m-2");

    assert!(css.contains(".p-4"));
    assert!(css.contains(".m-2"));
    assert!(css.contains("@layer utilities"));
}

#[test]
fn test_register_utility() {
    let mut engine = TurboEngine::new();

    let pattern = UtilityPattern::new("custom-spacing", "cs-")
        .with_pattern(r"^cs-\d+$")
        .with_css_property("custom-spacing");

    engine.register_utility(pattern);
    // Registration should not panic
}

#[test]
fn test_register_utilities() {
    let mut engine = TurboEngine::new();

    let patterns = vec![
        UtilityPattern::new("custom1", "c1-").with_pattern(r"^c1-\d+$"),
        UtilityPattern::new("custom2", "c2-").with_pattern(r"^c2-\d+$"),
    ];

    engine.register_utilities(patterns);
    // Registration should not panic
}

#[test]
fn test_process_empty_string() {
    let engine = TurboEngine::new();
    let css = engine.process("");

    // Should return empty or minimal output
    assert!(css.is_empty() || css.contains("@layer"));
}

#[test]
fn test_process_with_important() {
    let engine = TurboEngine::new();
    let css = engine.process("!p-4");

    // CSS should be generated for important class
    assert!(!css.is_empty());
}

#[test]
fn test_process_with_negative() {
    let engine = TurboEngine::new();
    let css = engine.process("-m-4");

    // CSS should be generated for negative class
    assert!(css.contains("-1rem") || css.contains("margin"));
}

#[test]
fn test_process_complex_classes() {
    let engine = TurboEngine::new();
    let css = engine.process("dark:hover:bg-blue-500 md:flex lg:hidden");

    // Should handle complex variant combinations
    assert!(!css.is_empty());
}

#[test]
fn test_variant_css_output() {
    let engine = TurboEngine::new();

    // Hover variant
    let hover_css = engine.process("hover:bg-blue-500");
    assert!(hover_css.contains(":hover") || hover_css.contains("hover\\:"));

    // Dark mode variant
    let dark_css = engine.process("dark:text-white");
    // Dark mode could be implemented as .dark selector or @media
    assert!(!dark_css.is_empty());

    // Multiple variants
    let multi_css = engine.process("dark:hover:bg-blue-500");
    assert!(multi_css.len() > 0);
}

#[test]
fn test_selector_escaping() {
    let engine = TurboEngine::new();

    // Classes with special characters that need escaping
    let css = engine.process("hover:bg-blue-500 p-[2rem] w-1/2");

    // Hover should have escaped colon
    assert!(css.contains("hover\\:") || css.contains(":hover"));

    // Brackets should be escaped
    if css.contains("p-[2rem]") || css.contains("p-\\[2rem\\]") {
        // Either escaped or in a valid selector format
        assert!(true);
    }
}

#[test]
fn test_important_modifier() {
    let engine = TurboEngine::new();
    let parsed = engine.parse("!p-4");
    assert!(parsed[0].important);

    if let Some(mut result) = engine.match_class(&parsed[0]) {
        result.parsed.important = true;
        let css = engine.generate(&[result]);
        // Important classes should have !important in the value
        assert!(css.contains("!important") || css.contains("important"));
    }
}

#[test]
fn test_edge_cases() {
    let engine = TurboEngine::new();

    // Empty string
    let empty_parsed = engine.parse("");
    assert!(empty_parsed.is_empty());

    // Whitespace only
    let whitespace_parsed = engine.parse("   ");
    assert!(whitespace_parsed.is_empty());

    // Single class with whitespace
    let single = engine.parse("  p-4  ");
    assert_eq!(single.len(), 1);
    assert_eq!(single[0].utility, "p");
}

#[test]
fn test_process_exact_output() {
    let engine = TurboEngine::new();
    let css = engine.process("p-4");
    assert_eq!(css, "@layer utilities {\n.p-4 {\n  padding: 1rem;\n}\n}\n\n");
}

#[test]
fn test_process_unmatched_token_is_dropped() {
    let engine = TurboEngine::new();
    let css = engine.process("p-4 zz-unknown-thing");
    assert!(css.contains(".p-4"));
    assert!(!css.contains("zz-unknown-thing"));
}

#[test]
fn test_engine_creation() {
    let _engine = TurboEngine::new();
    assert_eq!(coral_turbo::VERSION, "1.0.0");
}
