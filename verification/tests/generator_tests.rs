use coral_turbo::generator::escape_css_selector;
use coral_turbo::{CSSProperty, GenerateOptions, Generator, Layer, MatchResult, ParsedClass};

fn make_result(class: &str, property: &str, value: &str) -> MatchResult {
    MatchResult {
        parsed: ParsedClass {
            raw: class.to_string(),
            utility: class.to_string(),
            value: None,
            variants: vec![],
            opacity: None,
            arbitrary: None,
            important: false,
            negative: false,
        },
        properties: vec![CSSProperty::new(property, value)],
        pattern_name: "test".to_string(),
        layer: Layer::Utilities,
        sort_order: 0,
    }
}

#[test]
fn test_generate_simple() {
    let generator = Generator::new();
    let results = vec![make_result("p-4", "padding", "1rem")];

    let css = generator.generate(&results);
    assert!(css.contains(".p-4"));
    assert!(css.contains("padding: 1rem"));
}

#[test]
fn test_escape_selector() {
    let escaped = escape_css_selector("hover:bg-blue-500");
    assert_eq!(escaped, "hover\\:bg-blue-500");
}

#[test]
fn test_generate_with_variants() {
    let generator = Generator::new();
    let mut result = make_result("hover:bg-blue-500", "background-color", "#3b82f6");
    result.parsed.variants = vec!["hover".to_string()];

    let results = vec![result];
    let css = generator.generate(&results);

    assert!(css.contains("hover\\:bg-blue-500:hover"));
}

#[test]
fn test_generate_important() {
    let generator = Generator::new();
    let mut result = make_result("!p-4", "padding", "1rem");
    result.parsed.important = true;

    let results = vec![result];
    let css = generator.generate(&results);

    assert!(css.contains("!important"));
}

#[test]
fn test_minify() {
    let generator = Generator::with_options(GenerateOptions {
        minify: true,
        ..Default::default()
    });

    let results = vec![make_result("p-4", "padding", "1rem")];
    let css = generator.generate(&results);

    // Minified output should not have newlines
    assert!(!css.contains("\n  "));
}

#[test]
fn test_generate_empty_input() {
    let generator = Generator::new();
    let css = generator.generate(&[]);
    assert_eq!(css, "");
}

#[test]
fn test_generate_exact_pretty_rule() {
    let generator = Generator::new();
    let results = vec![make_result("p-4", "padding", "1rem")];
    let css = generator.generate(&results);
    assert_eq!(css, "@layer utilities {\n.p-4 {\n  padding: 1rem;\n}\n}\n\n");
}

#[test]
fn test_generate_exact_minified_rule() {
    let generator = Generator::with_options(GenerateOptions {
        minify: true,
        source_comments: false,
        sort_by_property: false,
        use_layers: true,
    });
    let results = vec![make_result("p-4", "padding", "1rem")];
    let css = generator.generate(&results);
    assert_eq!(css, "@layer utilities{.p-4{padding:1rem;}}");
}

#[test]
fn test_generate_without_layers() {
    let generator = Generator::with_options(GenerateOptions {
        minify: false,
        source_comments: false,
        sort_by_property: false,
        use_layers: false,
    });
    let results = vec![make_result("p-4", "padding", "1rem")];
    let css = generator.generate(&results);
    assert_eq!(css, ".p-4 {\n  padding: 1rem;\n}\n");
    assert!(!css.contains("@layer"));
}

#[test]
fn test_generate_groups_by_layer_in_order() {
    let generator = Generator::new();
    let mut base = make_result("reset", "margin", "0px");
    base.layer = Layer::Base;
    let util = make_result("p-4", "padding", "1rem");
    let results = vec![util, base];
    let css = generator.generate(&results);
    let base_pos = css.find("@layer base").unwrap();
    let util_pos = css.find("@layer utilities").unwrap();
    assert!(base_pos < util_pos);
}

#[test]
fn test_dark_variant_uses_parent_selector() {
    let generator = Generator::new();
    let mut result = make_result("dark:p-4", "padding", "1rem");
    result.parsed.variants = vec!["dark".to_string()];
    let css = generator.generate(&[result]);
    assert!(css.contains(".dark .dark\\:p-4"));
}

#[test]
fn test_unknown_variant_degrades_to_pseudo_class() {
    let generator = Generator::new();
    let mut result = make_result("mystery:p-4", "padding", "1rem");
    result.parsed.variants = vec!["mystery".to_string()];
    let css = generator.generate(&[result]);
    assert!(css.contains(".mystery\\:p-4:mystery"));
}

#[test]
fn test_variants_applied_in_reverse_order() {
    let generator = Generator::new();
    let mut result = make_result("dark:hover:p-4", "padding", "1rem");
    result.parsed.variants = vec!["dark".to_string(), "hover".to_string()];
    let css = generator.generate(&[result]);
    // hover (innermost) is applied first, dark (outermost) last
    assert!(css.contains(".dark .dark\\:hover\\:p-4:hover"));
}

#[test]
fn test_pretty_stripped_equals_minified() {
    // scenario check of the formatting law on a concrete result list
    let pretty_gen = Generator::new();
    let minified_gen = Generator::with_options(GenerateOptions {
        minify: true,
        source_comments: false,
        sort_by_property: true,
        use_layers: true,
    });
    let mut hover = make_result("hover:bg-blue-500", "background-color", "#3b82f6");
    hover.parsed.variants = vec!["hover".to_string()];
    let mut imp = make_result("!p-4", "padding", "1rem");
    imp.parsed.important = true;
    let results = vec![make_result("p-4", "padding", "1rem"), hover, imp];

    let pretty = pretty_gen.generate(&results);
    let minified = minified_gen.generate(&results);

    let mut stripped = String::new();
    let chars: Vec<char> = pretty.chars().collect();
    for i in 0..chars.len() {
        let c = chars[i];
        if c == '\n' {
            continue;
        }
        if c == ' ' {
            let prev_bad = i == 0 || chars[i - 1] == '\n' || chars[i - 1] == ' '
                || chars[i - 1] == ':';
            let next_brace = i + 1 < chars.len() && chars[i + 1] == '{';
            if prev_bad || next_brace {
                continue;
            }
        }
        stripped.push(c);
    }
    assert_eq!(stripped, minified);
}

#[test]
fn test_generator_formats() {
    let parser = coral_turbo::Parser::new();
    let matcher = coral_turbo::Matcher::new();

    // Collect some match results
    let classes = ["p-4", "m-2", "flex", "bg-blue-500"];
    let results: Vec<MatchResult> = classes
        .iter()
        .filter_map(|c| {
            let parsed = parser.parse(c);
            matcher.match_class(&parsed)
        })
        .collect();

    assert!(!results.is_empty());

    // Test default generator (with layers)
    let generator = Generator::new();
    let css = generator.generate(&results);
    assert!(css.contains("@layer utilities"));
    assert!(css.contains(".p-4"));
    assert!(css.contains(".flex"));

    // Test minified output
    let minified_gen = Generator::with_options(GenerateOptions {
        minify: true,
        source_comments: false,
        sort_by_property: false,
        use_layers: true,
    });
    let minified = minified_gen.generate(&results);
    assert!(minified.len() < css.len(), "Minified should be smaller");
    assert!(!minified.contains('\n') || minified.lines().count() < css.lines().count());

    // Test without layers
    let no_layers_gen = Generator::with_options(GenerateOptions {
        minify: false,
        source_comments: false,
        sort_by_property: false,
        use_layers: false,
    });
    let no_layers = no_layers_gen.generate(&results);
    assert!(!no_layers.contains("@layer"));
}
