use coral_turbo::{Matcher, Parser, ParsedClass, UtilityPattern};

#[test]
fn test_spacing_match() {
    let matcher = Matcher::new();
    let parsed = ParsedClass {
        raw: "p-4".to_string(),
        utility: "p".to_string(),
        value: Some("4".to_string()),
        variants: vec![],
        opacity: None,
        arbitrary: None,
        important: false,
        negative: false,
    };

    let result = matcher.match_class(&parsed);
    assert!(result.is_some());

    let result = result.unwrap();
    assert_eq!(result.properties.len(), 1);
    assert_eq!(result.properties[0].property, "padding");
    assert_eq!(result.properties[0].value, "1rem");
}

#[test]
fn test_negative_margin() {
    let matcher = Matcher::new();
    let parsed = ParsedClass {
        raw: "-m-4".to_string(),
        utility: "m".to_string(),
        value: Some("4".to_string()),
        variants: vec![],
        opacity: None,
        arbitrary: None,
        important: false,
        negative: true,
    };

    let result = matcher.match_class(&parsed);
    assert!(result.is_some());

    let result = result.unwrap();
    assert_eq!(result.properties[0].value, "-1rem");
}

#[test]
fn test_matcher_arbitrary_value() {
    let matcher = Matcher::new();
    let parsed = ParsedClass {
        raw: "p-[2rem]".to_string(),
        utility: "p".to_string(),
        value: None,
        variants: vec![],
        opacity: None,
        arbitrary: Some("2rem".to_string()),
        important: false,
        negative: false,
    };

    let result = matcher.match_class(&parsed);
    assert!(result.is_some());

    let result = result.unwrap();
    assert_eq!(result.properties[0].value, "2rem");
}

#[test]
fn test_matcher_comprehensive() {
    let parser = Parser::new();
    let matcher = Matcher::new();

    // Spacing utilities
    let p4 = parser.parse("p-4");
    let p4_result = matcher.match_class(&p4);
    assert!(p4_result.is_some());
    let p4_props = p4_result.unwrap();
    assert!(p4_props.properties.iter().any(|p| p.property == "padding"));

    let m2 = parser.parse("m-2");
    let m2_result = matcher.match_class(&m2);
    assert!(m2_result.is_some());

    // Display utilities
    let flex = parser.parse("flex");
    let flex_result = matcher.match_class(&flex);
    assert!(flex_result.is_some());
    let flex_props = flex_result.unwrap();
    assert!(flex_props.properties.iter().any(|p| p.property == "display" && p.value == "flex"));

    // Color utilities
    let bg_red = parser.parse("bg-red-500");
    let bg_result = matcher.match_class(&bg_red);
    assert!(bg_result.is_some());

    // Negative spacing
    let neg_m = parser.parse("-m-4");
    let neg_result = matcher.match_class(&neg_m);
    assert!(neg_result.is_some());
    let neg_props = neg_result.unwrap();
    assert!(neg_props.properties.iter().any(|p| p.value.starts_with('-')));

    // Arbitrary value
    let arb_p = parser.parse("p-[2rem]");
    let arb_result = matcher.match_class(&arb_p);
    assert!(arb_result.is_some());
}

#[test]
fn test_axis_pair_expands_to_two_properties() {
    let parser = Parser::new();
    let matcher = Matcher::new();
    let result = matcher.match_class(&parser.parse("px-4")).unwrap();
    assert_eq!(result.properties.len(), 2);
    assert_eq!(result.properties[0].property, "padding-left");
    assert_eq!(result.properties[0].value, "1rem");
    assert_eq!(result.properties[1].property, "padding-right");
    assert_eq!(result.properties[1].value, "1rem");
}

#[test]
fn test_negative_zero_and_auto_keep_sign_free() {
    let parser = Parser::new();
    let matcher = Matcher::new();
    let zero = matcher.match_class(&parser.parse("-m-0")).unwrap();
    assert_eq!(zero.properties[0].value, "0px");
    let auto = matcher.match_class(&parser.parse("-m-auto")).unwrap();
    assert_eq!(auto.properties[0].value, "auto");
}

#[test]
fn test_color_palette_and_fallback() {
    let parser = Parser::new();
    let matcher = Matcher::new();
    let known = matcher.match_class(&parser.parse("bg-blue-500")).unwrap();
    assert_eq!(known.properties[0].property, "background-color");
    assert_eq!(known.properties[0].value, "#3b82f6");

    let unknown = matcher.match_class(&parser.parse("bg-coral-500")).unwrap();
    assert_eq!(unknown.properties[0].value, "var(--color-coral-500)");
}

#[test]
fn test_color_with_opacity_uses_color_mix() {
    let parser = Parser::new();
    let matcher = Matcher::new();
    let result = matcher.match_class(&parser.parse("bg-black/50")).unwrap();
    assert_eq!(
        result.properties[0].value,
        "color-mix(in srgb, #000000 50%, transparent)"
    );
}

#[test]
fn test_opacity_utility_emits_fraction() {
    let parser = Parser::new();
    let matcher = Matcher::new();
    let half = matcher.match_class(&parser.parse("opacity-50")).unwrap();
    assert_eq!(half.properties[0].property, "opacity");
    assert_eq!(half.properties[0].value, "0.5");

    let five = matcher.match_class(&parser.parse("opacity-5")).unwrap();
    assert_eq!(five.properties[0].value, "0.05");

    let full = matcher.match_class(&parser.parse("opacity-100")).unwrap();
    assert_eq!(full.properties[0].value, "1");

    let zero = matcher.match_class(&parser.parse("opacity-0")).unwrap();
    assert_eq!(zero.properties[0].value, "0");
}

#[test]
fn test_static_keyword_utilities() {
    let parser = Parser::new();
    let matcher = Matcher::new();
    let hidden = matcher.match_class(&parser.parse("hidden")).unwrap();
    assert_eq!(hidden.properties[0].property, "display");
    assert_eq!(hidden.properties[0].value, "none");

    let bold = matcher.match_class(&parser.parse("font-bold")).unwrap();
    assert_eq!(bold.properties[0].property, "font-weight");
    assert_eq!(bold.properties[0].value, "700");
}

#[test]
fn test_unresolvable_class_yields_nothing() {
    let parser = Parser::new();
    let matcher = Matcher::new();
    assert!(matcher.match_class(&parser.parse("p-xyz")).is_none());
    assert!(matcher.match_class(&parser.parse("no-such-utility-at-all")).is_none());
    assert!(matcher.match_class(&parser.parse("opacity-abc")).is_none());
}

#[test]
fn test_register_custom_pattern_with_regex_gate() {
    let mut matcher = Matcher::new();
    matcher.register(
        UtilityPattern::new("padding-custom", "cs-")
            .with_css_property("padding")
            .with_pattern(r"^cs-\d+$"),
    );
    let parser = Parser::new();

    // the regex accepts digit values, so the spacing handler resolves them
    let ok = matcher.match_class(&parser.parse("cs-4"));
    assert!(ok.is_some());
    assert_eq!(ok.unwrap().properties[0].value, "1rem");

    // the regex rejects non-digit values outright
    assert!(matcher.match_class(&parser.parse("cs-abc")).is_none());
}

#[test]
fn test_register_malformed_regex_degrades_to_prefix_only() {
    let mut matcher = Matcher::new();
    matcher.register(
        UtilityPattern::new("padding-loose", "pz-")
            .with_css_property("padding")
            .with_pattern("("),
    );
    let parser = Parser::new();
    // the malformed regex is ignored and the pattern matches by prefix alone
    let ok = matcher.match_class(&parser.parse("pz-4"));
    assert!(ok.is_some());
    assert_eq!(ok.unwrap().properties[0].value, "1rem");
}
