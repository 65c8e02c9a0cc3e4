use coral_turbo::Parser;

#[test]
fn test_simple_class() {
    let parser = Parser::new();
    let parsed = parser.parse("p-4");
    assert_eq!(parsed.utility, "p");
    assert_eq!(parsed.value, Some("4".to_string()));
}

#[test]
fn test_color_class() {
    let parser = Parser::new();
    let parsed = parser.parse("bg-red-500");
    assert_eq!(parsed.utility, "bg");
    assert_eq!(parsed.value, Some("red-500".to_string()));
}

#[test]
fn test_variant() {
    let parser = Parser::new();
    let parsed = parser.parse("hover:bg-blue-500");
    assert_eq!(parsed.variants, vec!["hover"]);
    assert_eq!(parsed.utility, "bg");
    assert_eq!(parsed.value, Some("blue-500".to_string()));
}

#[test]
fn test_multiple_variants() {
    let parser = Parser::new();
    let parsed = parser.parse("dark:hover:bg-blue-500");
    assert_eq!(parsed.variants, vec!["dark", "hover"]);
    assert_eq!(parsed.utility, "bg");
}

#[test]
fn test_opacity_modifier() {
    let parser = Parser::new();
    let parsed = parser.parse("bg-black/50");
    assert_eq!(parsed.utility, "bg");
    assert_eq!(parsed.value, Some("black".to_string()));
    assert_eq!(parsed.opacity, Some(50));
}

#[test]
fn test_arbitrary_value() {
    let parser = Parser::new();
    let parsed = parser.parse("p-[2rem]");
    assert_eq!(parsed.utility, "p");
    assert_eq!(parsed.arbitrary, Some("2rem".to_string()));
}

#[test]
fn test_important() {
    let parser = Parser::new();
    let parsed = parser.parse("!p-4");
    assert!(parsed.important);
    assert_eq!(parsed.utility, "p");
}

#[test]
fn test_negative() {
    let parser = Parser::new();
    let parsed = parser.parse("-m-4");
    assert!(parsed.negative);
    assert_eq!(parsed.utility, "m");
}

#[test]
fn test_complex_class() {
    let parser = Parser::new();
    let parsed = parser.parse("dark:hover:!-translate-x-[2rem]/50");
    assert_eq!(parsed.variants, vec!["dark", "hover"]);
    assert!(parsed.important);
    assert!(parsed.negative);
    assert_eq!(parsed.utility, "translate-x");
    assert_eq!(parsed.arbitrary, Some("2rem".to_string()));
    assert_eq!(parsed.opacity, Some(50));
}

#[test]
fn test_parse_all() {
    let parser = Parser::new();
    let parsed = parser.parse_all("p-4 m-2 bg-red-500");
    assert_eq!(parsed.len(), 3);
}

#[test]
fn test_parser_comprehensive() {
    let parser = Parser::new();

    // Simple utility
    let simple = parser.parse("p-4");
    assert_eq!(simple.utility, "p");
    assert_eq!(simple.value, Some("4".to_string()));

    // With variant
    let variant = parser.parse("hover:bg-blue-500");
    assert_eq!(variant.utility, "bg");
    assert_eq!(variant.value, Some("blue-500".to_string()));
    assert_eq!(variant.variants, vec!["hover"]);

    // Multiple variants
    let multi_variant = parser.parse("dark:md:hover:text-white");
    assert_eq!(multi_variant.utility, "text");
    assert_eq!(multi_variant.value, Some("white".to_string()));
    assert_eq!(multi_variant.variants, vec!["dark", "md", "hover"]);

    // Important modifier
    let important = parser.parse("!p-4");
    assert!(important.important);
    assert_eq!(important.utility, "p");

    // Negative value
    let negative = parser.parse("-m-4");
    assert!(negative.negative);
    assert_eq!(negative.utility, "m");

    // Arbitrary value
    let arbitrary = parser.parse("p-[2rem]");
    assert_eq!(arbitrary.utility, "p");
    assert_eq!(arbitrary.arbitrary, Some("2rem".to_string()));

    // Opacity modifier
    let opacity = parser.parse("bg-red-500/50");
    assert_eq!(opacity.utility, "bg");
    assert_eq!(opacity.value, Some("red-500".to_string()));
    assert_eq!(opacity.opacity, Some(50));

    // Complex class with all features
    let complex = parser.parse("dark:hover:!-translate-x-[2rem]/50");
    assert_eq!(complex.variants, vec!["dark", "hover"]);
    assert!(complex.important);
    assert!(complex.negative);
    assert_eq!(complex.utility, "translate-x");
    assert_eq!(complex.arbitrary, Some("2rem".to_string()));
    assert_eq!(complex.opacity, Some(50));
}

#[test]
fn test_ordered_variant_chain() {
    let parser = Parser::new();
    let parsed = parser.parse("dark:md:hover:bg-blue-500");
    assert_eq!(parsed.variants, vec!["dark", "md", "hover"]);
    assert_eq!(parsed.utility, "bg");
    assert_eq!(parsed.value, Some("blue-500".to_string()));
}

#[test]
fn test_parse_is_referentially_transparent() {
    let parser = Parser::new();
    let a = parser.parse("dark:hover:!-translate-x-[2rem]/50");
    let b = parser.parse("dark:hover:!-translate-x-[2rem]/50");
    assert_eq!(a, b);
}

#[test]
fn test_parse_all_empty_and_whitespace() {
    let parser = Parser::new();
    assert!(parser.parse_all("").is_empty());
    assert!(parser.parse_all("   ").is_empty());
    let single = parser.parse_all("  p-4  ");
    assert_eq!(single.len(), 1);
    assert_eq!(single[0].utility, "p");
    assert_eq!(single[0].raw, "p-4");
}

#[test]
fn test_parse_empty_token() {
    let parser = Parser::new();
    let parsed = parser.parse("   ");
    assert_eq!(parsed.raw, "");
    assert_eq!(parsed.utility, "");
    assert!(parsed.value.is_none());
    assert!(parsed.variants.is_empty());
}

#[test]
fn test_multi_part_utility_names() {
    let parser = Parser::new();
    let parsed = parser.parse("translate-x-4");
    assert_eq!(parsed.utility, "translate-x");
    assert_eq!(parsed.value, Some("4".to_string()));

    let exact = parser.parse("translate-x-[10px]");
    assert_eq!(exact.utility, "translate-x");
    assert_eq!(exact.arbitrary, Some("10px".to_string()));

    let gradient = parser.parse("bg-gradient-to-r");
    assert_eq!(gradient.utility, "bg-gradient-to");
    assert_eq!(gradient.value, Some("r".to_string()));
}

#[test]
fn test_opacity_bounds() {
    let parser = Parser::new();
    // the parser accepts any value a u8 decimal parse accepts
    assert_eq!(parser.parse("bg-black/255").opacity, Some(255));
    assert_eq!(parser.parse("bg-black/256").opacity, None);
    assert_eq!(parser.parse("bg-black/abc").opacity, None);
    assert_eq!(parser.parse("bg-black/").opacity, None);
}

#[test]
fn test_variant_not_split_inside_brackets() {
    let parser = Parser::new();
    let parsed = parser.parse("w-[calc(100%-2rem):3]");
    assert!(parsed.variants.is_empty());
    assert_eq!(parsed.utility, "w");
}
