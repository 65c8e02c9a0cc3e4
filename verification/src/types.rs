//! Core data model: parsed class tokens, utility patterns, match results,
//! variants, and configuration records, together with their mathematical views.

use vstd::prelude::*;
use crate::text::push_char;
use vstd::string::StringExecFns;

verus! {

/// One structural decomposition of a utility class token.
#[derive(Debug, Clone, PartialEq)]
pub struct ParsedClass {
    /// Original raw class string, after trimming.
    pub raw: String,
    /// Base utility name.
    pub utility: String,
    /// Optional scale key.
    pub value: Option<String>,
    /// Variant names, in declaration order.
    pub variants: Vec<String>,
    /// Opacity modifier from a trailing `/NN`.
    pub opacity: Option<u8>,
    /// Literal value taken from bracket syntax.
    pub arbitrary: Option<String>,
    /// Leading `!` marker.
    pub important: bool,
    /// Leading `-` marker.
    pub negative: bool,
}

/// Mathematical view of a `ParsedClass`.
pub ghost struct ParsedClassV {
    pub raw: Seq<char>,
    pub utility: Seq<char>,
    pub value: Option<Seq<char>>,
    pub variants: Seq<Seq<char>>,
    pub opacity: Option<u8>,
    pub arbitrary: Option<Seq<char>>,
    pub important: bool,
    pub negative: bool,
}

pub open spec fn view_opt_string(o: Option<String>) -> Option<Seq<char>> {
    match o {
        Some(s) => Some(s@),
        None => None,
    }
}

impl View for ParsedClass {
    type V = ParsedClassV;

    open spec fn view(&self) -> ParsedClassV {
        ParsedClassV {
            raw: self.raw@,
            utility: self.utility@,
            value: view_opt_string(self.value),
            variants: self.variants@.map_values(|s: String| s@),
            opacity: self.opacity,
            arbitrary: view_opt_string(self.arbitrary),
            important: self.important,
            negative: self.negative,
        }
    }
}

/// The view of an empty decomposition carrying only the raw text.
pub open spec fn spec_empty_parsed(raw: Seq<char>) -> ParsedClassV {
    ParsedClassV {
        raw: raw,
        utility: Seq::empty(),
        value: None,
        variants: Seq::empty(),
        opacity: None,
        arbitrary: None,
        important: false,
        negative: false,
    }
}

/// The canonical `utility[-value][-[arbitrary]]` string used for matching.
pub open spec fn spec_full_utility(p: ParsedClassV) -> Seq<char> {
    match p.arbitrary {
        Some(a) => match p.value {
            Some(v) => p.utility + seq!['-'] + v + seq!['-', '['] + a + seq![']'],
            None => p.utility + seq!['-', '['] + a + seq![']'],
        },
        None => match p.value {
            Some(v) => p.utility + seq!['-'] + v,
            None => p.utility,
        },
    }
}

impl ParsedClass {
    /// A fresh decomposition with only the raw text set.
    pub fn new(raw: &str) -> (r: ParsedClass)
        ensures
            r@ == spec_empty_parsed(raw@),
    {
        let r = ParsedClass {
            raw: raw.to_owned(),
            utility: String::new(),
            value: None,
            variants: Vec::new(),
            opacity: None,
            arbitrary: None,
            important: false,
            negative: false,
        };
        proof {
            assert(r@.variants =~= Seq::<Seq<char>>::empty());
        }
        r
    }

    /// Does this class carry any variants?
    pub fn has_variants(&self) -> (r: bool)
        ensures
            r == (self@.variants.len() > 0),
    {
        self.variants.len() > 0
    }

    /// Does this class carry an arbitrary bracket value?
    pub fn has_arbitrary(&self) -> (r: bool)
        ensures
            r == self@.arbitrary.is_some(),
    {
        self.arbitrary.is_some()
    }

    /// The canonical `utility[-value][-[arbitrary]]` string.
    pub fn full_utility(&self) -> (r: String)
        ensures
            r@ == spec_full_utility(self@),
    {
        let mut s = self.utility.clone();
        if let Some(v) = &self.value {
            push_char(&mut s, '-');
            s.append(v.as_str());
        }
        if let Some(a) = &self.arbitrary {
            push_char(&mut s, '-');
            push_char(&mut s, '[');
            s.append(a.as_str());
            push_char(&mut s, ']');
        }
        proof {
            assert(s@ =~= spec_full_utility(self@));
        }
        s
    }

    /// An equal copy whose view is known to match.
    pub fn duplicate(&self) -> (r: ParsedClass)
        ensures
            r@ == self@,
    {
        let mut variants: Vec<String> = Vec::new();
        let mut i: usize = 0;
        while i < self.variants.len()
            invariant
                i <= self.variants.len(),
                variants@.len() == i,
                forall|j: int| 0 <= j < i ==> variants@[j] == self.variants@[j],
            decreases self.variants.len() - i,
        {
            variants.push(self.variants[i].clone());
            i = i + 1;
        }
        let value = match &self.value {
            Some(v) => Some(v.clone()),
            None => None,
        };
        let arbitrary = match &self.arbitrary {
            Some(a) => Some(a.clone()),
            None => None,
        };
        let r = ParsedClass {
            raw: self.raw.clone(),
            utility: self.utility.clone(),
            value,
            variants,
            opacity: self.opacity,
            arbitrary,
            important: self.important,
            negative: self.negative,
        };
        proof {
            assert(r@.variants =~= self@.variants);
        }
        r
    }
}

/// A single CSS property-value pair.
#[derive(Debug, Clone, PartialEq)]
pub struct CSSProperty {
    pub property: String,
    pub value: String,
}

/// Mathematical view of a `CSSProperty`.
pub ghost struct CSSPropertyV {
    pub property: Seq<char>,
    pub value: Seq<char>,
}

impl View for CSSProperty {
    type V = CSSPropertyV;

    open spec fn view(&self) -> CSSPropertyV {
        CSSPropertyV { property: self.property@, value: self.value@ }
    }
}

impl CSSProperty {
    pub fn new(property: &str, value: &str) -> (r: CSSProperty)
        ensures
            r@.property == property@,
            r@.value == value@,
    {
        CSSProperty { property: property.to_owned(), value: value.to_owned() }
    }
}

/// CSS cascade layer, in ascending ordinal order.
#[derive(Debug, Clone, Copy, PartialEq, Eq, PartialOrd, Ord, Hash, Structural)]
pub enum Layer {
    Base,
    Components,
    Utilities,
}

impl Layer {
    /// The ordinal used for layer grouping.
    pub open spec fn spec_ordinal(self) -> int {
        match self {
            Layer::Base => 0,
            Layer::Components => 1,
            Layer::Utilities => 2,
        }
    }

    pub fn ordinal(&self) -> (r: u32)
        ensures
            r as int == self.spec_ordinal(),
    {
        match self {
            Layer::Base => 0,
            Layer::Components => 1,
            Layer::Utilities => 2,
        }
    }
}

impl Default for Layer {
    fn default() -> (r: Layer)
        ensures
            r == Layer::Utilities,
    {
        Layer::Utilities
    }
}

/// Outcome of resolving one parsed class against the registry.
#[derive(Debug, Clone)]
pub struct MatchResult {
    /// The parsed class that was matched.
    pub parsed: ParsedClass,
    /// CSS properties to generate.
    pub properties: Vec<CSSProperty>,
    /// Name of the pattern that matched.
    pub pattern_name: String,
    /// Layer this utility belongs to.
    pub layer: Layer,
    /// Sort order for CSS output.
    pub sort_order: u32,
}

/// Mathematical view of a `MatchResult`.
pub ghost struct MatchResultV {
    pub parsed: ParsedClassV,
    pub properties: Seq<CSSPropertyV>,
    pub pattern_name: Seq<char>,
    pub layer: Layer,
    pub sort_order: u32,
}

impl View for MatchResult {
    type V = MatchResultV;

    open spec fn view(&self) -> MatchResultV {
        MatchResultV {
            parsed: self.parsed@,
            properties: self.properties@.map_values(|p: CSSProperty| p@),
            pattern_name: self.pattern_name@,
            layer: self.layer,
            sort_order: self.sort_order,
        }
    }
}

/// One registered rule template for the matcher.
#[derive(Debug, Clone)]
pub struct UtilityPattern {
    /// Unique pattern name.
    pub name: String,
    /// Regex text gating full-string matches; empty means no gate.
    pub pattern: String,
    /// Prefix key for trie-based lookup; empty means regex-only.
    pub prefix: String,
    /// CSS property to generate.
    pub css_property: String,
    /// Layer this pattern belongs to.
    pub layer: Layer,
    /// Sort order.
    pub sort_order: u32,
    /// Literal scale-key to CSS-value overrides.
    pub values: Vec<(String, String)>,
    /// Whether this pattern supports negative values.
    pub supports_negative: bool,
    /// Whether this pattern supports arbitrary values.
    pub supports_arbitrary: bool,
}

/// Mathematical view of a `UtilityPattern`.
pub ghost struct UtilityPatternV {
    pub name: Seq<char>,
    pub pattern: Seq<char>,
    pub prefix: Seq<char>,
    pub css_property: Seq<char>,
    pub layer: Layer,
    pub sort_order: u32,
    pub values: Seq<(Seq<char>, Seq<char>)>,
    pub supports_negative: bool,
    pub supports_arbitrary: bool,
}

impl View for UtilityPattern {
    type V = UtilityPatternV;

    open spec fn view(&self) -> UtilityPatternV {
        UtilityPatternV {
            name: self.name@,
            pattern: self.pattern@,
            prefix: self.prefix@,
            css_property: self.css_property@,
            layer: self.layer,
            sort_order: self.sort_order,
            values: self.values@.map_values(|p: (String, String)| (p.0@, p.1@)),
            supports_negative: self.supports_negative,
            supports_arbitrary: self.supports_arbitrary,
        }
    }
}

impl UtilityPattern {
    pub fn new(name: &str, prefix: &str) -> (r: UtilityPattern)
        ensures
            r@ == (UtilityPatternV {
                name: name@,
                pattern: Seq::empty(),
                prefix: prefix@,
                css_property: Seq::empty(),
                layer: Layer::Utilities,
                sort_order: 0u32,
                values: Seq::empty(),
                supports_negative: false,
                supports_arbitrary: true,
            }),
    {
        let r = UtilityPattern {
            name: name.to_owned(),
            pattern: String::new(),
            prefix: prefix.to_owned(),
            css_property: String::new(),
            layer: Layer::Utilities,
            sort_order: 0,
            values: Vec::new(),
            supports_negative: false,
            supports_arbitrary: true,
        };
        proof {
            assert(r@.values =~= Seq::<(Seq<char>, Seq<char>)>::empty());
        }
        r
    }

    pub fn with_pattern(self, pattern: &str) -> (r: UtilityPattern)
        ensures
            r@ == (UtilityPatternV { pattern: pattern@, ..self@ }),
    {
        UtilityPattern { pattern: pattern.to_owned(), ..self }
    }

    pub fn with_css_property(self, prop: &str) -> (r: UtilityPattern)
        ensures
            r@ == (UtilityPatternV { css_property: prop@, ..self@ }),
    {
        UtilityPattern { css_property: prop.to_owned(), ..self }
    }

    pub fn with_values(self, values: Vec<(String, String)>) -> (r: UtilityPattern)
        ensures
            r@ == (UtilityPatternV {
                values: values@.map_values(|p: (String, String)| (p.0@, p.1@)),
                ..self@
            }),
    {
        UtilityPattern { values, ..self }
    }

    pub fn with_negative(self) -> (r: UtilityPattern)
        ensures
            r@ == (UtilityPatternV { supports_negative: true, ..self@ }),
    {
        UtilityPattern { supports_negative: true, ..self }
    }

    /// First override recorded for the given key, if any.
    pub fn values_get(&self, key: &str) -> (r: Option<&String>)
        ensures
            match r {
                Some(v) => exists|i: int|
                    0 <= i < self@.values.len() && self@.values[i].0 == key@ && self@.values[i].1
                        == v@ && forall|j: int| 0 <= j < i ==> self@.values[j].0 != key@,
                None => forall|i: int| 0 <= i < self@.values.len() ==> self@.values[i].0 != key@,
            },
    {
        let mut i: usize = 0;
        while i < self.values.len()
            invariant
                i <= self.values.len(),
                forall|j: int| 0 <= j < i ==> self@.values[j].0 != key@,
            decreases self.values.len() - i,
        {
            if crate::text::str_eq(self.values[i].0.as_str(), key) {
                proof {
                    assert(self@.values[i as int].0 == key@ && self@.values[i as int].1
                        == self.values@[i as int].1@);
                }
                return Some(&self.values[i].1);
            }
            i = i + 1;
        }
        None
    }
}

/// How a variant transforms the selector.
#[derive(Debug, Clone)]
pub enum VariantSelector {
    /// Pseudo-class suffix such as `:hover`.
    Pseudo(String),
    /// Pseudo-element suffix such as `::before`.
    PseudoElement(String),
    /// Media query such as `@media (min-width: 768px)`.
    Media(String),
    /// Attribute selector prefix such as `[data-theme='dark']`.
    Attribute(String),
    /// Parent selector prefix such as `.dark`.
    Parent(String),
    /// Container query.
    Container(String),
}

/// Mathematical view of a `VariantSelector`.
pub ghost enum VariantSelectorV {
    Pseudo(Seq<char>),
    PseudoElement(Seq<char>),
    Media(Seq<char>),
    Attribute(Seq<char>),
    Parent(Seq<char>),
    Container(Seq<char>),
}

impl View for VariantSelector {
    type V = VariantSelectorV;

    open spec fn view(&self) -> VariantSelectorV {
        match self {
            VariantSelector::Pseudo(s) => VariantSelectorV::Pseudo(s@),
            VariantSelector::PseudoElement(s) => VariantSelectorV::PseudoElement(s@),
            VariantSelector::Media(s) => VariantSelectorV::Media(s@),
            VariantSelector::Attribute(s) => VariantSelectorV::Attribute(s@),
            VariantSelector::Parent(s) => VariantSelectorV::Parent(s@),
            VariantSelector::Container(s) => VariantSelectorV::Container(s@),
        }
    }
}

/// One selector-transformation rule used by the generator.
#[derive(Debug, Clone)]
pub struct Variant {
    /// Variant name such as `hover` or `dark`.
    pub name: String,
    /// How this variant transforms the selector.
    pub selector: VariantSelector,
    /// Declared priority; informational only.
    pub order: u32,
}

/// Mathematical view of a `Variant`.
pub ghost struct VariantV {
    pub name: Seq<char>,
    pub selector: VariantSelectorV,
    pub order: u32,
}

impl View for Variant {
    type V = VariantV;

    open spec fn view(&self) -> VariantV {
        VariantV { name: self.name@, selector: self.selector@, order: self.order }
    }
}

/// Configuration for the engine.
#[derive(Debug, Clone)]
pub struct EngineConfig {
    /// Enable caching.
    pub cache_enabled: bool,
    /// Maximum cache size.
    pub cache_size: usize,
    /// Number of worker threads for batch fan-out.
    pub thread_count: usize,
    /// Custom class prefix.
    pub prefix: Option<String>,
    /// Force the important modifier.
    pub important: bool,
}

impl Default for EngineConfig {
    fn default() -> (r: EngineConfig)
        ensures
            r.cache_enabled,
            r.cache_size == 10000,
            r.thread_count > 0,
            r.prefix is None,
            !r.important,
    {
        EngineConfig {
            cache_enabled: true,
            cache_size: 10000,
            thread_count: 4,
            prefix: None,
            important: false,
        }
    }
}

/// Result of scanning documents for class tokens.
#[derive(Debug, Clone)]
pub struct ExtractionResult {
    /// Unique class names found.
    pub classes: Vec<String>,
    /// Number of files scanned.
    pub file_count: usize,
    /// Processing time in microseconds.
    pub time_us: u64,
}

/// CSS generation options.
#[derive(Debug, Clone, PartialEq, Eq, Structural)]
pub struct GenerateOptions {
    /// Strip formatting whitespace.
    pub minify: bool,
    /// Reserved; no effect.
    pub source_comments: bool,
    /// Reserved; no effect.
    pub sort_by_property: bool,
    /// Wrap rules in layer blocks.
    pub use_layers: bool,
}

impl Default for GenerateOptions {
    fn default() -> (r: GenerateOptions)
        ensures
            r == (GenerateOptions {
                minify: false,
                source_comments: false,
                sort_by_property: true,
                use_layers: true,
            }),
    {
        GenerateOptions {
            minify: false,
            source_comments: false,
            sort_by_property: true,
            use_layers: true,
        }
    }
}

} // verus!
