//! CSS text generator: turns an ordered sequence of match results into
//! selector-and-declaration CSS text, composing variant wrappers in reverse
//! declaration order and grouping rules by cascade layer.

use vstd::prelude::*;
use vstd::string::{StrSliceExecFns, StringExecFns};
use crate::text::{push_char, str_eq};
use crate::types::{
    CSSPropertyV, GenerateOptions, Layer, MatchResult, MatchResultV, Variant, VariantSelector,
    VariantSelectorV, VariantV,
};

verus! {

/// Characters escaped with a backslash in a class selector.
pub open spec fn spec_is_css_special(c: char) -> bool {
    c == ':' || c == '[' || c == ']' || c == '(' || c == ')' || c == '/' || c == '!' || c == '@'
        || c == '#' || c == '$' || c == '%' || c == '^' || c == '&' || c == '*' || c == '+' || c
        == '=' || c == '~' || c == '`' || c == '{' || c == '}' || c == '|' || c == '\\' || c == ';'
        || c == ',' || c == '.' || c == '?' || c == '<' || c == '>'
}

fn is_css_special(c: char) -> (r: bool)
    ensures
        r == spec_is_css_special(c),
{
    c == ':' || c == '[' || c == ']' || c == '(' || c == ')' || c == '/' || c == '!' || c == '@'
        || c == '#' || c == '$' || c == '%' || c == '^' || c == '&' || c == '*' || c == '+' || c
        == '=' || c == '~' || c == '`' || c == '{' || c == '}' || c == '|' || c == '\\' || c == ';'
        || c == ',' || c == '.' || c == '?' || c == '<' || c == '>'
}

/// The class name with each CSS-special character escaped by a backslash.
pub open spec fn spec_escape(s: Seq<char>) -> Seq<char>
    decreases s.len(),
{
    if s.len() == 0 {
        Seq::empty()
    } else {
        spec_escape(s.drop_last()) + (if spec_is_css_special(s.last()) {
            seq!['\\', s.last()]
        } else {
            seq![s.last()]
        })
    }
}

/// Escape special characters in a CSS class selector.
pub fn escape_css_selector(s: &str) -> (r: String)
    ensures
        r@ == spec_escape(s@),
{
    let n = s.unicode_len();
    let mut out = String::new();
    let mut i: usize = 0;
    proof {
        assert(s@.take(0) =~= Seq::<char>::empty());
    }
    while i < n
        invariant
            n == s@.len(),
            i <= n,
            out@ == spec_escape(s@.take(i as int)),
        decreases n - i,
    {
        let c = s.get_char(i);
        let ghost pre = out@;
        if is_css_special(c) {
            push_char(&mut out, '\\');
            push_char(&mut out, c);
            proof {
                assert(out@ =~= pre + seq!['\\', c]);
            }
        } else {
            push_char(&mut out, c);
            proof {
                assert(out@ =~= pre + seq![c]);
            }
        }
        proof {
            assert(s@.take(i + 1).drop_last() =~= s@.take(i as int));
            assert(s@.take(i + 1).last() == c);
        }
        i = i + 1;
    }
    proof {
        assert(s@.take(n as int) =~= s@);
    }
    out
}

/// The text with each `.` replaced by ` .`, converting to descendant form.
pub open spec fn spec_replace_dots(s: Seq<char>) -> Seq<char>
    decreases s.len(),
{
    if s.len() == 0 {
        Seq::empty()
    } else {
        spec_replace_dots(s.drop_last()) + (if s.last() == '.' {
            seq![' ', '.']
        } else {
            seq![s.last()]
        })
    }
}

fn replace_dots(s: &str) -> (r: String)
    ensures
        r@ == spec_replace_dots(s@),
{
    let n = s.unicode_len();
    let mut out = String::new();
    let mut i: usize = 0;
    proof {
        assert(s@.take(0) =~= Seq::<char>::empty());
    }
    while i < n
        invariant
            n == s@.len(),
            i <= n,
            out@ == spec_replace_dots(s@.take(i as int)),
        decreases n - i,
    {
        let c = s.get_char(i);
        let ghost pre = out@;
        if c == '.' {
            push_char(&mut out, ' ');
            push_char(&mut out, '.');
            proof {
                assert(out@ =~= pre + seq![' ', '.']);
            }
        } else {
            push_char(&mut out, c);
            proof {
                assert(out@ =~= pre + seq![c]);
            }
        }
        proof {
            assert(s@.take(i + 1).drop_last() =~= s@.take(i as int));
            assert(s@.take(i + 1).last() == c);
        }
        i = i + 1;
    }
    proof {
        assert(s@.take(n as int) =~= s@);
    }
    out
}

/// First variant of the table carrying the given name.
pub open spec fn spec_find_variant(vars: Seq<VariantV>, name: Seq<char>) -> Option<VariantV>
    decreases vars.len(),
{
    if vars.len() == 0 {
        None
    } else if vars[0].name == name {
        Some(vars[0])
    } else {
        spec_find_variant(vars.drop_first(), name)
    }
}

proof fn lemma_find_variant_at(vars: Seq<VariantV>, name: Seq<char>, j: int)
    requires
        0 <= j < vars.len(),
        vars[j].name == name,
        forall|t: int| 0 <= t < j ==> vars[t].name != name,
    ensures
        spec_find_variant(vars, name) == Some(vars[j]),
    decreases vars.len(),
{
    if j > 0 {
        lemma_find_variant_at(vars.drop_first(), name, j - 1);
    }
}

proof fn lemma_find_variant_none(vars: Seq<VariantV>, name: Seq<char>)
    requires
        forall|t: int| 0 <= t < vars.len() ==> vars[t].name != name,
    ensures
        spec_find_variant(vars, name) == None::<VariantV>,
    decreases vars.len(),
{
    if vars.len() > 0 {
        lemma_find_variant_none(vars.drop_first(), name);
    }
}

/// Apply one variant to the selector: pseudo forms append, parent forms
/// prepend, attribute forms prepend and convert to descendant form; media and
/// container forms are recorded but not wrapped around the emitted rule, and
/// an unknown name degrades to a literal pseudo-class suffix.
pub open spec fn spec_apply_variant(
    vars: Seq<VariantV>,
    name: Seq<char>,
    sel: Seq<char>,
) -> Seq<char> {
    match spec_find_variant(vars, name) {
        Some(v) => match v.selector {
            VariantSelectorV::Pseudo(p) => sel + p,
            VariantSelectorV::PseudoElement(p) => sel + p,
            VariantSelectorV::Media(_) => sel,
            VariantSelectorV::Container(_) => sel,
            VariantSelectorV::Attribute(a) => a + spec_replace_dots(sel),
            VariantSelectorV::Parent(p) => p + seq![' '] + sel,
        },
        None => sel + seq![':'] + name,
    }
}

/// Apply a variant chain in reverse declaration order: the variant written
/// closest to the utility is applied innermost.
pub open spec fn spec_apply_variants(
    vars: Seq<VariantV>,
    names: Seq<Seq<char>>,
    sel: Seq<char>,
) -> Seq<char>
    decreases names.len(),
{
    if names.len() == 0 {
        sel
    } else {
        spec_apply_variants(vars, names.drop_last(), spec_apply_variant(vars, names.last(), sel))
    }
}

/// The full selector of one rule: a dot, the escaped raw class text, then the
/// variant chain applied in reverse declaration order.
pub open spec fn spec_selector(
    vars: Seq<VariantV>,
    raw: Seq<char>,
    names: Seq<Seq<char>>,
) -> Seq<char> {
    spec_apply_variants(vars, names, seq!['.'] + spec_escape(raw))
}

/// One declaration line.
pub open spec fn spec_prop_line(p: CSSPropertyV, important: bool, minify: bool) -> Seq<char> {
    let imp: Seq<char> = if important {
        " !important"@
    } else {
        Seq::empty()
    };
    if minify {
        p.property + seq![':'] + p.value + imp + seq![';']
    } else {
        seq![' ', ' '] + p.property + seq![':', ' '] + p.value + imp + seq![';', '\n']
    }
}

/// The declaration block of one rule, in property order.
pub open spec fn spec_props_text(
    props: Seq<CSSPropertyV>,
    important: bool,
    minify: bool,
) -> Seq<char>
    decreases props.len(),
{
    if props.len() == 0 {
        Seq::empty()
    } else {
        spec_props_text(props.drop_last(), important, minify) + spec_prop_line(
            props.last(),
            important,
            minify,
        )
    }
}

/// One complete CSS rule.
pub open spec fn spec_rule(r: MatchResultV, vars: Seq<VariantV>, minify: bool) -> Seq<char> {
    let sel = spec_selector(vars, r.parsed.raw, r.parsed.variants);
    let props = spec_props_text(r.properties, r.parsed.important, minify);
    if minify {
        sel + seq!['{'] + props + seq!['}']
    } else {
        sel + seq![' ', '{', '\n'] + props + seq!['}', '\n']
    }
}

/// The results of one layer, keeping input order.
pub open spec fn spec_layer_group(rs: Seq<MatchResultV>, l: Layer) -> Seq<MatchResultV>
    decreases rs.len(),
{
    if rs.len() == 0 {
        Seq::empty()
    } else {
        spec_layer_group(rs.drop_last(), l) + (if rs.last().layer == l {
            seq![rs.last()]
        } else {
            Seq::empty()
        })
    }
}

/// The concatenated rules of a group.
pub open spec fn spec_rules_text(rs: Seq<MatchResultV>, vars: Seq<VariantV>, minify: bool) -> Seq<
    char,
>
    decreases rs.len(),
{
    if rs.len() == 0 {
        Seq::empty()
    } else {
        spec_rules_text(rs.drop_last(), vars, minify) + spec_rule(rs.last(), vars, minify)
    }
}

/// The name of a cascade layer.
pub open spec fn spec_layer_name(l: Layer) -> Seq<char> {
    match l {
        Layer::Base => "base"@,
        Layer::Components => "components"@,
        Layer::Utilities => "utilities"@,
    }
}

/// The emitted text of one layer: nothing when the layer has no rules; its
/// rules, wrapped in a named block when layering is enabled.
pub open spec fn spec_layer_text(
    rs: Seq<MatchResultV>,
    vars: Seq<VariantV>,
    l: Layer,
    opts: GenerateOptions,
) -> Seq<char> {
    let group = spec_layer_group(rs, l);
    if group.len() == 0 {
        Seq::empty()
    } else {
        let rules = spec_rules_text(group, vars, opts.minify);
        if opts.use_layers {
            if opts.minify {
                "@layer "@ + spec_layer_name(l) + seq!['{'] + rules + seq!['}']
            } else {
                "@layer "@ + spec_layer_name(l) + seq![' ', '{', '\n'] + rules + seq![
                    '}',
                    '\n',
                    '\n',
                ]
            }
        } else {
            rules
        }
    }
}

/// The full generated text: the three layers in ascending ordinal order.
pub open spec fn spec_generate(
    rs: Seq<MatchResultV>,
    vars: Seq<VariantV>,
    opts: GenerateOptions,
) -> Seq<char> {
    spec_layer_text(rs, vars, Layer::Base, opts) + spec_layer_text(rs, vars, Layer::Components, opts)
        + spec_layer_text(rs, vars, Layer::Utilities, opts)
}

/// The default variant table, in registration order.
#[verifier::opaque]
pub open spec fn spec_default_variants() -> Seq<VariantV> {
    seq![
        VariantV { name: "hover"@, selector: VariantSelectorV::Pseudo(":hover"@), order: 100u32 },
        VariantV { name: "focus"@, selector: VariantSelectorV::Pseudo(":focus"@), order: 100u32 },
        VariantV { name: "focus-visible"@, selector: VariantSelectorV::Pseudo(":focus-visible"@), order: 100u32 },
        VariantV { name: "focus-within"@, selector: VariantSelectorV::Pseudo(":focus-within"@), order: 100u32 },
        VariantV { name: "active"@, selector: VariantSelectorV::Pseudo(":active"@), order: 100u32 },
        VariantV { name: "visited"@, selector: VariantSelectorV::Pseudo(":visited"@), order: 100u32 },
        VariantV { name: "target"@, selector: VariantSelectorV::Pseudo(":target"@), order: 100u32 },
        VariantV { name: "first"@, selector: VariantSelectorV::Pseudo(":first-child"@), order: 100u32 },
        VariantV { name: "last"@, selector: VariantSelectorV::Pseudo(":last-child"@), order: 100u32 },
        VariantV { name: "only"@, selector: VariantSelectorV::Pseudo(":only-child"@), order: 100u32 },
        VariantV { name: "odd"@, selector: VariantSelectorV::Pseudo(":nth-child(odd)"@), order: 100u32 },
        VariantV { name: "even"@, selector: VariantSelectorV::Pseudo(":nth-child(even)"@), order: 100u32 },
        VariantV { name: "first-of-type"@, selector: VariantSelectorV::Pseudo(":first-of-type"@), order: 100u32 },
        VariantV { name: "last-of-type"@, selector: VariantSelectorV::Pseudo(":last-of-type"@), order: 100u32 },
        VariantV { name: "only-of-type"@, selector: VariantSelectorV::Pseudo(":only-of-type"@), order: 100u32 },
        VariantV { name: "empty"@, selector: VariantSelectorV::Pseudo(":empty"@), order: 100u32 },
        VariantV { name: "disabled"@, selector: VariantSelectorV::Pseudo(":disabled"@), order: 100u32 },
        VariantV { name: "enabled"@, selector: VariantSelectorV::Pseudo(":enabled"@), order: 100u32 },
        VariantV { name: "checked"@, selector: VariantSelectorV::Pseudo(":checked"@), order: 100u32 },
        VariantV { name: "indeterminate"@, selector: VariantSelectorV::Pseudo(":indeterminate"@), order: 100u32 },
        VariantV { name: "default"@, selector: VariantSelectorV::Pseudo(":default"@), order: 100u32 },
        VariantV { name: "required"@, selector: VariantSelectorV::Pseudo(":required"@), order: 100u32 },
        VariantV { name: "valid"@, selector: VariantSelectorV::Pseudo(":valid"@), order: 100u32 },
        VariantV { name: "invalid"@, selector: VariantSelectorV::Pseudo(":invalid"@), order: 100u32 },
        VariantV { name: "in-range"@, selector: VariantSelectorV::Pseudo(":in-range"@), order: 100u32 },
        VariantV { name: "out-of-range"@, selector: VariantSelectorV::Pseudo(":out-of-range"@), order: 100u32 },
        VariantV { name: "placeholder-shown"@, selector: VariantSelectorV::Pseudo(":placeholder-shown"@), order: 100u32 },
        VariantV { name: "autofill"@, selector: VariantSelectorV::Pseudo(":autofill"@), order: 100u32 },
        VariantV { name: "read-only"@, selector: VariantSelectorV::Pseudo(":read-only"@), order: 100u32 },
        VariantV { name: "before"@, selector: VariantSelectorV::PseudoElement("::before"@), order: 200u32 },
        VariantV { name: "after"@, selector: VariantSelectorV::PseudoElement("::after"@), order: 200u32 },
        VariantV { name: "placeholder"@, selector: VariantSelectorV::PseudoElement("::placeholder"@), order: 200u32 },
        VariantV { name: "file"@, selector: VariantSelectorV::PseudoElement("::file-selector-button"@), order: 200u32 },
        VariantV { name: "marker"@, selector: VariantSelectorV::PseudoElement("::marker"@), order: 200u32 },
        VariantV { name: "selection"@, selector: VariantSelectorV::PseudoElement("::selection"@), order: 200u32 },
        VariantV { name: "first-line"@, selector: VariantSelectorV::PseudoElement("::first-line"@), order: 200u32 },
        VariantV { name: "first-letter"@, selector: VariantSelectorV::PseudoElement("::first-letter"@), order: 200u32 },
        VariantV { name: "backdrop"@, selector: VariantSelectorV::PseudoElement("::backdrop"@), order: 200u32 },
        VariantV { name: "sm"@, selector: VariantSelectorV::Media("@media (min-width: 640px)"@), order: 50u32 },
        VariantV { name: "md"@, selector: VariantSelectorV::Media("@media (min-width: 768px)"@), order: 50u32 },
        VariantV { name: "lg"@, selector: VariantSelectorV::Media("@media (min-width: 1024px)"@), order: 50u32 },
        VariantV { name: "xl"@, selector: VariantSelectorV::Media("@media (min-width: 1280px)"@), order: 50u32 },
        VariantV { name: "2xl"@, selector: VariantSelectorV::Media("@media (min-width: 1536px)"@), order: 50u32 },
        VariantV { name: "dark"@, selector: VariantSelectorV::Parent(".dark"@), order: 10u32 },
        VariantV { name: "print"@, selector: VariantSelectorV::Media("@media print"@), order: 60u32 },
        VariantV { name: "motion-safe"@, selector: VariantSelectorV::Media("@media (prefers-reduced-motion: no-preference)"@), order: 70u32 },
        VariantV { name: "motion-reduce"@, selector: VariantSelectorV::Media("@media (prefers-reduced-motion: reduce)"@), order: 70u32 },
        VariantV { name: "@container"@, selector: VariantSelectorV::Container("@container"@), order: 80u32 },
    ]
}

/// CSS generator holding the output options and the variant table.
#[derive(Debug, Clone)]
pub struct Generator {
    options: GenerateOptions,
    variants: Vec<Variant>,
}

impl Generator {
    /// The options this generator was built with.
    pub closed spec fn spec_options(&self) -> GenerateOptions {
        self.options
    }

    /// The variant table, in registration order.
    pub closed spec fn spec_variants(&self) -> Seq<VariantV> {
        self.variants@.map_values(|v: Variant| v@)
    }

    /// Find a variant by name: the first table entry wins.
    fn find_variant(&self, name: &str) -> (r: Option<&Variant>)
        ensures
            match r {
                Some(v) => spec_find_variant(self.spec_variants(), name@) == Some(v@),
                None => spec_find_variant(self.spec_variants(), name@) == None::<VariantV>,
            },
    {
        let n = self.variants.len();
        let mut j: usize = 0;
        while j < n
            invariant
                n == self.variants@.len(),
                j <= n,
                forall|t: int| 0 <= t < j ==> self.spec_variants()[t].name != name@,
            decreases n - j,
        {
            if str_eq(self.variants[j].name.as_str(), name) {
                proof {
                    assert(self.spec_variants()[j as int].name == name@);
                    lemma_find_variant_at(self.spec_variants(), name@, j as int);
                }
                return Some(&self.variants[j]);
            }
            proof {
                assert(self.spec_variants()[j as int] == self.variants@[j as int]@);
            }
            j = j + 1;
        }
        proof {
            lemma_find_variant_none(self.spec_variants(), name@);
        }
        None
    }

    /// Generate the selector of one rule.
    fn generate_selector(&self, class_name: &str, variants: &Vec<String>) -> (r: String)
        ensures
            r@ == spec_selector(
                self.spec_variants(),
                class_name@,
                variants@.map_values(|s: String| s@),
            ),
    {
        let escaped = escape_css_selector(class_name);
        let mut sel = String::new();
        push_char(&mut sel, '.');
        sel.append(escaped.as_str());
        proof {
            assert(sel@ =~= seq!['.'] + spec_escape(class_name@));
        }
        let ghost names = variants@.map_values(|s: String| s@);
        let ghost base = sel@;
        let mut i: usize = variants.len();
        proof {
            assert(names.take(i as int) =~= names);
        }
        while i > 0
            invariant
                i <= variants@.len(),
                names == variants@.map_values(|s: String| s@),
                spec_apply_variants(self.spec_variants(), names, base) == spec_apply_variants(
                    self.spec_variants(),
                    names.take(i as int),
                    sel@,
                ),
            decreases i,
        {
            i = i - 1;
            let name = &variants[i];
            let next = self.apply_variant(name.as_str(), sel.as_str());
            proof {
                assert(names.take(i + 1).drop_last() =~= names.take(i as int));
                assert(names.take(i + 1).last() == names[i as int]);
                assert(names[i as int] == name@);
            }
            sel = next;
        }
        proof {
            assert(names.take(0) =~= Seq::<Seq<char>>::empty());
        }
        sel
    }

    /// Transform a selector through one variant.
    fn apply_variant(&self, name: &str, sel: &str) -> (r: String)
        ensures
            r@ == spec_apply_variant(self.spec_variants(), name@, sel@),
    {
        match self.find_variant(name) {
            Some(v) => match &v.selector {
                VariantSelector::Pseudo(p) => {
                    let mut s = sel.to_owned();
                    s.append(p.as_str());
                    s
                },
                VariantSelector::PseudoElement(p) => {
                    let mut s = sel.to_owned();
                    s.append(p.as_str());
                    s
                },
                VariantSelector::Media(_) => sel.to_owned(),
                VariantSelector::Container(_) => sel.to_owned(),
                VariantSelector::Attribute(a) => {
                    let mut s = a.clone();
                    let rd = replace_dots(sel);
                    s.append(rd.as_str());
                    s
                },
                VariantSelector::Parent(p) => {
                    let mut s = p.clone();
                    push_char(&mut s, ' ');
                    s.append(sel);
                    proof {
                        assert(s@ =~= p@ + seq![' '] + sel@);
                    }
                    s
                },
            },
            None => {
                let mut s = sel.to_owned();
                push_char(&mut s, ':');
                s.append(name);
                proof {
                    assert(s@ =~= sel@ + seq![':'] + name@);
                }
                s
            },
        }
    }

    /// Generate the declaration block of one rule.
    fn generate_properties(&self, result: &MatchResult) -> (r: String)
        ensures
            r@ == spec_props_text(
                result@.properties,
                result@.parsed.important,
                self.spec_options().minify,
            ),
    {
        let minify = self.options.minify;
        let important = result.parsed.important;
        let ghost props = result@.properties;
        let mut out = String::new();
        let mut i: usize = 0;
        proof {
            assert(props.take(0) =~= Seq::<CSSPropertyV>::empty());
        }
        while i < result.properties.len()
            invariant
                minify == self.spec_options().minify,
                important == result@.parsed.important,
                props == result@.properties,
                i <= result.properties@.len(),
                props.len() == result.properties@.len(),
                out@ == spec_props_text(props.take(i as int), important, minify),
            decreases result.properties@.len() - i,
        {
            let p = &result.properties[i];
            proof {
                assert(props[i as int] == result.properties@[i as int]@);
            }
            let ghost pre = out@;
            if minify {
                out.append(p.property.as_str());
                push_char(&mut out, ':');
                out.append(p.value.as_str());
                if important {
                    out.append(" !important");
                }
                push_char(&mut out, ';');
                proof {
                    assert(out@ =~= pre + spec_prop_line(props[i as int], important, minify));
                }
            } else {
                push_char(&mut out, ' ');
                push_char(&mut out, ' ');
                out.append(p.property.as_str());
                push_char(&mut out, ':');
                push_char(&mut out, ' ');
                out.append(p.value.as_str());
                if important {
                    out.append(" !important");
                }
                push_char(&mut out, ';');
                push_char(&mut out, '\n');
                proof {
                    assert(out@ =~= pre + spec_prop_line(props[i as int], important, minify));
                }
            }
            proof {
                assert(props.take(i + 1).drop_last() =~= props.take(i as int));
                assert(props.take(i + 1).last() == props[i as int]);
            }
            i = i + 1;
        }
        proof {
            assert(props.take(result.properties@.len() as int) =~= props);
        }
        out
    }

    /// Generate one complete rule.
    fn generate_rule(&self, result: &MatchResult) -> (r: String)
        ensures
            r@ == spec_rule(result@, self.spec_variants(), self.spec_options().minify),
    {
        let sel = self.generate_selector(result.parsed.raw.as_str(), &result.parsed.variants);
        let props = self.generate_properties(result);
        let mut out = sel;
        if self.options.minify {
            push_char(&mut out, '{');
            out.append(props.as_str());
            push_char(&mut out, '}');
            proof {
                assert(out@ =~= spec_rule(result@, self.spec_variants(), true));
            }
        } else {
            push_char(&mut out, ' ');
            push_char(&mut out, '{');
            push_char(&mut out, '\n');
            out.append(props.as_str());
            push_char(&mut out, '}');
            push_char(&mut out, '\n');
            proof {
                assert(out@ =~= spec_rule(result@, self.spec_variants(), false));
            }
        }
        out
    }

    /// Generate the text of one layer.
    fn generate_layer(&self, results: &[MatchResult], layer: Layer) -> (r: String)
        ensures
            r@ == spec_layer_text(
                results@.map_values(|m: MatchResult| m@),
                self.spec_variants(),
                layer,
                self.spec_options(),
            ),
    {
        let ghost rs = results@.map_values(|m: MatchResult| m@);
        let mut rules = String::new();
        let mut count: usize = 0;
        let mut i: usize = 0;
        proof {
            assert(spec_layer_group(rs.take(0), layer) =~= Seq::<MatchResultV>::empty());
            assert(rs.take(0) =~= Seq::<MatchResultV>::empty());
        }
        while i < results.len()
            invariant
                rs == results@.map_values(|m: MatchResult| m@),
                i <= results@.len(),
                rs.len() == results@.len(),
                count as int == spec_layer_group(rs.take(i as int), layer).len(),
                count <= i,
                rules@ == spec_rules_text(
                    spec_layer_group(rs.take(i as int), layer),
                    self.spec_variants(),
                    self.spec_options().minify,
                ),
            decreases results@.len() - i,
        {
            proof {
                assert(rs[i as int] == results@[i as int]@);
                assert(rs.take(i + 1).drop_last() =~= rs.take(i as int));
                assert(rs.take(i + 1).last() == rs[i as int]);
            }
            if results[i].layer.ordinal() == layer.ordinal() {
                proof {
                    assert(rs[i as int].layer == layer);
                    assert(spec_layer_group(rs.take(i + 1), layer) =~= spec_layer_group(
                        rs.take(i as int),
                        layer,
                    ).push(rs[i as int]));
                    assert(spec_layer_group(rs.take(i + 1), layer).drop_last() =~= spec_layer_group(
                        rs.take(i as int),
                        layer,
                    ));
                }
                let rule = self.generate_rule(&results[i]);
                rules.append(rule.as_str());
                count = count + 1;
            } else {
                proof {
                    assert(rs[i as int].layer != layer);
                    assert(spec_layer_group(rs.take(i + 1), layer) =~= spec_layer_group(
                        rs.take(i as int),
                        layer,
                    ));
                }
            }
            i = i + 1;
        }
        proof {
            assert(rs.take(results@.len() as int) =~= rs);
        }
        if count == 0 {
            proof {
                assert(spec_layer_group(rs, layer).len() == 0);
            }
            return String::new();
        }
        if !self.options.use_layers {
            return rules;
        }
        let mut out = String::from_str("@layer ");
        match layer {
            Layer::Base => out.append("base"),
            Layer::Components => out.append("components"),
            Layer::Utilities => out.append("utilities"),
        }
        if self.options.minify {
            push_char(&mut out, '{');
            out.append(rules.as_str());
            push_char(&mut out, '}');
            proof {
                assert(out@ =~= "@layer "@ + spec_layer_name(layer) + seq!['{'] + rules@
                    + seq!['}']);
            }
        } else {
            push_char(&mut out, ' ');
            push_char(&mut out, '{');
            push_char(&mut out, '\n');
            out.append(rules.as_str());
            push_char(&mut out, '}');
            push_char(&mut out, '\n');
            push_char(&mut out, '\n');
            proof {
                assert(out@ =~= "@layer "@ + spec_layer_name(layer) + seq![' ', '{', '\n'] + rules@
                    + seq!['}', '\n', '\n']);
            }
        }
        out
    }

    /// Create a generator with the default options and variant table.
    pub fn new() -> (r: Generator)
        ensures
            r.spec_options() == (GenerateOptions {
                minify: false,
                source_comments: false,
                sort_by_property: true,
                use_layers: true,
            }),
            r.spec_variants() == spec_default_variants(),
    {
        Generator::with_options(GenerateOptions::default())
    }

    /// Create a generator with the given options and the default variants.
    pub fn with_options(options: GenerateOptions) -> (r: Generator)
        ensures
            r.spec_options() == options,
            r.spec_variants() == spec_default_variants(),
    {
        let mut generator = Generator { options, variants: Vec::new() };
        proof {
            assert(generator.spec_variants() =~= Seq::<VariantV>::empty());
        }
        generator.register_default_variants();
        generator
    }

    /// Generate CSS text from an ordered sequence of match results: the three
    /// layers in ascending ordinal order, each keeping input order.
    pub fn generate(&self, results: &[MatchResult]) -> (r: String)
        ensures
            r@ == spec_generate(
                results@.map_values(|m: MatchResult| m@),
                self.spec_variants(),
                self.spec_options(),
            ),
    {
        let mut out = self.generate_layer(results, Layer::Base);
        let components = self.generate_layer(results, Layer::Components);
        let utilities = self.generate_layer(results, Layer::Utilities);
        out.append(components.as_str());
        out.append(utilities.as_str());
        out
    }

    /// Install the default variant table: pseudo-classes, pseudo-elements,
    /// responsive breakpoints, dark mode, print, motion preferences and the
    /// container-query marker.
    fn register_default_variants(&mut self)
        ensures
            final(self).options == old(self).options,
            final(self).spec_variants() == old(self).spec_variants() + spec_default_variants(),
    {
        let ghost vars0 = self.spec_variants();
        self.variants.push(
            Variant {
                name: String::from_str("hover"),
                selector: VariantSelector::Pseudo(String::from_str(":hover")),
                order: 100,
            },
        );
        self.variants.push(
            Variant {
                name: String::from_str("focus"),
                selector: VariantSelector::Pseudo(String::from_str(":focus")),
                order: 100,
            },
        );
        self.variants.push(
            Variant {
                name: String::from_str("focus-visible"),
                selector: VariantSelector::Pseudo(String::from_str(":focus-visible")),
                order: 100,
            },
        );
        self.variants.push(
            Variant {
                name: String::from_str("focus-within"),
                selector: VariantSelector::Pseudo(String::from_str(":focus-within")),
                order: 100,
            },
        );
        self.variants.push(
            Variant {
                name: String::from_str("active"),
                selector: VariantSelector::Pseudo(String::from_str(":active")),
                order: 100,
            },
        );
        self.variants.push(
            Variant {
                name: String::from_str("visited"),
                selector: VariantSelector::Pseudo(String::from_str(":visited")),
                order: 100,
            },
        );
        self.variants.push(
            Variant {
                name: String::from_str("target"),
                selector: VariantSelector::Pseudo(String::from_str(":target")),
                order: 100,
            },
        );
        self.variants.push(
            Variant {
                name: String::from_str("first"),
                selector: VariantSelector::Pseudo(String::from_str(":first-child")),
                order: 100,
            },
        );
        self.variants.push(
            Variant {
                name: String::from_str("last"),
                selector: VariantSelector::Pseudo(String::from_str(":last-child")),
                order: 100,
            },
        );
        self.variants.push(
            Variant {
                name: String::from_str("only"),
                selector: VariantSelector::Pseudo(String::from_str(":only-child")),
                order: 100,
            },
        );
        self.variants.push(
            Variant {
                name: String::from_str("odd"),
                selector: VariantSelector::Pseudo(String::from_str(":nth-child(odd)")),
                order: 100,
            },
        );
        self.variants.push(
            Variant {
                name: String::from_str("even"),
                selector: VariantSelector::Pseudo(String::from_str(":nth-child(even)")),
                order: 100,
            },
        );
        self.variants.push(
            Variant {
                name: String::from_str("first-of-type"),
                selector: VariantSelector::Pseudo(String::from_str(":first-of-type")),
                order: 100,
            },
        );
        self.variants.push(
            Variant {
                name: String::from_str("last-of-type"),
                selector: VariantSelector::Pseudo(String::from_str(":last-of-type")),
                order: 100,
            },
        );
        self.variants.push(
            Variant {
                name: String::from_str("only-of-type"),
                selector: VariantSelector::Pseudo(String::from_str(":only-of-type")),
                order: 100,
            },
        );
        self.variants.push(
            Variant {
                name: String::from_str("empty"),
                selector: VariantSelector::Pseudo(String::from_str(":empty")),
                order: 100,
            },
        );
        self.variants.push(
            Variant {
                name: String::from_str("disabled"),
                selector: VariantSelector::Pseudo(String::from_str(":disabled")),
                order: 100,
            },
        );
        self.variants.push(
            Variant {
                name: String::from_str("enabled"),
                selector: VariantSelector::Pseudo(String::from_str(":enabled")),
                order: 100,
            },
        );
        self.variants.push(
            Variant {
                name: String::from_str("checked"),
                selector: VariantSelector::Pseudo(String::from_str(":checked")),
                order: 100,
            },
        );
        self.variants.push(
            Variant {
                name: String::from_str("indeterminate"),
                selector: VariantSelector::Pseudo(String::from_str(":indeterminate")),
                order: 100,
            },
        );
        self.variants.push(
            Variant {
                name: String::from_str("default"),
                selector: VariantSelector::Pseudo(String::from_str(":default")),
                order: 100,
            },
        );
        self.variants.push(
            Variant {
                name: String::from_str("required"),
                selector: VariantSelector::Pseudo(String::from_str(":required")),
                order: 100,
            },
        );
        self.variants.push(
            Variant {
                name: String::from_str("valid"),
                selector: VariantSelector::Pseudo(String::from_str(":valid")),
                order: 100,
            },
        );
        self.variants.push(
            Variant {
                name: String::from_str("invalid"),
                selector: VariantSelector::Pseudo(String::from_str(":invalid")),
                order: 100,
            },
        );
        self.variants.push(
            Variant {
                name: String::from_str("in-range"),
                selector: VariantSelector::Pseudo(String::from_str(":in-range")),
                order: 100,
            },
        );
        self.variants.push(
            Variant {
                name: String::from_str("out-of-range"),
                selector: VariantSelector::Pseudo(String::from_str(":out-of-range")),
                order: 100,
            },
        );
        self.variants.push(
            Variant {
                name: String::from_str("placeholder-shown"),
                selector: VariantSelector::Pseudo(String::from_str(":placeholder-shown")),
                order: 100,
            },
        );
        self.variants.push(
            Variant {
                name: String::from_str("autofill"),
                selector: VariantSelector::Pseudo(String::from_str(":autofill")),
                order: 100,
            },
        );
        self.variants.push(
            Variant {
                name: String::from_str("read-only"),
                selector: VariantSelector::Pseudo(String::from_str(":read-only")),
                order: 100,
            },
        );
        self.variants.push(
            Variant {
                name: String::from_str("before"),
                selector: VariantSelector::PseudoElement(String::from_str("::before")),
                order: 200,
            },
        );
        self.variants.push(
            Variant {
                name: String::from_str("after"),
                selector: VariantSelector::PseudoElement(String::from_str("::after")),
                order: 200,
            },
        );
        self.variants.push(
            Variant {
                name: String::from_str("placeholder"),
                selector: VariantSelector::PseudoElement(String::from_str("::placeholder")),
                order: 200,
            },
        );
        self.variants.push(
            Variant {
                name: String::from_str("file"),
                selector: VariantSelector::PseudoElement(
                    String::from_str("::file-selector-button"),
                ),
                order: 200,
            },
        );
        self.variants.push(
            Variant {
                name: String::from_str("marker"),
                selector: VariantSelector::PseudoElement(String::from_str("::marker")),
                order: 200,
            },
        );
        self.variants.push(
            Variant {
                name: String::from_str("selection"),
                selector: VariantSelector::PseudoElement(String::from_str("::selection")),
                order: 200,
            },
        );
        self.variants.push(
            Variant {
                name: String::from_str("first-line"),
                selector: VariantSelector::PseudoElement(String::from_str("::first-line")),
                order: 200,
            },
        );
        self.variants.push(
            Variant {
                name: String::from_str("first-letter"),
                selector: VariantSelector::PseudoElement(String::from_str("::first-letter")),
                order: 200,
            },
        );
        self.variants.push(
            Variant {
                name: String::from_str("backdrop"),
                selector: VariantSelector::PseudoElement(String::from_str("::backdrop")),
                order: 200,
            },
        );
        self.variants.push(
            Variant {
                name: String::from_str("sm"),
                selector: VariantSelector::Media(String::from_str("@media (min-width: 640px)")),
                order: 50,
            },
        );
        self.variants.push(
            Variant {
                name: String::from_str("md"),
                selector: VariantSelector::Media(String::from_str("@media (min-width: 768px)")),
                order: 50,
            },
        );
        self.variants.push(
            Variant {
                name: String::from_str("lg"),
                selector: VariantSelector::Media(String::from_str("@media (min-width: 1024px)")),
                order: 50,
            },
        );
        self.variants.push(
            Variant {
                name: String::from_str("xl"),
                selector: VariantSelector::Media(String::from_str("@media (min-width: 1280px)")),
                order: 50,
            },
        );
        self.variants.push(
            Variant {
                name: String::from_str("2xl"),
                selector: VariantSelector::Media(String::from_str("@media (min-width: 1536px)")),
                order: 50,
            },
        );
        self.variants.push(
            Variant {
                name: String::from_str("dark"),
                selector: VariantSelector::Parent(String::from_str(".dark")),
                order: 10,
            },
        );
        self.variants.push(
            Variant {
                name: String::from_str("print"),
                selector: VariantSelector::Media(String::from_str("@media print")),
                order: 60,
            },
        );
        self.variants.push(
            Variant {
                name: String::from_str("motion-safe"),
                selector: VariantSelector::Media(
                    String::from_str("@media (prefers-reduced-motion: no-preference)"),
                ),
                order: 70,
            },
        );
        self.variants.push(
            Variant {
                name: String::from_str("motion-reduce"),
                selector: VariantSelector::Media(
                    String::from_str("@media (prefers-reduced-motion: reduce)"),
                ),
                order: 70,
            },
        );
        self.variants.push(
            Variant {
                name: String::from_str("@container"),
                selector: VariantSelector::Container(String::from_str("@container")),
                order: 80,
            },
        );
        proof {
            reveal(spec_default_variants);
            assert(self.spec_variants() =~= vars0 + spec_default_variants());
        }
    }
}

impl Default for Generator {
    fn default() -> (r: Generator)
        ensures
            r.spec_options() == (GenerateOptions {
                minify: false,
                source_comments: false,
                sort_by_property: true,
                use_layers: true,
            }),
    {
        Generator::new()
    }
}

/// One pass of formatting-whitespace removal, reading the character before
/// the current position: newlines are dropped; a space is dropped when it
/// follows a newline, a space or a colon, or when it precedes an opening
/// brace.
pub open spec fn spec_strip_rec(s: Seq<char>, prev: char) -> Seq<char>
    decreases s.len(),
{
    if s.len() == 0 {
        Seq::empty()
    } else {
        let c = s[0];
        let dropped = c == '\n' || (c == ' ' && (prev == '\n' || prev == ' ' || prev == ':' || (
        s.len() > 1 && s[1] == '{')));
        (if dropped {
            Seq::<char>::empty()
        } else {
            seq![c]
        }) + spec_strip_rec(s.drop_first(), c)
    }
}

/// Strip the non-significant formatting whitespace of the pretty printer:
/// indentation, newlines, the space before an opening brace and the space
/// after a declaration colon.
pub open spec fn spec_strip(s: Seq<char>) -> Seq<char> {
    spec_strip_rec(s, '\n')
}

/// Stripping distributes over concatenation: the boundary is unambiguous as
/// long as the second part does not begin with an opening brace.
proof fn lemma_strip_concat(a: Seq<char>, b: Seq<char>, prev: char)
    requires
        b.len() > 0 ==> b[0] != '{',
    ensures
        spec_strip_rec(a + b, prev) == spec_strip_rec(a, prev) + spec_strip_rec(
            b,
            if a.len() > 0 {
                a.last()
            } else {
                prev
            },
        ),
    decreases a.len(),
{
    if a.len() == 0 {
        assert(a + b =~= b);
        assert(spec_strip_rec(a, prev) =~= Seq::<char>::empty());
        assert(spec_strip_rec(a, prev) + spec_strip_rec(b, prev) =~= spec_strip_rec(b, prev));
    } else {
        lemma_strip_concat(a.drop_first(), b, a[0]);
        assert((a + b).drop_first() =~= a.drop_first() + b);
        assert((a + b)[0] == a[0]);
        if a.len() > 1 {
            assert((a + b)[1] == a[1]);
            assert(a.drop_first().last() == a.last());
        } else {
            assert(a.drop_first() =~= Seq::<char>::empty());
            if b.len() > 0 {
                assert((a + b)[1] == b[0]);
            }
        }
        assert(spec_strip_rec(a + b, prev) =~= spec_strip_rec(a, prev) + spec_strip_rec(
            b,
            a.last(),
        ));
    }
}

/// Characters kept by the strip pass: text without newlines whose spaces all
/// stand between ordinary characters survives unchanged.
proof fn lemma_strip_keep(s: Seq<char>, prev: char)
    requires
        forall|i: int| 0 <= i < s.len() ==> #[trigger] s[i] != '\n',
        s.len() > 0 && s[0] == ' ' ==> prev != '\n' && prev != ' ' && prev != ':' && (s.len() > 1
            ==> s[1] != '{'),
        forall|i: int|
            1 <= i < s.len() && #[trigger] s[i] == ' ' ==> s[i - 1] != ' ' && s[i - 1] != ':' && (i
                + 1 < s.len() ==> s[i + 1] != '{'),
    ensures
        spec_strip_rec(s, prev) == s,
    decreases s.len(),
{
    if s.len() > 0 {
        let t = s.drop_first();
        assert(forall|i: int| 0 <= i < t.len() ==> t[i] == s[i + 1]);
        lemma_strip_keep(t, s[0]);
        assert(spec_strip_rec(s, prev) =~= s);
    }
}

/// Text with no whitespace at its edges and none of the dropped patterns
/// inside: the strip pass keeps it exactly as written, wherever it stands.
pub open spec fn spec_ws_safe(s: Seq<char>) -> bool {
    s.len() > 0 && s[0] != ' ' && s[0] != '{' && s.last() != ' ' && s.last() != ':' && (forall|
        i: int,
    | 0 <= i < s.len() ==> #[trigger] s[i] != '\n') && (forall|i: int|
        1 <= i < s.len() && #[trigger] s[i] == ' ' ==> s[i - 1] != ' ' && s[i - 1] != ':' && (i + 1
            < s.len() ==> s[i + 1] != '{'))
}

proof fn lemma_strip_ws_safe(s: Seq<char>, prev: char)
    requires
        spec_ws_safe(s),
    ensures
        spec_strip_rec(s, prev) == s,
{
    lemma_strip_keep(s, prev);
}

/// The strings of one match result are free of formatting-like whitespace:
/// its full selector, and each declared property and value.
pub open spec fn spec_result_ws_safe(r: MatchResultV, vars: Seq<VariantV>) -> bool {
    spec_ws_safe(spec_selector(vars, r.parsed.raw, r.parsed.variants)) && forall|i: int|
        0 <= i < r.properties.len() ==> spec_ws_safe((#[trigger] r.properties[i]).property)
            && spec_ws_safe(r.properties[i].value)
}

/// Stripping one pretty declaration line leaves its minified form.
proof fn lemma_strip_prop_line(p: CSSPropertyV, important: bool)
    requires
        spec_ws_safe(p.property),
        spec_ws_safe(p.value),
    ensures
        spec_strip_rec(spec_prop_line(p, important, false), '\n') == spec_prop_line(
            p,
            important,
            true,
        ),
        spec_prop_line(p, important, false).last() == '\n',
{
    reveal_with_fuel(spec_strip_rec, 5);
    let imp: Seq<char> = if important {
        " !important"@
    } else {
        Seq::empty()
    };
    let a1 = seq![' ', ' '];
    let colsp = seq![':', ' '];
    let semi = seq![';', '\n'];
    let t2 = a1 + p.property;
    let t3 = t2 + colsp;
    let t4 = t3 + p.value;
    let t5 = t4 + imp;
    let line = t5 + semi;
    assert(line =~= spec_prop_line(p, important, false));
    // the two indentation spaces vanish
    assert(a1.drop_first() =~= seq![' ']);
    assert(seq![' '].drop_first() =~= Seq::<char>::empty());
    assert(spec_strip_rec(seq![' '], ' ') =~= Seq::<char>::empty());
    assert(spec_strip_rec(a1, '\n') =~= Seq::<char>::empty());
    lemma_strip_concat(a1, p.property, '\n');
    lemma_strip_ws_safe(p.property, ' ');
    assert(spec_strip_rec(t2, '\n') =~= p.property);
    assert(t2.last() == p.property.last());
    // the colon keeps, the space after it vanishes
    lemma_strip_concat(t2, colsp, '\n');
    assert(colsp.drop_first() =~= seq![' ']);
    assert(spec_strip_rec(seq![' '], ':') =~= Seq::<char>::empty());
    assert(spec_strip_rec(colsp, p.property.last()) =~= seq![':']);
    assert(spec_strip_rec(t3, '\n') =~= p.property + seq![':']);
    assert(t3.last() == ' ');
    lemma_strip_concat(t3, p.value, '\n');
    lemma_strip_ws_safe(p.value, ' ');
    assert(spec_strip_rec(t4, '\n') =~= p.property + seq![':'] + p.value);
    assert(t4.last() == p.value.last());
    if important {
        reveal_strlit(" !important");
        assert(imp.len() == 11);
        lemma_strip_concat(t4, imp, '\n');
        lemma_strip_keep(imp, p.value.last());
        assert(spec_strip_rec(t5, '\n') =~= p.property + seq![':'] + p.value + imp);
        assert(t5.last() == 't');
    } else {
        assert(t5 =~= t4);
        assert(spec_strip_rec(t5, '\n') =~= p.property + seq![':'] + p.value + imp);
    }
    lemma_strip_concat(t5, semi, '\n');
    assert(semi.drop_first() =~= seq!['\n']);
    assert(spec_strip_rec(seq!['\n'], ';') =~= Seq::<char>::empty());
    assert(spec_strip_rec(semi, t5.last()) =~= seq![';']);
    assert(spec_strip_rec(line, '\n') =~= p.property + seq![':'] + p.value + imp + seq![';']);
}

/// Stripping a pretty declaration block leaves its minified form.
proof fn lemma_strip_props_text(props: Seq<CSSPropertyV>, important: bool)
    requires
        forall|i: int|
            0 <= i < props.len() ==> spec_ws_safe((#[trigger] props[i]).property) && spec_ws_safe(
                props[i].value,
            ),
    ensures
        spec_strip_rec(spec_props_text(props, important, false), '\n') == spec_props_text(
            props,
            important,
            true,
        ),
        props.len() > 0 ==> spec_props_text(props, important, false).last() == '\n',
    decreases props.len(),
{
    if props.len() == 0 {
    } else {
        let front = props.drop_last();
        lemma_strip_props_text(front, important);
        let pf = spec_props_text(front, important, false);
        let line = spec_prop_line(props.last(), important, false);
        lemma_strip_concat(pf, line, '\n');
        lemma_strip_prop_line(props.last(), important);
        if front.len() > 0 {
            assert(pf.last() == '\n');
        }
        assert(line.len() > 0);
        assert(spec_props_text(props, important, false) == pf + line);
        assert((pf + line).last() == '\n');
    }
}

/// A non-empty pretty declaration block begins with indentation.
proof fn lemma_props_text_first_char(props: Seq<CSSPropertyV>, important: bool)
    ensures
        props.len() > 0 ==> spec_props_text(props, important, false).len() > 0 && spec_props_text(
            props,
            important,
            false,
        )[0] == ' ',
    decreases props.len(),
{
    if props.len() > 0 {
        let front = props.drop_last();
        lemma_props_text_first_char(front, important);
        let pf = spec_props_text(front, important, false);
        let line = spec_prop_line(props.last(), important, false);
        assert(line[0] == ' ');
        assert(spec_props_text(props, important, false) == pf + line);
        if front.len() > 0 {
            assert((pf + line)[0] == pf[0]);
        } else {
            assert(pf =~= Seq::<char>::empty());
            assert((pf + line)[0] == line[0]);
        }
    }
}

/// Stripping one pretty rule leaves its minified form.
proof fn lemma_strip_rule(r: MatchResultV, vars: Seq<VariantV>)
    requires
        spec_result_ws_safe(r, vars),
    ensures
        spec_strip_rec(spec_rule(r, vars, false), '\n') == spec_rule(r, vars, true),
        spec_rule(r, vars, false).last() == '\n',
{
    reveal_with_fuel(spec_strip_rec, 5);
    let sel = spec_selector(vars, r.parsed.raw, r.parsed.variants);
    let props = spec_props_text(r.properties, r.parsed.important, false);
    let props_min = spec_props_text(r.properties, r.parsed.important, true);
    lemma_props_text_first_char(r.properties, r.parsed.important);
    let brace = seq![' ', '{', '\n'];
    let close = seq!['}', '\n'];
    let t2 = sel + brace;
    let t3 = t2 + props;
    let rule = t3 + close;
    assert(rule =~= spec_rule(r, vars, false));
    lemma_strip_ws_safe(sel, '\n');
    lemma_strip_concat(sel, brace, '\n');
    assert(brace.drop_first() =~= seq!['{', '\n']);
    assert(seq!['{', '\n'].drop_first() =~= seq!['\n']);
    assert(spec_strip_rec(seq!['\n'], '{') =~= Seq::<char>::empty());
    assert(spec_strip_rec(seq!['{', '\n'], ' ') =~= seq!['{']);
    assert(brace[1] == '{');
    assert(spec_strip_rec(brace, sel.last()) =~= seq!['{']);
    assert(spec_strip_rec(t2, '\n') =~= sel + seq!['{']);
    assert(t2.last() == '\n');
    lemma_strip_concat(t2, props, '\n');
    lemma_strip_props_text(r.properties, r.parsed.important);
    assert(spec_strip_rec(t3, '\n') =~= sel + seq!['{'] + props_min);
    assert(t3.last() == '\n');
    lemma_strip_concat(t3, close, '\n');
    assert(close.drop_first() =~= seq!['\n']);
    assert(spec_strip_rec(seq!['\n'], '}') =~= Seq::<char>::empty());
    assert(spec_strip_rec(close, '\n') =~= seq!['}']);
    assert(spec_strip_rec(rule, '\n') =~= sel + seq!['{'] + props_min + seq!['}']);
}

/// Stripping the pretty rules of one group leaves their minified forms.
proof fn lemma_strip_rules_text(rs: Seq<MatchResultV>, vars: Seq<VariantV>)
    requires
        forall|i: int| 0 <= i < rs.len() ==> spec_result_ws_safe(#[trigger] rs[i], vars),
    ensures
        spec_strip_rec(spec_rules_text(rs, vars, false), '\n') == spec_rules_text(rs, vars, true),
        rs.len() > 0 ==> spec_rules_text(rs, vars, false).last() == '\n',
    decreases rs.len(),
{
    if rs.len() == 0 {
    } else {
        let front = rs.drop_last();
        assert(forall|i: int| 0 <= i < front.len() ==> front[i] == rs[i]);
        lemma_strip_rules_text(front, vars);
        let pf = spec_rules_text(front, vars, false);
        let rule = spec_rule(rs.last(), vars, false);
        lemma_strip_concat(pf, rule, '\n');
        lemma_strip_rule(rs.last(), vars);
        assert(rule.len() > 0) by {
            assert(rule.last() == '\n');
        };
        assert(rule[0] != '{') by {
            let sel = spec_selector(vars, rs.last().parsed.raw, rs.last().parsed.variants);
            assert(rule[0] == sel[0]);
        };
        assert(spec_rules_text(rs, vars, false) == pf + rule);
        assert((pf + rule).last() == '\n');
    }
}

/// Stripping one pretty layer block leaves its minified form.
proof fn lemma_strip_layer_text(
    rs: Seq<MatchResultV>,
    vars: Seq<VariantV>,
    l: Layer,
    opts: GenerateOptions,
)
    requires
        !opts.minify,
        forall|i: int| 0 <= i < rs.len() ==> spec_result_ws_safe(#[trigger] rs[i], vars),
    ensures
        spec_strip_rec(spec_layer_text(rs, vars, l, opts), '\n') == spec_layer_text(
            rs,
            vars,
            l,
            GenerateOptions { minify: true, ..opts },
        ),
        spec_layer_text(rs, vars, l, opts).len() > 0 ==> spec_layer_text(rs, vars, l, opts).last()
            == '\n',
{
    reveal_with_fuel(spec_strip_rec, 5);
    let group = spec_layer_group(rs, l);
    lemma_layer_group_elems(rs, l);
    assert(forall|x: int| 0 <= x < group.len() ==> spec_result_ws_safe(#[trigger] group[x], vars));
    if group.len() == 0 {
    } else {
        lemma_strip_rules_text(group, vars);
        lemma_rules_text_first_char(group, vars);
        let rules = spec_rules_text(group, vars, false);
        let rules_min = spec_rules_text(group, vars, true);
        if opts.use_layers {
            reveal_strlit("@layer ");
            reveal_strlit("base");
            reveal_strlit("components");
            reveal_strlit("utilities");
            let hdr = "@layer "@;
            let name = spec_layer_name(l);
            assert(hdr.len() == 7);
            let brace = seq![' ', '{', '\n'];
            let close = seq!['}', '\n', '\n'];
            let t2 = hdr + name;
            let t3 = t2 + brace;
            let t4 = t3 + rules;
            let block = t4 + close;
            assert(block =~= spec_layer_text(rs, vars, l, opts));
            lemma_strip_keep(hdr, '\n');
            assert(name.len() > 0 && name[0] != '{' && name[0] != ' ');
            lemma_strip_concat(hdr, name, '\n');
            lemma_strip_keep(name, ' ');
            assert(spec_strip_rec(t2, '\n') =~= hdr + name);
            assert(t2.last() == name.last());
            assert(name.last() != ' ');
            lemma_strip_concat(t2, brace, '\n');
            assert(brace.drop_first() =~= seq!['{', '\n']);
            assert(seq!['{', '\n'].drop_first() =~= seq!['\n']);
            assert(spec_strip_rec(seq!['\n'], '{') =~= Seq::<char>::empty());
            assert(spec_strip_rec(seq!['{', '\n'], ' ') =~= seq!['{']);
            assert(spec_strip_rec(brace, t2.last()) =~= seq!['{']);
            assert(spec_strip_rec(t3, '\n') =~= hdr + name + seq!['{']);
            assert(t3.last() == '\n');
            lemma_strip_concat(t3, rules, '\n');
            assert(rules.len() > 0 && rules.last() == '\n');
            assert(rules[0] != '{') by {
                let first = group[0];
                let sel = spec_selector(vars, first.parsed.raw, first.parsed.variants);
                lemma_rules_text_first_char(group, vars);
            };
            assert(spec_strip_rec(t4, '\n') =~= hdr + name + seq!['{'] + rules_min);
            assert(t4.last() == '\n');
            lemma_strip_concat(t4, close, '\n');
            assert(close.drop_first() =~= seq!['\n', '\n']);
            assert(seq!['\n', '\n'].drop_first() =~= seq!['\n']);
            assert(spec_strip_rec(seq!['\n'], '\n') =~= Seq::<char>::empty());
            assert(spec_strip_rec(seq!['\n', '\n'], '}') =~= Seq::<char>::empty());
            assert(spec_strip_rec(close, '\n') =~= seq!['}']);
            assert(spec_strip_rec(block, '\n') =~= hdr + name + seq!['{'] + rules_min
                + seq!['}']);
            assert(block.last() == '\n');
        } else {
            assert(spec_layer_text(rs, vars, l, opts) == rules);
            assert(rules.last() == '\n');
        }
    }
}

/// Every result of a layer group is one of the input results.
proof fn lemma_layer_group_elems(rs: Seq<MatchResultV>, l: Layer)
    ensures
        forall|x: int|
            0 <= x < spec_layer_group(rs, l).len() ==> exists|i: int|
                0 <= i < rs.len() && #[trigger] spec_layer_group(rs, l)[x] == rs[i],
    decreases rs.len(),
{
    if rs.len() > 0 {
        lemma_layer_group_elems(rs.drop_last(), l);
        let front = spec_layer_group(rs.drop_last(), l);
        let whole = spec_layer_group(rs, l);
        assert forall|x: int| 0 <= x < whole.len() implies exists|i: int|
            0 <= i < rs.len() && #[trigger] whole[x] == rs[i] by {
            if x < front.len() {
                assert(whole[x] == front[x]);
                let i = choose|i: int|
                    0 <= i < rs.drop_last().len() && #[trigger] front[x] == rs.drop_last()[i];
                assert(whole[x] == rs[i]);
            } else {
                assert(whole[x] == rs.last());
                assert(whole[x] == rs[rs.len() - 1]);
            }
        };
    }
}

/// A non-empty rules text begins with the first rule's selector dot.
proof fn lemma_rules_text_first_char(rs: Seq<MatchResultV>, vars: Seq<VariantV>)
    requires
        rs.len() > 0,
        forall|i: int| 0 <= i < rs.len() ==> spec_result_ws_safe(#[trigger] rs[i], vars),
    ensures
        spec_rules_text(rs, vars, false).len() > 0,
        spec_rules_text(rs, vars, false)[0] != '{',
    decreases rs.len(),
{
    let front = rs.drop_last();
    assert(forall|i: int| 0 <= i < front.len() ==> front[i] == rs[i]);
    if front.len() > 0 {
        lemma_rules_text_first_char(front, vars);
        let pf = spec_rules_text(front, vars, false);
        let rule = spec_rule(rs.last(), vars, false);
        assert(spec_rules_text(rs, vars, false) == pf + rule);
        assert((pf + rule)[0] == pf[0]);
    } else {
        assert(spec_rules_text(front, vars, false) =~= Seq::<char>::empty());
        let rule = spec_rule(rs.last(), vars, false);
        let sel = spec_selector(vars, rs.last().parsed.raw, rs.last().parsed.variants);
        assert(spec_rules_text(rs, vars, false) =~= rule);
        assert(rule[0] == sel[0]);
    }
}

/// For any match result list whose texts are free of formatting-like
/// whitespace, stripping the non-significant whitespace from the pretty
/// output yields exactly the minified output over the identical input.
pub proof fn lemma_minified_strips_pretty(
    rs: Seq<MatchResultV>,
    vars: Seq<VariantV>,
    opts: GenerateOptions,
)
    requires
        !opts.minify,
        forall|i: int| 0 <= i < rs.len() ==> spec_result_ws_safe(#[trigger] rs[i], vars),
    ensures
        spec_strip(spec_generate(rs, vars, opts)) == spec_generate(
            rs,
            vars,
            GenerateOptions { minify: true, ..opts },
        ),
{
    let mopts = GenerateOptions { minify: true, ..opts };
    let b1 = spec_layer_text(rs, vars, Layer::Base, opts);
    let b2 = spec_layer_text(rs, vars, Layer::Components, opts);
    let b3 = spec_layer_text(rs, vars, Layer::Utilities, opts);
    let m1 = spec_layer_text(rs, vars, Layer::Base, mopts);
    let m2 = spec_layer_text(rs, vars, Layer::Components, mopts);
    let m3 = spec_layer_text(rs, vars, Layer::Utilities, mopts);
    lemma_strip_layer_text(rs, vars, Layer::Base, opts);
    lemma_strip_layer_text(rs, vars, Layer::Components, opts);
    lemma_strip_layer_text(rs, vars, Layer::Utilities, opts);
    lemma_layer_text_first_char(rs, vars, Layer::Components, opts);
    lemma_layer_text_first_char(rs, vars, Layer::Utilities, opts);
    let t2 = b1 + b2;
    lemma_strip_concat(b1, b2, '\n');
    if b1.len() > 0 {
        assert(spec_strip_rec(b2, b1.last()) == spec_strip_rec(b2, '\n'));
    }
    assert(spec_strip_rec(t2, '\n') =~= m1 + m2);
    lemma_strip_concat(t2, b3, '\n');
    if t2.len() > 0 {
        assert(t2.last() == '\n') by {
            if b2.len() > 0 {
                assert(t2.last() == b2.last());
            } else {
                assert(t2 =~= b1);
            }
        };
    }
    assert(spec_strip_rec(t2 + b3, '\n') =~= m1 + m2 + m3);
    assert(t2 + b3 =~= spec_generate(rs, vars, opts));
    assert(m1 + m2 + m3 =~= spec_generate(rs, vars, mopts));
}

/// A non-empty pretty layer text begins with `@` or a selector character,
/// never an opening brace.
proof fn lemma_layer_text_first_char(
    rs: Seq<MatchResultV>,
    vars: Seq<VariantV>,
    l: Layer,
    opts: GenerateOptions,
)
    requires
        !opts.minify,
        forall|i: int| 0 <= i < rs.len() ==> spec_result_ws_safe(#[trigger] rs[i], vars),
    ensures
        spec_layer_text(rs, vars, l, opts).len() > 0 ==> spec_layer_text(rs, vars, l, opts)[0]
            != '{',
{
    let group = spec_layer_group(rs, l);
    lemma_layer_group_elems(rs, l);
    if group.len() > 0 {
        if opts.use_layers {
            reveal_strlit("@layer ");
            let block = spec_layer_text(rs, vars, l, opts);
            assert(block[0] == ("@layer "@)[0]);
        } else {
            lemma_rules_text_first_char(group, vars);
        }
    }
}

} // verus!
