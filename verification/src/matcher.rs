//! Trie-backed pattern matcher: resolves a parsed class against a registry
//! of utility patterns, dispatching to per-family value-resolution handlers.

use vstd::prelude::*;
use vstd::string::{StrSliceExecFns, StringExecFns};
use crate::re::{CompiledRegex, regex_compiles, regex_matches};
use crate::text::{str_eq, str_starts_with, push_char, dec_u32, spec_dec};
use crate::trie::PrefixTrie;
use crate::types::{
    CSSProperty, CSSPropertyV, Layer, MatchResult, MatchResultV, ParsedClass, ParsedClassV,
    UtilityPattern, UtilityPatternV, spec_full_utility,
};
use crate::parser::{parse_opacity, spec_parse_u8};

verus! {

/// The fixed spacing scale: numeric keys and keyword lengths.
pub open spec fn spec_spacing_scale(s: Seq<char>) -> Option<Seq<char>> {
    if s == "0"@ {
        Some("0px"@)
    } else if s == "px"@ {
        Some("1px"@)
    } else if s == "0.5"@ {
        Some("0.125rem"@)
    } else if s == "1"@ {
        Some("0.25rem"@)
    } else if s == "1.5"@ {
        Some("0.375rem"@)
    } else if s == "2"@ {
        Some("0.5rem"@)
    } else if s == "2.5"@ {
        Some("0.625rem"@)
    } else if s == "3"@ {
        Some("0.75rem"@)
    } else if s == "3.5"@ {
        Some("0.875rem"@)
    } else if s == "4"@ {
        Some("1rem"@)
    } else if s == "5"@ {
        Some("1.25rem"@)
    } else if s == "6"@ {
        Some("1.5rem"@)
    } else if s == "7"@ {
        Some("1.75rem"@)
    } else if s == "8"@ {
        Some("2rem"@)
    } else if s == "9"@ {
        Some("2.25rem"@)
    } else if s == "10"@ {
        Some("2.5rem"@)
    } else if s == "11"@ {
        Some("2.75rem"@)
    } else if s == "12"@ {
        Some("3rem"@)
    } else if s == "14"@ {
        Some("3.5rem"@)
    } else if s == "16"@ {
        Some("4rem"@)
    } else if s == "20"@ {
        Some("5rem"@)
    } else if s == "24"@ {
        Some("6rem"@)
    } else if s == "28"@ {
        Some("7rem"@)
    } else if s == "32"@ {
        Some("8rem"@)
    } else if s == "36"@ {
        Some("9rem"@)
    } else if s == "40"@ {
        Some("10rem"@)
    } else if s == "44"@ {
        Some("11rem"@)
    } else if s == "48"@ {
        Some("12rem"@)
    } else if s == "52"@ {
        Some("13rem"@)
    } else if s == "56"@ {
        Some("14rem"@)
    } else if s == "60"@ {
        Some("15rem"@)
    } else if s == "64"@ {
        Some("16rem"@)
    } else if s == "72"@ {
        Some("18rem"@)
    } else if s == "80"@ {
        Some("20rem"@)
    } else if s == "96"@ {
        Some("24rem"@)
    } else if s == "auto"@ {
        Some("auto"@)
    } else if s == "full"@ {
        Some("100%"@)
    } else if s == "screen"@ {
        Some("100vw"@)
    } else if s == "svw"@ {
        Some("100svw"@)
    } else if s == "lvw"@ {
        Some("100lvw"@)
    } else if s == "dvw"@ {
        Some("100dvw"@)
    } else if s == "min"@ {
        Some("min-content"@)
    } else if s == "max"@ {
        Some("max-content"@)
    } else if s == "fit"@ {
        Some("fit-content"@)
    } else {
        None
    }
}

fn spacing_scale(s: &str) -> (r: Option<String>)
    ensures
        match r {
            Some(v) => spec_spacing_scale(s@) == Some(v@),
            None => spec_spacing_scale(s@) is None,
        },
{
    if str_eq(s, "0") {
        Some("0px".to_owned())
    } else if str_eq(s, "px") {
        Some("1px".to_owned())
    } else if str_eq(s, "0.5") {
        Some("0.125rem".to_owned())
    } else if str_eq(s, "1") {
        Some("0.25rem".to_owned())
    } else if str_eq(s, "1.5") {
        Some("0.375rem".to_owned())
    } else if str_eq(s, "2") {
        Some("0.5rem".to_owned())
    } else if str_eq(s, "2.5") {
        Some("0.625rem".to_owned())
    } else if str_eq(s, "3") {
        Some("0.75rem".to_owned())
    } else if str_eq(s, "3.5") {
        Some("0.875rem".to_owned())
    } else if str_eq(s, "4") {
        Some("1rem".to_owned())
    } else if str_eq(s, "5") {
        Some("1.25rem".to_owned())
    } else if str_eq(s, "6") {
        Some("1.5rem".to_owned())
    } else if str_eq(s, "7") {
        Some("1.75rem".to_owned())
    } else if str_eq(s, "8") {
        Some("2rem".to_owned())
    } else if str_eq(s, "9") {
        Some("2.25rem".to_owned())
    } else if str_eq(s, "10") {
        Some("2.5rem".to_owned())
    } else if str_eq(s, "11") {
        Some("2.75rem".to_owned())
    } else if str_eq(s, "12") {
        Some("3rem".to_owned())
    } else if str_eq(s, "14") {
        Some("3.5rem".to_owned())
    } else if str_eq(s, "16") {
        Some("4rem".to_owned())
    } else if str_eq(s, "20") {
        Some("5rem".to_owned())
    } else if str_eq(s, "24") {
        Some("6rem".to_owned())
    } else if str_eq(s, "28") {
        Some("7rem".to_owned())
    } else if str_eq(s, "32") {
        Some("8rem".to_owned())
    } else if str_eq(s, "36") {
        Some("9rem".to_owned())
    } else if str_eq(s, "40") {
        Some("10rem".to_owned())
    } else if str_eq(s, "44") {
        Some("11rem".to_owned())
    } else if str_eq(s, "48") {
        Some("12rem".to_owned())
    } else if str_eq(s, "52") {
        Some("13rem".to_owned())
    } else if str_eq(s, "56") {
        Some("14rem".to_owned())
    } else if str_eq(s, "60") {
        Some("15rem".to_owned())
    } else if str_eq(s, "64") {
        Some("16rem".to_owned())
    } else if str_eq(s, "72") {
        Some("18rem".to_owned())
    } else if str_eq(s, "80") {
        Some("20rem".to_owned())
    } else if str_eq(s, "96") {
        Some("24rem".to_owned())
    } else if str_eq(s, "auto") {
        Some("auto".to_owned())
    } else if str_eq(s, "full") {
        Some("100%".to_owned())
    } else if str_eq(s, "screen") {
        Some("100vw".to_owned())
    } else if str_eq(s, "svw") {
        Some("100svw".to_owned())
    } else if str_eq(s, "lvw") {
        Some("100lvw".to_owned())
    } else if str_eq(s, "dvw") {
        Some("100dvw".to_owned())
    } else if str_eq(s, "min") {
        Some("min-content".to_owned())
    } else if str_eq(s, "max") {
        Some("max-content".to_owned())
    } else if str_eq(s, "fit") {
        Some("fit-content".to_owned())
    } else {
        None
    }
}

/// The fixed color palette.
pub open spec fn spec_color_palette(s: Seq<char>) -> Option<Seq<char>> {
    if s == "slate-50"@ {
        Some("#f8fafc"@)
    } else if s == "slate-100"@ {
        Some("#f1f5f9"@)
    } else if s == "slate-200"@ {
        Some("#e2e8f0"@)
    } else if s == "slate-300"@ {
        Some("#cbd5e1"@)
    } else if s == "slate-400"@ {
        Some("#94a3b8"@)
    } else if s == "slate-500"@ {
        Some("#64748b"@)
    } else if s == "slate-600"@ {
        Some("#475569"@)
    } else if s == "slate-700"@ {
        Some("#334155"@)
    } else if s == "slate-800"@ {
        Some("#1e293b"@)
    } else if s == "slate-900"@ {
        Some("#0f172a"@)
    } else if s == "slate-950"@ {
        Some("#020617"@)
    } else if s == "red-500"@ {
        Some("#ef4444"@)
    } else if s == "orange-500"@ {
        Some("#f97316"@)
    } else if s == "amber-500"@ {
        Some("#f59e0b"@)
    } else if s == "yellow-500"@ {
        Some("#eab308"@)
    } else if s == "lime-500"@ {
        Some("#84cc16"@)
    } else if s == "green-500"@ {
        Some("#22c55e"@)
    } else if s == "emerald-500"@ {
        Some("#10b981"@)
    } else if s == "teal-500"@ {
        Some("#14b8a6"@)
    } else if s == "cyan-500"@ {
        Some("#06b6d4"@)
    } else if s == "sky-500"@ {
        Some("#0ea5e9"@)
    } else if s == "blue-500"@ {
        Some("#3b82f6"@)
    } else if s == "indigo-500"@ {
        Some("#6366f1"@)
    } else if s == "violet-500"@ {
        Some("#8b5cf6"@)
    } else if s == "purple-500"@ {
        Some("#a855f7"@)
    } else if s == "fuchsia-500"@ {
        Some("#d946ef"@)
    } else if s == "pink-500"@ {
        Some("#ec4899"@)
    } else if s == "rose-500"@ {
        Some("#f43f5e"@)
    } else if s == "black"@ {
        Some("#000000"@)
    } else if s == "white"@ {
        Some("#ffffff"@)
    } else if s == "transparent"@ {
        Some("transparent"@)
    } else if s == "current"@ {
        Some("currentColor"@)
    } else if s == "inherit"@ {
        Some("inherit"@)
    } else {
        None
    }
}

fn color_palette(s: &str) -> (r: Option<String>)
    ensures
        match r {
            Some(v) => spec_color_palette(s@) == Some(v@),
            None => spec_color_palette(s@) is None,
        },
{
    if str_eq(s, "slate-50") {
        Some("#f8fafc".to_owned())
    } else if str_eq(s, "slate-100") {
        Some("#f1f5f9".to_owned())
    } else if str_eq(s, "slate-200") {
        Some("#e2e8f0".to_owned())
    } else if str_eq(s, "slate-300") {
        Some("#cbd5e1".to_owned())
    } else if str_eq(s, "slate-400") {
        Some("#94a3b8".to_owned())
    } else if str_eq(s, "slate-500") {
        Some("#64748b".to_owned())
    } else if str_eq(s, "slate-600") {
        Some("#475569".to_owned())
    } else if str_eq(s, "slate-700") {
        Some("#334155".to_owned())
    } else if str_eq(s, "slate-800") {
        Some("#1e293b".to_owned())
    } else if str_eq(s, "slate-900") {
        Some("#0f172a".to_owned())
    } else if str_eq(s, "slate-950") {
        Some("#020617".to_owned())
    } else if str_eq(s, "red-500") {
        Some("#ef4444".to_owned())
    } else if str_eq(s, "orange-500") {
        Some("#f97316".to_owned())
    } else if str_eq(s, "amber-500") {
        Some("#f59e0b".to_owned())
    } else if str_eq(s, "yellow-500") {
        Some("#eab308".to_owned())
    } else if str_eq(s, "lime-500") {
        Some("#84cc16".to_owned())
    } else if str_eq(s, "green-500") {
        Some("#22c55e".to_owned())
    } else if str_eq(s, "emerald-500") {
        Some("#10b981".to_owned())
    } else if str_eq(s, "teal-500") {
        Some("#14b8a6".to_owned())
    } else if str_eq(s, "cyan-500") {
        Some("#06b6d4".to_owned())
    } else if str_eq(s, "sky-500") {
        Some("#0ea5e9".to_owned())
    } else if str_eq(s, "blue-500") {
        Some("#3b82f6".to_owned())
    } else if str_eq(s, "indigo-500") {
        Some("#6366f1".to_owned())
    } else if str_eq(s, "violet-500") {
        Some("#8b5cf6".to_owned())
    } else if str_eq(s, "purple-500") {
        Some("#a855f7".to_owned())
    } else if str_eq(s, "fuchsia-500") {
        Some("#d946ef".to_owned())
    } else if str_eq(s, "pink-500") {
        Some("#ec4899".to_owned())
    } else if str_eq(s, "rose-500") {
        Some("#f43f5e".to_owned())
    } else if str_eq(s, "black") {
        Some("#000000".to_owned())
    } else if str_eq(s, "white") {
        Some("#ffffff".to_owned())
    } else if str_eq(s, "transparent") {
        Some("transparent".to_owned())
    } else if str_eq(s, "current") {
        Some("currentColor".to_owned())
    } else if str_eq(s, "inherit") {
        Some("inherit".to_owned())
    } else {
        None
    }
}

/// The fixed keyword table for static utilities, keyed by pattern name.
pub open spec fn spec_static_value(s: Seq<char>) -> Option<Seq<char>> {
    if s == "block"@ {
        Some("block"@)
    } else if s == "inline-block"@ {
        Some("inline-block"@)
    } else if s == "inline"@ {
        Some("inline"@)
    } else if s == "flex"@ {
        Some("flex"@)
    } else if s == "inline-flex"@ {
        Some("inline-flex"@)
    } else if s == "grid"@ {
        Some("grid"@)
    } else if s == "inline-grid"@ {
        Some("inline-grid"@)
    } else if s == "contents"@ {
        Some("contents"@)
    } else if s == "hidden"@ {
        Some("none"@)
    } else if s == "flex-row"@ {
        Some("row"@)
    } else if s == "flex-row-reverse"@ {
        Some("row-reverse"@)
    } else if s == "flex-col"@ {
        Some("column"@)
    } else if s == "flex-col-reverse"@ {
        Some("column-reverse"@)
    } else if s == "flex-wrap"@ {
        Some("wrap"@)
    } else if s == "flex-wrap-reverse"@ {
        Some("wrap-reverse"@)
    } else if s == "flex-nowrap"@ {
        Some("nowrap"@)
    } else if s == "justify-start"@ {
        Some("flex-start"@)
    } else if s == "justify-end"@ {
        Some("flex-end"@)
    } else if s == "justify-center"@ {
        Some("center"@)
    } else if s == "justify-between"@ {
        Some("space-between"@)
    } else if s == "justify-around"@ {
        Some("space-around"@)
    } else if s == "justify-evenly"@ {
        Some("space-evenly"@)
    } else if s == "items-start"@ {
        Some("flex-start"@)
    } else if s == "items-end"@ {
        Some("flex-end"@)
    } else if s == "items-center"@ {
        Some("center"@)
    } else if s == "items-baseline"@ {
        Some("baseline"@)
    } else if s == "items-stretch"@ {
        Some("stretch"@)
    } else if s == "text-left"@ {
        Some("left"@)
    } else if s == "text-center"@ {
        Some("center"@)
    } else if s == "text-right"@ {
        Some("right"@)
    } else if s == "text-justify"@ {
        Some("justify"@)
    } else if s == "font-thin"@ {
        Some("100"@)
    } else if s == "font-extralight"@ {
        Some("200"@)
    } else if s == "font-light"@ {
        Some("300"@)
    } else if s == "font-normal"@ {
        Some("400"@)
    } else if s == "font-medium"@ {
        Some("500"@)
    } else if s == "font-semibold"@ {
        Some("600"@)
    } else if s == "font-bold"@ {
        Some("700"@)
    } else if s == "font-extrabold"@ {
        Some("800"@)
    } else if s == "font-black"@ {
        Some("900"@)
    } else {
        None
    }
}

fn static_value(s: &str) -> (r: Option<String>)
    ensures
        match r {
            Some(v) => spec_static_value(s@) == Some(v@),
            None => spec_static_value(s@) is None,
        },
{
    if str_eq(s, "block") {
        Some("block".to_owned())
    } else if str_eq(s, "inline-block") {
        Some("inline-block".to_owned())
    } else if str_eq(s, "inline") {
        Some("inline".to_owned())
    } else if str_eq(s, "flex") {
        Some("flex".to_owned())
    } else if str_eq(s, "inline-flex") {
        Some("inline-flex".to_owned())
    } else if str_eq(s, "grid") {
        Some("grid".to_owned())
    } else if str_eq(s, "inline-grid") {
        Some("inline-grid".to_owned())
    } else if str_eq(s, "contents") {
        Some("contents".to_owned())
    } else if str_eq(s, "hidden") {
        Some("none".to_owned())
    } else if str_eq(s, "flex-row") {
        Some("row".to_owned())
    } else if str_eq(s, "flex-row-reverse") {
        Some("row-reverse".to_owned())
    } else if str_eq(s, "flex-col") {
        Some("column".to_owned())
    } else if str_eq(s, "flex-col-reverse") {
        Some("column-reverse".to_owned())
    } else if str_eq(s, "flex-wrap") {
        Some("wrap".to_owned())
    } else if str_eq(s, "flex-wrap-reverse") {
        Some("wrap-reverse".to_owned())
    } else if str_eq(s, "flex-nowrap") {
        Some("nowrap".to_owned())
    } else if str_eq(s, "justify-start") {
        Some("flex-start".to_owned())
    } else if str_eq(s, "justify-end") {
        Some("flex-end".to_owned())
    } else if str_eq(s, "justify-center") {
        Some("center".to_owned())
    } else if str_eq(s, "justify-between") {
        Some("space-between".to_owned())
    } else if str_eq(s, "justify-around") {
        Some("space-around".to_owned())
    } else if str_eq(s, "justify-evenly") {
        Some("space-evenly".to_owned())
    } else if str_eq(s, "items-start") {
        Some("flex-start".to_owned())
    } else if str_eq(s, "items-end") {
        Some("flex-end".to_owned())
    } else if str_eq(s, "items-center") {
        Some("center".to_owned())
    } else if str_eq(s, "items-baseline") {
        Some("baseline".to_owned())
    } else if str_eq(s, "items-stretch") {
        Some("stretch".to_owned())
    } else if str_eq(s, "text-left") {
        Some("left".to_owned())
    } else if str_eq(s, "text-center") {
        Some("center".to_owned())
    } else if str_eq(s, "text-right") {
        Some("right".to_owned())
    } else if str_eq(s, "text-justify") {
        Some("justify".to_owned())
    } else if str_eq(s, "font-thin") {
        Some("100".to_owned())
    } else if str_eq(s, "font-extralight") {
        Some("200".to_owned())
    } else if str_eq(s, "font-light") {
        Some("300".to_owned())
    } else if str_eq(s, "font-normal") {
        Some("400".to_owned())
    } else if str_eq(s, "font-medium") {
        Some("500".to_owned())
    } else if str_eq(s, "font-semibold") {
        Some("600".to_owned())
    } else if str_eq(s, "font-bold") {
        Some("700".to_owned())
    } else if str_eq(s, "font-extrabold") {
        Some("800".to_owned())
    } else if str_eq(s, "font-black") {
        Some("900".to_owned())
    } else {
        None
    }
}

/// The value-resolution family of a pattern, fixed at registration time.
#[derive(Debug, Clone, Copy, PartialEq, Eq, Structural)]
pub enum HandlerKind {
    Spacing,
    Color,
    Opacity,
    Static,
}

/// The handler family a pattern name dispatches to.
pub open spec fn spec_determine_handler(name: Seq<char>) -> HandlerKind {
    if ("padding"@).is_prefix_of(name) || ("margin"@).is_prefix_of(name) || ("gap"@).is_prefix_of(
        name,
    ) {
        HandlerKind::Spacing
    } else if name == "text-color"@ || name == "background-color"@ || name == "border-color"@ {
        HandlerKind::Color
    } else if name == "opacity"@ {
        HandlerKind::Opacity
    } else {
        HandlerKind::Static
    }
}

fn determine_handler(pattern: &UtilityPattern) -> (r: HandlerKind)
    ensures
        r == spec_determine_handler(pattern@.name),
{
    let name = pattern.name.as_str();
    if str_starts_with(name, "padding") || str_starts_with(name, "margin") || str_starts_with(
        name,
        "gap",
    ) {
        HandlerKind::Spacing
    } else if str_eq(name, "text-color") || str_eq(name, "background-color") || str_eq(
        name,
        "border-color",
    ) {
        HandlerKind::Color
    } else if str_eq(name, "opacity") {
        HandlerKind::Opacity
    } else {
        HandlerKind::Static
    }
}

/// Spacing resolution: the arbitrary value verbatim, else the spacing scale;
/// a negative marker prepends a minus sign unless the value is `0px` or
/// `auto`; axis-pair names expand into two properties.
pub open spec fn spec_handle_spacing(parsed: ParsedClassV, p: UtilityPatternV) -> Option<
    Seq<CSSPropertyV>,
> {
    let cv = match parsed.arbitrary {
        Some(a) => Some(a),
        None => match parsed.value {
            Some(v) => spec_spacing_scale(v),
            None => None,
        },
    };
    match cv {
        None => None,
        Some(cv) => {
            let fv = if parsed.negative && cv != "0px"@ && cv != "auto"@ {
                seq!['-'] + cv
            } else {
                cv
            };
            if p.name == "padding-x"@ {
                Some(
                    seq![
                        CSSPropertyV { property: "padding-left"@, value: fv },
                        CSSPropertyV { property: "padding-right"@, value: fv },
                    ],
                )
            } else if p.name == "padding-y"@ {
                Some(
                    seq![
                        CSSPropertyV { property: "padding-top"@, value: fv },
                        CSSPropertyV { property: "padding-bottom"@, value: fv },
                    ],
                )
            } else if p.name == "margin-x"@ {
                Some(
                    seq![
                        CSSPropertyV { property: "margin-left"@, value: fv },
                        CSSPropertyV { property: "margin-right"@, value: fv },
                    ],
                )
            } else if p.name == "margin-y"@ {
                Some(
                    seq![
                        CSSPropertyV { property: "margin-top"@, value: fv },
                        CSSPropertyV { property: "margin-bottom"@, value: fv },
                    ],
                )
            } else {
                Some(seq![CSSPropertyV { property: p.css_property, value: fv }])
            }
        },
    }
}

fn handle_spacing(parsed: &ParsedClass, pattern: &UtilityPattern) -> (r: Option<Vec<CSSProperty>>)
    ensures
        match r {
            Some(props) => spec_handle_spacing(parsed@, pattern@) == Some(
                props@.map_values(|p: CSSProperty| p@),
            ),
            None => spec_handle_spacing(parsed@, pattern@) is None,
        },
{
    let cv: String = match &parsed.arbitrary {
        Some(a) => a.clone(),
        None => match &parsed.value {
            Some(v) => match spacing_scale(v.as_str()) {
                Some(s) => s,
                None => {
                    return None;
                },
            },
            None => {
                return None;
            },
        },
    };
    let fv: String = if parsed.negative && !str_eq(cv.as_str(), "0px") && !str_eq(
        cv.as_str(),
        "auto",
    ) {
        let mut s = String::new();
        push_char(&mut s, '-');
        s.append(cv.as_str());
        proof {
            assert(s@ =~= seq!['-'] + cv@);
        }
        s
    } else {
        cv
    };
    let name = pattern.name.as_str();
    let mut props: Vec<CSSProperty> = Vec::new();
    if str_eq(name, "padding-x") {
        props.push(CSSProperty::new("padding-left", fv.as_str()));
        props.push(CSSProperty::new("padding-right", fv.as_str()));
    } else if str_eq(name, "padding-y") {
        props.push(CSSProperty::new("padding-top", fv.as_str()));
        props.push(CSSProperty::new("padding-bottom", fv.as_str()));
    } else if str_eq(name, "margin-x") {
        props.push(CSSProperty::new("margin-left", fv.as_str()));
        props.push(CSSProperty::new("margin-right", fv.as_str()));
    } else if str_eq(name, "margin-y") {
        props.push(CSSProperty::new("margin-top", fv.as_str()));
        props.push(CSSProperty::new("margin-bottom", fv.as_str()));
    } else {
        props.push(CSSProperty::new(pattern.css_property.as_str(), fv.as_str()));
    }
    proof {
        assert(spec_handle_spacing(parsed@, pattern@) == Some(
            props@.map_values(|p: CSSProperty| p@),
        )) by {
            assert(props@.map_values(|p: CSSProperty| p@) =~= spec_handle_spacing(
                parsed@,
                pattern@,
            )->Some_0);
        };
    }
    Some(props)
}

/// Color resolution: the arbitrary value verbatim, else the palette, else a
/// synthesized custom-property reference; an opacity modifier wraps the color
/// in a color-mix expression blending toward transparent.
pub open spec fn spec_handle_color(parsed: ParsedClassV, p: UtilityPatternV) -> Option<
    Seq<CSSPropertyV>,
> {
    match parsed.value {
        None => None,
        Some(v) => {
            let cv = match parsed.arbitrary {
                Some(a) => a,
                None => match spec_color_palette(v) {
                    Some(c) => c,
                    None => "var(--color-"@ + v + ")"@,
                },
            };
            let fv = match parsed.opacity {
                Some(o) => "color-mix(in srgb, "@ + cv + " "@ + spec_dec(o as int)
                    + "%, transparent)"@,
                None => cv,
            };
            Some(seq![CSSPropertyV { property: p.css_property, value: fv }])
        },
    }
}

fn handle_color(parsed: &ParsedClass, pattern: &UtilityPattern) -> (r: Option<Vec<CSSProperty>>)
    ensures
        match r {
            Some(props) => spec_handle_color(parsed@, pattern@) == Some(
                props@.map_values(|p: CSSProperty| p@),
            ),
            None => spec_handle_color(parsed@, pattern@) is None,
        },
{
    let value: &String = match &parsed.value {
        Some(v) => v,
        None => {
            return None;
        },
    };
    let cv: String = match &parsed.arbitrary {
        Some(a) => a.clone(),
        None => match color_palette(value.as_str()) {
            Some(c) => c,
            None => {
                let mut s = String::from_str("var(--color-");
                s.append(value.as_str());
                s.append(")");
                s
            },
        },
    };
    let fv: String = match parsed.opacity {
        Some(o) => {
            let mut s = String::from_str("color-mix(in srgb, ");
            s.append(cv.as_str());
            s.append(" ");
            let d = dec_u32(o as u32);
            s.append(d.as_str());
            s.append("%, transparent)");
            s
        },
        None => cv,
    };
    let mut props: Vec<CSSProperty> = Vec::new();
    props.push(CSSProperty::new(pattern.css_property.as_str(), fv.as_str()));
    proof {
        assert(spec_handle_color(parsed@, pattern@) == Some(
            props@.map_values(|p: CSSProperty| p@),
        )) by {
            assert(props@.map_values(|p: CSSProperty| p@) =~= spec_handle_color(
                parsed@,
                pattern@,
            )->Some_0);
        };
    }
    Some(props)
}

/// The decimal text of `o` hundredths: whole part, then the fractional part
/// with trailing zeros removed.
pub open spec fn spec_decimal_fraction(o: int) -> Seq<char> {
    if o % 100 == 0 {
        spec_dec(o / 100)
    } else if (o % 100) % 10 == 0 {
        spec_dec(o / 100) + seq!['.'] + spec_dec((o % 100) / 10)
    } else if o % 100 < 10 {
        spec_dec(o / 100) + seq!['.', '0'] + spec_dec(o % 100)
    } else {
        spec_dec(o / 100) + seq!['.'] + spec_dec(o % 100)
    }
}

fn decimal_fraction(o: u8) -> (r: String)
    ensures
        r@ == spec_decimal_fraction(o as int),
{
    let whole: u32 = (o as u32) / 100;
    let frac: u32 = (o as u32) % 100;
    let mut s = dec_u32(whole);
    if frac == 0 {
        return s;
    }
    push_char(&mut s, '.');
    if frac % 10 == 0 {
        let d = dec_u32(frac / 10);
        s.append(d.as_str());
        proof {
            assert(s@ =~= spec_dec(o as int / 100) + seq!['.'] + spec_dec((o as int % 100) / 10));
        }
    } else if frac < 10 {
        push_char(&mut s, '0');
        let d = dec_u32(frac);
        s.append(d.as_str());
        proof {
            assert(s@ =~= spec_dec(o as int / 100) + seq!['.', '0'] + spec_dec(o as int % 100));
        }
    } else {
        let d = dec_u32(frac);
        s.append(d.as_str());
        proof {
            assert(s@ =~= spec_dec(o as int / 100) + seq!['.'] + spec_dec(o as int % 100));
        }
    }
    s
}

/// Opacity resolution: the value parses as a decimal integer of at most 255,
/// emitted as its fraction of one hundred.
pub open spec fn spec_handle_opacity(parsed: ParsedClassV, p: UtilityPatternV) -> Option<
    Seq<CSSPropertyV>,
> {
    match parsed.value {
        None => None,
        Some(v) => match spec_parse_u8(v) {
            None => None,
            Some(o) => Some(
                seq![
                    CSSPropertyV { property: p.css_property, value: spec_decimal_fraction(o as int) },
                ],
            ),
        },
    }
}

fn handle_opacity(parsed: &ParsedClass, pattern: &UtilityPattern) -> (r: Option<Vec<CSSProperty>>)
    ensures
        match r {
            Some(props) => spec_handle_opacity(parsed@, pattern@) == Some(
                props@.map_values(|p: CSSProperty| p@),
            ),
            None => spec_handle_opacity(parsed@, pattern@) is None,
        },
{
    let value: &String = match &parsed.value {
        Some(v) => v,
        None => {
            return None;
        },
    };
    let o: u8 = match parse_opacity(value.as_str()) {
        Some(o) => o,
        None => {
            return None;
        },
    };
    let css = decimal_fraction(o);
    let mut props: Vec<CSSProperty> = Vec::new();
    props.push(CSSProperty::new(pattern.css_property.as_str(), css.as_str()));
    proof {
        assert(spec_handle_opacity(parsed@, pattern@) == Some(
            props@.map_values(|p: CSSProperty| p@),
        )) by {
            assert(props@.map_values(|p: CSSProperty| p@) =~= spec_handle_opacity(
                parsed@,
                pattern@,
            )->Some_0);
        };
    }
    Some(props)
}

/// Static resolution: the pattern's own name selects a fixed keyword value.
pub open spec fn spec_handle_static(parsed: ParsedClassV, p: UtilityPatternV) -> Option<
    Seq<CSSPropertyV>,
> {
    match spec_static_value(p.name) {
        None => None,
        Some(v) => Some(seq![CSSPropertyV { property: p.css_property, value: v }]),
    }
}

fn handle_static(parsed: &ParsedClass, pattern: &UtilityPattern) -> (r: Option<Vec<CSSProperty>>)
    ensures
        match r {
            Some(props) => spec_handle_static(parsed@, pattern@) == Some(
                props@.map_values(|p: CSSProperty| p@),
            ),
            None => spec_handle_static(parsed@, pattern@) is None,
        },
{
    let v: String = match static_value(pattern.name.as_str()) {
        Some(v) => v,
        None => {
            return None;
        },
    };
    let mut props: Vec<CSSProperty> = Vec::new();
    props.push(CSSProperty::new(pattern.css_property.as_str(), v.as_str()));
    proof {
        assert(spec_handle_static(parsed@, pattern@) == Some(
            props@.map_values(|p: CSSProperty| p@),
        )) by {
            assert(props@.map_values(|p: CSSProperty| p@) =~= spec_handle_static(
                parsed@,
                pattern@,
            )->Some_0);
        };
    }
    Some(props)
}

/// Dispatch to the handler family chosen at registration time.
pub open spec fn spec_handle(
    kind: HandlerKind,
    parsed: ParsedClassV,
    p: UtilityPatternV,
) -> Option<Seq<CSSPropertyV>> {
    match kind {
        HandlerKind::Spacing => spec_handle_spacing(parsed, p),
        HandlerKind::Color => spec_handle_color(parsed, p),
        HandlerKind::Opacity => spec_handle_opacity(parsed, p),
        HandlerKind::Static => spec_handle_static(parsed, p),
    }
}

fn run_handler(
    kind: HandlerKind,
    parsed: &ParsedClass,
    pattern: &UtilityPattern,
) -> (r: Option<Vec<CSSProperty>>)
    ensures
        match r {
            Some(props) => spec_handle(kind, parsed@, pattern@) == Some(
                props@.map_values(|p: CSSProperty| p@),
            ),
            None => spec_handle(kind, parsed@, pattern@) is None,
        },
{
    match kind {
        HandlerKind::Spacing => handle_spacing(parsed, pattern),
        HandlerKind::Color => handle_color(parsed, pattern),
        HandlerKind::Opacity => handle_opacity(parsed, pattern),
        HandlerKind::Static => handle_static(parsed, pattern),
    }
}

/// One registered pattern with its compiled regex gate and handler family.
struct CompiledPattern {
    pattern: UtilityPattern,
    regex: Option<CompiledRegex>,
    handler: HandlerKind,
}

/// Trie-backed utility pattern matcher. Its view is the sequence of
/// registered patterns, in registration order.
pub struct Matcher {
    prefix_trie: PrefixTrie<Vec<usize>>,
    patterns: Vec<CompiledPattern>,
}

impl View for Matcher {
    type V = Seq<UtilityPatternV>;

    closed spec fn view(&self) -> Seq<UtilityPatternV> {
        self.patterns@.map_values(|cp: CompiledPattern| cp.pattern@)
    }
}

/// Is this non-empty prefix registered by some pattern?
pub open spec fn spec_prefix_registered(pats: Seq<UtilityPatternV>, p: Seq<char>) -> bool {
    p.len() > 0 && exists|i: int| 0 <= i < pats.len() && (#[trigger] pats[i]).prefix == p
}

/// The longest `l` no larger than the bound such that the first `l`
/// characters of the canonical string form a registered prefix.
pub open spec fn spec_best_prefix_len(
    pats: Seq<UtilityPatternV>,
    full: Seq<char>,
    l: int,
) -> Option<int>
    decreases l,
{
    if l <= 0 {
        None
    } else if spec_prefix_registered(pats, full.take(l)) {
        Some(l)
    } else {
        spec_best_prefix_len(pats, full, l - 1)
    }
}

proof fn lemma_best_prefix_from(
    pats: Seq<UtilityPatternV>,
    full: Seq<char>,
    l: int,
    lstar: int,
)
    requires
        0 <= lstar <= l,
        lstar > 0 ==> spec_prefix_registered(pats, full.take(lstar)),
        forall|l2: int| lstar < l2 <= l ==> !spec_prefix_registered(pats, #[trigger] full.take(l2)),
    ensures
        spec_best_prefix_len(pats, full, l) == (if lstar > 0 {
            Some(lstar)
        } else {
            None::<int>
        }),
    decreases l,
{
    if l > 0 && l != lstar {
        lemma_best_prefix_from(pats, full, l - 1, lstar);
    }
}

/// The regex gate of the trie-indexed pass: a pattern with a compiled regex
/// must match the canonical string; one without is accepted unconditionally.
pub open spec fn spec_gate(p: UtilityPatternV, full: Seq<char>) -> bool {
    if p.pattern.len() > 0 && regex_compiles(p.pattern) {
        regex_matches(p.pattern, full)
    } else {
        true
    }
}

/// The regex gate of the fallback pass: only patterns with a compiled and
/// matching regex participate.
pub open spec fn spec_gate_fallback(p: UtilityPatternV, full: Seq<char>) -> bool {
    p.pattern.len() > 0 && regex_compiles(p.pattern) && regex_matches(p.pattern, full)
}

/// The match outcome built from one accepted pattern.
pub open spec fn spec_result(
    parsed: ParsedClassV,
    p: UtilityPatternV,
    props: Seq<CSSPropertyV>,
) -> MatchResultV {
    MatchResultV {
        parsed: parsed,
        properties: props,
        pattern_name: p.name,
        layer: p.layer,
        sort_order: p.sort_order,
    }
}

/// Trie-indexed pass: scan patterns from index `i` in registration order,
/// restricted to the matched prefix key; the first pattern whose gate passes
/// and whose handler resolves wins.
pub open spec fn spec_tier1(
    pats: Seq<UtilityPatternV>,
    parsed: ParsedClassV,
    full: Seq<char>,
    key: Seq<char>,
    i: int,
) -> Option<MatchResultV>
    decreases pats.len() - i,
{
    if i < 0 || i >= pats.len() {
        None
    } else if pats[i].prefix == key && spec_gate(pats[i], full) && spec_handle(
        spec_determine_handler(pats[i].name),
        parsed,
        pats[i],
    ) is Some {
        Some(
            spec_result(
                parsed,
                pats[i],
                spec_handle(spec_determine_handler(pats[i].name), parsed, pats[i])->Some_0,
            ),
        )
    } else {
        spec_tier1(pats, parsed, full, key, i + 1)
    }
}

proof fn lemma_tier1_skip(
    pats: Seq<UtilityPatternV>,
    parsed: ParsedClassV,
    full: Seq<char>,
    key: Seq<char>,
    a: int,
    b: int,
)
    requires
        0 <= a <= b <= pats.len(),
        forall|i: int| a <= i < b ==> (#[trigger] pats[i]).prefix != key,
    ensures
        spec_tier1(pats, parsed, full, key, a) == spec_tier1(pats, parsed, full, key, b),
    decreases b - a,
{
    if a < b {
        lemma_tier1_skip(pats, parsed, full, key, a + 1, b);
    }
}

/// Fallback pass: scan the whole table from index `i`; the first pattern with
/// a compiled, matching regex whose handler resolves wins.
pub open spec fn spec_tier2(
    pats: Seq<UtilityPatternV>,
    parsed: ParsedClassV,
    full: Seq<char>,
    i: int,
) -> Option<MatchResultV>
    decreases pats.len() - i,
{
    if i < 0 || i >= pats.len() {
        None
    } else if spec_gate_fallback(pats[i], full) && spec_handle(
        spec_determine_handler(pats[i].name),
        parsed,
        pats[i],
    ) is Some {
        Some(
            spec_result(
                parsed,
                pats[i],
                spec_handle(spec_determine_handler(pats[i].name), parsed, pats[i])->Some_0,
            ),
        )
    } else {
        spec_tier2(pats, parsed, full, i + 1)
    }
}

/// The outcome of the trie-indexed pass.
pub open spec fn spec_tier1_result(
    pats: Seq<UtilityPatternV>,
    parsed: ParsedClassV,
) -> Option<MatchResultV> {
    let full = spec_full_utility(parsed);
    match spec_best_prefix_len(pats, full, full.len() as int) {
        Some(l) => spec_tier1(pats, parsed, full, full.take(l), 0),
        None => None,
    }
}

/// The full two-tier match: the trie-indexed pass, then the regex-only
/// fallback pass over the whole table.
pub open spec fn spec_match_class(
    pats: Seq<UtilityPatternV>,
    parsed: ParsedClassV,
) -> Option<MatchResultV> {
    match spec_tier1_result(pats, parsed) {
        Some(r) => Some(r),
        None => spec_tier2(pats, parsed, spec_full_utility(parsed), 0),
    }
}

impl Matcher {
    /// Well-formed: the trie buckets index exactly the patterns carrying each
    /// non-empty prefix, in registration order, and each compiled regex and
    /// handler agrees with its pattern.
    pub closed spec fn wf(&self) -> bool {
        &&& self.prefix_trie.wf()
        &&& self.prefix_trie@.dom().len() <= self.patterns@.len()
        &&& (forall|i: int|
            0 <= i < self.patterns@.len() ==> (#[trigger] self.patterns@[i]).handler
                == spec_determine_handler(self.patterns@[i].pattern@.name))
        &&& (forall|i: int|
            0 <= i < self.patterns@.len() ==> ((#[trigger] self.patterns@[i]).regex is Some <==> (
            self.patterns@[i].pattern@.pattern.len() > 0 && regex_compiles(
                self.patterns@[i].pattern@.pattern,
            ))))
        &&& (forall|i: int|
            0 <= i < self.patterns@.len() ==> match (#[trigger] self.patterns@[i]).regex {
                Some(c) => c.spec_pattern() == self.patterns@[i].pattern@.pattern,
                None => true,
            })
        &&& (forall|p: Seq<char>|
            #[trigger] self.prefix_trie@.contains_key(p) ==> p.len() > 0
                && self.prefix_trie@[p]@.len() > 0 && (forall|x: int|
                0 <= x < self.prefix_trie@[p]@.len() ==> (#[trigger] self.prefix_trie@[p]@[x])
                    < self.patterns@.len() && self.patterns@[self.prefix_trie@[p]@[x] as int].pattern@.prefix
                    == p) && (forall|x: int, y: int|
                0 <= x < y < self.prefix_trie@[p]@.len() ==> self.prefix_trie@[p]@[x]
                    < self.prefix_trie@[p]@[y]))
        &&& (forall|i: int|
            0 <= i < self.patterns@.len() && (#[trigger] self.patterns@[i]).pattern@.prefix.len()
                > 0 ==> self.prefix_trie@.contains_key(self.patterns@[i].pattern@.prefix) && exists|x: int|
                0 <= x < self.prefix_trie@[self.patterns@[i].pattern@.prefix]@.len()
                    && self.prefix_trie@[self.patterns@[i].pattern@.prefix]@[x] == i)
    }

    /// Register a new utility pattern at the end of the table.
    pub fn register(&mut self, pattern: UtilityPattern)
        requires
            old(self).wf(),
            old(self)@.len() < usize::MAX - 1,
        ensures
            final(self).wf(),
            final(self)@ == old(self)@.push(pattern@),
    {
        let ghost pats0 = self@;
        let idx = self.patterns.len();
        let re: Option<CompiledRegex> = if !pattern.pattern.as_str().is_empty() {
            CompiledRegex::compile(pattern.pattern.as_str())
        } else {
            None
        };
        let handler = determine_handler(&pattern);
        if !pattern.prefix.as_str().is_empty() {
            let ghost key = pattern@.prefix;
            let mut bucket: Vec<usize> = Vec::new();
            let ghost had_key = self.prefix_trie@.contains_key(key);
            match self.prefix_trie.get(pattern.prefix.as_str()) {
                Some(ob) => {
                    let m = ob.len();
                    let mut y: usize = 0;
                    while y < m
                        invariant
                            m == ob@.len(),
                            y <= m,
                            bucket@.len() == y,
                            forall|t: int| 0 <= t < y ==> bucket@[t] == ob@[t],
                        decreases m - y,
                    {
                        bucket.push(ob[y]);
                        y = y + 1;
                    }
                    proof {
                        assert(bucket@ =~= ob@);
                        assert(bucket@ == self.prefix_trie@[key]@);
                    }
                },
                None => {},
            }
            bucket.push(idx);
            let ghost newb = bucket@;
            proof {
                self.prefix_trie.lemma_dom_finite();
                assert(self.prefix_trie@.dom().len() < usize::MAX);
            }
            self.prefix_trie.insert(pattern.prefix.as_str(), bucket);
            self.patterns.push(CompiledPattern { pattern, regex: re, handler });
            proof {
                let pats = self@;
                assert(pats =~= pats0.push(pats[idx as int]));
                assert(pats[idx as int].prefix == key);
                let trie0 = old(self).prefix_trie@;
                let trie1 = self.prefix_trie@;
                assert(trie1 == trie0.insert(key, self.prefix_trie@[key]));
                assert(trie1[key]@ == newb);
                assert(trie1.dom() =~= trie0.dom().insert(key));
                assert(trie0.dom().finite());
                assert(trie0.dom().insert(key).len() <= trie0.dom().len() + 1);
                assert(trie1.dom().len() <= self.patterns@.len());
                assert forall|p: Seq<char>| #[trigger] trie1.contains_key(p) implies p.len() > 0
                    && trie1[p]@.len() > 0 && (forall|x: int|
                    0 <= x < trie1[p]@.len() ==> (#[trigger] trie1[p]@[x]) < pats.len()
                        && pats[trie1[p]@[x] as int].prefix == p) && (forall|x: int, y: int|
                    0 <= x < y < trie1[p]@.len() ==> trie1[p]@[x] < trie1[p]@[y]) by {
                    if p == key {
                        assert(trie1[p]@ == newb);
                        if had_key {
                            let oldb = trie0[key]@;
                            assert(newb == oldb.push(idx));
                            assert(forall|x: int|
                                0 <= x < oldb.len() ==> newb[x] == oldb[x]);
                            assert(newb[newb.len() - 1] == idx);
                            assert forall|x: int| 0 <= x < newb.len() implies (#[trigger] newb[x])
                                < pats.len() && pats[newb[x] as int].prefix == p by {
                                if x < newb.len() - 1 {
                                    assert(oldb[x] < pats0.len());
                                    assert(pats0[oldb[x] as int].prefix == p);
                                    assert(pats[newb[x] as int] == pats0[oldb[x] as int]);
                                }
                            };
                            assert forall|x: int, y: int|
                                0 <= x < y < newb.len() implies newb[x] < newb[y] by {
                                if y < newb.len() - 1 {
                                } else {
                                    assert(newb[x] < pats0.len());
                                }
                            };
                        } else {
                            assert(newb.len() == 1);
                            assert(newb[0] == idx);
                        }
                    } else {
                        assert(trie0.contains_key(p));
                        assert(trie1[p] == trie0[p]);
                        assert(forall|x: int|
                            0 <= x < trie1[p]@.len() ==> (#[trigger] trie1[p]@[x]) < pats0.len()
                                && pats0[trie1[p]@[x] as int].prefix == p);
                        assert forall|x: int| 0 <= x < trie1[p]@.len() implies (
                        #[trigger] trie1[p]@[x]) < pats.len() && pats[trie1[p]@[x] as int].prefix
                            == p by {
                            assert(pats[trie1[p]@[x] as int] == pats0[trie1[p]@[x] as int]);
                        };
                    }
                };
                assert forall|i: int|
                    0 <= i < self.patterns@.len() && (#[trigger] self.patterns@[i]).pattern@.prefix.len()
                    > 0 implies self.prefix_trie@.contains_key(self.patterns@[i].pattern@.prefix)
                    && exists|x: int|
                    0 <= x < self.prefix_trie@[self.patterns@[i].pattern@.prefix]@.len()
                        && self.prefix_trie@[self.patterns@[i].pattern@.prefix]@[x] == i by {
                    let pfx = self.patterns@[i].pattern@.prefix;
                    assert(pats[i] == self.patterns@[i].pattern@);
                    if i < idx {
                        assert(self.patterns@[i] == old(self).patterns@[i]);
                        assert(pats0[i] == self.patterns@[i].pattern@);
                        assert(trie0.contains_key(pfx));
                        let ob = trie0[pfx]@;
                        let x0 = choose|x: int| 0 <= x < ob.len() && ob[x] == i;
                        if pfx == key {
                            assert(had_key);
                            assert(newb[x0] == i);
                            assert(trie1[pfx]@[x0] == i);
                        } else {
                            assert(trie1[pfx] == trie0[pfx]);
                            assert(trie1[pfx]@[x0] == i);
                        }
                    } else {
                        assert(self.patterns@[i].pattern@.prefix == key);
                        assert(trie1[key]@[newb.len() - 1] == i);
                    }
                };
                assert forall|i: int|
                    0 <= i < self.patterns@.len() implies (#[trigger] self.patterns@[i]).handler
                    == spec_determine_handler(self.patterns@[i].pattern@.name) && ((
                self.patterns@[i]).regex is Some <==> (self.patterns@[i].pattern@.pattern.len() > 0
                    && regex_compiles(self.patterns@[i].pattern@.pattern))) && (match (
                self.patterns@[i]).regex {
                    Some(c) => c.spec_pattern() == self.patterns@[i].pattern@.pattern,
                    None => true,
                }) by {
                    if i < idx {
                        assert(self.patterns@[i] == old(self).patterns@[i]);
                        assert(old(self).patterns@[i].handler == spec_determine_handler(
                            old(self).patterns@[i].pattern@.name,
                        ));
                    } else {
                        assert(self.patterns@[i].handler == handler);
                    }
                };
            }
        } else {
            self.patterns.push(CompiledPattern { pattern, regex: re, handler });
            proof {
                let pats = self@;
                assert(pats =~= pats0.push(pats[idx as int]));
                let trie1 = self.prefix_trie@;
                assert forall|p: Seq<char>| #[trigger] trie1.contains_key(p) implies p.len() > 0
                    && trie1[p]@.len() > 0 && (forall|x: int|
                    0 <= x < trie1[p]@.len() ==> (#[trigger] trie1[p]@[x]) < pats.len()
                        && pats[trie1[p]@[x] as int].prefix == p) && (forall|x: int, y: int|
                    0 <= x < y < trie1[p]@.len() ==> trie1[p]@[x] < trie1[p]@[y]) by {
                    assert forall|x: int| 0 <= x < trie1[p]@.len() implies (
                    #[trigger] trie1[p]@[x]) < pats.len() && pats[trie1[p]@[x] as int].prefix == p
                        by {
                        assert(pats[trie1[p]@[x] as int] == pats0[trie1[p]@[x] as int]);
                    };
                };
                assert forall|i: int|
                    0 <= i < self.patterns@.len() && (#[trigger] self.patterns@[i]).pattern@.prefix.len()
                    > 0 implies self.prefix_trie@.contains_key(self.patterns@[i].pattern@.prefix)
                    && exists|x: int|
                    0 <= x < self.prefix_trie@[self.patterns@[i].pattern@.prefix]@.len()
                        && self.prefix_trie@[self.patterns@[i].pattern@.prefix]@[x] == i by {
                    let pfx = self.patterns@[i].pattern@.prefix;
                    assert(i < idx);
                    assert(self.patterns@[i] == old(self).patterns@[i]);
                    assert(trie1.contains_key(pfx));
                    let ob = trie1[pfx]@;
                    let x0 = choose|x: int| 0 <= x < ob.len() && ob[x] == i;
                    assert(trie1[pfx]@[x0] == i);
                };
                assert forall|i: int|
                    0 <= i < self.patterns@.len() implies (#[trigger] self.patterns@[i]).handler
                    == spec_determine_handler(self.patterns@[i].pattern@.name) && ((
                self.patterns@[i]).regex is Some <==> (self.patterns@[i].pattern@.pattern.len() > 0
                    && regex_compiles(self.patterns@[i].pattern@.pattern))) && (match (
                self.patterns@[i]).regex {
                    Some(c) => c.spec_pattern() == self.patterns@[i].pattern@.pattern,
                    None => true,
                }) by {
                    if i < idx {
                        assert(self.patterns@[i] == old(self).patterns@[i]);
                        assert(old(self).patterns@[i].handler == spec_determine_handler(
                            old(self).patterns@[i].pattern@.name,
                        ));
                    } else {
                        assert(self.patterns@[i].handler == handler);
                    }
                };
            }
        }
    }
}

impl Matcher {
    /// Match a parsed class against the registered patterns: the trie-indexed
    /// pass over the longest registered prefix of the canonical string, then
    /// the regex-only fallback pass over the whole table.
    pub fn match_class(&self, parsed: &ParsedClass) -> (r: Option<MatchResult>)
        requires
            self.wf(),
        ensures
            match r {
                Some(m) => spec_match_class(self@, parsed@) == Some(m@),
                None => spec_match_class(self@, parsed@) is None,
            },
    {
        let full = parsed.full_utility();
        let ghost pats = self@;
        let ghost fullv = spec_full_utility(parsed@);
        match self.prefix_trie.longest_prefix_match(full.as_str()) {
            Some((bucket, plen)) => {
                let ghost key = fullv.take(plen as int);
                let ghost b = bucket@;
                proof {
                    assert(self.prefix_trie@.contains_key(key));
                    assert(self.prefix_trie@[key]@ == b);
                    assert(b.len() > 0);
                    assert(spec_prefix_registered(pats, key)) by {
                        assert(pats[b[0] as int].prefix == key);
                    };
                    assert forall|l2: int|
                        plen < l2 <= fullv.len() implies !spec_prefix_registered(
                        pats,
                        #[trigger] fullv.take(l2),
                    ) by {
                        if spec_prefix_registered(pats, fullv.take(l2)) {
                            let i = choose|i: int|
                                0 <= i < pats.len() && (#[trigger] pats[i]).prefix == fullv.take(
                                    l2,
                                );
                            assert(self.patterns@[i].pattern@.prefix == fullv.take(l2));
                            assert(self.prefix_trie@.contains_key(fullv.take(l2)));
                        }
                    };
                    lemma_best_prefix_from(pats, fullv, fullv.len() as int, plen as int);
                    assert(spec_best_prefix_len(pats, fullv, fullv.len() as int) == Some(
                        plen as int,
                    ));
                    assert(b[0] < self.patterns@.len());
                    assert forall|i: int|
                        0 <= i < b[0] as int implies (#[trigger] pats[i]).prefix != key by {
                        if pats[i].prefix == key {
                            assert(self.patterns@[i].pattern@.prefix == key);
                            let y = choose|y: int| 0 <= y < b.len() && b[y] == i;
                            assert(b[0] <= b[y]) by {
                                if 0 < y {
                                    assert(b[0] < b[y]);
                                }
                            };
                        }
                    };
                    lemma_tier1_skip(pats, parsed@, fullv, key, 0, b[0] as int);
                }
                let mut x: usize = 0;
                while x < bucket.len()
                    invariant
                        self.wf(),
                        pats == self@,
                        fullv == spec_full_utility(parsed@),
                        full@ == fullv,
                        b == bucket@,
                        self.prefix_trie@.contains_key(key),
                        self.prefix_trie@[key]@ == b,
                        x <= b.len(),
                        spec_tier1(pats, parsed@, fullv, key, 0) == spec_tier1(
                            pats,
                            parsed@,
                            fullv,
                            key,
                            if x < b.len() {
                                b[x as int] as int
                            } else {
                                pats.len() as int
                            },
                        ),
                        spec_best_prefix_len(pats, fullv, fullv.len() as int) == Some(
                            plen as int,
                        ),
                        key == fullv.take(plen as int),
                    decreases b.len() - x,
                {
                    let idx = bucket[x];
                    proof {
                        assert(b[x as int] < self.patterns@.len());
                        assert(self.patterns@[b[x as int] as int].pattern@.prefix == key);
                        assert(pats[idx as int] == self.patterns@[idx as int].pattern@);
                    }
                    let cp = &self.patterns[idx];
                    let gate_ok: bool = match &cp.regex {
                        Some(re) => re.is_match(full.as_str()),
                        None => true,
                    };
                    proof {
                        assert(gate_ok == spec_gate(pats[idx as int], fullv));
                    }
                    if gate_ok {
                        match run_handler(cp.handler, parsed, &cp.pattern) {
                            Some(props) => {
                                let m = MatchResult {
                                    parsed: parsed.duplicate(),
                                    properties: props,
                                    pattern_name: cp.pattern.name.clone(),
                                    layer: cp.pattern.layer,
                                    sort_order: cp.pattern.sort_order,
                                };
                                proof {
                                    assert(cp.handler == spec_determine_handler(
                                        pats[idx as int].name,
                                    ));
                                    assert(spec_tier1(pats, parsed@, fullv, key, idx as int)
                                        == Some(m@)) by {
                                        assert(m@.properties =~= spec_handle(
                                            spec_determine_handler(pats[idx as int].name),
                                            parsed@,
                                            pats[idx as int],
                                        )->Some_0);
                                    };
                                    assert(spec_tier1_result(pats, parsed@) == Some(m@));
                                }
                                return Some(m);
                            },
                            None => {
                                proof {
                                    assert(cp.handler == spec_determine_handler(
                                        pats[idx as int].name,
                                    ));
                                    assert(spec_tier1(pats, parsed@, fullv, key, idx as int)
                                        == spec_tier1(pats, parsed@, fullv, key, idx as int + 1));
                                }
                            },
                        }
                    } else {
                        proof {
                            assert(spec_tier1(pats, parsed@, fullv, key, idx as int) == spec_tier1(
                                pats,
                                parsed@,
                                fullv,
                                key,
                                idx as int + 1,
                            ));
                        }
                    }
                    proof {
                        let nxt: int = if x + 1 < b.len() {
                            b[x as int + 1] as int
                        } else {
                            pats.len() as int
                        };
                        assert(idx as int + 1 <= nxt) by {
                            if x + 1 < b.len() {
                                assert(b[x as int] < b[x as int + 1]);
                            } else {
                                assert(b[x as int] < self.patterns@.len());
                            }
                        };
                        assert forall|i: int|
                            idx as int + 1 <= i < nxt implies (#[trigger] pats[i]).prefix != key
                            by {
                            if pats[i].prefix == key {
                                assert(self.patterns@[i].pattern@.prefix == key);
                                let y = choose|y: int|
                                    0 <= y < b.len() && b[y] == i;
                                if y <= x {
                                    assert(b[y] <= b[x as int]) by {
                                        if y < x {
                                            assert(b[y] < b[x as int]);
                                        }
                                    };
                                } else {
                                    assert(x as int + 1 <= y);
                                    assert(x + 1 < b.len());
                                    assert(b[x as int + 1] <= b[y]) by {
                                        if x as int + 1 < y {
                                            assert(b[x as int + 1] < b[y]);
                                        }
                                    };
                                }
                            }
                        };
                        lemma_tier1_skip(pats, parsed@, fullv, key, idx as int + 1, nxt);
                    }
                    x = x + 1;
                }
                proof {
                    assert(spec_tier1(pats, parsed@, fullv, key, pats.len() as int) is None);
                    assert(spec_tier1_result(pats, parsed@) is None);
                }
            },
            None => {
                proof {
                    assert forall|l2: int|
                        0 < l2 <= fullv.len() implies !spec_prefix_registered(
                        pats,
                        #[trigger] fullv.take(l2),
                    ) by {
                        if spec_prefix_registered(pats, fullv.take(l2)) {
                            let i = choose|i: int|
                                0 <= i < pats.len() && (#[trigger] pats[i]).prefix == fullv.take(
                                    l2,
                                );
                            assert(self.patterns@[i].pattern@.prefix == fullv.take(l2));
                            assert(self.prefix_trie@.contains_key(fullv.take(l2)));
                        }
                    };
                    lemma_best_prefix_from(pats, fullv, fullv.len() as int, 0);
                    assert(spec_tier1_result(pats, parsed@) is None);
                }
            },
        }
        let n = self.patterns.len();
        let mut i: usize = 0;
        while i < n
            invariant
                self.wf(),
                pats == self@,
                fullv == spec_full_utility(parsed@),
                full@ == fullv,
                n == self.patterns@.len(),
                i <= n,
                spec_tier1_result(pats, parsed@) is None,
                spec_tier2(pats, parsed@, fullv, 0) == spec_tier2(pats, parsed@, fullv, i as int),
            decreases n - i,
        {
            let cp = &self.patterns[i];
            proof {
                assert(pats[i as int] == self.patterns@[i as int].pattern@);
            }
            let gate_ok: bool = match &cp.regex {
                Some(re) => re.is_match(full.as_str()),
                None => false,
            };
            proof {
                assert(gate_ok == spec_gate_fallback(pats[i as int], fullv));
            }
            if gate_ok {
                match run_handler(cp.handler, parsed, &cp.pattern) {
                    Some(props) => {
                        let m = MatchResult {
                            parsed: parsed.duplicate(),
                            properties: props,
                            pattern_name: cp.pattern.name.clone(),
                            layer: cp.pattern.layer,
                            sort_order: cp.pattern.sort_order,
                        };
                        proof {
                            assert(cp.handler == spec_determine_handler(pats[i as int].name));
                            assert(spec_tier2(pats, parsed@, fullv, i as int) == Some(m@)) by {
                                assert(m@.properties =~= spec_handle(
                                    spec_determine_handler(pats[i as int].name),
                                    parsed@,
                                    pats[i as int],
                                )->Some_0);
                            };
                        }
                        return Some(m);
                    },
                    None => {
                        proof {
                            assert(cp.handler == spec_determine_handler(pats[i as int].name));
                            assert(spec_tier2(pats, parsed@, fullv, i as int) == spec_tier2(
                                pats,
                                parsed@,
                                fullv,
                                i as int + 1,
                            ));
                        }
                    },
                }
            }
            i = i + 1;
        }
        proof {
            assert(spec_tier2(pats, parsed@, fullv, n as int) is None);
        }
        None
    }
}

/// The default padding, margin and gap patterns, in registration order.
#[verifier::opaque]
pub open spec fn spec_spacing_patterns() -> Seq<UtilityPatternV> {
    seq![
        UtilityPatternV { name: "padding"@, pattern: r"^p-[\w\-\.\[\]#%]+$"@, prefix: "p-"@, css_property: "padding"@, layer: Layer::Utilities, sort_order: 0u32, values: Seq::empty(), supports_negative: false, supports_arbitrary: true },
        UtilityPatternV { name: "padding-top"@, pattern: r"^pt-[\w\-\.\[\]#%]+$"@, prefix: "pt-"@, css_property: "padding-top"@, layer: Layer::Utilities, sort_order: 0u32, values: Seq::empty(), supports_negative: false, supports_arbitrary: true },
        UtilityPatternV { name: "padding-right"@, pattern: r"^pr-[\w\-\.\[\]#%]+$"@, prefix: "pr-"@, css_property: "padding-right"@, layer: Layer::Utilities, sort_order: 0u32, values: Seq::empty(), supports_negative: false, supports_arbitrary: true },
        UtilityPatternV { name: "padding-bottom"@, pattern: r"^pb-[\w\-\.\[\]#%]+$"@, prefix: "pb-"@, css_property: "padding-bottom"@, layer: Layer::Utilities, sort_order: 0u32, values: Seq::empty(), supports_negative: false, supports_arbitrary: true },
        UtilityPatternV { name: "padding-left"@, pattern: r"^pl-[\w\-\.\[\]#%]+$"@, prefix: "pl-"@, css_property: "padding-left"@, layer: Layer::Utilities, sort_order: 0u32, values: Seq::empty(), supports_negative: false, supports_arbitrary: true },
        UtilityPatternV { name: "padding-x"@, pattern: r"^px-[\w\-\.\[\]#%]+$"@, prefix: "px-"@, css_property: "padding-x"@, layer: Layer::Utilities, sort_order: 0u32, values: Seq::empty(), supports_negative: false, supports_arbitrary: true },
        UtilityPatternV { name: "padding-y"@, pattern: r"^py-[\w\-\.\[\]#%]+$"@, prefix: "py-"@, css_property: "padding-y"@, layer: Layer::Utilities, sort_order: 0u32, values: Seq::empty(), supports_negative: false, supports_arbitrary: true },
        UtilityPatternV { name: "margin"@, pattern: r"^-?m-[\w\-\.\[\]#%]+$"@, prefix: "m-"@, css_property: "margin"@, layer: Layer::Utilities, sort_order: 0u32, values: Seq::empty(), supports_negative: true, supports_arbitrary: true },
        UtilityPatternV { name: "margin-top"@, pattern: r"^-?mt-[\w\-\.\[\]#%]+$"@, prefix: "mt-"@, css_property: "margin-top"@, layer: Layer::Utilities, sort_order: 0u32, values: Seq::empty(), supports_negative: true, supports_arbitrary: true },
        UtilityPatternV { name: "margin-right"@, pattern: r"^-?mr-[\w\-\.\[\]#%]+$"@, prefix: "mr-"@, css_property: "margin-right"@, layer: Layer::Utilities, sort_order: 0u32, values: Seq::empty(), supports_negative: true, supports_arbitrary: true },
        UtilityPatternV { name: "margin-bottom"@, pattern: r"^-?mb-[\w\-\.\[\]#%]+$"@, prefix: "mb-"@, css_property: "margin-bottom"@, layer: Layer::Utilities, sort_order: 0u32, values: Seq::empty(), supports_negative: true, supports_arbitrary: true },
        UtilityPatternV { name: "margin-left"@, pattern: r"^-?ml-[\w\-\.\[\]#%]+$"@, prefix: "ml-"@, css_property: "margin-left"@, layer: Layer::Utilities, sort_order: 0u32, values: Seq::empty(), supports_negative: true, supports_arbitrary: true },
        UtilityPatternV { name: "margin-x"@, pattern: r"^-?mx-[\w\-\.\[\]#%]+$"@, prefix: "mx-"@, css_property: "margin-x"@, layer: Layer::Utilities, sort_order: 0u32, values: Seq::empty(), supports_negative: true, supports_arbitrary: true },
        UtilityPatternV { name: "margin-y"@, pattern: r"^-?my-[\w\-\.\[\]#%]+$"@, prefix: "my-"@, css_property: "margin-y"@, layer: Layer::Utilities, sort_order: 0u32, values: Seq::empty(), supports_negative: true, supports_arbitrary: true },
        UtilityPatternV { name: "gap"@, pattern: r"^gap-[\w\-\.]+$"@, prefix: "gap-"@, css_property: "gap"@, layer: Layer::Utilities, sort_order: 0u32, values: Seq::empty(), supports_negative: false, supports_arbitrary: true },
        UtilityPatternV { name: "gap-x"@, pattern: r"^gap-x-[\w\-\.]+$"@, prefix: "gap-x-"@, css_property: "column-gap"@, layer: Layer::Utilities, sort_order: 0u32, values: Seq::empty(), supports_negative: false, supports_arbitrary: true },
        UtilityPatternV { name: "gap-y"@, pattern: r"^gap-y-[\w\-\.]+$"@, prefix: "gap-y-"@, css_property: "row-gap"@, layer: Layer::Utilities, sort_order: 0u32, values: Seq::empty(), supports_negative: false, supports_arbitrary: true },
    ]
}

/// The default display keyword patterns.
#[verifier::opaque]
pub open spec fn spec_display_patterns() -> Seq<UtilityPatternV> {
    seq![
        UtilityPatternV { name: "block"@, pattern: r"^block$"@, prefix: "block"@, css_property: "display"@, layer: Layer::Utilities, sort_order: 0u32, values: Seq::empty(), supports_negative: false, supports_arbitrary: true },
        UtilityPatternV { name: "inline-block"@, pattern: r"^inline-block$"@, prefix: "inline-block"@, css_property: "display"@, layer: Layer::Utilities, sort_order: 0u32, values: Seq::empty(), supports_negative: false, supports_arbitrary: true },
        UtilityPatternV { name: "inline"@, pattern: r"^inline$"@, prefix: "inline"@, css_property: "display"@, layer: Layer::Utilities, sort_order: 0u32, values: Seq::empty(), supports_negative: false, supports_arbitrary: true },
        UtilityPatternV { name: "flex"@, pattern: r"^flex$"@, prefix: "flex"@, css_property: "display"@, layer: Layer::Utilities, sort_order: 0u32, values: Seq::empty(), supports_negative: false, supports_arbitrary: true },
        UtilityPatternV { name: "inline-flex"@, pattern: r"^inline-flex$"@, prefix: "inline-flex"@, css_property: "display"@, layer: Layer::Utilities, sort_order: 0u32, values: Seq::empty(), supports_negative: false, supports_arbitrary: true },
        UtilityPatternV { name: "grid"@, pattern: r"^grid$"@, prefix: "grid"@, css_property: "display"@, layer: Layer::Utilities, sort_order: 0u32, values: Seq::empty(), supports_negative: false, supports_arbitrary: true },
        UtilityPatternV { name: "inline-grid"@, pattern: r"^inline-grid$"@, prefix: "inline-grid"@, css_property: "display"@, layer: Layer::Utilities, sort_order: 0u32, values: Seq::empty(), supports_negative: false, supports_arbitrary: true },
        UtilityPatternV { name: "contents"@, pattern: r"^contents$"@, prefix: "contents"@, css_property: "display"@, layer: Layer::Utilities, sort_order: 0u32, values: Seq::empty(), supports_negative: false, supports_arbitrary: true },
        UtilityPatternV { name: "hidden"@, pattern: r"^hidden$"@, prefix: "hidden"@, css_property: "display"@, layer: Layer::Utilities, sort_order: 0u32, values: Seq::empty(), supports_negative: false, supports_arbitrary: true },
    ]
}

/// The default flex direction, wrap, justify and align patterns.
#[verifier::opaque]
pub open spec fn spec_flex_patterns() -> Seq<UtilityPatternV> {
    seq![
        UtilityPatternV { name: "flex-row"@, pattern: r"^flex-row$"@, prefix: "flex-row"@, css_property: "flex-direction"@, layer: Layer::Utilities, sort_order: 0u32, values: Seq::empty(), supports_negative: false, supports_arbitrary: true },
        UtilityPatternV { name: "flex-row-reverse"@, pattern: r"^flex-row-reverse$"@, prefix: "flex-row-reverse"@, css_property: "flex-direction"@, layer: Layer::Utilities, sort_order: 0u32, values: Seq::empty(), supports_negative: false, supports_arbitrary: true },
        UtilityPatternV { name: "flex-col"@, pattern: r"^flex-col$"@, prefix: "flex-col"@, css_property: "flex-direction"@, layer: Layer::Utilities, sort_order: 0u32, values: Seq::empty(), supports_negative: false, supports_arbitrary: true },
        UtilityPatternV { name: "flex-col-reverse"@, pattern: r"^flex-col-reverse$"@, prefix: "flex-col-reverse"@, css_property: "flex-direction"@, layer: Layer::Utilities, sort_order: 0u32, values: Seq::empty(), supports_negative: false, supports_arbitrary: true },
        UtilityPatternV { name: "flex-wrap"@, pattern: r"^flex-wrap$"@, prefix: "flex-wrap"@, css_property: "flex-wrap"@, layer: Layer::Utilities, sort_order: 0u32, values: Seq::empty(), supports_negative: false, supports_arbitrary: true },
        UtilityPatternV { name: "flex-wrap-reverse"@, pattern: r"^flex-wrap-reverse$"@, prefix: "flex-wrap-reverse"@, css_property: "flex-wrap"@, layer: Layer::Utilities, sort_order: 0u32, values: Seq::empty(), supports_negative: false, supports_arbitrary: true },
        UtilityPatternV { name: "flex-nowrap"@, pattern: r"^flex-nowrap$"@, prefix: "flex-nowrap"@, css_property: "flex-wrap"@, layer: Layer::Utilities, sort_order: 0u32, values: Seq::empty(), supports_negative: false, supports_arbitrary: true },
        UtilityPatternV { name: "justify-start"@, pattern: r"^justify-start$"@, prefix: "justify-start"@, css_property: "justify-content"@, layer: Layer::Utilities, sort_order: 0u32, values: Seq::empty(), supports_negative: false, supports_arbitrary: true },
        UtilityPatternV { name: "justify-end"@, pattern: r"^justify-end$"@, prefix: "justify-end"@, css_property: "justify-content"@, layer: Layer::Utilities, sort_order: 0u32, values: Seq::empty(), supports_negative: false, supports_arbitrary: true },
        UtilityPatternV { name: "justify-center"@, pattern: r"^justify-center$"@, prefix: "justify-center"@, css_property: "justify-content"@, layer: Layer::Utilities, sort_order: 0u32, values: Seq::empty(), supports_negative: false, supports_arbitrary: true },
        UtilityPatternV { name: "justify-between"@, pattern: r"^justify-between$"@, prefix: "justify-between"@, css_property: "justify-content"@, layer: Layer::Utilities, sort_order: 0u32, values: Seq::empty(), supports_negative: false, supports_arbitrary: true },
        UtilityPatternV { name: "justify-around"@, pattern: r"^justify-around$"@, prefix: "justify-around"@, css_property: "justify-content"@, layer: Layer::Utilities, sort_order: 0u32, values: Seq::empty(), supports_negative: false, supports_arbitrary: true },
        UtilityPatternV { name: "justify-evenly"@, pattern: r"^justify-evenly$"@, prefix: "justify-evenly"@, css_property: "justify-content"@, layer: Layer::Utilities, sort_order: 0u32, values: Seq::empty(), supports_negative: false, supports_arbitrary: true },
        UtilityPatternV { name: "items-start"@, pattern: r"^items-start$"@, prefix: "items-start"@, css_property: "align-items"@, layer: Layer::Utilities, sort_order: 0u32, values: Seq::empty(), supports_negative: false, supports_arbitrary: true },
        UtilityPatternV { name: "items-end"@, pattern: r"^items-end$"@, prefix: "items-end"@, css_property: "align-items"@, layer: Layer::Utilities, sort_order: 0u32, values: Seq::empty(), supports_negative: false, supports_arbitrary: true },
        UtilityPatternV { name: "items-center"@, pattern: r"^items-center$"@, prefix: "items-center"@, css_property: "align-items"@, layer: Layer::Utilities, sort_order: 0u32, values: Seq::empty(), supports_negative: false, supports_arbitrary: true },
        UtilityPatternV { name: "items-baseline"@, pattern: r"^items-baseline$"@, prefix: "items-baseline"@, css_property: "align-items"@, layer: Layer::Utilities, sort_order: 0u32, values: Seq::empty(), supports_negative: false, supports_arbitrary: true },
        UtilityPatternV { name: "items-stretch"@, pattern: r"^items-stretch$"@, prefix: "items-stretch"@, css_property: "align-items"@, layer: Layer::Utilities, sort_order: 0u32, values: Seq::empty(), supports_negative: false, supports_arbitrary: true },
    ]
}

/// The default font size, weight and text alignment patterns.
#[verifier::opaque]
pub open spec fn spec_typography_patterns() -> Seq<UtilityPatternV> {
    seq![
        UtilityPatternV { name: "font-size"@, pattern: r"^text-(xs|sm|base|lg|xl|2xl|3xl|4xl|5xl|6xl|7xl|8xl|9xl)$"@, prefix: "text-"@, css_property: "font-size"@, layer: Layer::Utilities, sort_order: 0u32, values: Seq::empty(), supports_negative: false, supports_arbitrary: true },
        UtilityPatternV { name: "font-thin"@, pattern: r"^font-thin$"@, prefix: "font-thin"@, css_property: "font-weight"@, layer: Layer::Utilities, sort_order: 0u32, values: Seq::empty(), supports_negative: false, supports_arbitrary: true },
        UtilityPatternV { name: "font-extralight"@, pattern: r"^font-extralight$"@, prefix: "font-extralight"@, css_property: "font-weight"@, layer: Layer::Utilities, sort_order: 0u32, values: Seq::empty(), supports_negative: false, supports_arbitrary: true },
        UtilityPatternV { name: "font-light"@, pattern: r"^font-light$"@, prefix: "font-light"@, css_property: "font-weight"@, layer: Layer::Utilities, sort_order: 0u32, values: Seq::empty(), supports_negative: false, supports_arbitrary: true },
        UtilityPatternV { name: "font-normal"@, pattern: r"^font-normal$"@, prefix: "font-normal"@, css_property: "font-weight"@, layer: Layer::Utilities, sort_order: 0u32, values: Seq::empty(), supports_negative: false, supports_arbitrary: true },
        UtilityPatternV { name: "font-medium"@, pattern: r"^font-medium$"@, prefix: "font-medium"@, css_property: "font-weight"@, layer: Layer::Utilities, sort_order: 0u32, values: Seq::empty(), supports_negative: false, supports_arbitrary: true },
        UtilityPatternV { name: "font-semibold"@, pattern: r"^font-semibold$"@, prefix: "font-semibold"@, css_property: "font-weight"@, layer: Layer::Utilities, sort_order: 0u32, values: Seq::empty(), supports_negative: false, supports_arbitrary: true },
        UtilityPatternV { name: "font-bold"@, pattern: r"^font-bold$"@, prefix: "font-bold"@, css_property: "font-weight"@, layer: Layer::Utilities, sort_order: 0u32, values: Seq::empty(), supports_negative: false, supports_arbitrary: true },
        UtilityPatternV { name: "font-extrabold"@, pattern: r"^font-extrabold$"@, prefix: "font-extrabold"@, css_property: "font-weight"@, layer: Layer::Utilities, sort_order: 0u32, values: Seq::empty(), supports_negative: false, supports_arbitrary: true },
        UtilityPatternV { name: "font-black"@, pattern: r"^font-black$"@, prefix: "font-black"@, css_property: "font-weight"@, layer: Layer::Utilities, sort_order: 0u32, values: Seq::empty(), supports_negative: false, supports_arbitrary: true },
        UtilityPatternV { name: "text-left"@, pattern: r"^text-left$"@, prefix: "text-left"@, css_property: "text-align"@, layer: Layer::Utilities, sort_order: 0u32, values: Seq::empty(), supports_negative: false, supports_arbitrary: true },
        UtilityPatternV { name: "text-center"@, pattern: r"^text-center$"@, prefix: "text-center"@, css_property: "text-align"@, layer: Layer::Utilities, sort_order: 0u32, values: Seq::empty(), supports_negative: false, supports_arbitrary: true },
        UtilityPatternV { name: "text-right"@, pattern: r"^text-right$"@, prefix: "text-right"@, css_property: "text-align"@, layer: Layer::Utilities, sort_order: 0u32, values: Seq::empty(), supports_negative: false, supports_arbitrary: true },
        UtilityPatternV { name: "text-justify"@, pattern: r"^text-justify$"@, prefix: "text-justify"@, css_property: "text-align"@, layer: Layer::Utilities, sort_order: 0u32, values: Seq::empty(), supports_negative: false, supports_arbitrary: true },
    ]
}

/// The default color patterns.
#[verifier::opaque]
pub open spec fn spec_color_patterns() -> Seq<UtilityPatternV> {
    seq![
        UtilityPatternV { name: "text-color"@, pattern: r"^text-[\w\-]+(-\d+)?(/\d+)?$"@, prefix: "text-"@, css_property: "color"@, layer: Layer::Utilities, sort_order: 0u32, values: Seq::empty(), supports_negative: false, supports_arbitrary: true },
        UtilityPatternV { name: "background-color"@, pattern: r"^bg-[\w\-]+(-\d+)?(/\d+)?$"@, prefix: "bg-"@, css_property: "background-color"@, layer: Layer::Utilities, sort_order: 0u32, values: Seq::empty(), supports_negative: false, supports_arbitrary: true },
        UtilityPatternV { name: "border-color"@, pattern: r"^border-[\w\-]+(-\d+)?(/\d+)?$"@, prefix: "border-"@, css_property: "border-color"@, layer: Layer::Utilities, sort_order: 0u32, values: Seq::empty(), supports_negative: false, supports_arbitrary: true },
    ]
}

/// The default border width and radius patterns.
#[verifier::opaque]
pub open spec fn spec_border_patterns() -> Seq<UtilityPatternV> {
    seq![
        UtilityPatternV { name: "border-width"@, pattern: r"^border(-[trbl])?(-\d+)?$"@, prefix: "border-"@, css_property: "border-width"@, layer: Layer::Utilities, sort_order: 0u32, values: Seq::empty(), supports_negative: false, supports_arbitrary: true },
        UtilityPatternV { name: "border-radius"@, pattern: r"^rounded(-[trblse]+)?(-[\w]+)?$"@, prefix: "rounded"@, css_property: "border-radius"@, layer: Layer::Utilities, sort_order: 0u32, values: Seq::empty(), supports_negative: false, supports_arbitrary: true },
    ]
}

/// The default opacity and box-shadow patterns.
#[verifier::opaque]
pub open spec fn spec_effects_patterns() -> Seq<UtilityPatternV> {
    seq![
        UtilityPatternV { name: "opacity"@, pattern: r"^opacity-\d+$"@, prefix: "opacity-"@, css_property: "opacity"@, layer: Layer::Utilities, sort_order: 0u32, values: Seq::empty(), supports_negative: false, supports_arbitrary: true },
        UtilityPatternV { name: "shadow"@, pattern: r"^shadow(-[\w]+)?$"@, prefix: "shadow"@, css_property: "box-shadow"@, layer: Layer::Utilities, sort_order: 0u32, values: Seq::empty(), supports_negative: false, supports_arbitrary: true },
    ]
}

/// The whole default registry, in registration order.
#[verifier::opaque]
pub open spec fn spec_default_patterns() -> Seq<UtilityPatternV> {
    spec_spacing_patterns() + spec_display_patterns() + spec_flex_patterns()
        + spec_typography_patterns() + spec_color_patterns() + spec_border_patterns()
        + spec_effects_patterns()
}


impl Matcher {
    /// Create a matcher pre-loaded with the default utility patterns.
    pub fn new() -> (r: Matcher)
        ensures
            r.wf(),
            r@ == spec_default_patterns(),
            r@.len() < 100000,
    {
        let mut matcher = Matcher { prefix_trie: PrefixTrie::new(), patterns: Vec::new() };
        proof {
            assert(matcher@ =~= Seq::<UtilityPatternV>::empty());
            assert(matcher.prefix_trie@.dom() =~= Set::<Seq<char>>::empty());
            assert(matcher.wf());
        }
        matcher.register_default_patterns();
        proof {
            reveal(spec_default_patterns);
            assert(matcher@ =~= spec_default_patterns());
        }
        matcher
    }

    /// Register the default pattern families, in their canonical order.
    fn register_default_patterns(&mut self)
        requires
            old(self).wf(),
            old(self)@.len() < 10000,
        ensures
            final(self).wf(),
            final(self)@ == old(self)@ + spec_default_patterns(),
            final(self)@.len() <= old(self)@.len() + 140,
    {
        let ghost pats0 = self@;
        self.register_spacing_utilities();
        self.register_display_utilities();
        self.register_flex_utilities();
        self.register_typography_utilities();
        self.register_color_utilities();
        self.register_border_utilities();
        self.register_effects_utilities();
        proof {
            reveal(spec_default_patterns);
            assert(self@ =~= pats0 + spec_default_patterns());
        }
    }

    /// Padding, margin and gap utilities.
    fn register_spacing_utilities(&mut self)
        requires
            old(self).wf(),
            old(self)@.len() < 100000,
        ensures
            final(self).wf(),
            final(self)@ == old(self)@ + spec_spacing_patterns(),
            final(self)@.len() <= old(self)@.len() + 20,
    {
        let ghost pats0 = self@;
        self.register(UtilityPattern::new("padding", "p-").with_css_property("padding").with_pattern(r"^p-[\w\-\.\[\]#%]+$"));
        self.register(UtilityPattern::new("padding-top", "pt-").with_css_property("padding-top").with_pattern(r"^pt-[\w\-\.\[\]#%]+$"));
        self.register(UtilityPattern::new("padding-right", "pr-").with_css_property("padding-right").with_pattern(r"^pr-[\w\-\.\[\]#%]+$"));
        self.register(UtilityPattern::new("padding-bottom", "pb-").with_css_property("padding-bottom").with_pattern(r"^pb-[\w\-\.\[\]#%]+$"));
        self.register(UtilityPattern::new("padding-left", "pl-").with_css_property("padding-left").with_pattern(r"^pl-[\w\-\.\[\]#%]+$"));
        self.register(UtilityPattern::new("padding-x", "px-").with_css_property("padding-x").with_pattern(r"^px-[\w\-\.\[\]#%]+$"));
        self.register(UtilityPattern::new("padding-y", "py-").with_css_property("padding-y").with_pattern(r"^py-[\w\-\.\[\]#%]+$"));
        self.register(UtilityPattern::new("margin", "m-").with_css_property("margin").with_pattern(r"^-?m-[\w\-\.\[\]#%]+$").with_negative());
        self.register(UtilityPattern::new("margin-top", "mt-").with_css_property("margin-top").with_pattern(r"^-?mt-[\w\-\.\[\]#%]+$").with_negative());
        self.register(UtilityPattern::new("margin-right", "mr-").with_css_property("margin-right").with_pattern(r"^-?mr-[\w\-\.\[\]#%]+$").with_negative());
        self.register(UtilityPattern::new("margin-bottom", "mb-").with_css_property("margin-bottom").with_pattern(r"^-?mb-[\w\-\.\[\]#%]+$").with_negative());
        self.register(UtilityPattern::new("margin-left", "ml-").with_css_property("margin-left").with_pattern(r"^-?ml-[\w\-\.\[\]#%]+$").with_negative());
        self.register(UtilityPattern::new("margin-x", "mx-").with_css_property("margin-x").with_pattern(r"^-?mx-[\w\-\.\[\]#%]+$").with_negative());
        self.register(UtilityPattern::new("margin-y", "my-").with_css_property("margin-y").with_pattern(r"^-?my-[\w\-\.\[\]#%]+$").with_negative());
        self.register(UtilityPattern::new("gap", "gap-").with_css_property("gap").with_pattern(r"^gap-[\w\-\.]+$"));
        self.register(UtilityPattern::new("gap-x", "gap-x-").with_css_property("column-gap").with_pattern(r"^gap-x-[\w\-\.]+$"));
        self.register(UtilityPattern::new("gap-y", "gap-y-").with_css_property("row-gap").with_pattern(r"^gap-y-[\w\-\.]+$"));
        proof {
            reveal(spec_spacing_patterns);
            assert(self@ =~= pats0 + spec_spacing_patterns());
        }
    }

    /// Display keyword utilities.
    fn register_display_utilities(&mut self)
        requires
            old(self).wf(),
            old(self)@.len() < 100000,
        ensures
            final(self).wf(),
            final(self)@ == old(self)@ + spec_display_patterns(),
            final(self)@.len() <= old(self)@.len() + 20,
    {
        let ghost pats0 = self@;
        self.register(UtilityPattern::new("block", "block").with_css_property("display").with_pattern(r"^block$"));
        self.register(UtilityPattern::new("inline-block", "inline-block").with_css_property("display").with_pattern(r"^inline-block$"));
        self.register(UtilityPattern::new("inline", "inline").with_css_property("display").with_pattern(r"^inline$"));
        self.register(UtilityPattern::new("flex", "flex").with_css_property("display").with_pattern(r"^flex$"));
        self.register(UtilityPattern::new("inline-flex", "inline-flex").with_css_property("display").with_pattern(r"^inline-flex$"));
        self.register(UtilityPattern::new("grid", "grid").with_css_property("display").with_pattern(r"^grid$"));
        self.register(UtilityPattern::new("inline-grid", "inline-grid").with_css_property("display").with_pattern(r"^inline-grid$"));
        self.register(UtilityPattern::new("contents", "contents").with_css_property("display").with_pattern(r"^contents$"));
        self.register(UtilityPattern::new("hidden", "hidden").with_css_property("display").with_pattern(r"^hidden$"));
        proof {
            reveal(spec_display_patterns);
            assert(self@ =~= pats0 + spec_display_patterns());
        }
    }

    /// Flex direction, wrap, justify-content and align-items utilities.
    fn register_flex_utilities(&mut self)
        requires
            old(self).wf(),
            old(self)@.len() < 100000,
        ensures
            final(self).wf(),
            final(self)@ == old(self)@ + spec_flex_patterns(),
            final(self)@.len() <= old(self)@.len() + 20,
    {
        let ghost pats0 = self@;
        self.register(UtilityPattern::new("flex-row", "flex-row").with_css_property("flex-direction").with_pattern(r"^flex-row$"));
        self.register(UtilityPattern::new("flex-row-reverse", "flex-row-reverse").with_css_property("flex-direction").with_pattern(r"^flex-row-reverse$"));
        self.register(UtilityPattern::new("flex-col", "flex-col").with_css_property("flex-direction").with_pattern(r"^flex-col$"));
        self.register(UtilityPattern::new("flex-col-reverse", "flex-col-reverse").with_css_property("flex-direction").with_pattern(r"^flex-col-reverse$"));
        self.register(UtilityPattern::new("flex-wrap", "flex-wrap").with_css_property("flex-wrap").with_pattern(r"^flex-wrap$"));
        self.register(UtilityPattern::new("flex-wrap-reverse", "flex-wrap-reverse").with_css_property("flex-wrap").with_pattern(r"^flex-wrap-reverse$"));
        self.register(UtilityPattern::new("flex-nowrap", "flex-nowrap").with_css_property("flex-wrap").with_pattern(r"^flex-nowrap$"));
        self.register(UtilityPattern::new("justify-start", "justify-start").with_css_property("justify-content").with_pattern(r"^justify-start$"));
        self.register(UtilityPattern::new("justify-end", "justify-end").with_css_property("justify-content").with_pattern(r"^justify-end$"));
        self.register(UtilityPattern::new("justify-center", "justify-center").with_css_property("justify-content").with_pattern(r"^justify-center$"));
        self.register(UtilityPattern::new("justify-between", "justify-between").with_css_property("justify-content").with_pattern(r"^justify-between$"));
        self.register(UtilityPattern::new("justify-around", "justify-around").with_css_property("justify-content").with_pattern(r"^justify-around$"));
        self.register(UtilityPattern::new("justify-evenly", "justify-evenly").with_css_property("justify-content").with_pattern(r"^justify-evenly$"));
        self.register(UtilityPattern::new("items-start", "items-start").with_css_property("align-items").with_pattern(r"^items-start$"));
        self.register(UtilityPattern::new("items-end", "items-end").with_css_property("align-items").with_pattern(r"^items-end$"));
        self.register(UtilityPattern::new("items-center", "items-center").with_css_property("align-items").with_pattern(r"^items-center$"));
        self.register(UtilityPattern::new("items-baseline", "items-baseline").with_css_property("align-items").with_pattern(r"^items-baseline$"));
        self.register(UtilityPattern::new("items-stretch", "items-stretch").with_css_property("align-items").with_pattern(r"^items-stretch$"));
        proof {
            reveal(spec_flex_patterns);
            assert(self@ =~= pats0 + spec_flex_patterns());
        }
    }

    /// Font size, font weight and text alignment utilities.
    fn register_typography_utilities(&mut self)
        requires
            old(self).wf(),
            old(self)@.len() < 100000,
        ensures
            final(self).wf(),
            final(self)@ == old(self)@ + spec_typography_patterns(),
            final(self)@.len() <= old(self)@.len() + 20,
    {
        let ghost pats0 = self@;
        self.register(UtilityPattern::new("font-size", "text-").with_css_property("font-size").with_pattern(r"^text-(xs|sm|base|lg|xl|2xl|3xl|4xl|5xl|6xl|7xl|8xl|9xl)$"));
        self.register(UtilityPattern::new("font-thin", "font-thin").with_css_property("font-weight").with_pattern(r"^font-thin$"));
        self.register(UtilityPattern::new("font-extralight", "font-extralight").with_css_property("font-weight").with_pattern(r"^font-extralight$"));
        self.register(UtilityPattern::new("font-light", "font-light").with_css_property("font-weight").with_pattern(r"^font-light$"));
        self.register(UtilityPattern::new("font-normal", "font-normal").with_css_property("font-weight").with_pattern(r"^font-normal$"));
        self.register(UtilityPattern::new("font-medium", "font-medium").with_css_property("font-weight").with_pattern(r"^font-medium$"));
        self.register(UtilityPattern::new("font-semibold", "font-semibold").with_css_property("font-weight").with_pattern(r"^font-semibold$"));
        self.register(UtilityPattern::new("font-bold", "font-bold").with_css_property("font-weight").with_pattern(r"^font-bold$"));
        self.register(UtilityPattern::new("font-extrabold", "font-extrabold").with_css_property("font-weight").with_pattern(r"^font-extrabold$"));
        self.register(UtilityPattern::new("font-black", "font-black").with_css_property("font-weight").with_pattern(r"^font-black$"));
        self.register(UtilityPattern::new("text-left", "text-left").with_css_property("text-align").with_pattern(r"^text-left$"));
        self.register(UtilityPattern::new("text-center", "text-center").with_css_property("text-align").with_pattern(r"^text-center$"));
        self.register(UtilityPattern::new("text-right", "text-right").with_css_property("text-align").with_pattern(r"^text-right$"));
        self.register(UtilityPattern::new("text-justify", "text-justify").with_css_property("text-align").with_pattern(r"^text-justify$"));
        proof {
            reveal(spec_typography_patterns);
            assert(self@ =~= pats0 + spec_typography_patterns());
        }
    }

    /// Text, background and border color utilities.
    fn register_color_utilities(&mut self)
        requires
            old(self).wf(),
            old(self)@.len() < 100000,
        ensures
            final(self).wf(),
            final(self)@ == old(self)@ + spec_color_patterns(),
            final(self)@.len() <= old(self)@.len() + 20,
    {
        let ghost pats0 = self@;
        self.register(UtilityPattern::new("text-color", "text-").with_css_property("color").with_pattern(r"^text-[\w\-]+(-\d+)?(/\d+)?$"));
        self.register(UtilityPattern::new("background-color", "bg-").with_css_property("background-color").with_pattern(r"^bg-[\w\-]+(-\d+)?(/\d+)?$"));
        self.register(UtilityPattern::new("border-color", "border-").with_css_property("border-color").with_pattern(r"^border-[\w\-]+(-\d+)?(/\d+)?$"));
        proof {
            reveal(spec_color_patterns);
            assert(self@ =~= pats0 + spec_color_patterns());
        }
    }

    /// Border width and radius utilities.
    fn register_border_utilities(&mut self)
        requires
            old(self).wf(),
            old(self)@.len() < 100000,
        ensures
            final(self).wf(),
            final(self)@ == old(self)@ + spec_border_patterns(),
            final(self)@.len() <= old(self)@.len() + 20,
    {
        let ghost pats0 = self@;
        self.register(UtilityPattern::new("border-width", "border-").with_css_property("border-width").with_pattern(r"^border(-[trbl])?(-\d+)?$"));
        self.register(UtilityPattern::new("border-radius", "rounded").with_css_property("border-radius").with_pattern(r"^rounded(-[trblse]+)?(-[\w]+)?$"));
        proof {
            reveal(spec_border_patterns);
            assert(self@ =~= pats0 + spec_border_patterns());
        }
    }

    /// Opacity and box-shadow utilities.
    fn register_effects_utilities(&mut self)
        requires
            old(self).wf(),
            old(self)@.len() < 100000,
        ensures
            final(self).wf(),
            final(self)@ == old(self)@ + spec_effects_patterns(),
            final(self)@.len() <= old(self)@.len() + 20,
    {
        let ghost pats0 = self@;
        self.register(UtilityPattern::new("opacity", "opacity-").with_css_property("opacity").with_pattern(r"^opacity-\d+$"));
        self.register(UtilityPattern::new("shadow", "shadow").with_css_property("box-shadow").with_pattern(r"^shadow(-[\w]+)?$"));
        proof {
            reveal(spec_effects_patterns);
            assert(self@ =~= pats0 + spec_effects_patterns());
        }
    }

}

impl Default for Matcher {
    fn default() -> (r: Matcher)
        ensures
            r.wf(),
    {
        Matcher::new()
    }
}

} // verus!



