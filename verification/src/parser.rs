//! Class token parser: decomposes one utility class token into variant chain,
//! modifiers, utility name, scale value, arbitrary literal and opacity suffix.

use vstd::prelude::*;
use vstd::string::StrSliceExecFns;
use crate::text::{
    is_ascii_alpha, is_ascii_digit, is_special, is_variant_char, spec_digits_value, spec_find_char,
    spec_is_ascii_alpha, spec_is_ascii_digit, spec_is_space, spec_is_special, spec_is_variant_char,
    spec_trim, find_char, is_space, str_eq, str_starts_with, trim, lemma_find_char_props,
};
use crate::types::{ParsedClass, ParsedClassV, spec_empty_parsed};

verus! {

/// Does the token contain any character that needs the slow parsing path?
pub open spec fn spec_has_special(s: Seq<char>) -> bool {
    exists|i: int| 0 <= i < s.len() && spec_is_special(#[trigger] s[i])
}

fn contains_special_char(s: &str) -> (r: bool)
    ensures
        r == spec_has_special(s@),
{
    let n = s.unicode_len();
    let mut i: usize = 0;
    while i < n
        invariant
            n == s@.len(),
            i <= n,
            forall|j: int| 0 <= j < i ==> !spec_is_special(#[trigger] s@[j]),
        decreases n - i,
    {
        if is_special(s.get_char(i)) {
            return true;
        }
        i = i + 1;
    }
    false
}

/// Scan from index `i`: is the first of `:`/`-` a colon?
pub open spec fn spec_colon_before_dash(s: Seq<char>, i: int) -> bool
    decreases s.len() - i,
{
    if i < 0 || i >= s.len() {
        false
    } else if s[i] == ':' {
        true
    } else if s[i] == '-' {
        false
    } else {
        spec_colon_before_dash(s, i + 1)
    }
}

/// Does a leading `-` introduce a variant chain rather than a negative marker?
pub open spec fn spec_is_variant_start(s: Seq<char>) -> bool {
    s.len() > 1 && spec_is_ascii_alpha(s[1]) && spec_colon_before_dash(s, 2)
}

fn is_variant_start(s: &str) -> (r: bool)
    ensures
        r == spec_is_variant_start(s@),
{
    let n = s.unicode_len();
    if n <= 1 || !is_ascii_alpha(s.get_char(1)) {
        return false;
    }
    let mut i: usize = 2;
    while i < n
        invariant
            n == s@.len(),
            2 <= i <= n,
            s@.len() > 1,
            spec_is_ascii_alpha(s@[1]),
            spec_colon_before_dash(s@, 2) == spec_colon_before_dash(s@, i as int),
        decreases n - i,
    {
        let c = s.get_char(i);
        if c == ':' {
            proof {
                assert(spec_colon_before_dash(s@, i as int));
            }
            return true;
        }
        if c == '-' {
            return false;
        }
        i = i + 1;
    }
    false
}

/// A valid variant name: non-empty, alphanumerics, `-` and `_` only.
pub open spec fn spec_is_valid_variant(s: Seq<char>) -> bool {
    s.len() > 0 && forall|i: int| 0 <= i < s.len() ==> spec_is_variant_char(#[trigger] s[i])
}

fn is_valid_variant(s: &str) -> (r: bool)
    ensures
        r == spec_is_valid_variant(s@),
{
    let n = s.unicode_len();
    if n == 0 {
        return false;
    }
    let mut i: usize = 0;
    while i < n
        invariant
            n == s@.len(),
            i <= n,
            forall|j: int| 0 <= j < i ==> spec_is_variant_char(#[trigger] s@[j]),
        decreases n - i,
    {
        if !is_variant_char(s.get_char(i)) {
            return false;
        }
        i = i + 1;
    }
    true
}

/// One step of the variant scan: bracket depth tracking, with every colon at
/// depth zero delimiting a candidate variant segment. Returns the variants in
/// encounter order and the start of the remaining utility text.
pub open spec fn spec_scan_variants(
    s: Seq<char>,
    i: int,
    depth: int,
    seg: int,
    acc: Seq<Seq<char>>,
    last: int,
) -> (Seq<Seq<char>>, int)
    decreases s.len() - i,
{
    if i < 0 || i >= s.len() {
        (acc, last)
    } else if s[i] == '[' {
        spec_scan_variants(s, i + 1, depth + 1, seg, acc, last)
    } else if s[i] == ']' {
        spec_scan_variants(s, i + 1, if depth > 0 { depth - 1 } else { 0 }, seg, acc, last)
    } else if s[i] == ':' && depth == 0 {
        let piece = s.subrange(seg, i);
        if spec_is_valid_variant(piece) {
            spec_scan_variants(s, i + 1, 0, i + 1, acc.push(piece), i + 1)
        } else {
            spec_scan_variants(s, i + 1, 0, i + 1, acc, last)
        }
    } else {
        spec_scan_variants(s, i + 1, depth, seg, acc, last)
    }
}

/// The variant chain of the token and the index where the utility text starts.
pub open spec fn spec_extract_variants(s: Seq<char>) -> (Seq<Seq<char>>, int) {
    spec_scan_variants(s, 0, 0, 0, Seq::empty(), 0)
}

/// Extract variants; returns the names in order and the utility start index.
fn extract_variants(input: &str) -> (r: (Vec<String>, usize))
    ensures
        r.0@.map_values(|v: String| v@) == spec_extract_variants(input@).0,
        r.1 as int == spec_extract_variants(input@).1,
        r.1 <= input@.len(),
{
    let n = input.unicode_len();
    let mut variants: Vec<String> = Vec::new();
    let mut i: usize = 0;
    let mut depth: usize = 0;
    let mut seg: usize = 0;
    let mut last: usize = 0;
    proof {
        assert(variants@.map_values(|v: String| v@) =~= Seq::<Seq<char>>::empty());
    }
    while i < n
        invariant
            n == input@.len(),
            i <= n,
            seg <= i,
            last <= i,
            depth <= i,
            spec_extract_variants(input@) == spec_scan_variants(
                input@,
                i as int,
                depth as int,
                seg as int,
                variants@.map_values(|v: String| v@),
                last as int,
            ),
        decreases n - i,
    {
        let c = input.get_char(i);
        if c == '[' {
            depth = depth + 1;
        } else if c == ']' {
            if depth > 0 {
                depth = depth - 1;
            }
        } else if c == ':' && depth == 0 {
            let piece = input.substring_char(seg, i);
            if is_valid_variant(piece) {
                let ghost old_vs = variants@.map_values(|v: String| v@);
                variants.push(piece.to_owned());
                proof {
                    assert(variants@.map_values(|v: String| v@) =~= old_vs.push(piece@));
                    assert(piece@ == input@.subrange(seg as int, i as int));
                }
                last = i + 1;
            }
            seg = i + 1;
        }
        i = i + 1;
    }
    (variants, last)
}

/// Multi-part utility names that never carry a value after a dash.
pub open spec fn spec_is_multi_exact(s: Seq<char>) -> bool {
    s == "translate-x"@ || s == "translate-y"@ || s == "scale-x"@ || s == "scale-y"@ || s
        == "skew-x"@ || s == "skew-y"@ || s == "space-x"@ || s == "space-y"@ || s == "divide-x"@
        || s == "divide-y"@ || s == "inset-x"@ || s == "inset-y"@ || s == "scroll-m"@ || s
        == "scroll-p"@ || s == "border-t"@ || s == "border-r"@ || s == "border-b"@ || s
        == "border-l"@ || s == "border-x"@ || s == "border-y"@ || s == "rounded-t"@ || s
        == "rounded-r"@ || s == "rounded-b"@ || s == "rounded-l"@ || s == "rounded-tl"@ || s
        == "rounded-tr"@ || s == "rounded-bl"@ || s == "rounded-br"@
}

fn is_multi_exact(s: &str) -> (r: bool)
    ensures
        r == spec_is_multi_exact(s@),
{
    str_eq(s, "translate-x") || str_eq(s, "translate-y") || str_eq(s, "scale-x") || str_eq(
        s,
        "scale-y",
    ) || str_eq(s, "skew-x") || str_eq(s, "skew-y") || str_eq(s, "space-x") || str_eq(s, "space-y")
        || str_eq(s, "divide-x") || str_eq(s, "divide-y") || str_eq(s, "inset-x") || str_eq(
        s,
        "inset-y",
    ) || str_eq(s, "scroll-m") || str_eq(s, "scroll-p") || str_eq(s, "border-t") || str_eq(
        s,
        "border-r",
    ) || str_eq(s, "border-b") || str_eq(s, "border-l") || str_eq(s, "border-x") || str_eq(
        s,
        "border-y",
    ) || str_eq(s, "rounded-t") || str_eq(s, "rounded-r") || str_eq(s, "rounded-b") || str_eq(
        s,
        "rounded-l",
    ) || str_eq(s, "rounded-tl") || str_eq(s, "rounded-tr") || str_eq(s, "rounded-bl") || str_eq(
        s,
        "rounded-br",
    )
}

/// Multi-part utility prefixes; a match splits just before the final dash.
pub open spec fn spec_multi_prefix_dash(s: Seq<char>) -> Option<int> {
    if ("bg-gradient-to-"@).is_prefix_of(s) { Some(("bg-gradient-to-"@).len() - 1) }
    else if ("from-"@).is_prefix_of(s) { Some(("from-"@).len() - 1) }
    else if ("via-"@).is_prefix_of(s) { Some(("via-"@).len() - 1) }
    else if ("to-"@).is_prefix_of(s) { Some(("to-"@).len() - 1) }
    else if ("border-t-"@).is_prefix_of(s) { Some(("border-t-"@).len() - 1) }
    else if ("border-r-"@).is_prefix_of(s) { Some(("border-r-"@).len() - 1) }
    else if ("border-b-"@).is_prefix_of(s) { Some(("border-b-"@).len() - 1) }
    else if ("border-l-"@).is_prefix_of(s) { Some(("border-l-"@).len() - 1) }
    else if ("border-x-"@).is_prefix_of(s) { Some(("border-x-"@).len() - 1) }
    else if ("border-y-"@).is_prefix_of(s) { Some(("border-y-"@).len() - 1) }
    else if ("rounded-t-"@).is_prefix_of(s) { Some(("rounded-t-"@).len() - 1) }
    else if ("rounded-r-"@).is_prefix_of(s) { Some(("rounded-r-"@).len() - 1) }
    else if ("rounded-b-"@).is_prefix_of(s) { Some(("rounded-b-"@).len() - 1) }
    else if ("rounded-l-"@).is_prefix_of(s) { Some(("rounded-l-"@).len() - 1) }
    else if ("rounded-tl-"@).is_prefix_of(s) { Some(("rounded-tl-"@).len() - 1) }
    else if ("rounded-tr-"@).is_prefix_of(s) { Some(("rounded-tr-"@).len() - 1) }
    else if ("rounded-bl-"@).is_prefix_of(s) { Some(("rounded-bl-"@).len() - 1) }
    else if ("rounded-br-"@).is_prefix_of(s) { Some(("rounded-br-"@).len() - 1) }
    else if ("scroll-m-"@).is_prefix_of(s) { Some(("scroll-m-"@).len() - 1) }
    else if ("scroll-p-"@).is_prefix_of(s) { Some(("scroll-p-"@).len() - 1) }
    else if ("inset-x-"@).is_prefix_of(s) { Some(("inset-x-"@).len() - 1) }
    else if ("inset-y-"@).is_prefix_of(s) { Some(("inset-y-"@).len() - 1) }
    else if ("space-x-"@).is_prefix_of(s) { Some(("space-x-"@).len() - 1) }
    else if ("space-y-"@).is_prefix_of(s) { Some(("space-y-"@).len() - 1) }
    else if ("divide-x-"@).is_prefix_of(s) { Some(("divide-x-"@).len() - 1) }
    else if ("divide-y-"@).is_prefix_of(s) { Some(("divide-y-"@).len() - 1) }
    else if ("translate-x-"@).is_prefix_of(s) { Some(("translate-x-"@).len() - 1) }
    else if ("translate-y-"@).is_prefix_of(s) { Some(("translate-y-"@).len() - 1) }
    else if ("scale-x-"@).is_prefix_of(s) { Some(("scale-x-"@).len() - 1) }
    else if ("scale-y-"@).is_prefix_of(s) { Some(("scale-y-"@).len() - 1) }
    else if ("skew-x-"@).is_prefix_of(s) { Some(("skew-x-"@).len() - 1) }
    else if ("skew-y-"@).is_prefix_of(s) { Some(("skew-y-"@).len() - 1) }
    else { None }
}

fn multi_prefix_dash(s: &str) -> (r: Option<usize>)
    ensures
        match r {
            Some(d) => spec_multi_prefix_dash(s@) == Some(d as int) && d < s@.len(),
            None => spec_multi_prefix_dash(s@) == None::<int>,
        },
{
    proof {
        reveal_strlit("bg-gradient-to-");
        reveal_strlit("from-");
        reveal_strlit("via-");
        reveal_strlit("to-");
        reveal_strlit("border-t-");
        reveal_strlit("border-r-");
        reveal_strlit("border-b-");
        reveal_strlit("border-l-");
        reveal_strlit("border-x-");
        reveal_strlit("border-y-");
        reveal_strlit("rounded-t-");
        reveal_strlit("rounded-r-");
        reveal_strlit("rounded-b-");
        reveal_strlit("rounded-l-");
        reveal_strlit("rounded-tl-");
        reveal_strlit("rounded-tr-");
        reveal_strlit("rounded-bl-");
        reveal_strlit("rounded-br-");
        reveal_strlit("scroll-m-");
        reveal_strlit("scroll-p-");
        reveal_strlit("inset-x-");
        reveal_strlit("inset-y-");
        reveal_strlit("space-x-");
        reveal_strlit("space-y-");
        reveal_strlit("divide-x-");
        reveal_strlit("divide-y-");
        reveal_strlit("translate-x-");
        reveal_strlit("translate-y-");
        reveal_strlit("scale-x-");
        reveal_strlit("scale-y-");
        reveal_strlit("skew-x-");
        reveal_strlit("skew-y-");
    }
    if str_starts_with(s, "bg-gradient-to-") { Some(14) }
    else if str_starts_with(s, "from-") { Some(4) }
    else if str_starts_with(s, "via-") { Some(3) }
    else if str_starts_with(s, "to-") { Some(2) }
    else if str_starts_with(s, "border-t-") { Some(8) }
    else if str_starts_with(s, "border-r-") { Some(8) }
    else if str_starts_with(s, "border-b-") { Some(8) }
    else if str_starts_with(s, "border-l-") { Some(8) }
    else if str_starts_with(s, "border-x-") { Some(8) }
    else if str_starts_with(s, "border-y-") { Some(8) }
    else if str_starts_with(s, "rounded-t-") { Some(9) }
    else if str_starts_with(s, "rounded-r-") { Some(9) }
    else if str_starts_with(s, "rounded-b-") { Some(9) }
    else if str_starts_with(s, "rounded-l-") { Some(9) }
    else if str_starts_with(s, "rounded-tl-") { Some(10) }
    else if str_starts_with(s, "rounded-tr-") { Some(10) }
    else if str_starts_with(s, "rounded-bl-") { Some(10) }
    else if str_starts_with(s, "rounded-br-") { Some(10) }
    else if str_starts_with(s, "scroll-m-") { Some(8) }
    else if str_starts_with(s, "scroll-p-") { Some(8) }
    else if str_starts_with(s, "inset-x-") { Some(7) }
    else if str_starts_with(s, "inset-y-") { Some(7) }
    else if str_starts_with(s, "space-x-") { Some(7) }
    else if str_starts_with(s, "space-y-") { Some(7) }
    else if str_starts_with(s, "divide-x-") { Some(8) }
    else if str_starts_with(s, "divide-y-") { Some(8) }
    else if str_starts_with(s, "translate-x-") { Some(11) }
    else if str_starts_with(s, "translate-y-") { Some(11) }
    else if str_starts_with(s, "scale-x-") { Some(7) }
    else if str_starts_with(s, "scale-y-") { Some(7) }
    else if str_starts_with(s, "skew-x-") { Some(6) }
    else if str_starts_with(s, "skew-y-") { Some(6) }
    else { None }
}

/// Where the utility name ends and the value begins, honouring multi-part
/// utility names.
pub open spec fn spec_find_utility_dash(s: Seq<char>) -> Option<int> {
    if spec_is_multi_exact(s) {
        None
    } else {
        match spec_multi_prefix_dash(s) {
            Some(d) => Some(d),
            None => spec_find_char(s, '-'),
        }
    }
}

fn find_utility_dash(s: &str) -> (r: Option<usize>)
    ensures
        match r {
            Some(d) => spec_find_utility_dash(s@) == Some(d as int) && d < s@.len(),
            None => spec_find_utility_dash(s@) == None::<int>,
        },
{
    if is_multi_exact(s) {
        return None;
    }
    if let Some(d) = multi_prefix_dash(s) {
        return Some(d);
    }
    proof {
        lemma_find_char_props(s@, '-');
    }
    find_char(s, '-')
}

/// Decimal parse of an opacity suffix, as `u8::from_str` accepts it:
/// an optional leading `+`, then decimal digits whose value is at most 255.
pub open spec fn spec_all_digits(s: Seq<char>) -> bool {
    forall|i: int| 0 <= i < s.len() ==> spec_is_ascii_digit(#[trigger] s[i])
}

pub open spec fn spec_parse_u8(s: Seq<char>) -> Option<u8> {
    let t = if s.len() > 0 && s[0] == '+' {
        s.drop_first()
    } else {
        s
    };
    if t.len() > 0 && spec_all_digits(t) && spec_digits_value(t) <= 255 {
        Some(spec_digits_value(t) as u8)
    } else {
        None
    }
}

proof fn lemma_digits_value_nonneg(s: Seq<char>)
    requires
        spec_all_digits(s),
    ensures
        spec_digits_value(s) >= 0,
    decreases s.len(),
{
    if s.len() > 0 {
        lemma_digits_value_nonneg(s.drop_last());
    }
}

proof fn lemma_digits_value_mono(s: Seq<char>, k: int)
    requires
        spec_all_digits(s),
        0 <= k <= s.len(),
    ensures
        spec_digits_value(s.take(k)) <= spec_digits_value(s),
    decreases s.len() - k,
{
    if k == s.len() {
        assert(s.take(k) =~= s);
    } else {
        lemma_digits_value_mono(s, k + 1);
        let a = s.take(k);
        let b = s.take(k + 1);
        assert(b.drop_last() =~= a);
        lemma_digits_value_nonneg(a);
        assert(spec_digits_value(b) == spec_digits_value(a) * 10 + (b.last() as int - '0' as int));
        assert(spec_is_ascii_digit(s[k]));
    }
}

pub(crate) fn parse_opacity(s: &str) -> (r: Option<u8>)
    ensures
        r == spec_parse_u8(s@),
{
    let n = s.unicode_len();
    let start: usize = if n > 0 && s.get_char(0) == '+' {
        1
    } else {
        0
    };
    let ghost t = if s@.len() > 0 && s@[0] == '+' {
        s@.drop_first()
    } else {
        s@
    };
    proof {
        assert(t =~= s@.skip(start as int));
    }
    if start == n {
        return None;
    }
    let mut acc: u32 = 0;
    let mut i: usize = start;
    while i < n
        invariant
            n == s@.len(),
            start < n,
            start <= i <= n,
            t == s@.skip(start as int),
            t == (if s@.len() > 0 && s@[0] == '+' {
                s@.drop_first()
            } else {
                s@
            }),
            forall|j: int| 0 <= j < i - start ==> spec_is_ascii_digit(#[trigger] t[j]),
            acc <= 255,
            acc as int == spec_digits_value(t.take(i - start)),
        decreases n - i,
    {
        let c = s.get_char(i);
        if !is_ascii_digit(c) {
            proof {
                assert(t[i - start] == s@[i as int]);
                assert(!spec_all_digits(t));
                assert(spec_parse_u8(s@) is None);
            }
            return None;
        }
        let d: u32 = (c as u32) - 48;
        proof {
            assert(s@[i as int] == c && t[i - start] == c);
            assert('0' as int == 48 && '9' as int == 57);
            assert(d as int == c as int - '0' as int);
            assert(t.take(i + 1 - start).drop_last() =~= t.take(i - start));
            assert(t.take(i + 1 - start).last() == c);
        }
        acc = acc * 10 + d;
        i = i + 1;
        if acc > 255 {
            proof {
                // whatever follows, the parsed value cannot fall back below 255
                if spec_all_digits(t) {
                    lemma_digits_value_mono(t, i - start);
                    assert(spec_digits_value(t.take(i - start)) == acc as int);
                }
                assert(spec_parse_u8(s@) is None);
            }
            return None;
        }
    }
    proof {
        assert(t.take(i - start) =~= t);
        assert(spec_all_digits(t));
        assert(spec_parse_u8(s@) == Some(acc as u8));
    }
    Some(acc as u8)
}

/// The input without trailing dashes.
pub open spec fn spec_trim_dashes(s: Seq<char>) -> Seq<char>
    decreases s.len(),
{
    if s.len() > 0 && s.last() == '-' {
        spec_trim_dashes(s.drop_last())
    } else {
        s
    }
}

proof fn lemma_trim_dashes_take(s: Seq<char>, b: int)
    requires
        0 <= b <= s.len(),
        forall|j: int| b <= j < s.len() ==> s[j] == '-',
        b > 0 ==> s[b - 1] != '-',
    ensures
        spec_trim_dashes(s) == s.take(b),
    decreases s.len() - b,
{
    if b == s.len() {
        assert(s.take(b) =~= s);
    } else {
        lemma_trim_dashes_take(s.drop_last(), b);
        assert(s.drop_last().take(b) =~= s.take(b));
    }
}

fn trim_dashes(s: &str) -> (r: &str)
    ensures
        r@ == spec_trim_dashes(s@),
{
    let n = s.unicode_len();
    let mut b: usize = n;
    while b > 0 && s.get_char(b - 1) == '-'
        invariant
            n == s@.len(),
            b <= n,
            forall|j: int| b <= j < n ==> s@[j] == '-',
        decreases b,
    {
        b = b - 1;
    }
    let r = s.substring_char(0, b);
    proof {
        lemma_trim_dashes_take(s@, b as int);
        assert(r@ =~= s@.take(b as int));
    }
    r
}

/// Split the utility text at the utility dash, if any: the utility name is
/// overwritten, and the value only where a dash was found.
pub open spec fn spec_apply_split(input: Seq<char>, p: ParsedClassV) -> ParsedClassV {
    match spec_find_utility_dash(input) {
        Some(d) => ParsedClassV {
            utility: input.take(d),
            value: Some(input.skip(d + 1)),
            ..p
        },
        None => ParsedClassV { utility: input, ..p },
    }
}

fn apply_split(input: &str, parsed: &mut ParsedClass)
    ensures
        final(parsed)@ == spec_apply_split(input@, old(parsed)@),
{
    let n = input.unicode_len();
    match find_utility_dash(input) {
        Some(d) => {
            parsed.utility = input.substring_char(0, d).to_owned();
            parsed.value = Some(input.substring_char(d + 1, n).to_owned());
            proof {
                assert(parsed@.utility =~= input@.take(d as int));
                assert(parsed@.value->Some_0 =~= input@.skip(d + 1));
            }
        },
        None => {
            parsed.utility = input.to_owned();
        },
    }
}

/// What the slash-opacity branch of the utility parse produces.
pub open spec fn spec_slash_case(s: Seq<char>, p: ParsedClassV) -> ParsedClassV {
    match spec_find_char(s, '/') {
        Some(sp) => {
            let p1 = spec_apply_split(s.take(sp), p);
            match spec_parse_u8(s.skip(sp + 1)) {
                Some(o) => ParsedClassV { opacity: Some(o), ..p1 },
                None => p1,
            }
        },
        None => spec_apply_split(s, p),
    }
}

/// The utility-text parse: strips `!` and `-` modifiers that may follow the
/// variant chain, then resolves arbitrary bracket values, the opacity suffix,
/// and the utility/value split.
pub open spec fn spec_apply_parse_utility(input: Seq<char>, p: ParsedClassV) -> ParsedClassV {
    let p1 = if input.len() > 0 && input[0] == '!' {
        ParsedClassV { important: true, ..p }
    } else {
        p
    };
    let s1 = if input.len() > 0 && input[0] == '!' {
        input.drop_first()
    } else {
        input
    };
    let p2 = if s1.len() > 1 && s1[0] == '-' && spec_is_ascii_alpha(s1[1]) {
        ParsedClassV { negative: true, ..p1 }
    } else {
        p1
    };
    let s2 = if s1.len() > 1 && s1[0] == '-' && spec_is_ascii_alpha(s1[1]) {
        s1.drop_first()
    } else {
        s1
    };
    match spec_find_char(s2, '[') {
        Some(bs) => match spec_find_char(s2.skip(bs), ']') {
            Some(off) => {
                let be = bs + off;
                let p3 = if bs > 0 {
                    spec_apply_split(spec_trim_dashes(s2.take(bs)), p2)
                } else {
                    p2
                };
                let p4 = ParsedClassV { arbitrary: Some(s2.subrange(bs + 1, be)), ..p3 };
                if be + 1 < s2.len() && s2[be + 1] == '/' {
                    match spec_parse_u8(s2.skip(be + 2)) {
                        Some(o) => ParsedClassV { opacity: Some(o), ..p4 },
                        None => p4,
                    }
                } else {
                    p4
                }
            },
            None => spec_slash_case(s2, p2),
        },
        None => spec_slash_case(s2, p2),
    }
}

fn parse_utility(input: &str, parsed: &mut ParsedClass)
    ensures
        final(parsed)@ == spec_apply_parse_utility(input@, old(parsed)@),
{
    let n = input.unicode_len();
    let mut s1: &str = input;
    if n > 0 && input.get_char(0) == '!' {
        parsed.important = true;
        s1 = input.substring_char(1, n);
        proof {
            assert(s1@ =~= input@.drop_first());
        }
    }
    let n1 = s1.unicode_len();
    let mut s2: &str = s1;
    if n1 > 1 && s1.get_char(0) == '-' && is_ascii_alpha(s1.get_char(1)) {
        parsed.negative = true;
        s2 = s1.substring_char(1, n1);
        proof {
            assert(s2@ =~= s1@.drop_first());
        }
    }
    let n2 = s2.unicode_len();
    if let Some(bs) = find_char(s2, '[') {
        let tail = s2.substring_char(bs, n2);
        proof {
            assert(tail@ =~= s2@.skip(bs as int));
        }
        if let Some(off) = find_char(tail, ']') {
            let be = bs + off;
            proof {
                lemma_find_char_props(tail@, ']');
                assert(be < n2);
            }
            if bs > 0 {
                let pre = s2.substring_char(0, bs);
                proof {
                    assert(pre@ =~= s2@.take(bs as int));
                }
                let head = trim_dashes(pre);
                apply_split(head, parsed);
            }
            parsed.arbitrary = Some(s2.substring_char(bs + 1, be).to_owned());
            proof {
                assert(parsed@.arbitrary->Some_0 =~= s2@.subrange(bs + 1, be as int));
            }
            if be + 1 < n2 && s2.get_char(be + 1) == '/' {
                let op = parse_opacity(s2.substring_char(be + 2, n2));
                proof {
                    assert(s2@.subrange(be + 2, n2 as int) =~= s2@.skip(be + 2));
                }
                if let Some(o) = op {
                    parsed.opacity = Some(o);
                }
            }
            return ;
        }
        slash_case(s2, parsed);
        return ;
    }
    slash_case(s2, parsed);
}

fn slash_case(s: &str, parsed: &mut ParsedClass)
    ensures
        final(parsed)@ == spec_slash_case(s@, old(parsed)@),
{
    let n = s.unicode_len();
    match find_char(s, '/') {
        Some(sp) => {
            let head = s.substring_char(0, sp);
            proof {
                assert(head@ =~= s@.take(sp as int));
            }
            apply_split(head, parsed);
            let op = parse_opacity(s.substring_char(sp + 1, n));
            proof {
                assert(s@.subrange(sp + 1, n as int) =~= s@.skip(sp + 1));
            }
            if let Some(o) = op {
                parsed.opacity = Some(o);
            }
        },
        None => {
            apply_split(s, parsed);
        },
    }
}

/// The full decomposition of one raw token.
pub open spec fn spec_parse(s: Seq<char>) -> ParsedClassV {
    let t = spec_trim(s);
    if t.len() == 0 {
        spec_empty_parsed(Seq::empty())
    } else if !spec_has_special(t) {
        let p0 = spec_empty_parsed(t);
        let p1 = if t[0] == '-' && t.len() > 1 && spec_is_ascii_alpha(t[1]) {
            ParsedClassV { negative: true, ..p0 }
        } else {
            p0
        };
        let u = if t[0] == '-' && t.len() > 1 && spec_is_ascii_alpha(t[1]) {
            t.drop_first()
        } else {
            t
        };
        spec_apply_split(u, p1)
    } else {
        let p0 = spec_empty_parsed(t);
        let p1 = if t[0] == '!' {
            ParsedClassV { important: true, ..p0 }
        } else {
            p0
        };
        let s1 = if t[0] == '!' {
            t.drop_first()
        } else {
            t
        };
        let p2 = if s1.len() > 0 && s1[0] == '-' && !spec_is_variant_start(s1) {
            ParsedClassV { negative: true, ..p1 }
        } else {
            p1
        };
        let s2 = if s1.len() > 0 && s1[0] == '-' && !spec_is_variant_start(s1) {
            s1.drop_first()
        } else {
            s1
        };
        let vr = spec_extract_variants(s2);
        let p3 = ParsedClassV { variants: vr.0, ..p2 };
        if vr.1 < s2.len() {
            spec_apply_parse_utility(s2.skip(vr.1), p3)
        } else {
            p3
        }
    }
}

/// Stateless parser for utility class tokens.
#[derive(Debug, Clone)]
pub struct Parser {
    cache_enabled: bool,
}

impl Parser {
    /// Create a new parser.
    pub fn new() -> (r: Parser) {
        Parser { cache_enabled: true }
    }

    /// Parse a single class token into its components.
    pub fn parse(&self, class: &str) -> (r: ParsedClass)
        ensures
            r@ == spec_parse(class@),
    {
        let t = trim(class);
        let n = t.unicode_len();
        if n == 0 {
            let r = ParsedClass::new("");
            proof {
                reveal_strlit("");
                assert(""@ =~= Seq::<char>::empty());
            }
            return r;
        }
        let mut parsed = ParsedClass::new(t);
        if !contains_special_char(t) {
            let u: &str;
            if t.get_char(0) == '-' && n > 1 && is_ascii_alpha(t.get_char(1)) {
                parsed.negative = true;
                u = t.substring_char(1, n);
                proof {
                    assert(u@ =~= t@.drop_first());
                }
            } else {
                u = t;
            }
            apply_split(u, &mut parsed);
            return parsed;
        }
        let mut s1: &str = t;
        if t.get_char(0) == '!' {
            parsed.important = true;
            s1 = t.substring_char(1, n);
            proof {
                assert(s1@ =~= t@.drop_first());
            }
        }
        let n1 = s1.unicode_len();
        let mut s2: &str = s1;
        if n1 > 0 && s1.get_char(0) == '-' && !is_variant_start(s1) {
            parsed.negative = true;
            s2 = s1.substring_char(1, n1);
            proof {
                assert(s2@ =~= s1@.drop_first());
            }
        }
        let vr = extract_variants(s2);
        parsed.variants = vr.0;
        let n2 = s2.unicode_len();
        if vr.1 < n2 {
            let rest = s2.substring_char(vr.1, n2);
            proof {
                assert(rest@ =~= s2@.skip(vr.1 as int));
            }
            parse_utility(rest, &mut parsed);
        }
        parsed
    }
}

/// Index of the first whitespace character, or the length if none.
pub open spec fn spec_token_end(s: Seq<char>) -> int
    decreases s.len(),
{
    if s.len() == 0 {
        0
    } else if spec_is_space(s[0]) {
        0
    } else {
        1 + spec_token_end(s.drop_first())
    }
}

proof fn lemma_token_end(s: Seq<char>, e: int)
    requires
        0 <= e <= s.len(),
        forall|j: int| 0 <= j < e ==> !spec_is_space(s[j]),
        e < s.len() ==> spec_is_space(s[e]),
    ensures
        spec_token_end(s) == e,
    decreases e,
{
    if e == 0 {
    } else {
        lemma_token_end(s.drop_first(), e - 1);
    }
}

/// The whitespace-separated tokens of a text, in order.
pub open spec fn spec_split_ws(s: Seq<char>) -> Seq<Seq<char>>
    decreases s.len(),
{
    if s.len() == 0 {
        Seq::empty()
    } else if spec_is_space(s[0]) {
        spec_split_ws(s.drop_first())
    } else {
        let e = spec_token_end(s);
        if 1 <= e <= s.len() {
            seq![s.take(e)] + spec_split_ws(s.skip(e))
        } else {
            Seq::empty()
        }
    }
}

impl Parser {
    /// Parse all whitespace-separated tokens of a text, preserving order.
    pub fn parse_all(&self, class_string: &str) -> (r: Vec<ParsedClass>)
        ensures
            r@.len() == spec_split_ws(class_string@).len(),
            forall|k: int|
                0 <= k < r@.len() ==> r@[k]@ == spec_parse(
                    #[trigger] spec_split_ws(class_string@)[k],
                ),
    {
        let s = class_string;
        let n = s.unicode_len();
        let ghost all = spec_split_ws(s@);
        let mut out: Vec<ParsedClass> = Vec::new();
        let mut i: usize = 0;
        proof {
            assert(s@.skip(0) =~= s@);
        }
        while i < n
            invariant
                n == s@.len(),
                i <= n,
                all == spec_split_ws(s@),
                out@.len() <= all.len(),
                spec_split_ws(s@.skip(i as int)) == all.skip(out@.len() as int),
                forall|k: int| 0 <= k < out@.len() ==> out@[k]@ == spec_parse(#[trigger] all[k]),
            decreases n - i,
        {
            let c = s.get_char(i);
            if is_space(c) {
                proof {
                    assert(s@.skip(i as int).drop_first() =~= s@.skip(i + 1));
                    assert(s@.skip(i as int)[0] == s@[i as int]);
                }
                i = i + 1;
            } else {
                let mut j: usize = i + 1;
                while j < n && !is_space(s.get_char(j))
                    invariant
                        n == s@.len(),
                        i < j <= n,
                        !spec_is_space(s@[i as int]),
                        forall|t: int| i <= t < j ==> !spec_is_space(#[trigger] s@[t]),
                    decreases n - j,
                {
                    j = j + 1;
                }
                let tok = s.substring_char(i, j);
                let ghost rem = s@.skip(i as int);
                proof {
                    assert(rem[0] == s@[i as int]);
                    assert(forall|t: int| 0 <= t < j - i ==> rem[t] == s@[t + i]
                        && !spec_is_space(rem[t]));
                    if j < n {
                        assert(rem[j - i] == s@[j as int] && spec_is_space(rem[j - i]));
                    }
                    lemma_token_end(rem, j - i);
                    assert(tok@ =~= rem.take(j - i));
                    assert(rem.skip(j - i) =~= s@.skip(j as int));
                    assert(spec_split_ws(rem) == seq![tok@] + spec_split_ws(s@.skip(j as int)));
                    let ghost ell = out@.len() as int;
                    assert(all.skip(ell).len() >= 1);
                    assert(out@.len() + 1 <= all.len());
                    assert(all.skip(ell)[0] == all[ell]);
                    assert(all[ell] == (seq![tok@] + spec_split_ws(s@.skip(j as int)))[0]);
                    assert(all[ell] == tok@);
                    assert(all.skip(ell).drop_first() =~= all.skip(ell + 1));
                    assert((seq![tok@] + spec_split_ws(s@.skip(j as int))).drop_first() =~= spec_split_ws(
                        s@.skip(j as int),
                    ));
                    assert(spec_split_ws(s@.skip(j as int)) == all.skip(ell + 1));
                }
                let p = self.parse(tok);
                out.push(p);
                i = j;
            }
        }
        proof {
            assert(s@.skip(i as int) =~= Seq::<char>::empty());
            assert(spec_split_ws(Seq::<char>::empty()) =~= Seq::<Seq<char>>::empty());
            assert(all.skip(out@.len() as int).len() == 0);
            assert(out@.len() == all.len());
        }
        out
    }
}

impl Default for Parser {
    fn default() -> (r: Parser) {
        Parser::new()
    }
}

/// Parsing is referentially transparent: the decomposition is a function of
/// the token text alone, so two parses of equal tokens are structurally equal.
pub proof fn lemma_parse_referentially_transparent(a: ParsedClassV, b: ParsedClassV, s: Seq<char>)
    requires
        a == spec_parse(s),
        b == spec_parse(s),
    ensures
        a == b,
{
}

} // verus!

