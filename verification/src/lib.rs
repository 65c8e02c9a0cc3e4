//! Utility-class CSS engine: parses utility class tokens, matches them
//! against a registry of utility patterns, and generates CSS text.

use vstd::prelude::*;

pub mod generator;
pub mod matcher;
pub mod parser;
pub mod re;
pub mod text;
pub mod trie;
pub mod types;

pub use generator::Generator;
pub use matcher::Matcher;
pub use parser::Parser;
pub use trie::PrefixTrie;
pub use types::CSSProperty;
pub use types::EngineConfig;
pub use types::ExtractionResult;
pub use types::GenerateOptions;
pub use types::Layer;
pub use types::MatchResult;
pub use types::ParsedClass;
pub use types::UtilityPattern;
pub use types::Variant;
pub use types::VariantSelector;

use crate::generator::{spec_default_variants, spec_generate};
use crate::matcher::{spec_default_patterns, spec_match_class};
use crate::parser::{spec_parse, spec_split_ws};
use crate::types::{MatchResultV, UtilityPatternV, VariantV};

verus! {

/// Engine version.
pub const VERSION: &'static str = "1.0.0";

/// The match results of a token list, in order, dropping unmatched tokens.
pub open spec fn spec_process_results(
    pats: Seq<UtilityPatternV>,
    tokens: Seq<Seq<char>>,
) -> Seq<MatchResultV>
    decreases tokens.len(),
{
    if tokens.len() == 0 {
        Seq::empty()
    } else {
        spec_process_results(pats, tokens.drop_last()) + (match spec_match_class(
            pats,
            spec_parse(tokens.last()),
        ) {
            Some(m) => seq![m],
            None => Seq::empty(),
        })
    }
}

/// The engine: parser, matcher and generator composed into one pipeline.
pub struct TurboEngine {
    parser: Parser,
    matcher: Matcher,
    generator: Generator,
}

impl TurboEngine {
    /// Well-formed: the matcher registry and its trie index agree.
    pub closed spec fn wf(&self) -> bool {
        self.matcher.wf()
    }

    /// The registered patterns, in registration order.
    pub closed spec fn spec_patterns(&self) -> Seq<UtilityPatternV> {
        self.matcher@
    }

    /// The generator's variant table.
    pub closed spec fn spec_variants(&self) -> Seq<VariantV> {
        self.generator.spec_variants()
    }

    /// The generator's options.
    pub closed spec fn spec_options(&self) -> GenerateOptions {
        self.generator.spec_options()
    }

    /// Create an engine with the default registry, variants and options.
    pub fn new() -> (r: TurboEngine)
        ensures
            r.wf(),
            r.spec_patterns() == spec_default_patterns(),
            r.spec_patterns().len() < 100000,
            r.spec_variants() == spec_default_variants(),
            r.spec_options() == (GenerateOptions {
                minify: false,
                source_comments: false,
                sort_by_property: true,
                use_layers: true,
            }),
    {
        TurboEngine { parser: Parser::new(), matcher: Matcher::new(), generator: Generator::new() }
    }

    /// Parse a class string into individual parsed classes.
    pub fn parse(&self, class_string: &str) -> (r: Vec<ParsedClass>)
        ensures
            r@.len() == spec_split_ws(class_string@).len(),
            forall|k: int|
                0 <= k < r@.len() ==> r@[k]@ == spec_parse(
                    #[trigger] spec_split_ws(class_string@)[k],
                ),
    {
        self.parser.parse_all(class_string)
    }

    /// Match a parsed class against the registered utility patterns.
    pub fn match_class(&self, parsed: &ParsedClass) -> (r: Option<MatchResult>)
        requires
            self.wf(),
        ensures
            match r {
                Some(m) => spec_match_class(self.spec_patterns(), parsed@) == Some(m@),
                None => spec_match_class(self.spec_patterns(), parsed@) is None,
            },
    {
        self.matcher.match_class(parsed)
    }

    /// Generate CSS text from match results.
    pub fn generate(&self, results: &[MatchResult]) -> (r: String)
        ensures
            r@ == spec_generate(
                results@.map_values(|m: MatchResult| m@),
                self.spec_variants(),
                self.spec_options(),
            ),
    {
        self.generator.generate(results)
    }

    /// Full pipeline: split, parse, match, generate.
    #[verifier::rlimit(50)]
    pub fn process(&self, class_string: &str) -> (r: String)
        requires
            self.wf(),
        ensures
            r@ == spec_generate(
                spec_process_results(self.spec_patterns(), spec_split_ws(class_string@)),
                self.spec_variants(),
                self.spec_options(),
            ),
    {
        let parsed = self.parse(class_string);
        let ghost tokens = spec_split_ws(class_string@);
        let mut results: Vec<MatchResult> = Vec::new();
        let mut i: usize = 0;
        proof {
            assert(tokens.take(0) =~= Seq::<Seq<char>>::empty());
            assert(results@.map_values(|m: MatchResult| m@) =~= spec_process_results(
                self.spec_patterns(),
                tokens.take(0),
            ));
        }
        while i < parsed.len()
            invariant
                self.wf(),
                tokens == spec_split_ws(class_string@),
                parsed@.len() == tokens.len(),
                forall|k: int|
                    0 <= k < parsed@.len() ==> parsed@[k]@ == spec_parse(#[trigger] tokens[k]),
                i <= parsed@.len(),
                results@.map_values(|m: MatchResult| m@) == spec_process_results(
                    self.spec_patterns(),
                    tokens.take(i as int),
                ),
            decreases parsed@.len() - i,
        {
            proof {
                assert(tokens.take(i + 1).drop_last() =~= tokens.take(i as int));
                assert(tokens.take(i + 1).last() == tokens[i as int]);
            }
            let ghost pre = results@.map_values(|m: MatchResult| m@);
            match self.match_class(&parsed[i]) {
                Some(m) => {
                    results.push(m);
                    proof {
                        assert(results@.map_values(|m: MatchResult| m@) =~= spec_process_results(
                            self.spec_patterns(),
                            tokens.take(i + 1),
                        ));
                    }
                },
                None => {
                    proof {
                        assert(spec_process_results(self.spec_patterns(), tokens.take(i + 1))
                            =~= pre);
                    }
                },
            }
            i = i + 1;
        }
        proof {
            assert(tokens.take(parsed@.len() as int) =~= tokens);
        }
        self.generate(results.as_slice())
    }

    /// Register a custom utility pattern.
    pub fn register_utility(&mut self, pattern: UtilityPattern)
        requires
            old(self).wf(),
            old(self).spec_patterns().len() < usize::MAX - 1,
        ensures
            final(self).wf(),
            final(self).spec_patterns() == old(self).spec_patterns().push(pattern@),
            final(self).spec_variants() == old(self).spec_variants(),
            final(self).spec_options() == old(self).spec_options(),
    {
        self.matcher.register(pattern);
    }

    /// Register multiple utility patterns, in order.
    pub fn register_utilities(&mut self, patterns: Vec<UtilityPattern>)
        requires
            old(self).wf(),
            old(self).spec_patterns().len() + patterns@.len() < usize::MAX - 1,
        ensures
            final(self).wf(),
            final(self).spec_patterns() == old(self).spec_patterns() + patterns@.map_values(
                |p: UtilityPattern| p@,
            ),
            final(self).spec_variants() == old(self).spec_variants(),
            final(self).spec_options() == old(self).spec_options(),
    {
        let ghost all = patterns@.map_values(|p: UtilityPattern| p@);
        let mut rest = patterns;
        let mut done: usize = 0;
        proof {
            assert(old(self).spec_patterns() + all.take(0) =~= old(self).spec_patterns());
            assert(rest@.map_values(|p: UtilityPattern| p@) =~= all.skip(0));
        }
        while rest.len() > 0
            invariant
                self.wf(),
                done + rest@.len() == all.len(),
                rest@.map_values(|p: UtilityPattern| p@) == all.skip(done as int),
                self.spec_patterns() == old(self).spec_patterns() + all.take(done as int),
                old(self).spec_patterns().len() + all.len() < usize::MAX - 1,
                self.spec_variants() == old(self).spec_variants(),
                self.spec_options() == old(self).spec_options(),
            decreases rest@.len(),
        {
            let p = rest.remove(0);
            proof {
                assert(rest@.map_values(|q: UtilityPattern| q@) =~= all.skip(done as int).drop_first());
                assert(all.skip(done as int).drop_first() =~= all.skip(done as int + 1));
                assert(p@ == all.skip(done as int)[0]);
                assert(all.skip(done as int)[0] == all[done as int]);
                assert((old(self).spec_patterns() + all.take(done as int)).push(p@) =~= old(
                    self,
                ).spec_patterns() + all.take(done as int + 1));
            }
            self.matcher.register(p);
            done = done + 1;
        }
        proof {
            assert(all.take(done as int) =~= all);
            assert(self.spec_patterns() =~= old(self).spec_patterns() + all);
        }
    }
}

impl Default for TurboEngine {
    fn default() -> (r: TurboEngine)
        ensures
            r.wf(),
    {
        TurboEngine::new()
    }
}

} // verus!
