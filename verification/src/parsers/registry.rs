//! Choosing the parser for a file.
use vstd::prelude::*;
use crate::chars::contains;
use crate::models::ParserTarget;
use crate::parsers::codex_session_jsonl::{codex_support, CodexSessionJsonlParser};
use crate::parsers::generic_json::{json_support, GenericJsonParser};
use crate::parsers::generic_jsonl::{jsonl_support, GenericJsonlParser};
use crate::parsers::SourceParser;

verus! {

/// One of the parsers that the registry knows.
#[derive(Debug)]
pub enum RegisteredParser {
    CodexSessionJsonl(CodexSessionJsonlParser),
    GenericJsonl(GenericJsonlParser),
    GenericJson(GenericJsonParser),
}

/// How well a registered parser fits a file.
pub open spec fn support_of(p: RegisteredParser, target: ParserTarget) -> u8 {
    match p {
        RegisteredParser::CodexSessionJsonl(_) => codex_support(target),
        RegisteredParser::GenericJsonl(_) => jsonl_support(target),
        RegisteredParser::GenericJson(_) => json_support(target),
    }
}

/// The key of a registered parser.
pub open spec fn key_of(p: RegisteredParser) -> Seq<char> {
    match p {
        RegisteredParser::CodexSessionJsonl(_) => "codex_session_jsonl"@,
        RegisteredParser::GenericJsonl(_) => "generic_jsonl"@,
        RegisteredParser::GenericJson(_) => "generic_json"@,
    }
}

impl SourceParser for RegisteredParser {
    fn key(&self) -> (r: &'static str)
        ensures
            r@ == key_of(*self),
    {
        match self {
            RegisteredParser::CodexSessionJsonl(p) => p.key(),
            RegisteredParser::GenericJsonl(p) => p.key(),
            RegisteredParser::GenericJson(p) => p.key(),
        }
    }

    fn version(&self) -> (r: &'static str)
        ensures
            r@ == match *self {
                RegisteredParser::CodexSessionJsonl(_) => "2"@,
                _ => "1"@,
            },
    {
        match self {
            RegisteredParser::CodexSessionJsonl(p) => p.version(),
            RegisteredParser::GenericJsonl(p) => p.version(),
            RegisteredParser::GenericJson(p) => p.version(),
        }
    }

    fn supports(&self, target: &ParserTarget) -> (score: u8)
        ensures
            score == support_of(*self, *target),
    {
        match self {
            RegisteredParser::CodexSessionJsonl(p) => p.supports(target),
            RegisteredParser::GenericJsonl(p) => p.supports(target),
            RegisteredParser::GenericJson(p) => p.supports(target),
        }
    }
}

/// The position of the best-fitting parser: the highest score, the last of equal scores.
pub open spec fn best_index(ps: Seq<RegisteredParser>, target: ParserTarget) -> int
    decreases ps.len(),
{
    if ps.len() <= 1 {
        0
    } else {
        let b = best_index(ps.drop_last(), target);
        if support_of(ps.last(), target) >= support_of(ps[b], target) {
            ps.len() - 1
        } else {
            b
        }
    }
}

proof fn lemma_best_index_bounds(ps: Seq<RegisteredParser>, target: ParserTarget)
    requires
        ps.len() > 0,
    ensures
        0 <= best_index(ps, target) < ps.len(),
        forall|j: int| 0 <= j < ps.len() ==> support_of(#[trigger] ps[j], target) <= support_of(ps[best_index(ps, target)], target),
        forall|j: int| best_index(ps, target) < j < ps.len() ==> support_of(#[trigger] ps[j], target) < support_of(ps[best_index(ps, target)], target),
    decreases ps.len(),
{
    if ps.len() > 1 {
        let init = ps.drop_last();
        lemma_best_index_bounds(init, target);
        assert forall|j: int| 0 <= j < init.len() implies init[j] == ps[j] by {}
    }
}

/// Why no parser was chosen.
#[derive(Debug, PartialEq, Eq, Structural)]
pub enum RegistryError {
    NoParserAvailable,
}

/// The parsers that an import can use.
#[derive(Debug)]
pub struct ParserRegistry {
    parsers: Vec<RegisteredParser>,
}

impl ParserRegistry {
    /// The registered parsers, in order.
    pub closed spec fn parsers(&self) -> Seq<RegisteredParser> {
        self.parsers@
    }

    /// The parser that fits a file best: the highest score, and of equal scores the one
    /// registered last.
    pub fn resolve(&self, target: &ParserTarget) -> (r: Result<&RegisteredParser, RegistryError>)
        ensures
            self.parsers().len() == 0 <==> r is Err,
            r matches Ok(p) ==> *p == self.parsers()[best_index(self.parsers(), *target)],
            r matches Ok(p) ==> forall|j: int| 0 <= j < self.parsers().len() ==> support_of(#[trigger] self.parsers()[j], *target) <= support_of(*p, *target),
    {
        if self.parsers.len() == 0 {
            return Err(RegistryError::NoParserAvailable);
        }
        let mut best: usize = 0;
        let mut best_score = self.parsers[0].supports(target);
        let mut i: usize = 1;
        while i < self.parsers.len()
            invariant
                1 <= i <= self.parsers@.len(),
                best < i,
                best as int == best_index(self.parsers@.take(i as int), *target),
                best_score == support_of(self.parsers@[best as int], *target),
            decreases self.parsers.len() - i,
        {
            let ghost t = self.parsers@.take(i as int + 1);
            assert(t.drop_last() == self.parsers@.take(i as int));
            proof {
                lemma_best_index_bounds(self.parsers@.take(i as int), *target);
            }
            assert(self.parsers@.take(i as int)[best as int] == self.parsers@[best as int]);
            let score = self.parsers[i].supports(target);
            if score >= best_score {
                best = i;
                best_score = score;
            }
            i += 1;
        }
        assert(self.parsers@.take(self.parsers@.len() as int) == self.parsers@);
        proof {
            lemma_best_index_bounds(self.parsers@, *target);
        }
        Ok(&self.parsers[best])
    }
}

impl Default for ParserRegistry {
    fn default() -> (r: Self)
        ensures
            r.parsers() == seq![
                RegisteredParser::CodexSessionJsonl(CodexSessionJsonlParser),
                RegisteredParser::GenericJsonl(GenericJsonlParser),
                RegisteredParser::GenericJson(GenericJsonParser),
            ],
    {
        let mut parsers: Vec<RegisteredParser> = Vec::new();
        parsers.push(RegisteredParser::CodexSessionJsonl(CodexSessionJsonlParser));
        parsers.push(RegisteredParser::GenericJsonl(GenericJsonlParser));
        parsers.push(RegisteredParser::GenericJson(GenericJsonParser));
        ParserRegistry { parsers }
    }
}

/// The default registry gives Codex logs to the Codex parser, other JSON Lines files to the
/// generic JSON Lines parser, and everything else to the JSON parser.
pub proof fn lemma_default_registry_choice(target: ParserTarget)
    ensures
        ({
            let ps = seq![
                RegisteredParser::CodexSessionJsonl(CodexSessionJsonlParser),
                RegisteredParser::GenericJsonl(GenericJsonlParser),
                RegisteredParser::GenericJson(GenericJsonParser),
            ];
            let chosen = key_of(ps[best_index(ps, target)]);
            &&& target.extension@ == "jsonl"@ && (contains(target.sample@, "\"type\": \"session_meta\""@)
                || contains(target.sample@, "\"type\":\"session_meta\""@)) ==> chosen == "codex_session_jsonl"@
            &&& target.extension@ == "jsonl"@ && !(contains(target.sample@, "\"type\": \"session_meta\""@)
                || contains(target.sample@, "\"type\":\"session_meta\""@)) ==> chosen == "generic_jsonl"@
            &&& target.extension@ != "jsonl"@ ==> chosen == "generic_json"@
        }),
{
    let ps = seq![
        RegisteredParser::CodexSessionJsonl(CodexSessionJsonlParser),
        RegisteredParser::GenericJsonl(GenericJsonlParser),
        RegisteredParser::GenericJson(GenericJsonParser),
    ];
    let p1 = ps.drop_last().drop_last();
    let p2 = ps.drop_last();
    assert(p1 =~= seq![RegisteredParser::CodexSessionJsonl(CodexSessionJsonlParser)]);
    assert(p2 =~= seq![RegisteredParser::CodexSessionJsonl(CodexSessionJsonlParser), RegisteredParser::GenericJsonl(GenericJsonlParser)]);
    assert(best_index(p1, target) == 0);
    assert(p2.drop_last() == p1);
    assert(ps.last() == RegisteredParser::GenericJson(GenericJsonParser));
    assert(p2.last() == RegisteredParser::GenericJsonl(GenericJsonlParser));
    assert("jsonl"@ != "json"@) by {
        reveal_strlit("jsonl");
        reveal_strlit("json");
        assert("jsonl"@.len() != "json"@.len());
    }
    let b2 = best_index(p2, target);
    if target.extension@ == "jsonl"@ {
        if contains(target.sample@, "\"type\": \"session_meta\""@) || contains(target.sample@, "\"type\":\"session_meta\""@) {
            assert(b2 == 0);
            assert(best_index(ps, target) == 0);
        } else {
            assert(b2 == 1);
            assert(best_index(ps, target) == 1);
        }
    } else {
        assert(b2 == 1);
        assert(best_index(ps, target) == 2);
    }
}

} // verus!
