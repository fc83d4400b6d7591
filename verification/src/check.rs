//! Checking a token against what its verifier knows and asks for.
use vstd::prelude::*;

use crate::block::{
    block_outcome, first_bad, messages_of, none_bad, outside, readable, reserved,
};
use crate::symbols::{
    default_symbols, first_at, lemma_default_symbols_distinct, lemma_first_at_prefix,
    lemma_first_at_symbol, symbol_of, SymbolTable,
};
use crate::terms::{views, Fact, PredicateModel, Rule, RuleModel};
use crate::token::{added_symbols, Biscuit, TokenModel};
use crate::world::{in_context, lemma_one_more_fact, Answers, Engine, World, WorldModel};

verus! {

/// The message where the rules of the authority block give a fact without its context.
pub open spec fn generated_message() -> Seq<char> {
    "generated authority facts should have the authority context"@
}

/// The world that the authority block describes.
pub open spec fn authority_world(token: TokenModel) -> WorldModel {
    WorldModel { facts: token.authority.facts.to_set(), rules: token.authority.caveats }
}

/// Singles out the facts that an authority block may not state.
pub open spec fn not_authority(token: TokenModel) -> spec_fn(PredicateModel) -> bool {
    outside(symbol_of(token.symbols, "authority"@))
}

/// Singles out the facts that a verifier may not state.
pub open spec fn not_ambient(token: TokenModel) -> spec_fn(PredicateModel) -> bool {
    outside(symbol_of(token.symbols, "ambient"@))
}

/// Every fact of the world has the authority context.
pub open spec fn authority_only(token: TokenModel, world: WorldModel) -> bool {
    forall|f: PredicateModel| #[trigger]
        world.facts.contains(f) ==> in_context(f, symbol_of(token.symbols, "authority"@))
}

/// The authority block states, and its rules may give, facts with the authority context only.
pub open spec fn authority_may_pass(answers: Answers, token: TokenModel) -> bool {
    &&& none_bad(token.authority.facts, not_authority(token))
    &&& exists|ran: WorldModel| #[trigger]
        (answers.run)(authority_world(token), ran) && authority_only(token, ran)
}

/// Checking the blocks of a token one by one, each in the same world, may give these messages for
/// each.
pub open spec fn block_outcomes(
    answers: Answers,
    token: TokenModel,
    world: WorldModel,
    verifier_caveats: Seq<RuleModel>,
    parts: Seq<Seq<Seq<char>>>,
) -> bool {
    &&& parts.len() == token.blocks.len()
    &&& forall|i: int|
        0 <= i < token.blocks.len() ==> block_outcome(
            answers,
            token.blocks[i],
            i as nat,
            world,
            token.symbols,
            verifier_caveats,
            #[trigger] parts[i],
        )
}

/// Checking the blocks of a token one by one may give these messages.
pub open spec fn blocks_outcome(
    answers: Answers,
    token: TokenModel,
    world: WorldModel,
    verifier_caveats: Seq<RuleModel>,
    messages: Seq<Seq<char>>,
) -> bool {
    exists|parts: Seq<Seq<Seq<char>>>| #[trigger]
        block_outcomes(answers, token, world, verifier_caveats, parts) && messages
            == parts.flatten_alt()
}

/// Running a world with what the verifier brings may give `ran`, and checking the blocks with its
/// facts may then give these messages.
pub open spec fn verifier_ran(
    answers: Answers,
    token: TokenModel,
    authority: WorldModel,
    ambient_facts: Seq<PredicateModel>,
    ambient_rules: Seq<RuleModel>,
    ambient_caveats: Seq<RuleModel>,
    ran: WorldModel,
    messages: Seq<Seq<char>>,
) -> bool {
    &&& (answers.run)(authority.with_facts(ambient_facts).with_rules(ambient_rules), ran)
    &&& blocks_outcome(
        answers,
        token,
        WorldModel { facts: ran.facts, rules: ambient_rules },
        ambient_caveats,
        messages,
    )
}

/// Checking a token after its authority rules have been run may give these messages.
pub open spec fn verifier_outcome(
    answers: Answers,
    token: TokenModel,
    authority: WorldModel,
    ambient_facts: Seq<PredicateModel>,
    ambient_rules: Seq<RuleModel>,
    ambient_caveats: Seq<RuleModel>,
    messages: Seq<Seq<char>>,
) -> bool {
    if !authority_only(token, authority) {
        messages == seq![generated_message()]
    } else if !none_bad(ambient_facts, not_ambient(token)) {
        exists|k: int, fact: Seq<char>|
            {
                &&& #[trigger] first_bad(ambient_facts, not_ambient(token), k)
                &&& #[trigger] (answers.print_fact)(token.symbols, ambient_facts[k], fact)
                &&& messages == seq!["invalid ambient fact: "@ + fact]
            }
    } else {
        exists|ran: WorldModel| #[trigger]
            verifier_ran(
                answers,
                token,
                authority,
                ambient_facts,
                ambient_rules,
                ambient_caveats,
                ran,
                messages,
            )
    }
}

/// Running the world of the authority block may give `ran`, and the rest of the check may then
/// give these messages.
pub open spec fn authority_ran(
    answers: Answers,
    token: TokenModel,
    ambient_facts: Seq<PredicateModel>,
    ambient_rules: Seq<RuleModel>,
    ambient_caveats: Seq<RuleModel>,
    ran: WorldModel,
    messages: Seq<Seq<char>>,
) -> bool {
    &&& (answers.run)(authority_world(token), ran)
    &&& verifier_outcome(
        answers,
        token,
        ran,
        ambient_facts,
        ambient_rules,
        ambient_caveats,
        messages,
    )
}

/// Checking a token may give these messages.
pub open spec fn check_outcome(
    answers: Answers,
    token: TokenModel,
    ambient_facts: Seq<PredicateModel>,
    ambient_rules: Seq<RuleModel>,
    ambient_caveats: Seq<RuleModel>,
    messages: Seq<Seq<char>>,
) -> bool {
    if !none_bad(token.authority.facts, not_authority(token)) {
        exists|k: int, fact: Seq<char>|
            {
                &&& #[trigger] first_bad(token.authority.facts, not_authority(token), k)
                &&& #[trigger] (answers.print_fact)(token.symbols, token.authority.facts[k], fact)
                &&& messages == seq!["invalid authority fact: "@ + fact]
            }
    } else {
        exists|ran: WorldModel| #[trigger]
            authority_ran(
                answers,
                token,
                ambient_facts,
                ambient_rules,
                ambient_caveats,
                ran,
                messages,
            )
    }
}

/// Every token has symbols for its two contexts, the first two of its table.
pub proof fn lemma_contexts(token: TokenModel)
    requires
        token.wf(),
    ensures
        first_at(token.symbols, "authority"@, 0),
        first_at(token.symbols, "ambient"@, 1),
        symbol_of(token.symbols, "authority"@) == 0,
        symbol_of(token.symbols, "ambient"@) == 1,
        token.symbols.contains("authority"@),
        token.symbols.contains("ambient"@),
{
    lemma_default_symbols_distinct();
    let d = default_symbols();
    let rest = token.authority.symbols + added_symbols(token.blocks);
    assert(token.symbols =~= d + rest);
    assert(first_at(d, "authority"@, 0));
    assert(d[0] != d[1]);
    assert(first_at(d, "ambient"@, 1));
    lemma_first_at_prefix(d, rest, "authority"@, 0);
    lemma_first_at_prefix(d, rest, "ambient"@, 1);
    lemma_first_at_symbol(token.symbols, "authority"@, 0);
    lemma_first_at_symbol(token.symbols, "ambient"@, 1);
    assert(token.symbols[0] == "authority"@);
    assert(token.symbols[1] == "ambient"@);
}

/// A message with one part before a text.
fn message_with(start: &str, text: &String) -> (r: Vec<String>)
    ensures
        views(r@) == seq![start@ + text@],
{
    let mut m = start.to_owned();
    m.append(text.as_str());
    let r = vec![m];
    assert(views(r@) =~= seq![start@ + text@]);
    r
}

/// Why the verifier's part of a world cannot be built.
pub enum AmbientFault {
    /// The authority rules gave a fact without the authority context.
    Generated,
    /// The verifier's fact at this place does not have the ambient context.
    Fact(usize),
}

impl Biscuit {
    /// The world that the authority block describes, or the place of its first fact without the
    /// authority context.
    pub fn authority_world(&self) -> (r: Result<World, usize>)
        requires
            readable(self@.authority.facts, not_authority(self@)),
        ensures
            match r {
                Ok(w) => none_bad(self@.authority.facts, not_authority(self@)) && w@
                    == authority_world(self@),
                Err(k) => first_bad(self@.authority.facts, not_authority(self@), k as int),
            },
    {
        let authority = self.authority();
        let symbols = self.symbols();
        proof {
            lemma_contexts(self@);
        }
        let authority_index = symbols.get("authority").unwrap();
        let ghost bad = not_authority(self@);
        let ghost facts = self@.authority.facts;
        let mut world = World::new();
        let ghost start = world@;
        assert(start.with_facts(facts.take(0)) =~= start);
        for k in 0..authority.facts.len()
            invariant
                facts == views(authority.facts@),
                facts == self@.authority.facts,
                bad == not_authority(self@),
                bad == outside(authority_index),
                forall|j: int| 0 <= j < k ==> !bad(#[trigger] facts[j]),
                world@ == start.with_facts(facts.take(k as int)),
        {
            let fact = &authority.facts[k];
            assert(facts[k as int] == fact@);
            if !fact.has_context(authority_index) {
                return Err(k);
            }
            world.add_fact(fact.clone());
            proof {
                lemma_one_more_fact(start, facts, k as int);
            }
        }
        assert(facts.take(facts.len() as int) =~= facts);
        // What an authority block calls caveats are the rules of its world.
        world.add_rules(&authority.caveats);
        assert(world@ =~= authority_world(self@));
        Ok(world)
    }

    /// What the authority rules gave, together with the verifier's facts and rules, or why the two
    /// cannot be put together.
    pub fn ambient_world(
        &self,
        world: World,
        ambient_facts: &Vec<Fact>,
        ambient_rules: &Vec<Rule>,
    ) -> (r: Result<World, AmbientFault>)
        requires
            authority_only(self@, world@) ==> readable(views(ambient_facts@), not_ambient(self@)),
        ensures
            match r {
                Ok(w) => {
                    &&& authority_only(self@, world@)
                    &&& none_bad(views(ambient_facts@), not_ambient(self@))
                    &&& w@ == world@.with_facts(views(ambient_facts@)).with_rules(
                        views(ambient_rules@),
                    )
                },
                Err(AmbientFault::Generated) => !authority_only(self@, world@),
                Err(AmbientFault::Fact(k)) => authority_only(self@, world@) && first_bad(
                    views(ambient_facts@),
                    not_ambient(self@),
                    k as int,
                ),
            },
    {
        let symbols = self.symbols();
        proof {
            lemma_contexts(self@);
        }
        let authority_index = symbols.get("authority").unwrap();
        let ambient_index = symbols.get("ambient").unwrap();
        if !world.all_in_context(authority_index) {
            return Err(AmbientFault::Generated);
        }
        let ghost bad = not_ambient(self@);
        let ghost facts = views(ambient_facts@);
        let ghost start = world@;
        let mut joined = world;
        assert(start.with_facts(facts.take(0)) =~= start);
        for k in 0..ambient_facts.len()
            invariant
                facts == views(ambient_facts@),
                authority_only(self@, start),
                bad == not_ambient(self@),
                bad == outside(ambient_index),
                forall|j: int| 0 <= j < k ==> !bad(#[trigger] facts[j]),
                start == world@,
                joined@ == start.with_facts(facts.take(k as int)),
        {
            let fact = &ambient_facts[k];
            assert(facts[k as int] == fact@);
            if !fact.has_context(ambient_index) {
                return Err(AmbientFault::Fact(k));
            }
            joined.add_fact(fact.clone());
            proof {
                lemma_one_more_fact(start, facts, k as int);
            }
        }
        assert(facts.take(facts.len() as int) =~= facts);
        joined.add_rules(ambient_rules);
        Ok(joined)
    }

    /// Checks the token with the facts, rules and caveats of a verifier.
    ///
    /// The authority block may state, and its rules may give, only facts with the authority
    /// context, and the verifier only facts with the ambient context. (A fact without identifiers
    /// has no context.) Each block is then checked by itself in a world with these facts and the
    /// verifier's rules.
    pub fn check<R, Q, F, P>(
        &self,
        ambient_facts: Vec<Fact>,
        ambient_rules: Vec<Rule>,
        ambient_caveats: Vec<Rule>,
        engine: &Engine<R, Q, F, P>,
    ) -> (r: Result<(), Vec<String>>) where
        R: Fn(World) -> World,
        Q: Fn(&World, &Rule) -> Vec<Fact>,
        F: Fn(&SymbolTable, &Fact) -> String,
        P: Fn(&SymbolTable, &Rule) -> String,

        requires
            engine.ready(),
            readable(self@.authority.facts, not_authority(self@)),
            authority_may_pass(engine.answers(), self@) ==> readable(
                views(ambient_facts@),
                not_ambient(self@),
            ),
            authority_may_pass(engine.answers(), self@) && none_bad(
                views(ambient_facts@),
                not_ambient(self@),
            ) ==> forall|i: int|
                0 <= i < self@.blocks.len() ==> readable(
                    (#[trigger] self@.blocks[i]).facts,
                    reserved(self@.symbols),
                ),
        ensures
            check_outcome(
                engine.answers(),
                self@,
                views(ambient_facts@),
                views(ambient_rules@),
                views(ambient_caveats@),
                messages_of(r),
            ),
            r is Err ==> messages_of(r).len() > 0,
    {
        let ghost answers = engine.answers();
        let ghost token = self@;
        let symbols = self.symbols();
        proof {
            lemma_contexts(self@);
        }
        let world = match self.authority_world() {
            Ok(world) => world,
            Err(k) => {
                let fact = (engine.print_fact)(symbols, &self.authority().facts[k]);
                assert((answers.print_fact)(token.symbols, token.authority.facts[k as int], fact@));
                return Err(message_with("invalid authority fact: ", &fact));
            },
        };
        let ran = (engine.run)(world);
        let ghost first = ran@;
        assert((answers.run)(authority_world(token), first));
        let world = match self.ambient_world(ran, &ambient_facts, &ambient_rules) {
            Ok(world) => world,
            Err(AmbientFault::Generated) => {
                let m = "generated authority facts should have the authority context".to_owned();
                let errors = vec![m];
                assert(views(errors@) =~= seq![generated_message()]);
                proof {
                    assert(authority_ran(
                        answers,
                        token,
                        views(ambient_facts@),
                        views(ambient_rules@),
                        views(ambient_caveats@),
                        first,
                        views(errors@),
                    ));
                }
                return Err(errors);
            },
            Err(AmbientFault::Fact(k)) => {
                let fact = (engine.print_fact)(symbols, &ambient_facts[k]);
                assert((answers.print_fact)(
                    token.symbols,
                    views(ambient_facts@)[k as int],
                    fact@,
                ));
                let errors = message_with("invalid ambient fact: ", &fact);
                assert(authority_ran(
                    answers,
                    token,
                    views(ambient_facts@),
                    views(ambient_rules@),
                    views(ambient_caveats@),
                    first,
                    views(errors@),
                ));
                return Err(errors);
            },
        };
        let ghost joined = world@;
        let mut world = (engine.run)(world);
        assert((answers.run)(joined, world@));
        let ghost second = world@;
        // Only the verifier's rules stay for the blocks.
        let ghost rules = views(ambient_rules@);
        world.replace_rules(ambient_rules);
        let blocks = self.blocks();
        let mut errors: Vec<String> = Vec::new();
        let ghost mut parts: Seq<Seq<Seq<char>>> = Seq::empty();
        assert(views(errors@) =~= parts.flatten_alt());
        for i in 0..blocks.len()
            invariant
                engine.ready(),
                answers == engine.answers(),
                token == self@,
                symbols@ == token.symbols,
                views(blocks@) == token.blocks,
                token.symbols.contains("authority"@),
                token.symbols.contains("ambient"@),
                forall|j: int|
                    0 <= j < token.blocks.len() ==> readable(
                        (#[trigger] token.blocks[j]).facts,
                        reserved(token.symbols),
                    ),
                world@ == (WorldModel { facts: second.facts, rules }),
                parts.len() == i,
                forall|j: int|
                    0 <= j < i ==> block_outcome(
                        answers,
                        token.blocks[j],
                        j as nat,
                        world@,
                        token.symbols,
                        views(ambient_caveats@),
                        #[trigger] parts[j],
                    ),
                views(errors@) == parts.flatten_alt(),
        {
            let w = world.clone();
            assert(token.blocks[i as int] == blocks@[i as int]@);
            let res = blocks[i].check(i, w, symbols, ambient_caveats.as_slice(), engine);
            let ghost part = messages_of(res);
            let ghost before = views(errors@);
            match res {
                Ok(_) => {},
                Err(e) => {
                    let mut e = e;
                    errors.append(&mut e);
                },
            }
            assert(views(errors@) =~= before + part);
            proof {
                let old_parts = parts;
                parts = parts.push(part);
                assert(parts.drop_last() =~= old_parts);
                assert(parts.last() == part);
            }
        }
        assert(block_outcomes(answers, token, world@, views(ambient_caveats@), parts));
        assert(verifier_ran(
            answers,
            token,
            first,
            views(ambient_facts@),
            rules,
            views(ambient_caveats@),
            second,
            views(errors@),
        ));
        assert(authority_ran(
            answers,
            token,
            views(ambient_facts@),
            rules,
            views(ambient_caveats@),
            first,
            views(errors@),
        ));
        if errors.is_empty() {
            assert(views(errors@) =~= Seq::empty());
            Ok(())
        } else {
            Err(errors)
        }
    }
}

} // verus!
