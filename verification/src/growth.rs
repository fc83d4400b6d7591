//! What holds of checks when more is known.
use vstd::prelude::*;

use crate::block::{block_outcome, messages_of, none_bad, reserved, Block, BlockModel};
use crate::check::{authority_only, authority_world, check_outcome, not_ambient};
use crate::laws::{
    block_always_satisfied, block_satisfied, caveats_hold, finds_as_much,
    law_nothing_wrong_passes, law_pass_means_caveats_hold, lemma_passed_block,
    lemma_satisfied_block, lemma_still_hold, never_empty, runs_satisfy,
};
use crate::symbols::SymbolTable;
use crate::terms::{views, Fact, PredicateModel, Rule, RuleModel};
use crate::token::TokenModel;
use crate::world::{Answers, Engine, World, WorldModel};

verus! {

/// Every item of the one is an item of the other.
pub open spec fn all_among<T>(few: Seq<T>, many: Seq<T>) -> bool {
    forall|x: T| #[trigger] few.contains(x) ==> many.contains(x)
}

/// What is known in the one world, as a fact or as a rule, is known in the other.
pub open spec fn within(smaller: WorldModel, larger: WorldModel) -> bool {
    smaller.facts.subset_of(larger.facts) && all_among(smaller.rules, larger.rules)
}

/// The answers of the engine grow with the world: a run of a larger world gives a larger world, and
/// a query that finds a fact in a world finds one in a larger world.
pub open spec fn grows(answers: Answers) -> bool {
    &&& forall|w: WorldModel, x: WorldModel, a: WorldModel, b: WorldModel|
        within(w, x) && #[trigger] (answers.run)(w, a) && #[trigger] (answers.run)(x, b)
            ==> within(a, b)
    &&& forall|w: WorldModel, x: WorldModel| #[trigger]
        within(w, x) ==> finds_as_much(answers, w, x)
}

/// More facts and rules never undo a block check: a block that can pass in a world passes in every
/// larger world, where the answers of the engine grow with the world.
pub proof fn law_larger_world_keeps_block(
    answers: Answers,
    block: BlockModel,
    i: nat,
    smaller: WorldModel,
    larger: WorldModel,
    symbols: Seq<Seq<char>>,
    verifier_caveats: Seq<RuleModel>,
    messages: Seq<Seq<char>>,
)
    requires
        grows(answers),
        within(smaller, larger),
        block_outcome(answers, block, i, smaller, symbols, verifier_caveats, Seq::empty()),
        block_outcome(answers, block, i, larger, symbols, verifier_caveats, messages),
    ensures
        messages.len() == 0,
{
    lemma_passed_block(answers, block, i, smaller, symbols, verifier_caveats, Seq::empty());
    lemma_satisfied_in_larger(answers, block, smaller, larger, verifier_caveats);
    lemma_satisfied_block(answers, block, i, larger, symbols, verifier_caveats, messages);
}

/// What satisfies a block in a world does so in every run of a larger world.
proof fn lemma_satisfied_in_larger(
    answers: Answers,
    block: BlockModel,
    smaller: WorldModel,
    larger: WorldModel,
    verifier_caveats: Seq<RuleModel>,
)
    requires
        grows(answers),
        within(smaller, larger),
        block_satisfied(answers, block, smaller, verifier_caveats),
    ensures
        forall|ran: WorldModel| #[trigger]
            (answers.run)(larger.with_facts(block.facts), ran) ==> never_empty(
                answers,
                ran,
                block.caveats,
            ) && never_empty(answers, ran, verifier_caveats),
{
    assert(within(smaller.with_facts(block.facts), larger.with_facts(block.facts)));
    let before = choose|ran: WorldModel|
        {
            &&& #[trigger] (answers.run)(smaller.with_facts(block.facts), ran)
            &&& caveats_hold(answers, ran, block.caveats)
            &&& caveats_hold(answers, ran, verifier_caveats)
        };
    assert forall|ran: WorldModel| #[trigger]
        (answers.run)(larger.with_facts(block.facts), ran) implies never_empty(
        answers,
        ran,
        block.caveats,
    ) && never_empty(answers, ran, verifier_caveats) by {
        assert(within(before, ran));
        lemma_still_hold(answers, before, ran, block.caveats);
        lemma_still_hold(answers, before, ran, verifier_caveats);
    }
}

/// More facts and rules never undo a block check, over the calls: where `Block::check` returned
/// `Ok` for a world, it returns `Ok` for every larger world.
pub proof fn law_larger_world_keeps_block_check<R, Q, F, P>(
    block: Block,
    i: usize,
    smaller: World,
    larger: World,
    symbols: SymbolTable,
    verifier_caveats: &[Rule],
    engine: Engine<R, Q, F, P>,
    result: Result<(), Vec<String>>,
) where
    R: Fn(World) -> World,
    Q: Fn(&World, &Rule) -> Vec<Fact>,
    F: Fn(&SymbolTable, &Fact) -> String,
    P: Fn(&SymbolTable, &Rule) -> String,

    requires
        grows(engine.answers()),
        within(smaller@, larger@),
        call_ensures(
            Block::check::<R, Q, F, P>,
            (&block, i, smaller, &symbols, verifier_caveats, &engine),
            Ok::<(), Vec<String>>(()),
        ),
        call_ensures(
            Block::check::<R, Q, F, P>,
            (&block, i, larger, &symbols, verifier_caveats, &engine),
            result,
        ),
    ensures
        result is Ok,
{
    assert(messages_of(Ok(())) =~= Seq::empty());
    law_larger_world_keeps_block(
        engine.answers(),
        block@,
        i as nat,
        smaller@,
        larger@,
        symbols@,
        views(verifier_caveats@),
        messages_of(result),
    );
}

/// A verifier that brings more never turns a token away that has passed: where a token can pass a
/// check, it passes with further facts of the ambient context and with further rules.
pub proof fn law_more_from_verifier_keeps_pass(
    answers: Answers,
    token: TokenModel,
    few_facts: Seq<PredicateModel>,
    few_rules: Seq<RuleModel>,
    more_facts: Seq<PredicateModel>,
    more_rules: Seq<RuleModel>,
    ambient_caveats: Seq<RuleModel>,
    messages: Seq<Seq<char>>,
)
    requires
        grows(answers),
        all_among(few_facts, more_facts),
        all_among(few_rules, more_rules),
        none_bad(more_facts, not_ambient(token)),
        check_outcome(answers, token, few_facts, few_rules, ambient_caveats, Seq::empty()),
        check_outcome(answers, token, more_facts, more_rules, ambient_caveats, messages),
    ensures
        messages.len() == 0,
{
    law_pass_means_caveats_hold(answers, token, few_facts, few_rules, ambient_caveats);
    let (first, then) = choose|first: WorldModel, then: WorldModel| #[trigger]
        runs_satisfy(
            answers,
            token,
            few_facts,
            few_rules,
            ambient_caveats,
            first,
            then,
        );
    let start = authority_world(token);
    assert(within(start, start));
    assert forall|ran: WorldModel| #[trigger] (answers.run)(start, ran) implies authority_only(
        token,
        ran,
    ) by {
        assert(within(ran, first));
    }
    assert forall|i: int| 0 <= i < token.blocks.len() implies none_bad(
        (#[trigger] token.blocks[i]).facts,
        reserved(token.symbols),
    ) && block_always_satisfied(
        answers,
        token,
        more_facts,
        more_rules,
        ambient_caveats,
        i,
    ) by {
        let block = token.blocks[i];
        let world = WorldModel { facts: then.facts, rules: few_rules };
        assert(block_satisfied(answers, block, world, ambient_caveats));
        assert forall|a: WorldModel, b: WorldModel, ran: WorldModel|
            #![trigger (answers.run)(start, a), (answers.run)(
                a.with_facts(more_facts).with_rules(more_rules),
                b,
            ), (answers.run)(
                (WorldModel { facts: b.facts, rules: more_rules }).with_facts(block.facts),
                ran,
            )]
            (answers.run)(start, a) && (answers.run)(
                a.with_facts(more_facts).with_rules(more_rules),
                b,
            ) && (answers.run)(
                (WorldModel { facts: b.facts, rules: more_rules }).with_facts(block.facts),
                ran,
            ) implies never_empty(answers, ran, block.caveats) && never_empty(
            answers,
            ran,
            ambient_caveats,
        ) by {
            let larger = WorldModel { facts: b.facts, rules: more_rules };
            assert(within(first, a));
            lemma_within_verifier(first, a, few_facts, few_rules, more_facts, more_rules);
            assert(within(then, b));
            assert(within(world, larger));
            lemma_satisfied_in_larger(answers, block, world, larger, ambient_caveats);
        }
    }
    law_nothing_wrong_passes(answers, token, more_facts, more_rules, ambient_caveats, messages);
}

/// A larger world with more from the verifier is larger.
proof fn lemma_within_verifier(
    smaller: WorldModel,
    larger: WorldModel,
    few_facts: Seq<PredicateModel>,
    few_rules: Seq<RuleModel>,
    more_facts: Seq<PredicateModel>,
    more_rules: Seq<RuleModel>,
)
    requires
        within(smaller, larger),
        all_among(few_facts, more_facts),
        all_among(few_rules, more_rules),
    ensures
        within(
            smaller.with_facts(few_facts).with_rules(few_rules),
            larger.with_facts(more_facts).with_rules(more_rules),
        ),
{
    let few = smaller.rules + few_rules;
    let many = larger.rules + more_rules;
    assert forall|r: RuleModel| #[trigger] few.contains(r) implies many.contains(r) by {
        let k: int = few.index_of(r);
        if k < smaller.rules.len() {
            assert(smaller.rules.contains(r));
            let m: int = larger.rules.index_of(r);
            assert(many[m] == r);
        } else {
            assert(few_rules[k - smaller.rules.len()] == r);
            assert(few_rules.contains(r));
            let m: int = more_rules.index_of(r);
            assert(many[larger.rules.len() + m] == r);
        }
    }
}

} // verus!
