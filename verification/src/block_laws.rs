//! What holds of the check of one block.
use vstd::prelude::*;

use crate::block::{
    block_outcome, block_ran, caveat_message, caveat_outcome, caveat_outcomes,
    caveats_outcome, failures, messages_of, none_bad, reserved, verifier_label, Block, BlockModel,
};
use crate::laws::{lemma_block_determined, single_valued};
use crate::symbols::SymbolTable;
use crate::terms::{views, Fact, Rule, RuleModel};
use crate::world::{Answers, Engine, World, WorldModel};

verus! {

/// `more` are the messages `fewer`, or these and behind them one message: that the verifier's
/// caveat at place `j` does not hold.
pub open spec fn one_more_at_most(
    answers: Answers,
    symbols: Seq<Seq<char>>,
    j: nat,
    caveat: RuleModel,
    fewer: Seq<Seq<char>>,
    more: Seq<Seq<char>>,
) -> bool {
    more == fewer || exists|text: Seq<char>| #[trigger]
        (answers.print_rule)(symbols, caveat, text) && more == fewer.push(
            caveat_message(verifier_label(), j, text),
        )
}

/// One more verifier caveat leaves the messages about the others, and adds one at most.
proof fn lemma_one_more_caveat(
    answers: Answers,
    world: WorldModel,
    symbols: Seq<Seq<char>>,
    caveats: Seq<RuleModel>,
    caveat: RuleModel,
    more: Seq<Seq<char>>,
) -> (fewer: Seq<Seq<char>>)
    requires
        caveats_outcome(answers, world, symbols, verifier_label(), caveats.push(caveat), more),
    ensures
        caveats_outcome(answers, world, symbols, verifier_label(), caveats, fewer),
        one_more_at_most(answers, symbols, caveats.len(), caveat, fewer, more),
{
    let label = verifier_label();
    let longer = caveats.push(caveat);
    let outcomes = choose|outcomes: Seq<Option<Seq<char>>>| #[trigger]
        caveat_outcomes(answers, world, symbols, label, longer, outcomes) && more == failures(
            outcomes,
        );
    let earlier = outcomes.drop_last();
    assert forall|j: int| 0 <= j < caveats.len() implies caveat_outcome(
        answers,
        world,
        symbols,
        label,
        j as nat,
        caveats[j],
        #[trigger] earlier[j],
    ) by {
        assert(longer[j] == caveats[j]);
        assert(earlier[j] == outcomes[j]);
    }
    assert(caveat_outcomes(answers, world, symbols, label, caveats, earlier));
    let n: int = caveats.len() as int;
    assert(caveat_outcome(answers, world, symbols, label, n as nat, longer[n], outcomes[n]));
    failures(earlier)
}

/// The caveats of a verifier are asked for one by one: what a block check with one more caveat may
/// give, a check without that caveat may give too, but for a message at the end about that caveat.
pub proof fn law_verifier_caveat_comes_last(
    answers: Answers,
    block: BlockModel,
    i: nat,
    world: WorldModel,
    symbols: Seq<Seq<char>>,
    verifier_caveats: Seq<RuleModel>,
    caveat: RuleModel,
    more: Seq<Seq<char>>,
)
    requires
        none_bad(block.facts, reserved(symbols)),
        block_outcome(answers, block, i, world, symbols, verifier_caveats.push(caveat), more),
    ensures
        exists|fewer: Seq<Seq<char>>| #[trigger]
            block_outcome(answers, block, i, world, symbols, verifier_caveats, fewer)
                && one_more_at_most(
                answers,
                symbols,
                verifier_caveats.len(),
                caveat,
                fewer,
                more,
            ),
{
    let longer = verifier_caveats.push(caveat);
    let (ran, own, theirs) = choose|
        ran: WorldModel,
        own: Seq<Seq<char>>,
        theirs: Seq<Seq<char>>,
    | #[trigger]
        block_ran(answers, block, i, world, symbols, longer, ran, own, theirs) && more == own
            + theirs;
    let others = lemma_one_more_caveat(answers, ran, symbols, verifier_caveats, caveat, theirs);
    let fewer = own + others;
    assert(block_ran(
        answers,
        block,
        i,
        world,
        symbols,
        verifier_caveats,
        ran,
        own,
        others,
    ));
    assert(block_outcome(answers, block, i, world, symbols, verifier_caveats, fewer));
    if theirs != others {
        let text = choose|text: Seq<char>| #[trigger]
            (answers.print_rule)(symbols, caveat, text) && theirs == others.push(
                caveat_message(verifier_label(), verifier_caveats.len(), text),
            );
        assert(more =~= fewer.push(
            caveat_message(verifier_label(), verifier_caveats.len(), text),
        ));
    }
}

/// One more verifier caveat adds at most one message, at the end, and changes no other: where the
/// engine decides once and writes in one way, and the block states no reserved fact.
pub proof fn law_verifier_caveat_adds_one(
    answers: Answers,
    block: BlockModel,
    i: nat,
    world: WorldModel,
    symbols: Seq<Seq<char>>,
    verifier_caveats: Seq<RuleModel>,
    caveat: RuleModel,
    fewer: Seq<Seq<char>>,
    more: Seq<Seq<char>>,
)
    requires
        single_valued(answers),
        none_bad(block.facts, reserved(symbols)),
        block_outcome(answers, block, i, world, symbols, verifier_caveats, fewer),
        block_outcome(answers, block, i, world, symbols, verifier_caveats.push(caveat), more),
    ensures
        one_more_at_most(answers, symbols, verifier_caveats.len(), caveat, fewer, more),
{
    law_verifier_caveat_comes_last(
        answers,
        block,
        i,
        world,
        symbols,
        verifier_caveats,
        caveat,
        more,
    );
    let same = choose|same: Seq<Seq<char>>| #[trigger]
        block_outcome(answers, block, i, world, symbols, verifier_caveats, same)
            && one_more_at_most(answers, symbols, verifier_caveats.len(), caveat, same, more);
    lemma_block_determined(
        answers,
        block,
        i,
        world,
        symbols,
        verifier_caveats,
        fewer,
        same,
    );
}

/// One more verifier caveat adds at most one message, at the end, and changes no other, over the
/// calls of `Block::check`.
pub proof fn law_verifier_caveat_adds_one_to_check<R, Q, F, P>(
    block: Block,
    i: usize,
    world: World,
    same_world: World,
    symbols: SymbolTable,
    verifier_caveats: &[Rule],
    longer_caveats: &[Rule],
    caveat: Rule,
    engine: Engine<R, Q, F, P>,
    fewer: Result<(), Vec<String>>,
    more: Result<(), Vec<String>>,
) where
    R: Fn(World) -> World,
    Q: Fn(&World, &Rule) -> Vec<Fact>,
    F: Fn(&SymbolTable, &Fact) -> String,
    P: Fn(&SymbolTable, &Rule) -> String,

    requires
        single_valued(engine.answers()),
        none_bad(block@.facts, reserved(symbols@)),
        same_world@ == world@,
        views(longer_caveats@) == views(verifier_caveats@).push(caveat@),
        call_ensures(
            Block::check::<R, Q, F, P>,
            (&block, i, world, &symbols, verifier_caveats, &engine),
            fewer,
        ),
        call_ensures(
            Block::check::<R, Q, F, P>,
            (&block, i, same_world, &symbols, longer_caveats, &engine),
            more,
        ),
    ensures
        one_more_at_most(
            engine.answers(),
            symbols@,
            verifier_caveats@.len(),
            caveat@,
            messages_of(fewer),
            messages_of(more),
        ),
        more is Ok ==> fewer is Ok,
{
    law_verifier_caveat_adds_one(
        engine.answers(),
        block@,
        i as nat,
        world@,
        symbols@,
        views(verifier_caveats@),
        caveat@,
        messages_of(fewer),
        messages_of(more),
    );
    if more is Ok {
        assert(messages_of(more).len() == 0);
    }
}

/// A block check looks at the facts and caveats of a block only: blocks that agree on these may
/// give the same messages, whatever their own indexes and strings are.
pub proof fn law_index_and_strings_not_consulted(
    answers: Answers,
    block: BlockModel,
    other: BlockModel,
    i: nat,
    world: WorldModel,
    symbols: Seq<Seq<char>>,
    verifier_caveats: Seq<RuleModel>,
    messages: Seq<Seq<char>>,
)
    requires
        block.facts == other.facts,
        block.caveats == other.caveats,
    ensures
        block_outcome(answers, block, i, world, symbols, verifier_caveats, messages)
            == block_outcome(answers, other, i, world, symbols, verifier_caveats, messages),
{
    assert forall|ran: WorldModel, own: Seq<Seq<char>>, theirs: Seq<Seq<char>>|
        #![trigger block_ran(answers, block, i, world, symbols, verifier_caveats, ran, own, theirs)]
        #![trigger block_ran(answers, other, i, world, symbols, verifier_caveats, ran, own, theirs)]
        block_ran(answers, block, i, world, symbols, verifier_caveats, ran, own, theirs)
            == block_ran(
            answers,
            other,
            i,
            world,
            symbols,
            verifier_caveats,
            ran,
            own,
            theirs,
        ) by {}
}

/// The index and the strings of a block do not matter to its check: blocks with the same facts and
/// caveats give the same messages for the same place, world, strings and verifier caveats, where
/// the engine decides once and writes in one way.
pub proof fn law_same_content_same_messages(
    answers: Answers,
    block: BlockModel,
    other: BlockModel,
    i: nat,
    world: WorldModel,
    symbols: Seq<Seq<char>>,
    verifier_caveats: Seq<RuleModel>,
    one: Seq<Seq<char>>,
    two: Seq<Seq<char>>,
)
    requires
        single_valued(answers),
        block.facts == other.facts,
        block.caveats == other.caveats,
        block_outcome(answers, block, i, world, symbols, verifier_caveats, one),
        block_outcome(answers, other, i, world, symbols, verifier_caveats, two),
    ensures
        one == two,
{
    law_index_and_strings_not_consulted(
        answers,
        block,
        other,
        i,
        world,
        symbols,
        verifier_caveats,
        two,
    );
    lemma_block_determined(answers, block, i, world, symbols, verifier_caveats, one, two);
}

/// The index and the strings of a block do not matter to its check, over the calls of
/// `Block::check`.
pub proof fn law_same_content_same_check<R, Q, F, P>(
    block: Block,
    other: Block,
    i: usize,
    world: World,
    same_world: World,
    symbols: SymbolTable,
    verifier_caveats: &[Rule],
    engine: Engine<R, Q, F, P>,
    one: Result<(), Vec<String>>,
    two: Result<(), Vec<String>>,
) where
    R: Fn(World) -> World,
    Q: Fn(&World, &Rule) -> Vec<Fact>,
    F: Fn(&SymbolTable, &Fact) -> String,
    P: Fn(&SymbolTable, &Rule) -> String,

    requires
        single_valued(engine.answers()),
        block@.facts == other@.facts,
        block@.caveats == other@.caveats,
        same_world@ == world@,
        call_ensures(
            Block::check::<R, Q, F, P>,
            (&block, i, world, &symbols, verifier_caveats, &engine),
            one,
        ),
        call_ensures(
            Block::check::<R, Q, F, P>,
            (&other, i, same_world, &symbols, verifier_caveats, &engine),
            two,
        ),
    ensures
        messages_of(one) == messages_of(two),
        (one is Ok) == (two is Ok),
{
    law_same_content_same_messages(
        engine.answers(),
        block@,
        other@,
        i as nat,
        world@,
        symbols@,
        views(verifier_caveats@),
        messages_of(one),
        messages_of(two),
    );
}

} // verus!
