//! What checks give, told in plain terms: by first identifiers, places in lists, texts of messages
//! and the calls to the engine.
use vstd::prelude::*;

use crate::block::{
    block_label, block_outcome, block_ran, caveat_message, caveat_outcome, caveat_outcomes,
    caveats_outcome, failures, first_bad, invalid_fact_message, messages_of, none_bad, readable,
    reserved, Block, BlockModel,
};
use crate::check::{
    authority_only, authority_ran, authority_world, block_outcomes, check_outcome, lemma_contexts,
    not_ambient, not_authority, verifier_ran, AmbientFault,
};
use crate::laws::lemma_flat_empty;
use crate::symbols::{lemma_first_at_symbol, SymbolTable};
use crate::terms::{views, Fact, IdModel, PredicateModel, Rule, RuleModel};
use crate::text::decimal;
use crate::token::{Biscuit, TokenModel};
use crate::world::{Engine, World, WorldModel};

verus! {

/// The first identifier of the fact is the symbol of the string at place `place` of a table.
pub open spec fn starts_with(f: PredicateModel, place: int) -> bool {
    f.ids.len() > 0 && f.ids[0] == IdModel::Symbol(place as u64)
}

/// `place` is the first place of a string in a table.
pub open spec fn stands_first(table: Seq<Seq<char>>, s: Seq<char>, place: int) -> bool {
    &&& 0 <= place < table.len()
    &&& table[place] == s
    &&& forall|j: int| 0 <= j < place ==> #[trigger] table[j] != s
}

/// A run of a world with exactly these facts and rules may return `out`.
pub open spec fn ran_to<R, Q, F, P>(
    engine: Engine<R, Q, F, P>,
    facts: Set<PredicateModel>,
    rules: Seq<RuleModel>,
    out: WorldModel,
) -> bool where
    R: Fn(World) -> World,
    Q: Fn(&World, &Rule) -> Vec<Fact>,
    F: Fn(&SymbolTable, &Fact) -> String,
    P: Fn(&SymbolTable, &Rule) -> String,
 {
    exists|w: World, o: World|
        w@.facts == facts && w@.rules == rules && o@ == out && #[trigger] call_ensures(
            engine.run,
            (w,),
            o,
        )
}

/// Querying the world with the caveat may return so many facts.
pub open spec fn found<R, Q, F, P>(
    engine: Engine<R, Q, F, P>,
    world: WorldModel,
    caveat: RuleModel,
    number: nat,
) -> bool where
    R: Fn(World) -> World,
    Q: Fn(&World, &Rule) -> Vec<Fact>,
    F: Fn(&SymbolTable, &Fact) -> String,
    P: Fn(&SymbolTable, &Rule) -> String,
 {
    exists|w: World, c: Rule, v: Vec<Fact>|
        w@ == world && c@ == caveat && v@.len() == number && #[trigger] call_ensures(
            engine.query,
            (&w, &c),
            v,
        )
}

/// Writing the fact with these strings may return this text.
pub open spec fn wrote_fact<R, Q, F, P>(
    engine: Engine<R, Q, F, P>,
    strings: Seq<Seq<char>>,
    fact: PredicateModel,
    text: Seq<char>,
) -> bool where
    R: Fn(World) -> World,
    Q: Fn(&World, &Rule) -> Vec<Fact>,
    F: Fn(&SymbolTable, &Fact) -> String,
    P: Fn(&SymbolTable, &Rule) -> String,
 {
    exists|t: SymbolTable, f: Fact, s: String|
        t@ == strings && f@ == fact && s@ == text && #[trigger] call_ensures(
            engine.print_fact,
            (&t, &f),
            s,
        )
}

/// Writing the rule with these strings may return this text.
pub open spec fn wrote_rule<R, Q, F, P>(
    engine: Engine<R, Q, F, P>,
    strings: Seq<Seq<char>>,
    rule: RuleModel,
    text: Seq<char>,
) -> bool where
    R: Fn(World) -> World,
    Q: Fn(&World, &Rule) -> Vec<Fact>,
    F: Fn(&SymbolTable, &Fact) -> String,
    P: Fn(&SymbolTable, &Rule) -> String,
 {
    exists|t: SymbolTable, r: Rule, s: String|
        t@ == strings && r@ == rule && s@ == text && #[trigger] call_ensures(
            engine.print_rule,
            (&t, &r),
            s,
        )
}

/// What the answers of an engine are said to be, its functions returned.
pub proof fn law_answers_are_returned<R, Q, F, P>(
    engine: Engine<R, Q, F, P>,
    world: WorldModel,
    out: WorldModel,
    rule: RuleModel,
    facts: Seq<PredicateModel>,
    strings: Seq<Seq<char>>,
    fact: PredicateModel,
    text: Seq<char>,
) where
    R: Fn(World) -> World,
    Q: Fn(&World, &Rule) -> Vec<Fact>,
    F: Fn(&SymbolTable, &Fact) -> String,
    P: Fn(&SymbolTable, &Rule) -> String,

    ensures
        (engine.answers().run)(world, out) ==> ran_to(engine, world.facts, world.rules, out),
        (engine.answers().query)(world, rule, facts) ==> found(engine, world, rule, facts.len()),
        (engine.answers().print_fact)(strings, fact, text) ==> wrote_fact(
            engine,
            strings,
            fact,
            text,
        ),
        (engine.answers().print_rule)(strings, rule, text) ==> wrote_rule(
            engine,
            strings,
            rule,
            text,
        ),
{
    if (engine.answers().query)(world, rule, facts) {
        let (a, b, c) = choose|a: World, b: Rule, c: Vec<Fact>|
            a@ == world && b@ == rule && views(c@) == facts && #[trigger] call_ensures(
                engine.query,
                (&a, &b),
                c,
            );
        assert(c@.len() == facts.len());
    }
}

/// `counts` may be the numbers of facts that asking a world for each of the caveats found, and
/// `failed` are the places of those that found none, in order.
pub open spec fn asked_in_order<R, Q, F, P>(
    engine: Engine<R, Q, F, P>,
    world: WorldModel,
    caveats: Seq<RuleModel>,
    counts: Seq<nat>,
    failed: Seq<int>,
) -> bool where
    R: Fn(World) -> World,
    Q: Fn(&World, &Rule) -> Vec<Fact>,
    F: Fn(&SymbolTable, &Fact) -> String,
    P: Fn(&SymbolTable, &Rule) -> String,
 {
    &&& counts.len() == caveats.len()
    &&& forall|j: int|
        0 <= j < caveats.len() ==> found(engine, world, caveats[j], #[trigger] counts[j])
    &&& forall|k: int|
        0 <= k < failed.len() ==> 0 <= #[trigger] failed[k] < counts.len() && counts[failed[k]]
            == 0
    &&& forall|k: int, l: int|
        0 <= k < l < failed.len() ==> #[trigger] failed[k] < #[trigger] failed[l]
    &&& forall|j: int| 0 <= j < counts.len() && #[trigger] counts[j] == 0 ==> failed.contains(j)
}

/// Asking a world for each of the caveats may give these messages: one for each caveat that finds
/// no fact, in order, made of `start`, the place of the caveat, and the caveat as it is written.
pub open spec fn tells_failed<R, Q, F, P>(
    engine: Engine<R, Q, F, P>,
    world: WorldModel,
    strings: Seq<Seq<char>>,
    start: Seq<char>,
    caveats: Seq<RuleModel>,
    messages: Seq<Seq<char>>,
) -> bool where
    R: Fn(World) -> World,
    Q: Fn(&World, &Rule) -> Vec<Fact>,
    F: Fn(&SymbolTable, &Fact) -> String,
    P: Fn(&SymbolTable, &Rule) -> String,
 {
    exists|counts: Seq<nat>, failed: Seq<int>|
        {
            &&& #[trigger] asked_in_order(engine, world, caveats, counts, failed)
            &&& messages.len() == failed.len()
            &&& forall|k: int|
                0 <= k < messages.len() ==> tells_caveat(
                    engine,
                    strings,
                    start,
                    failed[k],
                    caveats[failed[k]],
                    #[trigger] messages[k],
                )
        }
}

/// The message tells that the caveat at a place does not hold.
pub open spec fn tells_caveat<R, Q, F, P>(
    engine: Engine<R, Q, F, P>,
    strings: Seq<Seq<char>>,
    start: Seq<char>,
    place: int,
    caveat: RuleModel,
    message: Seq<char>,
) -> bool where
    R: Fn(World) -> World,
    Q: Fn(&World, &Rule) -> Vec<Fact>,
    F: Fn(&SymbolTable, &Fact) -> String,
    P: Fn(&SymbolTable, &Rule) -> String,
 {
    exists|text: Seq<char>| #[trigger]
        wrote_rule(engine, strings, caveat, text) && message == start + decimal(place as nat)
            + " failed: "@ + text
}

/// The messages among outcomes stand at growing places, and no outcome with a message is missing.
proof fn lemma_failed_places(outcomes: Seq<Option<Seq<char>>>) -> (failed: Seq<int>)
    ensures
        failed.len() == failures(outcomes).len(),
        forall|k: int|
            0 <= k < failed.len() ==> 0 <= #[trigger] failed[k] < outcomes.len()
                && outcomes[failed[k]] == Some(failures(outcomes)[k]),
        forall|k: int, l: int|
            0 <= k < l < failed.len() ==> #[trigger] failed[k] < #[trigger] failed[l],
        forall|j: int|
            0 <= j < outcomes.len() && (#[trigger] outcomes[j]) is Some ==> failed.contains(j),
    decreases outcomes.len(),
{
    if outcomes.len() == 0 {
        Seq::empty()
    } else {
        let front = outcomes.drop_last();
        let n: int = outcomes.len() - 1;
        let before = lemma_failed_places(front);
        assert forall|j: int| 0 <= j < n implies #[trigger] outcomes[j] == front[j] by {}
        match outcomes.last() {
            None => {
                assert forall|j: int|
                    0 <= j < outcomes.len() && (
                    #[trigger] outcomes[j]) is Some implies before.contains(j) by {
                    assert(front[j] is Some);
                }
                before
            },
            Some(m) => {
                let failed = before.push(n);
                assert(failures(outcomes) == failures(front).push(m));
                assert forall|j: int|
                    0 <= j < outcomes.len() && (
                    #[trigger] outcomes[j]) is Some implies failed.contains(j) by {
                    if j < n {
                        assert(front[j] is Some);
                        let k = choose|k: int| 0 <= k < before.len() && before[k] == j;
                        assert(failed[k] == j);
                    } else {
                        assert(failed[before.len() as int] == j);
                    }
                }
                failed
            },
        }
    }
}

/// What asking for caveats may give tells which of them failed.
proof fn lemma_tells_failed<R, Q, F, P>(
    engine: Engine<R, Q, F, P>,
    world: WorldModel,
    strings: Seq<Seq<char>>,
    start: Seq<char>,
    caveats: Seq<RuleModel>,
    messages: Seq<Seq<char>>,
) where
    R: Fn(World) -> World,
    Q: Fn(&World, &Rule) -> Vec<Fact>,
    F: Fn(&SymbolTable, &Fact) -> String,
    P: Fn(&SymbolTable, &Rule) -> String,

    requires
        caveats_outcome(engine.answers(), world, strings, start, caveats, messages),
    ensures
        tells_failed(engine, world, strings, start, caveats, messages),
{
    let answers = engine.answers();
    let outcomes = choose|outcomes: Seq<Option<Seq<char>>>| #[trigger]
        caveat_outcomes(answers, world, strings, start, caveats, outcomes) && messages == failures(
            outcomes,
        );
    let failed = lemma_failed_places(outcomes);
    let counts = Seq::new(
        caveats.len(),
        |j: int|
            choose|number: nat| #[trigger]
                found(engine, world, caveats[j], number) && (number == 0) == (outcomes[j] is Some),
    );
    assert forall|j: int| 0 <= j < caveats.len() implies found(
        engine,
        world,
        caveats[j],
        #[trigger] counts[j],
    ) && (counts[j] == 0) == (outcomes[j] is Some) by {
        assert(caveat_outcome(answers, world, strings, start, j as nat, caveats[j], outcomes[j]));
        let facts = choose|facts: Seq<PredicateModel>| #[trigger]
            (answers.query)(world, caveats[j], facts) && match outcomes[j] {
                None => facts.len() > 0,
                Some(m) => facts.len() == 0 && exists|rule: Seq<char>| #[trigger]
                    (answers.print_rule)(strings, caveats[j], rule) && m
                        == caveat_message(start, j as nat, rule),
            };
        law_answers_are_returned(
            engine,
            world,
            world,
            caveats[j],
            facts,
            strings,
            caveats[j].head,
            start,
        );
        assert(found(engine, world, caveats[j], facts.len()));
    }
    assert forall|k: int| 0 <= k < failed.len() implies 0 <= #[trigger] failed[k] < counts.len()
        && counts[failed[k]] == 0 by {
        assert(outcomes[failed[k]] is Some);
        assert(counts[failed[k]] == 0);
    }
    assert forall|j: int| 0 <= j < counts.len() && #[trigger] counts[j]
        == 0 implies failed.contains(j) by {
        assert(outcomes[j] is Some);
    }
    assert(asked_in_order(engine, world, caveats, counts, failed));
    assert forall|k: int| 0 <= k < messages.len() implies tells_caveat(
        engine,
        strings,
        start,
        failed[k],
        caveats[failed[k]],
        #[trigger] messages[k],
    ) by {
        let j = failed[k];
        assert(caveat_outcome(answers, world, strings, start, j as nat, caveats[j], outcomes[j]));
        let text = choose|rule: Seq<char>| #[trigger]
            (answers.print_rule)(strings, caveats[j], rule) && messages[k]
                == caveat_message(start, j as nat, rule);
        assert(wrote_rule(engine, strings, caveats[j], text));
    }
}

/// Some fact of a block has one of the two places as its first identifier.
pub open spec fn states_reserved(facts: Seq<PredicateModel>, a: int, b: int) -> bool {
    exists|k: int|
        0 <= k < facts.len() && (starts_with(#[trigger] facts[k], a) || starts_with(facts[k], b))
}

/// Checking the block at place `i` may give these messages. `a` and `b` are the places of
/// `authority` and `ambient` among the strings.
///
/// Where a fact of the block has the symbol of one of them as its first identifier, there is one
/// message, about the first such fact. Else the world is run with the facts of the block added, and
/// there are the messages about the caveats of the block that find no fact in it, and then those
/// about the verifier's.
pub open spec fn block_tells<R, Q, F, P>(
    engine: Engine<R, Q, F, P>,
    block: BlockModel,
    i: nat,
    world: WorldModel,
    strings: Seq<Seq<char>>,
    a: int,
    b: int,
    caveats: Seq<RuleModel>,
    messages: Seq<Seq<char>>,
) -> bool where
    R: Fn(World) -> World,
    Q: Fn(&World, &Rule) -> Vec<Fact>,
    F: Fn(&SymbolTable, &Fact) -> String,
    P: Fn(&SymbolTable, &Rule) -> String,
 {
    if states_reserved(block.facts, a, b) {
        exists|k: int, text: Seq<char>|
            {
                &&& 0 <= k < block.facts.len()
                &&& starts_with(block.facts[k], a) || starts_with(block.facts[k], b)
                &&& !states_reserved(block.facts.take(k), a, b)
                &&& #[trigger] wrote_fact(engine, strings, block.facts[k], text)
                &&& messages.len() == 1
                &&& messages[0] == "Block "@ + decimal(i) + ": invalid fact: "@ + text
            }
    } else {
        exists|ran: WorldModel, own: Seq<Seq<char>>, theirs: Seq<Seq<char>>|
            {
                &&& ran_to(engine, world.facts.union(block.facts.to_set()), world.rules, ran)
                &&& #[trigger] tells_failed(
                    engine,
                    ran,
                    strings,
                    "Block "@ + decimal(i) + ": caveat "@,
                    block.caveats,
                    own,
                )
                &&& #[trigger] tells_failed(
                    engine,
                    ran,
                    strings,
                    "Verifier caveat "@,
                    caveats,
                    theirs,
                )
                &&& messages == own + theirs
            }
    }
}

/// The facts that a block may not state are those whose first identifier is the symbol of one of
/// the two contexts.
proof fn lemma_reserved(facts: Seq<PredicateModel>, strings: Seq<Seq<char>>, a: int, b: int)
    requires
        stands_first(strings, "authority"@, a),
        stands_first(strings, "ambient"@, b),
    ensures
        forall|f: PredicateModel| #[trigger]
            reserved(strings)(f) == (starts_with(f, a) || starts_with(f, b)),
        none_bad(facts, reserved(strings)) == !states_reserved(facts, a, b),
{
    lemma_first_at_symbol(strings, "authority"@, a);
    lemma_first_at_symbol(strings, "ambient"@, b);
    let bad = reserved(strings);
    assert forall|f: PredicateModel| #[trigger]
        bad(f) == (starts_with(f, a) || starts_with(f, b)) by {}
    if !none_bad(facts, bad) {
        let k = choose|k: int| 0 <= k < facts.len() && bad(#[trigger] facts[k]);
        assert(bad(facts[k]));
    }
    if states_reserved(facts, a, b) {
        let k = choose|k: int|
            0 <= k < facts.len() && (starts_with(#[trigger] facts[k], a) || starts_with(
                facts[k],
                b,
            ));
        assert(bad(facts[k]));
    }
}

/// What a block check may give is told in plain terms.
proof fn lemma_block_tells<R, Q, F, P>(
    engine: Engine<R, Q, F, P>,
    block: BlockModel,
    i: nat,
    world: WorldModel,
    strings: Seq<Seq<char>>,
    a: int,
    b: int,
    caveats: Seq<RuleModel>,
    messages: Seq<Seq<char>>,
) where
    R: Fn(World) -> World,
    Q: Fn(&World, &Rule) -> Vec<Fact>,
    F: Fn(&SymbolTable, &Fact) -> String,
    P: Fn(&SymbolTable, &Rule) -> String,

    requires
        stands_first(strings, "authority"@, a),
        stands_first(strings, "ambient"@, b),
        block_outcome(engine.answers(), block, i, world, strings, caveats, messages),
    ensures
        block_tells(engine, block, i, world, strings, a, b, caveats, messages),
{
    let answers = engine.answers();
    lemma_reserved(block.facts, strings, a, b);
    let bad = reserved(strings);
    if none_bad(block.facts, bad) {
        let (ran, own, theirs) = choose|
            ran: WorldModel,
            own: Seq<Seq<char>>,
            theirs: Seq<Seq<char>>,
        | #[trigger]
            block_ran(answers, block, i, world, strings, caveats, ran, own, theirs) && messages
                == own + theirs;
        assert(ran_to(engine, world.facts.union(block.facts.to_set()), world.rules, ran));
        let start = "Block "@ + decimal(i) + ": caveat "@;
        assert(block_label(i) =~= start);
        lemma_tells_failed(engine, ran, strings, start, block.caveats, own);
        lemma_tells_failed(engine, ran, strings, "Verifier caveat "@, caveats, theirs);
        assert(tells_failed(engine, ran, strings, start, block.caveats, own));
        assert(tells_failed(engine, ran, strings, "Verifier caveat "@, caveats, theirs));
    } else {
        let (k, text) = choose|k: int, fact: Seq<char>|
            {
                &&& #[trigger] first_bad(block.facts, bad, k)
                &&& #[trigger] (answers.print_fact)(strings, block.facts[k], fact)
                &&& messages == seq![invalid_fact_message(i, fact)]
            };
        assert(bad(block.facts[k]));
        assert(wrote_fact(engine, strings, block.facts[k], text));
        if states_reserved(block.facts.take(k), a, b) {
            let front = block.facts.take(k);
            let j = choose|j: int|
                0 <= j < front.len() && (starts_with(#[trigger] front[j], a) || starts_with(
                    front[j],
                    b,
                ));
            assert(front[j] == block.facts[j]);
            assert(bad(block.facts[j]));
        }
        assert(messages[0] == "Block "@ + decimal(i) + ": invalid fact: "@ + text);
    }
}

/// `Block::check` gives what the facts, the caveats and the engine's answers tell, and succeeds
/// exactly where there is nothing to tell.
pub proof fn law_block_check<R, Q, F, P>(
    block: Block,
    i: usize,
    world: World,
    symbols: SymbolTable,
    a: int,
    b: int,
    verifier_caveats: &[Rule],
    engine: Engine<R, Q, F, P>,
    r: Result<(), Vec<String>>,
) where
    R: Fn(World) -> World,
    Q: Fn(&World, &Rule) -> Vec<Fact>,
    F: Fn(&SymbolTable, &Fact) -> String,
    P: Fn(&SymbolTable, &Rule) -> String,

    requires
        stands_first(symbols@, "authority"@, a),
        stands_first(symbols@, "ambient"@, b),
        call_ensures(
            Block::check::<R, Q, F, P>,
            (&block, i, world, &symbols, verifier_caveats, &engine),
            r,
        ),
    ensures
        block_tells(
            engine,
            block@,
            i as nat,
            world@,
            symbols@,
            a,
            b,
            views(verifier_caveats@),
            messages_of(r),
        ),
        (r is Ok) == (messages_of(r).len() == 0),
{
    lemma_block_tells(
        engine,
        block@,
        i as nat,
        world@,
        symbols@,
        a,
        b,
        views(verifier_caveats@),
        messages_of(r),
    );
}

/// No block states facts of the authority or of the verifier: if any fact of a block has the symbol
/// of `authority` or of `ambient` as its first identifier, whatever its name is and whatever
/// follows, the check of the block fails, with one message.
pub proof fn law_reserved_fact_fails_block<R, Q, F, P>(
    block: Block,
    k: int,
    i: usize,
    world: World,
    symbols: SymbolTable,
    a: int,
    b: int,
    verifier_caveats: &[Rule],
    engine: Engine<R, Q, F, P>,
    r: Result<(), Vec<String>>,
) where
    R: Fn(World) -> World,
    Q: Fn(&World, &Rule) -> Vec<Fact>,
    F: Fn(&SymbolTable, &Fact) -> String,
    P: Fn(&SymbolTable, &Rule) -> String,

    requires
        stands_first(symbols@, "authority"@, a),
        stands_first(symbols@, "ambient"@, b),
        0 <= k < block.facts@.len(),
        block.facts@[k].0.ids@.len() > 0,
        block.facts@[k].0.ids@[0]@ == IdModel::Symbol(a as u64) || block.facts@[k].0.ids@[0]@
            == IdModel::Symbol(b as u64),
        call_ensures(
            Block::check::<R, Q, F, P>,
            (&block, i, world, &symbols, verifier_caveats, &engine),
            r,
        ),
    ensures
        r is Err,
        r->Err_0@.len() == 1,
{
    law_block_check(block, i, world, symbols, a, b, verifier_caveats, engine, r);
    let facts = block@.facts;
    assert(facts[k] == block.facts@[k]@);
    assert(facts[k].ids[0] == block.facts@[k].0.ids@[0]@);
    assert(starts_with(facts[k], a) || starts_with(facts[k], b));
    assert(states_reserved(facts, a, b));
}

/// `Block::enter` refuses at the first fact whose first identifier is the symbol of `authority` or
/// of `ambient`. Where there is none, the world has its facts and those of the block, and its own
/// rules.
pub proof fn law_enter(
    block: Block,
    world: World,
    symbols: SymbolTable,
    a: int,
    b: int,
    r: Result<World, usize>,
)
    requires
        stands_first(symbols@, "authority"@, a),
        stands_first(symbols@, "ambient"@, b),
        call_ensures(Block::enter, (&block, world, &symbols), r),
    ensures
        (r is Err) == states_reserved(block@.facts, a, b),
        match r {
            Ok(w) => {
                &&& forall|f: PredicateModel| #[trigger]
                    w@.facts.contains(f) == (world@.facts.contains(f) || block@.facts.contains(f))
                &&& w@.rules == world@.rules
            },
            Err(k) => {
                &&& k < block@.facts.len()
                &&& starts_with(block@.facts[k as int], a) || starts_with(
                    block@.facts[k as int],
                    b,
                )
                &&& !states_reserved(block@.facts.take(k as int), a, b)
            },
        },
{
    lemma_reserved(block@.facts, symbols@, a, b);
    match r {
        Ok(w) => {
            assert forall|f: PredicateModel| #[trigger]
                w@.facts.contains(f) == (world@.facts.contains(f) || block@.facts.contains(f)) by {
                assert(block@.facts.to_set().contains(f) == block@.facts.contains(f));
            }
        },
        Err(k) => {
            let bad = reserved(symbols@);
            assert(bad(block@.facts[k as int]));
            if states_reserved(block@.facts.take(k as int), a, b) {
                let front = block@.facts.take(k as int);
                let j = choose|j: int|
                    0 <= j < front.len() && (starts_with(#[trigger] front[j], a) || starts_with(
                        front[j],
                        b,
                    ));
                assert(front[j] == block@.facts[j]);
                assert(bad(block@.facts[j]));
            }
        },
    }
}

/// Every one of the facts has the symbol at this place as its first identifier.
pub open spec fn all_start_with(facts: Seq<PredicateModel>, place: int) -> bool {
    forall|k: int| 0 <= k < facts.len() ==> starts_with(#[trigger] facts[k], place)
}

/// The message is about the first of the facts whose first identifier is not the symbol at this
/// place: `start`, and that fact as it is written.
pub open spec fn tells_first_stray<R, Q, F, P>(
    engine: Engine<R, Q, F, P>,
    strings: Seq<Seq<char>>,
    facts: Seq<PredicateModel>,
    place: int,
    start: Seq<char>,
    messages: Seq<Seq<char>>,
) -> bool where
    R: Fn(World) -> World,
    Q: Fn(&World, &Rule) -> Vec<Fact>,
    F: Fn(&SymbolTable, &Fact) -> String,
    P: Fn(&SymbolTable, &Rule) -> String,
 {
    exists|k: int, text: Seq<char>|
        {
            &&& 0 <= k < facts.len()
            &&& !starts_with(facts[k], place)
            &&& all_start_with(facts.take(k), place)
            &&& #[trigger] wrote_fact(engine, strings, facts[k], text)
            &&& messages.len() == 1
            &&& messages[0] == start + text
        }
}

/// Checking the blocks of a token one by one in a world may give these messages, those of each
/// block behind those of the blocks before it.
pub open spec fn blocks_tell<R, Q, F, P>(
    engine: Engine<R, Q, F, P>,
    token: TokenModel,
    world: WorldModel,
    caveats: Seq<RuleModel>,
    messages: Seq<Seq<char>>,
) -> bool where
    R: Fn(World) -> World,
    Q: Fn(&World, &Rule) -> Vec<Fact>,
    F: Fn(&SymbolTable, &Fact) -> String,
    P: Fn(&SymbolTable, &Rule) -> String,
 {
    exists|parts: Seq<Seq<Seq<char>>>|
        {
            &&& parts.len() == token.blocks.len()
            &&& forall|i: int|
                0 <= i < token.blocks.len() ==> block_tells(
                    engine,
                    token.blocks[i],
                    i as nat,
                    world,
                    token.symbols,
                    0,
                    1,
                    caveats,
                    #[trigger] parts[i],
                )
            &&& messages == #[trigger] parts.flatten_alt()
        }
}

/// `first` may be what the run of the authority's world gave, `then` what a run with the verifier's
/// facts and rules added gave, and the blocks, checked with the facts of `then` and the verifier's
/// rules alone, may give these messages.
pub open spec fn two_runs_tell<R, Q, F, P>(
    engine: Engine<R, Q, F, P>,
    token: TokenModel,
    facts: Seq<PredicateModel>,
    rules: Seq<RuleModel>,
    caveats: Seq<RuleModel>,
    first: WorldModel,
    then: WorldModel,
    messages: Seq<Seq<char>>,
) -> bool where
    R: Fn(World) -> World,
    Q: Fn(&World, &Rule) -> Vec<Fact>,
    F: Fn(&SymbolTable, &Fact) -> String,
    P: Fn(&SymbolTable, &Rule) -> String,
 {
    &&& ran_to(engine, first.facts.union(facts.to_set()), first.rules + rules, then)
    &&& blocks_tell(
        engine,
        token,
        WorldModel { facts: then.facts, rules },
        caveats,
        messages,
    )
}

/// Once the run of the authority's world gave `first`, the check may give these messages.
pub open spec fn first_run_tells<R, Q, F, P>(
    engine: Engine<R, Q, F, P>,
    token: TokenModel,
    facts: Seq<PredicateModel>,
    rules: Seq<RuleModel>,
    caveats: Seq<RuleModel>,
    first: WorldModel,
    messages: Seq<Seq<char>>,
) -> bool where
    R: Fn(World) -> World,
    Q: Fn(&World, &Rule) -> Vec<Fact>,
    F: Fn(&SymbolTable, &Fact) -> String,
    P: Fn(&SymbolTable, &Rule) -> String,
 {
    if exists|f: PredicateModel| #[trigger] first.facts.contains(f) && !starts_with(f, 0) {
        messages.len() == 1 && messages[0]
            == "generated authority facts should have the authority context"@
    } else if !all_start_with(facts, 1) {
        tells_first_stray(engine, token.symbols, facts, 1, "invalid ambient fact: "@, messages)
    } else {
        exists|then: WorldModel| #[trigger]
            two_runs_tell(engine, token, facts, rules, caveats, first, then, messages)
    }
}

/// Checking a token may give these messages.
///
/// Where a fact of the authority block has not symbol 0 first, there is one message, about the
/// first such fact. Else the world of the authority's facts, with its caveats as rules, is run.
/// Where this gives a fact that has not symbol 0 first, there is one message; where a fact of the
/// verifier has not symbol 1 first, there is one about the first such fact. Else the verifier's
/// facts and rules are added, that is run, and the blocks are checked with what it gives.
pub open spec fn token_tells<R, Q, F, P>(
    engine: Engine<R, Q, F, P>,
    token: TokenModel,
    facts: Seq<PredicateModel>,
    rules: Seq<RuleModel>,
    caveats: Seq<RuleModel>,
    messages: Seq<Seq<char>>,
) -> bool where
    R: Fn(World) -> World,
    Q: Fn(&World, &Rule) -> Vec<Fact>,
    F: Fn(&SymbolTable, &Fact) -> String,
    P: Fn(&SymbolTable, &Rule) -> String,
 {
    if !all_start_with(token.authority.facts, 0) {
        tells_first_stray(
            engine,
            token.symbols,
            token.authority.facts,
            0,
            "invalid authority fact: "@,
            messages,
        )
    } else {
        exists|first: WorldModel|
            {
                &&& ran_to(
                    engine,
                    token.authority.facts.to_set(),
                    token.authority.caveats,
                    first,
                )
                &&& #[trigger] first_run_tells(
                    engine,
                    token,
                    facts,
                    rules,
                    caveats,
                    first,
                    messages,
                )
            }
    }
}

/// In every token the symbols of `authority` and `ambient` are 0 and 1.
pub proof fn law_contexts_are_zero_and_one(
    token: Biscuit,
    strings: &SymbolTable,
    authority: Option<u64>,
    ambient: Option<u64>,
)
    requires
        call_ensures(Biscuit::symbols, (&token,), strings),
        call_ensures(SymbolTable::get, (strings, "authority"), authority),
        call_ensures(SymbolTable::get, (strings, "ambient"), ambient),
    ensures
        stands_first(token@.symbols, "authority"@, 0),
        stands_first(token@.symbols, "ambient"@, 1),
        authority == Some(0u64),
        ambient == Some(1u64),
{
    lemma_contexts(token@);
}

/// The facts that an authority block or a verifier may not state are those whose first identifier
/// is not the symbol at the place of its context.
proof fn lemma_strays(token: TokenModel, facts: Seq<PredicateModel>)
    requires
        token.wf(),
    ensures
        stands_first(token.symbols, "authority"@, 0),
        stands_first(token.symbols, "ambient"@, 1),
        forall|f: PredicateModel| #[trigger] not_authority(token)(f) == !starts_with(f, 0),
        forall|f: PredicateModel| #[trigger] not_ambient(token)(f) == !starts_with(f, 1),
        none_bad(facts, not_authority(token)) == all_start_with(facts, 0),
        none_bad(facts, not_ambient(token)) == all_start_with(facts, 1),
{
    lemma_contexts(token);
    let one = not_authority(token);
    let two = not_ambient(token);
    assert forall|f: PredicateModel| #[trigger] one(f) == !starts_with(f, 0) by {}
    assert forall|f: PredicateModel| #[trigger] two(f) == !starts_with(f, 1) by {}
    if none_bad(facts, one) {
        assert forall|k: int| 0 <= k < facts.len() implies starts_with(#[trigger] facts[k], 0) by {
            assert(!one(facts[k]));
        }
    }
    if all_start_with(facts, 0) {
        assert forall|k: int| 0 <= k < facts.len() implies !one(#[trigger] facts[k]) by {
            assert(starts_with(facts[k], 0));
        }
    }
    if none_bad(facts, two) {
        assert forall|k: int| 0 <= k < facts.len() implies starts_with(#[trigger] facts[k], 1) by {
            assert(!two(facts[k]));
        }
    }
    if all_start_with(facts, 1) {
        assert forall|k: int| 0 <= k < facts.len() implies !two(#[trigger] facts[k]) by {
            assert(starts_with(facts[k], 1));
        }
    }
}

/// The first fact that `bad` singles out is the first that does not start with the symbol.
proof fn lemma_first_stray(
    facts: Seq<PredicateModel>,
    bad: spec_fn(PredicateModel) -> bool,
    place: int,
    k: int,
)
    requires
        forall|f: PredicateModel| #[trigger] bad(f) == !starts_with(f, place),
        first_bad(facts, bad, k),
    ensures
        0 <= k < facts.len(),
        !starts_with(facts[k], place),
        all_start_with(facts.take(k), place),
        !all_start_with(facts, place),
{
    assert(bad(facts[k]));
    let front = facts.take(k);
    assert forall|j: int| 0 <= j < front.len() implies starts_with(#[trigger] front[j], place) by {
        assert(front[j] == facts[j]);
        assert(!bad(facts[j]));
    }
}

/// What a check of a token may give is told in plain terms.
proof fn lemma_token_tells<R, Q, F, P>(
    engine: Engine<R, Q, F, P>,
    token: TokenModel,
    facts: Seq<PredicateModel>,
    rules: Seq<RuleModel>,
    caveats: Seq<RuleModel>,
    messages: Seq<Seq<char>>,
) where
    R: Fn(World) -> World,
    Q: Fn(&World, &Rule) -> Vec<Fact>,
    F: Fn(&SymbolTable, &Fact) -> String,
    P: Fn(&SymbolTable, &Rule) -> String,

    requires
        token.wf(),
        check_outcome(engine.answers(), token, facts, rules, caveats, messages),
    ensures
        token_tells(engine, token, facts, rules, caveats, messages),
{
    let answers = engine.answers();
    let stated = token.authority.facts;
    lemma_strays(token, stated);
    lemma_strays(token, facts);
    if !none_bad(stated, not_authority(token)) {
        let (k, text) = choose|k: int, fact: Seq<char>|
            {
                &&& #[trigger] first_bad(stated, not_authority(token), k)
                &&& #[trigger] (answers.print_fact)(token.symbols, stated[k], fact)
                &&& messages == seq!["invalid authority fact: "@ + fact]
            };
        lemma_first_stray(stated, not_authority(token), 0, k);
        assert(wrote_fact(engine, token.symbols, stated[k], text));
        assert(messages[0] == "invalid authority fact: "@ + text);
    } else {
        let first = choose|ran: WorldModel| #[trigger]
            authority_ran(answers, token, facts, rules, caveats, ran, messages);
        assert(authority_world(token).rules == token.authority.caveats);
        assert(ran_to(engine, stated.to_set(), token.authority.caveats, first));
        lemma_first_run_tells(engine, token, facts, rules, caveats, first, messages);
    }
}

/// What the rest of a check may give is told in plain terms.
proof fn lemma_first_run_tells<R, Q, F, P>(
    engine: Engine<R, Q, F, P>,
    token: TokenModel,
    facts: Seq<PredicateModel>,
    rules: Seq<RuleModel>,
    caveats: Seq<RuleModel>,
    first: WorldModel,
    messages: Seq<Seq<char>>,
) where
    R: Fn(World) -> World,
    Q: Fn(&World, &Rule) -> Vec<Fact>,
    F: Fn(&SymbolTable, &Fact) -> String,
    P: Fn(&SymbolTable, &Rule) -> String,

    requires
        token.wf(),
        authority_ran(engine.answers(), token, facts, rules, caveats, first, messages),
    ensures
        first_run_tells(engine, token, facts, rules, caveats, first, messages),
{
    let answers = engine.answers();
    lemma_contexts(token);
    lemma_strays(token, facts);
    if exists|f: PredicateModel| #[trigger] first.facts.contains(f) && !starts_with(f, 0) {
        let f = choose|f: PredicateModel| #[trigger]
            first.facts.contains(f) && !starts_with(f, 0);
        assert(!authority_only(token, first));
    } else {
        assert forall|f: PredicateModel| #[trigger] first.facts.contains(f) implies starts_with(
            f,
            0,
        ) by {}
        assert(authority_only(token, first));
        if !none_bad(facts, not_ambient(token)) {
            let (k, text) = choose|k: int, fact: Seq<char>|
                {
                    &&& #[trigger] first_bad(facts, not_ambient(token), k)
                    &&& #[trigger] (answers.print_fact)(token.symbols, facts[k], fact)
                    &&& messages == seq!["invalid ambient fact: "@ + fact]
                };
            lemma_first_stray(facts, not_ambient(token), 1, k);
            assert(wrote_fact(engine, token.symbols, facts[k], text));
            assert(messages[0] == "invalid ambient fact: "@ + text);
        } else {
            let then = choose|ran: WorldModel| #[trigger]
                verifier_ran(answers, token, first, facts, rules, caveats, ran, messages);
            assert(ran_to(
                engine,
                first.facts.union(facts.to_set()),
                first.rules + rules,
                then,
            ));
            let world = WorldModel { facts: then.facts, rules };
            let parts = choose|parts: Seq<Seq<Seq<char>>>| #[trigger]
                block_outcomes(answers, token, world, caveats, parts) && messages
                    == parts.flatten_alt();
            assert forall|i: int| 0 <= i < token.blocks.len() implies block_tells(
                engine,
                token.blocks[i],
                i as nat,
                world,
                token.symbols,
                0,
                1,
                caveats,
                #[trigger] parts[i],
            ) by {
                lemma_block_tells(
                    engine,
                    token.blocks[i],
                    i as nat,
                    world,
                    token.symbols,
                    0,
                    1,
                    caveats,
                    parts[i],
                );
            }
            assert(blocks_tell(engine, token, world, caveats, messages));
            assert(two_runs_tell(engine, token, facts, rules, caveats, first, then, messages));
        }
    }
}

/// `Biscuit::check` gives what the facts, the rules, the caveats and the engine's answers tell, and
/// succeeds exactly where there is nothing to tell.
pub proof fn law_token_check<R, Q, F, P>(
    token: Biscuit,
    facts: Vec<Fact>,
    rules: Vec<Rule>,
    caveats: Vec<Rule>,
    engine: Engine<R, Q, F, P>,
    r: Result<(), Vec<String>>,
) where
    R: Fn(World) -> World,
    Q: Fn(&World, &Rule) -> Vec<Fact>,
    F: Fn(&SymbolTable, &Fact) -> String,
    P: Fn(&SymbolTable, &Rule) -> String,

    requires
        token@.wf(),
        call_ensures(
            Biscuit::check::<R, Q, F, P>,
            (&token, facts, rules, caveats, &engine),
            r,
        ),
    ensures
        token_tells(
            engine,
            token@,
            views(facts@),
            views(rules@),
            views(caveats@),
            messages_of(r),
        ),
        (r is Ok) == (messages_of(r).len() == 0),
{
    lemma_token_tells(
        engine,
        token@,
        views(facts@),
        views(rules@),
        views(caveats@),
        messages_of(r),
    );
}

/// No block of a token states facts of the authority or of the verifier: a token with a block one
/// of whose facts has symbol 0 or symbol 1 as its first identifier, whatever its name is and
/// whatever follows, passes no check.
pub proof fn law_reserved_fact_fails_token<R, Q, F, P>(
    token: Biscuit,
    i: int,
    k: int,
    facts: Vec<Fact>,
    rules: Vec<Rule>,
    caveats: Vec<Rule>,
    engine: Engine<R, Q, F, P>,
    r: Result<(), Vec<String>>,
) where
    R: Fn(World) -> World,
    Q: Fn(&World, &Rule) -> Vec<Fact>,
    F: Fn(&SymbolTable, &Fact) -> String,
    P: Fn(&SymbolTable, &Rule) -> String,

    requires
        token@.wf(),
        0 <= i < token@.blocks.len(),
        0 <= k < token@.blocks[i].facts.len(),
        token@.blocks[i].facts[k].ids.len() > 0,
        token@.blocks[i].facts[k].ids[0] == IdModel::Symbol(0) || token@.blocks[i].facts[k].ids[0]
            == IdModel::Symbol(1),
        call_ensures(
            Biscuit::check::<R, Q, F, P>,
            (&token, facts, rules, caveats, &engine),
            r,
        ),
    ensures
        r is Err,
{
    law_token_check(token, facts, rules, caveats, engine, r);
    if r is Ok {
        let none = messages_of(r);
        let stated = views(facts@);
        let asked = views(caveats@);
        let first = choose|first: WorldModel|
            {
                &&& ran_to(
                    engine,
                    token@.authority.facts.to_set(),
                    token@.authority.caveats,
                    first,
                )
                &&& #[trigger] first_run_tells(
                    engine,
                    token@,
                    stated,
                    views(rules@),
                    asked,
                    first,
                    none,
                )
            };
        let then = choose|then: WorldModel| #[trigger]
            two_runs_tell(engine, token@, stated, views(rules@), asked, first, then, none);
        let world = WorldModel { facts: then.facts, rules: views(rules@) };
        let parts = choose|parts: Seq<Seq<Seq<char>>>|
            {
                &&& parts.len() == token@.blocks.len()
                &&& forall|j: int|
                    0 <= j < token@.blocks.len() ==> block_tells(
                        engine,
                        token@.blocks[j],
                        j as nat,
                        world,
                        token@.symbols,
                        0,
                        1,
                        asked,
                        #[trigger] parts[j],
                    )
                &&& none == #[trigger] parts.flatten_alt()
            };
        lemma_flat_empty(parts);
        assert(parts[i].len() == 0);
        let own = token@.blocks[i].facts;
        assert(starts_with(own[k], 0) || starts_with(own[k], 1));
        assert(states_reserved(own, 0, 1));
    }
}

/// Every caveat of the authority block is a rule of the world that a check runs first: where all
/// facts of the authority block have symbol 0 first, the check ran a world with exactly these facts
/// and with exactly these caveats as its rules, each at its place.
pub proof fn law_authority_caveats_are_rules<R, Q, F, P>(
    token: Biscuit,
    facts: Vec<Fact>,
    rules: Vec<Rule>,
    caveats: Vec<Rule>,
    engine: Engine<R, Q, F, P>,
    r: Result<(), Vec<String>>,
) where
    R: Fn(World) -> World,
    Q: Fn(&World, &Rule) -> Vec<Fact>,
    F: Fn(&SymbolTable, &Fact) -> String,
    P: Fn(&SymbolTable, &Rule) -> String,

    requires
        token@.wf(),
        forall|k: int|
            0 <= k < token@.authority.facts.len() ==> (
            #[trigger] token@.authority.facts[k]).ids.len() > 0 && token@.authority.facts[k].ids[0] == IdModel::Symbol(0),
        call_ensures(
            Biscuit::check::<R, Q, F, P>,
            (&token, facts, rules, caveats, &engine),
            r,
        ),
    ensures
        exists|w: World, o: World|
            {
                &&& #[trigger] call_ensures(engine.run, (w,), o)
                &&& w@.rules.len() == token@.authority.caveats.len()
                &&& forall|j: int|
                    0 <= j < token@.authority.caveats.len() ==> #[trigger] w@.rules[j]
                        == token@.authority.caveats[j]
                &&& forall|f: PredicateModel| #[trigger]
                    w@.facts.contains(f) == token@.authority.facts.contains(f)
            },
{
    law_token_check(token, facts, rules, caveats, engine, r);
    assert(all_start_with(token@.authority.facts, 0));
    let stated = token@.authority.facts;
    let first = choose|first: WorldModel|
        {
            &&& ran_to(engine, stated.to_set(), token@.authority.caveats, first)
            &&& #[trigger] first_run_tells(
                engine,
                token@,
                views(facts@),
                views(rules@),
                views(caveats@),
                first,
                messages_of(r),
            )
        };
    let (w, o) = choose|w: World, o: World|
        w@.facts == stated.to_set() && w@.rules == token@.authority.caveats && o@ == first
            && #[trigger] call_ensures(engine.run, (w,), o);
    assert forall|f: PredicateModel| #[trigger] w@.facts.contains(f) == stated.contains(f) by {
        assert(stated.to_set().contains(f) == stated.contains(f));
    }
}

/// `authority_world` refuses at the first fact of the authority block that has not symbol 0 first.
/// Where there is none, the world has exactly the facts of the authority block, and exactly its
/// caveats as rules, each at its place.
pub proof fn law_authority_world(token: Biscuit, r: Result<World, usize>)
    requires
        token@.wf(),
        call_ensures(Biscuit::authority_world, (&token,), r),
    ensures
        (r is Ok) == all_start_with(token@.authority.facts, 0),
        match r {
            Ok(w) => {
                &&& forall|f: PredicateModel| #[trigger]
                    w@.facts.contains(f) == token@.authority.facts.contains(f)
                &&& w@.rules.len() == token@.authority.caveats.len()
                &&& forall|j: int|
                    0 <= j < token@.authority.caveats.len() ==> #[trigger] w@.rules[j]
                        == token@.authority.caveats[j]
            },
            Err(k) => {
                &&& k < token@.authority.facts.len()
                &&& !starts_with(token@.authority.facts[k as int], 0)
                &&& all_start_with(token@.authority.facts.take(k as int), 0)
            },
        },
{
    let facts = token@.authority.facts;
    lemma_strays(token@, facts);
    match r {
        Ok(w) => {
            assert forall|f: PredicateModel| #[trigger] w@.facts.contains(f) == facts.contains(
                f,
            ) by {
                assert(facts.to_set().contains(f) == facts.contains(f));
            }
        },
        Err(k) => {
            lemma_first_stray(facts, not_authority(token@), 0, k as int);
        },
    }
}

/// `ambient_world` refuses a world with a fact that has not symbol 0 first, and then the first fact
/// of the verifier that has not symbol 1 first. Else the world has its facts and the verifier's,
/// and behind its own rules the verifier's, in order.
pub proof fn law_ambient_world(
    token: Biscuit,
    world: World,
    facts: Vec<Fact>,
    rules: Vec<Rule>,
    r: Result<World, AmbientFault>,
)
    requires
        token@.wf(),
        call_ensures(Biscuit::ambient_world, (&token, world, &facts, &rules), r),
    ensures
        (r matches Err(AmbientFault::Generated)) == exists|f: PredicateModel| #[trigger]
            world@.facts.contains(f) && !starts_with(f, 0),
        r is Ok ==> all_start_with(views(facts@), 1),
        match r {
            Ok(w) => {
                &&& forall|f: PredicateModel| #[trigger]
                    w@.facts.contains(f) == (world@.facts.contains(f) || views(facts@).contains(f))
                &&& w@.rules.len() == world@.rules.len() + rules@.len()
                &&& forall|j: int|
                    0 <= j < world@.rules.len() ==> #[trigger] w@.rules[j] == world@.rules[j]
                &&& forall|j: int|
                    0 <= j < rules@.len() ==> w@.rules[world@.rules.len() + j] == (
                    #[trigger] rules@[j])@
            },
            Err(AmbientFault::Generated) => true,
            Err(AmbientFault::Fact(k)) => {
                &&& k < facts@.len()
                &&& !starts_with(facts@[k as int]@, 1)
                &&& all_start_with(views(facts@).take(k as int), 1)
            },
        },
{
    let stated = views(facts@);
    lemma_contexts(token@);
    lemma_strays(token@, stated);
    if authority_only(token@, world@) {
        assert forall|f: PredicateModel| #[trigger] world@.facts.contains(f) implies starts_with(
            f,
            0,
        ) by {}
    }
    match r {
        Ok(w) => {
            assert forall|f: PredicateModel| #[trigger]
                w@.facts.contains(f) == (world@.facts.contains(f) || stated.contains(f)) by {
                assert(stated.to_set().contains(f) == stated.contains(f));
            }
            assert forall|j: int| 0 <= j < rules@.len() implies w@.rules[world@.rules.len() + j]
                == (#[trigger] rules@[j])@ by {
                assert(views(rules@)[j] == rules@[j]@);
            }
        },
        Err(AmbientFault::Generated) => {
            if forall|f: PredicateModel| #[trigger]
                world@.facts.contains(f) ==> starts_with(f, 0) {
                assert(authority_only(token@, world@));
            }
        },
        Err(AmbientFault::Fact(k)) => {
            lemma_first_stray(stated, not_ambient(token@), 1, k as int);
            assert(stated[k as int] == facts@[k as int]@);
        },
    }
}

/// Where the engine can be called, the strings of the two contexts are known, and every fact has an
/// identifier, a block can be checked.
pub proof fn law_block_check_can_be_called<R, Q, F, P>(
    block: Block,
    i: usize,
    world: World,
    symbols: SymbolTable,
    verifier_caveats: &[Rule],
    engine: Engine<R, Q, F, P>,
) where
    R: Fn(World) -> World,
    Q: Fn(&World, &Rule) -> Vec<Fact>,
    F: Fn(&SymbolTable, &Fact) -> String,
    P: Fn(&SymbolTable, &Rule) -> String,

    requires
        forall|w: World| #[trigger] call_requires(engine.run, (w,)),
        forall|w: World, r: Rule| #[trigger] call_requires(engine.query, (&w, &r)),
        forall|t: SymbolTable, f: Fact| #[trigger] call_requires(engine.print_fact, (&t, &f)),
        forall|t: SymbolTable, r: Rule| #[trigger] call_requires(engine.print_rule, (&t, &r)),
        symbols@.contains("authority"@),
        symbols@.contains("ambient"@),
        forall|k: int|
            0 <= k < block.facts@.len() ==> (#[trigger] block.facts@[k]).0.ids@.len() > 0,
    ensures
        call_requires(
            Block::check::<R, Q, F, P>,
            (&block, i, world, &symbols, verifier_caveats, &engine),
        ),
        call_requires(Block::enter, (&block, world, &symbols)),
{
    let facts = block@.facts;
    assert forall|k: int| 0 <= k < facts.len() implies (#[trigger] facts[k]).ids.len() > 0 by {
        assert(facts[k] == block.facts@[k]@);
        assert(block.facts@[k].0.ids@.len() > 0);
    }
}

/// Where the engine can be called and every fact has an identifier, a token can be checked.
pub proof fn law_check_can_be_called<R, Q, F, P>(
    token: Biscuit,
    facts: Vec<Fact>,
    rules: Vec<Rule>,
    caveats: Vec<Rule>,
    engine: Engine<R, Q, F, P>,
) where
    R: Fn(World) -> World,
    Q: Fn(&World, &Rule) -> Vec<Fact>,
    F: Fn(&SymbolTable, &Fact) -> String,
    P: Fn(&SymbolTable, &Rule) -> String,

    requires
        forall|w: World| #[trigger] call_requires(engine.run, (w,)),
        forall|w: World, r: Rule| #[trigger] call_requires(engine.query, (&w, &r)),
        forall|t: SymbolTable, f: Fact| #[trigger] call_requires(engine.print_fact, (&t, &f)),
        forall|t: SymbolTable, r: Rule| #[trigger] call_requires(engine.print_rule, (&t, &r)),
        forall|k: int|
            0 <= k < token@.authority.facts.len() ==> (
            #[trigger] token@.authority.facts[k]).ids.len() > 0,
        forall|k: int| 0 <= k < facts@.len() ==> (#[trigger] facts@[k]).0.ids@.len() > 0,
        forall|i: int, k: int|
            0 <= i < token@.blocks.len() && 0 <= k < token@.blocks[i].facts.len() ==> (
            #[trigger] token@.blocks[i].facts[k]).ids.len() > 0,
    ensures
        call_requires(
            Biscuit::check::<R, Q, F, P>,
            (&token, facts, rules, caveats, &engine),
        ),
        call_requires(Biscuit::authority_world, (&token,)),
{
    let stated = views(facts@);
    assert forall|k: int| 0 <= k < stated.len() implies (#[trigger] stated[k]).ids.len() > 0 by {
        assert(stated[k] == facts@[k]@);
        assert(facts@[k].0.ids@.len() > 0);
    }
    assert forall|i: int| 0 <= i < token@.blocks.len() implies readable(
        (#[trigger] token@.blocks[i]).facts,
        reserved(token@.symbols),
    ) by {
        let own = token@.blocks[i].facts;
        assert forall|k: int| 0 <= k < own.len() implies (#[trigger] own[k]).ids.len() > 0 by {
            assert(token@.blocks[i].facts[k].ids.len() > 0);
        }
    }
}

} // verus!
