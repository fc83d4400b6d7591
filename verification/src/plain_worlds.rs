//! What worlds hold and what their operations give, told in plain terms: by facts and places.
use vstd::prelude::*;

use crate::terms::{views, Fact, IdModel, PredicateModel, Rule, RuleModel};
use crate::world::{in_context, World, WorldModel};

verus! {

/// A world shows each of its facts once and no others, and its rules in order.
pub proof fn law_world_shows_its_parts(world: World, facts: &Vec<Fact>, rules: &Vec<Rule>)
    requires
        call_ensures(World::facts, (&world,), facts),
        call_ensures(World::rules, (&world,), rules),
    ensures
        forall|f: PredicateModel| #[trigger]
            world@.facts.contains(f) == (exists|k: int|
                0 <= k < facts@.len() && (#[trigger] facts@[k])@ == f),
        forall|j: int, k: int|
            0 <= j < k < facts@.len() ==> (#[trigger] facts@[j])@ != (#[trigger] facts@[k])@,
        world@.rules.len() == rules@.len(),
        forall|k: int| 0 <= k < rules@.len() ==> #[trigger] world@.rules[k] == rules@[k]@,
{
    let models = views(facts@);
    assert forall|f: PredicateModel| #[trigger] world@.facts.contains(f) == (exists|k: int|
        0 <= k < facts@.len() && (#[trigger] facts@[k])@ == f) by {
        assert(world@.facts.contains(f) == models.contains(f));
        if models.contains(f) {
            let k = choose|k: int| 0 <= k < models.len() && models[k] == f;
            assert(facts@[k]@ == f);
        }
        if exists|k: int| 0 <= k < facts@.len() && (#[trigger] facts@[k])@ == f {
            let k = choose|k: int| 0 <= k < facts@.len() && (#[trigger] facts@[k])@ == f;
            assert(models[k] == f);
        }
    }
    assert forall|j: int, k: int| 0 <= j < k < facts@.len() implies (#[trigger] facts@[j])@ != (
    #[trigger] facts@[k])@ by {
        assert(models[j] == facts@[j]@ && models[k] == facts@[k]@);
    }
}

/// A new world has no fact and no rule.
pub proof fn law_new_world(world: World)
    requires
        call_ensures(World::new, (), world),
    ensures
        forall|f: PredicateModel| !(#[trigger] world@.facts.contains(f)),
        world@.rules.len() == 0,
{
}

/// `holds` says whether the fact is one of the world's.
pub proof fn law_world_holds(world: World, fact: Fact, r: bool)
    requires
        call_ensures(World::holds, (&world, &fact), r),
    ensures
        r == world@.facts.contains(fact@),
{
}

/// `add_fact` makes this fact one of the world's and no other, and keeps the rules.
pub proof fn law_add_fact(world: &mut World, fact: Fact)
    requires
        call_ensures(World::add_fact, (world, fact), ()),
    ensures
        forall|f: PredicateModel| #[trigger]
            final(world)@.facts.contains(f) == (old(world)@.facts.contains(f) || f == fact@),
        final(world)@.rules == old(world)@.rules,
{
    assert forall|f: PredicateModel| #[trigger]
        final(world)@.facts.contains(f) == (old(world)@.facts.contains(f) || f == fact@) by {
        let one = seq![fact@];
        assert(one.to_set().contains(f) == one.contains(f));
        assert(one[0] == fact@);
    }
}

/// `add_rule` puts this rule behind the world's, and keeps the facts.
pub proof fn law_add_rule(world: &mut World, rule: Rule)
    requires
        call_ensures(World::add_rule, (world, rule), ()),
    ensures
        final(world)@.facts == old(world)@.facts,
        final(world)@.rules.len() == old(world)@.rules.len() + 1,
        forall|k: int|
            0 <= k < old(world)@.rules.len() ==> #[trigger] final(world)@.rules[k]
                == old(world)@.rules[k],
        final(world)@.rules[old(world)@.rules.len() as int] == rule@,
{
}

/// `add_rules` puts these rules behind the world's, in order, and keeps the facts.
pub proof fn law_add_rules(world: &mut World, rules: Vec<Rule>)
    requires
        call_ensures(World::add_rules, (world, &rules), ()),
    ensures
        final(world)@.facts == old(world)@.facts,
        final(world)@.rules.len() == old(world)@.rules.len() + rules@.len(),
        forall|k: int|
            0 <= k < old(world)@.rules.len() ==> #[trigger] final(world)@.rules[k]
                == old(world)@.rules[k],
        forall|k: int|
            0 <= k < rules@.len() ==> final(world)@.rules[old(world)@.rules.len() + k] == (
            #[trigger] rules@[k])@,
{
    assert forall|k: int| 0 <= k < rules@.len() implies final(world)@.rules[old(world)@.rules.len()
        + k] == (#[trigger] rules@[k])@ by {
        assert(views(rules@)[k] == rules@[k]@);
    }
}

/// `replace_rules` leaves these rules alone, in order, and keeps the facts.
pub proof fn law_replace_rules(world: &mut World, rules: Vec<Rule>)
    requires
        call_ensures(World::replace_rules, (world, rules), ()),
    ensures
        final(world)@.facts == old(world)@.facts,
        final(world)@.rules.len() == rules@.len(),
        forall|k: int| 0 <= k < rules@.len() ==> #[trigger] final(world)@.rules[k] == rules@[k]@,
{
}

/// `all_in_context` says whether each fact of the world has this symbol as its first identifier.
pub proof fn law_all_in_context(world: World, context: u64, r: bool)
    requires
        call_ensures(World::all_in_context, (&world, context), r),
    ensures
        r == (forall|f: PredicateModel| #[trigger]
            world@.facts.contains(f) ==> f.ids.len() > 0 && f.ids[0] == IdModel::Symbol(context)),
{
    if r {
        assert forall|f: PredicateModel| #[trigger] world@.facts.contains(f) implies f.ids.len() > 0
            && f.ids[0] == IdModel::Symbol(context) by {
            assert(in_context(f, context));
        }
    } else {
        let f = choose|f: PredicateModel| #[trigger]
            world@.facts.contains(f) && !in_context(f, context);
        assert(world@.facts.contains(f) && !in_context(f, context));
    }
}

/// A copy of a world has the same facts and rules.
pub proof fn law_world_copy(world: World, copy: World)
    requires
        call_ensures(World::clone, (&world,), copy),
    ensures
        copy@ == world@,
{
}

/// A world with more facts has its own and these, and its own rules; one with more rules has its
/// own and behind them these, and its own facts.
pub proof fn law_more_in_a_world(
    world: WorldModel,
    facts: Seq<PredicateModel>,
    rules: Seq<RuleModel>,
)
    ensures
        forall|f: PredicateModel| #[trigger]
            world.with_facts(facts).facts.contains(f) == (world.facts.contains(f)
                || facts.contains(f)),
        world.with_facts(facts).rules == world.rules,
        world.with_rules(rules).facts == world.facts,
        world.with_rules(rules).rules == world.rules + rules,
{
    assert forall|f: PredicateModel| #[trigger]
        world.with_facts(facts).facts.contains(f) == (world.facts.contains(f) || facts.contains(
            f,
        )) by {
        assert(facts.to_set().contains(f) == facts.contains(f));
    }
}

} // verus!
