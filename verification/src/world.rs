//! The facts and rules that a check reasons from, and the engine that does the reasoning.
use vstd::prelude::*;

use crate::symbols::SymbolTable;
use crate::terms::{copy_all, views, Fact, IdModel, PredicateModel, Rule, RuleModel, ID};

verus! {

/// A set of facts, and rules in order.
#[derive(Debug)]
pub struct World {
    facts: Vec<Fact>,
    rules: Vec<Rule>,
}

/// The model of a [`World`].
#[verifier::ext_equal]
pub struct WorldModel {
    pub facts: Set<PredicateModel>,
    pub rules: Seq<RuleModel>,
}

impl View for World {
    type V = WorldModel;

    closed spec fn view(&self) -> WorldModel {
        WorldModel { facts: views(self.facts@).to_set(), rules: views(self.rules@) }
    }
}

impl WorldModel {
    /// The world with some more facts.
    pub open spec fn with_facts(self, facts: Seq<PredicateModel>) -> WorldModel {
        WorldModel { facts: self.facts.union(facts.to_set()), rules: self.rules }
    }

    /// The world with some more rules after its own.
    pub open spec fn with_rules(self, rules: Seq<RuleModel>) -> WorldModel {
        WorldModel { facts: self.facts, rules: self.rules + rules }
    }

    /// Every fact of the world has the symbol `context` as its first identifier.
    pub open spec fn keeps_to(self, context: u64) -> bool {
        forall|f: PredicateModel| #[trigger] self.facts.contains(f) ==> in_context(f, context)
    }
}

/// The fact's first identifier is the symbol `context`.
pub open spec fn in_context(fact: PredicateModel, context: u64) -> bool {
    fact.ids.len() > 0 && fact.ids[0] == IdModel::Symbol(context)
}

impl Fact {
    /// Whether the fact's first identifier is the symbol `context`.
    pub fn has_context(&self, context: u64) -> (r: bool)
        ensures
            r == in_context(self@, context),
    {
        self.0.ids.len() > 0 && match &self.0.ids[0] {
            ID::Symbol(s) => *s == context,
            _ => false,
        }
    }
}

impl Clone for World {
    fn clone(&self) -> (r: Self)
        ensures
            r@ == self@,
    {
        proof {
            use_type_invariant(self);
        }
        let facts = copy_all(&self.facts);
        let rules = copy_all(&self.rules);
        World { facts, rules }
    }
}

impl World {
    /// No fact is held twice.
    #[verifier::type_invariant]
    spec fn no_fact_twice(self) -> bool {
        views(self.facts@).no_duplicates()
    }

    /// A world without facts and rules.
    pub fn new() -> (r: World)
        ensures
            r@ == (WorldModel { facts: Set::empty(), rules: Seq::empty() }),
    {
        let r = World { facts: Vec::new(), rules: Vec::new() };
        assert(r@ =~= WorldModel { facts: Set::empty(), rules: Seq::empty() });
        r
    }

    /// The facts, each once.
    pub fn facts(&self) -> (r: &Vec<Fact>)
        ensures
            views(r@).to_set() == self@.facts,
            views(r@).no_duplicates(),
    {
        proof {
            use_type_invariant(self);
        }
        &self.facts
    }

    /// The rules.
    pub fn rules(&self) -> (r: &Vec<Rule>)
        ensures
            views(r@) == self@.rules,
    {
        &self.rules
    }

    /// Whether the world holds `fact`.
    pub fn holds(&self, fact: &Fact) -> (r: bool)
        ensures
            r == self@.facts.contains(fact@),
    {
        for k in 0..self.facts.len()
            invariant
                forall|j: int| 0 <= j < k ==> #[trigger] views(self.facts@)[j] != fact@,
        {
            assert(views(self.facts@)[k as int] == self.facts@[k as int]@);
            if self.facts[k].0.same(&fact.0) {
                assert(views(self.facts@).contains(fact@));
                return true;
            }
        }
        assert(!views(self.facts@).contains(fact@));
        false
    }

    /// Puts `fact` into the set of facts.
    pub fn add_fact(&mut self, fact: Fact)
        ensures
            final(self)@ == old(self)@.with_facts(seq![fact@]),
    {
        let ghost before = self@;
        let ghost f = fact@;
        proof {
            lemma_one_fact(f);
        }
        if self.holds(&fact) {
            assert(self@ =~= before.with_facts(seq![f]));
            return;
        }
        proof {
            use_type_invariant(&*self);
        }
        let mut facts: Vec<Fact> = Vec::new();
        std::mem::swap(&mut facts, &mut self.facts);
        let ghost olds = views(facts@);
        facts.push(fact);
        assert(views(facts@) =~= olds.push(f));
        assert(!olds.contains(f));
        self.facts = facts;
        proof {
            olds.lemma_push_to_set_commute(f);
            assert(self@ =~= before.with_facts(seq![f]));
        }
    }

    /// Puts `rule` after the rules.
    pub fn add_rule(&mut self, rule: Rule)
        ensures
            final(self)@ == old(self)@.with_rules(seq![rule@]),
    {
        proof {
            use_type_invariant(&*self);
        }
        let mut rules: Vec<Rule> = Vec::new();
        std::mem::swap(&mut rules, &mut self.rules);
        let ghost olds = views(rules@);
        let ghost added = rule@;
        rules.push(rule);
        assert(views(rules@) =~= olds + seq![added]);
        self.rules = rules;
    }

    /// Puts copies of `rules` after the rules.
    pub fn add_rules(&mut self, rules: &Vec<Rule>)
        ensures
            final(self)@ == old(self)@.with_rules(views(rules@)),
    {
        let ghost before = self@;
        assert(views(rules@).take(0) =~= Seq::empty());
        assert(before.with_rules(views(rules@).take(0)) =~= before);
        for k in 0..rules.len()
            invariant
                self@ == before.with_rules(views(rules@).take(k as int)),
        {
            self.add_rule(rules[k].clone());
            assert(views(rules@).take(k as int) + seq![rules@[k as int]@] =~= views(rules@).take(
                k + 1,
            ));
            assert(self@ =~= before.with_rules(views(rules@).take(k + 1)));
        }
        assert(views(rules@).take(rules@.len() as int) =~= views(rules@));
    }

    /// Puts `rules` in the place of the rules.
    pub fn replace_rules(&mut self, rules: Vec<Rule>)
        ensures
            final(self)@ == (WorldModel { facts: old(self)@.facts, rules: views(rules@) }),
    {
        proof {
            use_type_invariant(&*self);
        }
        self.rules = rules;
    }

    /// Whether every fact has the symbol `context` as its first identifier.
    pub fn all_in_context(&self, context: u64) -> (r: bool)
        ensures
            r == (forall|f: PredicateModel| #[trigger]
                self@.facts.contains(f) ==> in_context(f, context)),
            r == self@.keeps_to(context),
    {
        let ghost models = views(self.facts@);
        for k in 0..self.facts.len()
            invariant
                models == views(self.facts@),
                forall|j: int| 0 <= j < k ==> in_context(#[trigger] models[j], context),
        {
            assert(models[k as int] == self.facts@[k as int]@);
            if !self.facts[k].has_context(context) {
                assert(models.contains(models[k as int]));
                assert(self@.facts.contains(models[k as int]));
                return false;
            }
        }
        assert forall|f: PredicateModel| #[trigger] self@.facts.contains(f) implies in_context(
            f,
            context,
        ) by {
            assert(models.contains(f));
        }
        true
    }
}

/// The set of one fact.
proof fn lemma_one_fact(f: PredicateModel)
    ensures
        seq![f].to_set() == Set::empty().insert(f),
{
    assert forall|g: PredicateModel| seq![f].to_set().contains(g) == (g == f) by {
        assert(seq![f][0] == f);
    }
    assert(seq![f].to_set() =~= Set::empty().insert(f));
}

/// A world with the first facts of a list and then the next one.
pub proof fn lemma_one_more_fact(start: WorldModel, facts: Seq<PredicateModel>, k: int)
    requires
        0 <= k < facts.len(),
    ensures
        start.with_facts(facts.take(k)).with_facts(seq![facts[k]]) == start.with_facts(
            facts.take(k + 1),
        ),
{
    let a = start.with_facts(facts.take(k)).with_facts(seq![facts[k]]);
    let b = start.with_facts(facts.take(k + 1));
    lemma_one_fact(facts[k]);
    facts.take(k).lemma_push_to_set_commute(facts[k]);
    assert(facts.take(k).push(facts[k]) =~= facts.take(k + 1));
    assert(a =~= b);
}

/// A Datalog engine, as the functions that a check calls.
///
/// - `run` gives back a world with the facts that follow from its rules;
/// - `query` gives the facts that one more rule would produce in a world;
/// - `print_fact` and `print_rule` write a fact or a rule with the strings of a symbol table.
pub struct Engine<R, Q, F, P> {
    pub run: R,
    pub query: Q,
    pub print_fact: F,
    pub print_rule: P,
}

/// What an engine may answer, over models.
pub struct Answers {
    /// The second world may come back for the first.
    pub run: spec_fn(WorldModel, WorldModel) -> bool,
    /// Querying the world with the rule may give the facts.
    pub query: spec_fn(WorldModel, RuleModel, Seq<PredicateModel>) -> bool,
    /// The fact, with the strings of the table, may be written as the text.
    pub print_fact: spec_fn(Seq<Seq<char>>, PredicateModel, Seq<char>) -> bool,
    /// The rule, with the strings of the table, may be written as the text.
    pub print_rule: spec_fn(Seq<Seq<char>>, RuleModel, Seq<char>) -> bool,
}

impl<R, Q, F, P> Engine<R, Q, F, P> where
    R: Fn(World) -> World,
    Q: Fn(&World, &Rule) -> Vec<Fact>,
    F: Fn(&SymbolTable, &Fact) -> String,
    P: Fn(&SymbolTable, &Rule) -> String,
 {
    /// Every function of the engine can be called on every value.
    pub open spec fn ready(&self) -> bool {
        &&& forall|w: World| #[trigger] call_requires(self.run, (w,))
        &&& forall|w: World, r: Rule| #[trigger] call_requires(self.query, (&w, &r))
        &&& forall|t: SymbolTable, f: Fact| #[trigger] call_requires(self.print_fact, (&t, &f))
        &&& forall|t: SymbolTable, r: Rule| #[trigger] call_requires(self.print_rule, (&t, &r))
    }

    /// What the functions of the engine may return.
    pub open spec fn answers(&self) -> Answers {
        Answers {
            run: |w: WorldModel, out: WorldModel|
                exists|a: World, b: World|
                    a@ == w && b@ == out && #[trigger] call_ensures(self.run, (a,), b),
            query: |w: WorldModel, r: RuleModel, out: Seq<PredicateModel>|
                exists|a: World, b: Rule, c: Vec<Fact>|
                    a@ == w && b@ == r && views(c@) == out && #[trigger] call_ensures(
                        self.query,
                        (&a, &b),
                        c,
                    ),
            print_fact: |t: Seq<Seq<char>>, f: PredicateModel, out: Seq<char>|
                exists|a: SymbolTable, b: Fact, c: String|
                    a@ == t && b@ == f && c@ == out && #[trigger] call_ensures(
                        self.print_fact,
                        (&a, &b),
                        c,
                    ),
            print_rule: |t: Seq<Seq<char>>, r: RuleModel, out: Seq<char>|
                exists|a: SymbolTable, b: Rule, c: String|
                    a@ == t && b@ == r && c@ == out && #[trigger] call_ensures(
                        self.print_rule,
                        (&a, &b),
                        c,
                    ),
        }
    }
}

} // verus!
