//! Blocks, the parts of a token, and what a block asks for when a token is checked.
use vstd::prelude::*;

use crate::symbols::{symbol_of, with_symbol, SymbolTable};
use crate::terms::{copy_all, views, Fact, IdModel, PredicateModel, Rule, RuleModel, ID};
use crate::text::{decimal, decimal_text};
use crate::world::{in_context, lemma_one_more_fact, Answers, Engine, World, WorldModel};

verus! {

/// One part of a token: the strings, facts and rules that it adds.
#[derive(Debug)]
pub struct Block {
    pub index: u32,
    pub symbols: SymbolTable,
    pub facts: Vec<Fact>,
    pub caveats: Vec<Rule>,
}

/// The model of a [`Block`].
#[verifier::ext_equal]
pub struct BlockModel {
    pub index: u32,
    pub symbols: Seq<Seq<char>>,
    pub facts: Seq<PredicateModel>,
    pub caveats: Seq<RuleModel>,
}

impl View for Block {
    type V = BlockModel;

    open spec fn view(&self) -> BlockModel {
        BlockModel {
            index: self.index,
            symbols: self.symbols@,
            facts: views(self.facts@),
            caveats: views(self.caveats@),
        }
    }
}

impl Clone for Block {
    fn clone(&self) -> (r: Self)
        ensures
            r@ == self@,
    {
        Block {
            index: self.index,
            symbols: self.symbols.clone(),
            facts: copy_all(&self.facts),
            caveats: copy_all(&self.caveats),
        }
    }
}

/// `k` is the first place of a fact that `bad` singles out.
pub open spec fn first_bad(
    facts: Seq<PredicateModel>,
    bad: spec_fn(PredicateModel) -> bool,
    k: int,
) -> bool {
    &&& 0 <= k < facts.len()
    &&& bad(facts[k])
    &&& forall|j: int| 0 <= j < k ==> !bad(#[trigger] facts[j])
}

/// `bad` singles out no fact.
pub open spec fn none_bad(
    facts: Seq<PredicateModel>,
    bad: spec_fn(PredicateModel) -> bool,
) -> bool {
    forall|j: int| 0 <= j < facts.len() ==> !bad(#[trigger] facts[j])
}

/// The facts before which `bad` singles out none have a first identifier to look at.
pub open spec fn readable(
    facts: Seq<PredicateModel>,
    bad: spec_fn(PredicateModel) -> bool,
) -> bool {
    forall|j: int|
        0 <= j < facts.len() && none_bad(facts.take(j), bad) ==> (#[trigger] facts[j]).ids.len()
            > 0
}

/// Singles out the facts whose first identifier is not the symbol `context`.
pub open spec fn outside(context: u64) -> spec_fn(PredicateModel) -> bool {
    |f: PredicateModel| !in_context(f, context)
}

/// Singles out the facts whose first identifier is the symbol of `authority` or of `ambient`,
/// which no block but the authority block may state.
pub open spec fn reserved(symbols: Seq<Seq<char>>) -> spec_fn(PredicateModel) -> bool {
    |f: PredicateModel|
        in_context(f, symbol_of(symbols, "authority"@)) || in_context(
            f,
            symbol_of(symbols, "ambient"@),
        )
}

/// The messages of a check's result; none where the check succeeds.
pub open spec fn messages_of(r: Result<(), Vec<String>>) -> Seq<Seq<char>> {
    match r {
        Ok(_) => Seq::empty(),
        Err(e) => views(e@),
    }
}

/// The messages among some outcomes, in order.
pub open spec fn failures(outcomes: Seq<Option<Seq<char>>>) -> Seq<Seq<char>>
    decreases outcomes.len(),
{
    if outcomes.len() == 0 {
        Seq::empty()
    } else {
        match outcomes.last() {
            Some(m) => failures(outcomes.drop_last()).push(m),
            None => failures(outcomes.drop_last()),
        }
    }
}

/// The message that the caveat at place `j` of a list, written as `rule`, does not hold.
pub open spec fn caveat_message(label: Seq<char>, j: nat, rule: Seq<char>) -> Seq<char> {
    label + decimal(j) + " failed: "@ + rule
}

/// How the messages about the caveats of block `i` begin.
pub open spec fn block_label(i: nat) -> Seq<char> {
    "Block "@ + decimal(i) + ": caveat "@
}

/// How the messages about the verifier's caveats begin.
pub open spec fn verifier_label() -> Seq<char> {
    "Verifier caveat "@
}

/// The message that block `i` states a fact, written as `fact`, that it may not state.
pub open spec fn invalid_fact_message(i: nat, fact: Seq<char>) -> Seq<char> {
    "Block "@ + decimal(i) + ": invalid fact: "@ + fact
}

/// Asking for a caveat may have this outcome: nothing where the query finds a fact, a message
/// where it finds none.
pub open spec fn caveat_outcome(
    answers: Answers,
    world: WorldModel,
    symbols: Seq<Seq<char>>,
    label: Seq<char>,
    j: nat,
    caveat: RuleModel,
    outcome: Option<Seq<char>>,
) -> bool {
    exists|found: Seq<PredicateModel>| #[trigger]
        (answers.query)(world, caveat, found) && match outcome {
            None => found.len() > 0,
            Some(m) => found.len() == 0 && exists|rule: Seq<char>| #[trigger]
                (answers.print_rule)(symbols, caveat, rule) && m == caveat_message(label, j, rule),
        }
}

/// Asking for each caveat of a list may have these outcomes.
pub open spec fn caveat_outcomes(
    answers: Answers,
    world: WorldModel,
    symbols: Seq<Seq<char>>,
    label: Seq<char>,
    caveats: Seq<RuleModel>,
    outcomes: Seq<Option<Seq<char>>>,
) -> bool {
    &&& outcomes.len() == caveats.len()
    &&& forall|j: int|
        0 <= j < caveats.len() ==> caveat_outcome(
            answers,
            world,
            symbols,
            label,
            j as nat,
            caveats[j],
            #[trigger] outcomes[j],
        )
}

/// Asking for each caveat of a list may give these messages.
pub open spec fn caveats_outcome(
    answers: Answers,
    world: WorldModel,
    symbols: Seq<Seq<char>>,
    label: Seq<char>,
    caveats: Seq<RuleModel>,
    messages: Seq<Seq<char>>,
) -> bool {
    exists|outcomes: Seq<Option<Seq<char>>>| #[trigger]
        caveat_outcomes(answers, world, symbols, label, caveats, outcomes) && messages == failures(
            outcomes,
        )
}

/// Once the facts of block `i` are known, the world may become `ran`, and asking for the caveats of
/// the block and of the verifier may then give these messages.
pub open spec fn block_ran(
    answers: Answers,
    block: BlockModel,
    i: nat,
    world: WorldModel,
    symbols: Seq<Seq<char>>,
    verifier_caveats: Seq<RuleModel>,
    ran: WorldModel,
    own: Seq<Seq<char>>,
    theirs: Seq<Seq<char>>,
) -> bool {
    &&& (answers.run)(world.with_facts(block.facts), ran)
    &&& caveats_outcome(answers, ran, symbols, block_label(i), block.caveats, own)
    &&& caveats_outcome(answers, ran, symbols, verifier_label(), verifier_caveats, theirs)
}

/// Checking block `i` in a world may give these messages.
pub open spec fn block_outcome(
    answers: Answers,
    block: BlockModel,
    i: nat,
    world: WorldModel,
    symbols: Seq<Seq<char>>,
    verifier_caveats: Seq<RuleModel>,
    messages: Seq<Seq<char>>,
) -> bool {
    if none_bad(block.facts, reserved(symbols)) {
        exists|ran: WorldModel, own: Seq<Seq<char>>, theirs: Seq<Seq<char>>| #[trigger]
            block_ran(
                answers,
                block,
                i,
                world,
                symbols,
                verifier_caveats,
                ran,
                own,
                theirs,
            ) && messages == own + theirs
    } else {
        exists|k: int, fact: Seq<char>|
            {
                &&& #[trigger] first_bad(block.facts, reserved(symbols), k)
                &&& #[trigger] (answers.print_fact)(symbols, block.facts[k], fact)
                &&& messages == seq![invalid_fact_message(i, fact)]
            }
    }
}

/// Asks an engine for each caveat of a list, and collects the messages about those that do not
/// hold.
fn check_caveats<R, Q, F, P>(
    engine: &Engine<R, Q, F, P>,
    world: &World,
    symbols: &SymbolTable,
    label: &String,
    caveats: &[Rule],
) -> (r: Vec<String>) where
    R: Fn(World) -> World,
    Q: Fn(&World, &Rule) -> Vec<Fact>,
    F: Fn(&SymbolTable, &Fact) -> String,
    P: Fn(&SymbolTable, &Rule) -> String,

    requires
        engine.ready(),
    ensures
        caveats_outcome(
            engine.answers(),
            world@,
            symbols@,
            label@,
            views(caveats@),
            views(r@),
        ),
{
    let mut errors: Vec<String> = Vec::new();
    let ghost mut outcomes: Seq<Option<Seq<char>>> = Seq::empty();
    assert(views(errors@) =~= failures(outcomes));
    for j in 0..caveats.len()
        invariant
            engine.ready(),
            outcomes.len() == j,
            forall|k: int|
                0 <= k < j ==> caveat_outcome(
                    engine.answers(),
                    world@,
                    symbols@,
                    label@,
                    k as nat,
                    views(caveats@)[k],
                    #[trigger] outcomes[k],
                ),
            views(errors@) == failures(outcomes),
    {
        let caveat = &caveats[j];
        let found = (engine.query)(world, caveat);
        assert((engine.answers().query)(world@, caveat@, views(found@)));
        if found.is_empty() {
            let rule = (engine.print_rule)(symbols, caveat);
            assert((engine.answers().print_rule)(symbols@, caveat@, rule@));
            let mut message = label.clone();
            message.append(decimal_text(j as u64).as_str());
            message.append(" failed: ");
            message.append(rule.as_str());
            proof {
                let before = outcomes;
                outcomes = outcomes.push(Some(message@));
                assert(outcomes.drop_last() =~= before);
                assert(views(errors@.push(message)) =~= views(errors@).push(message@));
            }
            errors.push(message);
        } else {
            proof {
                let before = outcomes;
                outcomes = outcomes.push(None);
                assert(outcomes.drop_last() =~= before);
            }
        }
    }
    assert(caveat_outcomes(
        engine.answers(),
        world@,
        symbols@,
        label@,
        views(caveats@),
        outcomes,
    ));
    errors
}

impl Block {
    /// A block without facts and caveats.
    pub fn new(index: u32, base_symbols: SymbolTable) -> (r: Block)
        ensures
            r@ == (BlockModel {
                index,
                symbols: base_symbols@,
                facts: Seq::empty(),
                caveats: Seq::empty(),
            }),
    {
        let r = Block { index, symbols: base_symbols, facts: Vec::new(), caveats: Vec::new() };
        assert(r@.facts =~= Seq::empty());
        assert(r@.caveats =~= Seq::empty());
        r
    }

    /// The identifier that stands for `s` in this block, whose table gets `s` if it lacks it.
    pub fn symbol_add(&mut self, s: &str) -> (r: ID)
        ensures
            final(self)@ == (BlockModel { symbols: with_symbol(old(self)@.symbols, s@), ..old(self)@ }),
            r@ == IdModel::Symbol(symbol_of(final(self)@.symbols, s@)),
    {
        self.symbols.add(s)
    }

    /// The symbol of `s` in this block, whose table gets `s` if it lacks it.
    pub fn symbol_insert(&mut self, s: &str) -> (r: u64)
        ensures
            final(self)@ == (BlockModel { symbols: with_symbol(old(self)@.symbols, s@), ..old(self)@ }),
            r == symbol_of(final(self)@.symbols, s@),
    {
        self.symbols.insert(s)
    }

    /// Adds the facts of the block to a world, or gives the place of the first one that the block
    /// may not state.
    pub fn enter(&self, world: World, symbols: &SymbolTable) -> (r: Result<World, usize>)
        requires
            symbols@.contains("authority"@),
            symbols@.contains("ambient"@),
            readable(self@.facts, reserved(symbols@)),
        ensures
            match r {
                Ok(w) => none_bad(self@.facts, reserved(symbols@)) && w@ == world@.with_facts(
                    self@.facts,
                ),
                Err(k) => first_bad(self@.facts, reserved(symbols@), k as int),
            },
    {
        let authority_index = symbols.get("authority").unwrap();
        let ambient_index = symbols.get("ambient").unwrap();
        let ghost bad = reserved(symbols@);
        let ghost facts = self@.facts;
        let mut world = world;
        let ghost start = world@;
        assert(start.with_facts(facts.take(0)) =~= start);
        for k in 0..self.facts.len()
            invariant
                facts == self@.facts,
                bad == reserved(symbols@),
                authority_index == symbol_of(symbols@, "authority"@),
                ambient_index == symbol_of(symbols@, "ambient"@),
                forall|j: int| 0 <= j < k ==> !bad(#[trigger] facts[j]),
                world@ == start.with_facts(facts.take(k as int)),
        {
            let fact = &self.facts[k];
            assert(facts[k as int] == fact@);
            if fact.has_context(authority_index) || fact.has_context(ambient_index) {
                return Err(k);
            }
            world.add_fact(fact.clone());
            proof {
                lemma_one_more_fact(start, facts, k as int);
            }
        }
        assert(facts.take(facts.len() as int) =~= facts);
        Ok(world)
    }

    /// Checks block `i` of a token in a world: it may not state facts of the authority or of the
    /// verifier, and its caveats and those of the verifier must hold once its facts are known.
    pub fn check<R, Q, F, P>(
        &self,
        i: usize,
        world: World,
        symbols: &SymbolTable,
        verifier_caveats: &[Rule],
        engine: &Engine<R, Q, F, P>,
    ) -> (r: Result<(), Vec<String>>) where
        R: Fn(World) -> World,
        Q: Fn(&World, &Rule) -> Vec<Fact>,
        F: Fn(&SymbolTable, &Fact) -> String,
        P: Fn(&SymbolTable, &Rule) -> String,

        requires
            engine.ready(),
            symbols@.contains("authority"@),
            symbols@.contains("ambient"@),
            readable(self@.facts, reserved(symbols@)),
        ensures
            block_outcome(
                engine.answers(),
                self@,
                i as nat,
                world@,
                symbols@,
                views(verifier_caveats@),
                messages_of(r),
            ),
            r is Err ==> messages_of(r).len() > 0,
    {
        let ghost before = world@;
        let world = match self.enter(world, symbols) {
            Ok(world) => world,
            Err(k) => {
                let fact = (engine.print_fact)(symbols, &self.facts[k]);
                assert((engine.answers().print_fact)(symbols@, self@.facts[k as int], fact@));
                let mut message = "Block ".to_owned();
                message.append(decimal_text(i as u64).as_str());
                message.append(": invalid fact: ");
                message.append(fact.as_str());
                let errors = vec![message];
                assert(views(errors@) =~= seq![message@]);
                return Err(errors);
            },
        };
        let ran = (engine.run)(world);
        assert((engine.answers().run)(before.with_facts(self@.facts), ran@));
        let mut label = "Block ".to_owned();
        label.append(decimal_text(i as u64).as_str());
        label.append(": caveat ");
        assert(label@ == block_label(i as nat));
        let mut errors = check_caveats(engine, &ran, symbols, &label, self.caveats.as_slice());
        let their_label = "Verifier caveat ".to_owned();
        let mut theirs = check_caveats(engine, &ran, symbols, &their_label, verifier_caveats);
        let ghost own = views(errors@);
        let ghost their = views(theirs@);
        errors.append(&mut theirs);
        assert(views(errors@) =~= own + their);
        assert(block_ran(
            engine.answers(),
            self@,
            i as nat,
            before,
            symbols@,
            views(verifier_caveats@),
            ran@,
            own,
            their,
        ));
        if errors.is_empty() {
            assert(views(errors@) =~= Seq::empty());
            Ok(())
        } else {
            Err(errors)
        }
    }
}

} // verus!
