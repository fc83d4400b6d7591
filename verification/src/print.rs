//! Tokens and blocks written out for people to read.
use vstd::prelude::*;

use crate::block::{Block, BlockModel};
use crate::symbols::SymbolTable;
use crate::terms::{views, Fact, PredicateModel, Rule, RuleModel};
use crate::text::{debug_strings, debug_text, decimal, decimal_text, join, joined};
use crate::token::{Biscuit, TokenModel};
use crate::world::{Answers, Engine, World};

verus! {

/// The layout of a block around the texts of its parts.
pub open spec fn block_layout(
    index: u32,
    symbols: Seq<char>,
    facts: Seq<Seq<char>>,
    caveats: Seq<Seq<char>>,
) -> Seq<char> {
    "Block["@ + decimal(index as nat) + "] {\n\t\tsymbols: "@ + symbols
        + "\n\t\tfacts: [\n\t\t\t"@ + joined(facts, ",\n\t\t\t"@) + "]\n\t\trules:[\n\t\t\t"@
        + joined(caveats, ",\n\t\t\t"@) + "]\n}"@
}

/// The layout of a token around the texts of its parts.
pub open spec fn token_layout(
    symbols: Seq<char>,
    authority: Seq<char>,
    blocks: Seq<Seq<char>>,
) -> Seq<char> {
    "Biscuit {\n\tsymbols: "@ + symbols + "\n\tauthority:\n"@ + authority
        + "\n\tblocks: [\n\t\t"@ + joined(blocks, ",\n\t"@) + "]\n}"@
}

/// The facts may be written as these texts.
pub open spec fn facts_printed(
    answers: Answers,
    symbols: Seq<Seq<char>>,
    facts: Seq<PredicateModel>,
    texts: Seq<Seq<char>>,
) -> bool {
    &&& texts.len() == facts.len()
    &&& forall|i: int|
        0 <= i < facts.len() ==> (answers.print_fact)(symbols, facts[i], #[trigger] texts[i])
}

/// The rules may be written as these texts.
pub open spec fn rules_printed(
    answers: Answers,
    symbols: Seq<Seq<char>>,
    rules: Seq<RuleModel>,
    texts: Seq<Seq<char>>,
) -> bool {
    &&& texts.len() == rules.len()
    &&& forall|i: int|
        0 <= i < rules.len() ==> (answers.print_rule)(symbols, rules[i], #[trigger] texts[i])
}

/// The block may be written as this text.
pub open spec fn block_printed(
    answers: Answers,
    symbols: Seq<Seq<char>>,
    block: BlockModel,
    text: Seq<char>,
) -> bool {
    exists|facts: Seq<Seq<char>>, caveats: Seq<Seq<char>>|
        {
            &&& facts_printed(answers, symbols, block.facts, facts)
            &&& rules_printed(answers, symbols, block.caveats, caveats)
            &&& text == #[trigger] block_layout(
                block.index,
                debug_text(block.symbols),
                facts,
                caveats,
            )
        }
}

/// The token may be written as this text.
pub open spec fn token_printed(answers: Answers, token: TokenModel, text: Seq<char>) -> bool {
    exists|authority: Seq<char>, blocks: Seq<Seq<char>>|
        {
            &&& block_printed(answers, token.symbols, token.authority, authority)
            &&& blocks.len() == token.blocks.len()
            &&& forall|i: int|
                0 <= i < token.blocks.len() ==> block_printed(
                    answers,
                    token.symbols,
                    token.blocks[i],
                    #[trigger] blocks[i],
                )
            &&& text == #[trigger] token_layout(
                debug_text(token.symbols),
                authority,
                blocks,
            )
        }
}

/// Lays out a block around the texts of its parts.
pub fn lay_out_block(
    index: u32,
    symbols: &String,
    facts: &Vec<String>,
    caveats: &Vec<String>,
) -> (r: String)
    ensures
        r@ == block_layout(index, symbols@, views(facts@), views(caveats@)),
{
    let mut r = "Block[".to_owned();
    r.append(decimal_text(index as u64).as_str());
    r.append("] {\n\t\tsymbols: ");
    r.append(symbols.as_str());
    r.append("\n\t\tfacts: [\n\t\t\t");
    r.append(join(facts, ",\n\t\t\t").as_str());
    r.append("]\n\t\trules:[\n\t\t\t");
    r.append(join(caveats, ",\n\t\t\t").as_str());
    r.append("]\n}");
    r
}

/// Lays out a token around the texts of its parts.
pub fn lay_out_token(symbols: &String, authority: &String, blocks: &Vec<String>) -> (r: String)
    ensures
        r@ == token_layout(symbols@, authority@, views(blocks@)),
{
    let mut r = "Biscuit {\n\tsymbols: ".to_owned();
    r.append(symbols.as_str());
    r.append("\n\tauthority:\n");
    r.append(authority.as_str());
    r.append("\n\tblocks: [\n\t\t");
    r.append(join(blocks, ",\n\t").as_str());
    r.append("]\n}");
    r
}

/// Writes a block, with the strings of a symbol table in its facts and caveats.
pub fn print_block<R, Q, F, P>(
    symbols: &SymbolTable,
    block: &Block,
    engine: &Engine<R, Q, F, P>,
) -> (r: String) where
    R: Fn(World) -> World,
    Q: Fn(&World, &Rule) -> Vec<Fact>,
    F: Fn(&SymbolTable, &Fact) -> String,
    P: Fn(&SymbolTable, &Rule) -> String,

    requires
        engine.ready(),
    ensures
        block_printed(engine.answers(), symbols@, block@, r@),
{
    let mut facts: Vec<String> = Vec::new();
    for k in 0..block.facts.len()
        invariant
            engine.ready(),
            facts@.len() == k,
            forall|i: int|
                0 <= i < k ==> (engine.answers().print_fact)(
                    symbols@,
                    block@.facts[i],
                    #[trigger] views(facts@)[i],
                ),
    {
        let text = (engine.print_fact)(symbols, &block.facts[k]);
        assert((engine.answers().print_fact)(symbols@, block@.facts[k as int], text@));
        let ghost before = views(facts@);
        facts.push(text);
        assert(views(facts@) =~= before.push(text@));
    }
    let mut rules: Vec<String> = Vec::new();
    for k in 0..block.caveats.len()
        invariant
            engine.ready(),
            rules@.len() == k,
            forall|i: int|
                0 <= i < k ==> (engine.answers().print_rule)(
                    symbols@,
                    block@.caveats[i],
                    #[trigger] views(rules@)[i],
                ),
    {
        let text = (engine.print_rule)(symbols, &block.caveats[k]);
        assert((engine.answers().print_rule)(symbols@, block@.caveats[k as int], text@));
        let ghost before = views(rules@);
        rules.push(text);
        assert(views(rules@) =~= before.push(text@));
    }
    let names = debug_strings(&block.symbols.symbols);
    assert(facts_printed(engine.answers(), symbols@, block@.facts, views(facts@)));
    assert(rules_printed(engine.answers(), symbols@, block@.caveats, views(rules@)));
    let r = lay_out_block(block.index, &names, &facts, &rules);
    assert(r@ == block_layout(
        block@.index,
        debug_text(block@.symbols),
        views(facts@),
        views(rules@),
    ));
    r
}

impl Biscuit {
    /// Writes the token.
    pub fn print<R, Q, F, P>(&self, engine: &Engine<R, Q, F, P>) -> (r: String) where
        R: Fn(World) -> World,
        Q: Fn(&World, &Rule) -> Vec<Fact>,
        F: Fn(&SymbolTable, &Fact) -> String,
        P: Fn(&SymbolTable, &Rule) -> String,

        requires
            engine.ready(),
        ensures
            token_printed(engine.answers(), self@, r@),
    {
        let symbols = self.symbols();
        let authority = print_block(symbols, self.authority(), engine);
        let blocks = self.blocks();
        let mut texts: Vec<String> = Vec::new();
        for k in 0..blocks.len()
            invariant
                engine.ready(),
                symbols@ == self@.symbols,
                views(blocks@) == self@.blocks,
                texts@.len() == k,
                forall|i: int|
                    0 <= i < k ==> block_printed(
                        engine.answers(),
                        self@.symbols,
                        self@.blocks[i],
                        #[trigger] views(texts@)[i],
                    ),
        {
            let text = print_block(symbols, &blocks[k], engine);
            assert(self@.blocks[k as int] == blocks@[k as int]@);
            let ghost before = views(texts@);
            texts.push(text);
            assert(views(texts@) =~= before.push(text@));
        }
        let names = debug_strings(&symbols.symbols);
        lay_out_token(&names, &authority, &texts)
    }
}

} // verus!
