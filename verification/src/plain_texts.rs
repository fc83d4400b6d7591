//! What printing gives, told in plain terms: which texts stand in what is printed, in which order,
//! and what stands between them.
use vstd::prelude::*;

use crate::block::{Block, BlockModel};
use crate::plain_checks::{wrote_fact, wrote_rule};
use crate::plain_values::law_joined;
use crate::print::{
    block_layout, block_printed, facts_printed, lay_out_block, lay_out_token, print_block,
    rules_printed, token_layout,
};
use crate::symbols::SymbolTable;
use crate::terms::{views, Fact, Rule};
use crate::text::{debug_text, decimal, joined};
use crate::token::{Biscuit, TokenModel};
use crate::world::{Engine, World};

verus! {

/// The parts stand in the text at these places, one behind another.
pub open spec fn parts_at(text: Seq<char>, parts: Seq<Seq<char>>, places: Seq<int>) -> bool {
    &&& places.len() == parts.len()
    &&& forall|k: int|
        0 <= k < parts.len() ==> 0 <= #[trigger] places[k] && places[k] + parts[k].len()
            <= text.len() && text.subrange(places[k], places[k] + parts[k].len()) == parts[k]
    &&& forall|k: int, l: int|
        0 <= k < l < parts.len() ==> #[trigger] places[k] + parts[k].len() <= #[trigger] places[l]
}

/// The parts stand in the text, one behind another.
pub open spec fn holds_in_order(text: Seq<char>, parts: Seq<Seq<char>>) -> bool {
    exists|places: Seq<int>| #[trigger] parts_at(text, parts, places)
}

/// Parts of a text are parts of a longer text around it.
proof fn lemma_within_longer(
    before: Seq<char>,
    text: Seq<char>,
    after: Seq<char>,
    parts: Seq<Seq<char>>,
)
    requires
        holds_in_order(text, parts),
    ensures
        holds_in_order(before + text + after, parts),
{
    let places = choose|places: Seq<int>| #[trigger] parts_at(text, parts, places);
    let n: int = before.len() as int;
    let whole = before + text + after;
    let moved = Seq::new(places.len(), |k: int| places[k] + n);
    assert forall|k: int| 0 <= k < parts.len() implies 0 <= #[trigger] moved[k] && moved[k]
        + parts[k].len() <= whole.len() && whole.subrange(moved[k], moved[k] + parts[k].len())
        == parts[k] by {
        assert(0 <= places[k]);
        assert(whole.subrange(moved[k], moved[k] + parts[k].len()) =~= text.subrange(
            places[k],
            places[k] + parts[k].len(),
        ));
    }
    assert forall|k: int, l: int| 0 <= k < l < parts.len() implies #[trigger] moved[k]
        + parts[k].len() <= #[trigger] moved[l] by {
        assert(places[k] + parts[k].len() <= places[l]);
    }
    assert(parts_at(whole, parts, moved));
}

/// Parts of a text and parts of another one behind it are parts of both together.
proof fn lemma_side_by_side(
    a: Seq<char>,
    b: Seq<char>,
    parts: Seq<Seq<char>>,
    more: Seq<Seq<char>>,
)
    requires
        holds_in_order(a, parts),
        holds_in_order(b, more),
    ensures
        holds_in_order(a + b, parts + more),
{
    let p = choose|places: Seq<int>| #[trigger] parts_at(a, parts, places);
    let q = choose|places: Seq<int>| #[trigger] parts_at(b, more, places);
    let n: int = a.len() as int;
    let whole = a + b;
    let all = parts + more;
    let places = p + Seq::new(q.len(), |k: int| q[k] + n);
    assert forall|k: int| 0 <= k < all.len() implies 0 <= #[trigger] places[k] && places[k]
        + all[k].len() <= whole.len() && whole.subrange(places[k], places[k] + all[k].len())
        == all[k] by {
        if k < parts.len() {
            assert(0 <= p[k]);
            assert(whole.subrange(p[k], p[k] + parts[k].len()) =~= a.subrange(
                p[k],
                p[k] + parts[k].len(),
            ));
        } else {
            let j: int = k - parts.len();
            assert(0 <= q[j]);
            assert(whole.subrange(q[j] + n, q[j] + n + more[j].len()) =~= b.subrange(
                q[j],
                q[j] + more[j].len(),
            ));
        }
    }
    assert forall|k: int, l: int| 0 <= k < l < all.len() implies #[trigger] places[k]
        + all[k].len() <= #[trigger] places[l] by {
        if l < parts.len() {
            assert(p[k] + parts[k].len() <= p[l]);
        } else if k < parts.len() {
            assert(0 <= p[k]);
            assert(0 <= q[l - parts.len()]);
        } else {
            assert(q[k - parts.len()] + more[k - parts.len()].len() <= q[l - parts.len()]);
        }
    }
    assert(parts_at(whole, all, places));
}

/// A text is a part of itself.
proof fn lemma_itself(text: Seq<char>)
    ensures
        holds_in_order(text, seq![text]),
{
    assert(text.subrange(0, text.len() as int) =~= text);
    assert(parts_at(text, seq![text], seq![0int]));
}

/// Joined texts are parts of what they were joined to, in order.
pub proof fn law_joined_holds_all(texts: Seq<Seq<char>>, separator: Seq<char>)
    ensures
        holds_in_order(joined(texts, separator), texts),
    decreases texts.len(),
{
    if texts.len() == 0 {
        assert(parts_at(joined(texts, separator), texts, Seq::empty()));
    } else {
        let front = texts.drop_last();
        let last = seq![texts.last()];
        assert(front + last =~= texts);
        lemma_itself(texts.last());
        law_joined(last, last, separator);
        if front.len() == 0 {
            assert(last =~= texts);
        } else {
            law_joined_holds_all(front, separator);
            law_joined(front, last, separator);
            lemma_within_longer(Seq::empty(), joined(front, separator), separator, front);
            assert(Seq::<char>::empty() + joined(front, separator) + separator =~= joined(
                front,
                separator,
            ) + separator);
            lemma_side_by_side(
                joined(front, separator) + separator,
                texts.last(),
                front,
                last,
            );
        }
    }
}

/// These may be the texts of all facts and of all caveats of a block, each at its place.
pub open spec fn wrote_all<R, Q, F, P>(
    engine: Engine<R, Q, F, P>,
    strings: Seq<Seq<char>>,
    block: BlockModel,
    facts: Seq<Seq<char>>,
    rules: Seq<Seq<char>>,
) -> bool where
    R: Fn(World) -> World,
    Q: Fn(&World, &Rule) -> Vec<Fact>,
    F: Fn(&SymbolTable, &Fact) -> String,
    P: Fn(&SymbolTable, &Rule) -> String,
 {
    &&& facts.len() == block.facts.len()
    &&& forall|k: int|
        0 <= k < block.facts.len() ==> wrote_fact(
            engine,
            strings,
            block.facts[k],
            #[trigger] facts[k],
        )
    &&& rules.len() == block.caveats.len()
    &&& forall|k: int|
        0 <= k < block.caveats.len() ==> wrote_rule(
            engine,
            strings,
            block.caveats[k],
            #[trigger] rules[k],
        )
}

/// The text holds the text of every fact of the block, in order, and behind them the text of every
/// caveat, in order.
pub open spec fn shows_block<R, Q, F, P>(
    engine: Engine<R, Q, F, P>,
    strings: Seq<Seq<char>>,
    block: BlockModel,
    text: Seq<char>,
) -> bool where
    R: Fn(World) -> World,
    Q: Fn(&World, &Rule) -> Vec<Fact>,
    F: Fn(&SymbolTable, &Fact) -> String,
    P: Fn(&SymbolTable, &Rule) -> String,
 {
    exists|facts: Seq<Seq<char>>, rules: Seq<Seq<char>>| #[trigger]
        wrote_all(engine, strings, block, facts, rules) && holds_in_order(text, facts + rules)
}

/// The text is that of the block: its index, its own strings, the texts of its facts and of its
/// caveats, with what stands between them.
pub open spec fn is_block_text<R, Q, F, P>(
    engine: Engine<R, Q, F, P>,
    strings: Seq<Seq<char>>,
    block: BlockModel,
    text: Seq<char>,
) -> bool where
    R: Fn(World) -> World,
    Q: Fn(&World, &Rule) -> Vec<Fact>,
    F: Fn(&SymbolTable, &Fact) -> String,
    P: Fn(&SymbolTable, &Rule) -> String,
 {
    exists|facts: Seq<Seq<char>>, rules: Seq<Seq<char>>| #[trigger]
        wrote_all(engine, strings, block, facts, rules) && text == "Block["@ + decimal(
            block.index as nat,
        ) + "] {\n\t\tsymbols: "@ + debug_text(block.symbols) + "\n\t\tfacts: [\n\t\t\t"@ + joined(
            facts,
            ",\n\t\t\t"@,
        ) + "]\n\t\trules:[\n\t\t\t"@ + joined(rules, ",\n\t\t\t"@) + "]\n}"@
}

/// What a printed block may be, and what stands in it.
proof fn lemma_block_text<R, Q, F, P>(
    engine: Engine<R, Q, F, P>,
    strings: Seq<Seq<char>>,
    block: BlockModel,
    text: Seq<char>,
) where
    R: Fn(World) -> World,
    Q: Fn(&World, &Rule) -> Vec<Fact>,
    F: Fn(&SymbolTable, &Fact) -> String,
    P: Fn(&SymbolTable, &Rule) -> String,

    requires
        block_printed(engine.answers(), strings, block, text),
    ensures
        is_block_text(engine, strings, block, text),
        shows_block(engine, strings, block, text),
{
    let answers = engine.answers();
    let (facts, rules) = choose|facts: Seq<Seq<char>>, caveats: Seq<Seq<char>>|
        {
            &&& facts_printed(answers, strings, block.facts, facts)
            &&& rules_printed(answers, strings, block.caveats, caveats)
            &&& text == #[trigger] block_layout(
                block.index,
                debug_text(block.symbols),
                facts,
                caveats,
            )
        };
    assert forall|k: int| 0 <= k < block.facts.len() implies wrote_fact(
        engine,
        strings,
        block.facts[k],
        #[trigger] facts[k],
    ) by {
        assert((answers.print_fact)(strings, block.facts[k], facts[k]));
    }
    assert forall|k: int| 0 <= k < block.caveats.len() implies wrote_rule(
        engine,
        strings,
        block.caveats[k],
        #[trigger] rules[k],
    ) by {
        assert((answers.print_rule)(strings, block.caveats[k], rules[k]));
    }
    assert(wrote_all(engine, strings, block, facts, rules));
    let before = "Block["@ + decimal(block.index as nat) + "] {\n\t\tsymbols: "@ + debug_text(
        block.symbols,
    ) + "\n\t\tfacts: [\n\t\t\t"@;
    let between = "]\n\t\trules:[\n\t\t\t"@;
    let end = "]\n}"@;
    let one = joined(facts, ",\n\t\t\t"@);
    let two = joined(rules, ",\n\t\t\t"@);
    law_joined_holds_all(facts, ",\n\t\t\t"@);
    law_joined_holds_all(rules, ",\n\t\t\t"@);
    lemma_within_longer(before, one, between, facts);
    lemma_within_longer(Seq::empty(), two, end, rules);
    lemma_side_by_side(before + one + between, Seq::empty() + two + end, facts, rules);
    assert(text =~= (before + one + between) + (Seq::empty() + two + end));
}

/// `print_block` writes every fact and every caveat of the block, whatever its index is: the text
/// holds the engine's text of each fact, in order, and then that of each caveat, in order.
pub proof fn law_print_block<R, Q, F, P>(
    strings: SymbolTable,
    block: Block,
    engine: Engine<R, Q, F, P>,
    r: String,
) where
    R: Fn(World) -> World,
    Q: Fn(&World, &Rule) -> Vec<Fact>,
    F: Fn(&SymbolTable, &Fact) -> String,
    P: Fn(&SymbolTable, &Rule) -> String,

    requires
        call_ensures(print_block::<R, Q, F, P>, (&strings, &block, &engine), r),
    ensures
        shows_block(engine, strings@, block@, r@),
        is_block_text(engine, strings@, block@, r@),
{
    lemma_block_text(engine, strings@, block@, r@);
}

/// The texts may be those of the authority block and then of each block of a token, in order.
pub open spec fn wrote_blocks<R, Q, F, P>(
    engine: Engine<R, Q, F, P>,
    token: TokenModel,
    texts: Seq<Seq<char>>,
) -> bool where
    R: Fn(World) -> World,
    Q: Fn(&World, &Rule) -> Vec<Fact>,
    F: Fn(&SymbolTable, &Fact) -> String,
    P: Fn(&SymbolTable, &Rule) -> String,
 {
    &&& texts.len() == token.blocks.len() + 1
    &&& is_block_text(engine, token.symbols, token.authority, texts[0])
    &&& shows_block(engine, token.symbols, token.authority, texts[0])
    &&& forall|i: int|
        #![trigger token.blocks[i]]
        0 <= i < token.blocks.len() ==> is_block_text(
            engine,
            token.symbols,
            token.blocks[i],
            texts[i + 1],
        ) && shows_block(engine, token.symbols, token.blocks[i], texts[i + 1])
}

/// `print` writes the authority block and every block, with every fact and every caveat of each:
/// the text holds their texts, in order, and in each of these the text of each fact and then of
/// each caveat, in order, all written with the strings of the token.
pub proof fn law_print<R, Q, F, P>(token: Biscuit, engine: Engine<R, Q, F, P>, r: String) where
    R: Fn(World) -> World,
    Q: Fn(&World, &Rule) -> Vec<Fact>,
    F: Fn(&SymbolTable, &Fact) -> String,
    P: Fn(&SymbolTable, &Rule) -> String,

    requires
        call_ensures(Biscuit::print::<R, Q, F, P>, (&token, &engine), r),
    ensures
        exists|texts: Seq<Seq<char>>| #[trigger]
            wrote_blocks(engine, token@, texts) && holds_in_order(r@, texts) && r@
                == "Biscuit {\n\tsymbols: "@ + debug_text(token@.symbols) + "\n\tauthority:\n"@
                + texts[0] + "\n\tblocks: [\n\t\t"@ + joined(texts.skip(1), ",\n\t"@) + "]\n}"@,
{
    let answers = engine.answers();
    let (authority, blocks) = choose|authority: Seq<char>, blocks: Seq<Seq<char>>|
        {
            &&& block_printed(answers, token@.symbols, token@.authority, authority)
            &&& blocks.len() == token@.blocks.len()
            &&& forall|i: int|
                0 <= i < token@.blocks.len() ==> block_printed(
                    answers,
                    token@.symbols,
                    token@.blocks[i],
                    #[trigger] blocks[i],
                )
            &&& r@ == #[trigger] token_layout(debug_text(token@.symbols), authority, blocks)
        };
    let first = seq![authority];
    let texts = first + blocks;
    assert(texts.skip(1) =~= blocks);
    lemma_block_text(engine, token@.symbols, token@.authority, authority);
    assert forall|i: int|
        #![trigger token@.blocks[i]]
        0 <= i < token@.blocks.len() implies is_block_text(
        engine,
        token@.symbols,
        token@.blocks[i],
        texts[i + 1],
    ) && shows_block(engine, token@.symbols, token@.blocks[i], texts[i + 1]) by {
        assert(texts[i + 1] == blocks[i]);
        lemma_block_text(engine, token@.symbols, token@.blocks[i], blocks[i]);
    }
    assert(wrote_blocks(engine, token@, texts));
    let before = "Biscuit {\n\tsymbols: "@ + debug_text(token@.symbols) + "\n\tauthority:\n"@;
    let between = "\n\tblocks: [\n\t\t"@;
    let end = "]\n}"@;
    let two = joined(blocks, ",\n\t"@);
    lemma_itself(authority);
    law_joined_holds_all(blocks, ",\n\t"@);
    lemma_within_longer(before, authority, between, first);
    lemma_within_longer(Seq::empty(), two, end, blocks);
    lemma_side_by_side(before + authority + between, Seq::empty() + two + end, first, blocks);
    assert(r@ =~= (before + authority + between) + (Seq::empty() + two + end));
}

/// A laid out block has, between what always stands there, its index, its strings, the texts of its
/// facts and those of its caveats.
pub proof fn law_lay_out_block(
    index: u32,
    symbols: String,
    facts: Vec<String>,
    caveats: Vec<String>,
    r: String,
)
    requires
        call_ensures(lay_out_block, (index, &symbols, &facts, &caveats), r),
    ensures
        r@ == "Block["@ + decimal(index as nat) + "] {\n\t\tsymbols: "@ + symbols@
            + "\n\t\tfacts: [\n\t\t\t"@ + joined(views(facts@), ",\n\t\t\t"@)
            + "]\n\t\trules:[\n\t\t\t"@ + joined(views(caveats@), ",\n\t\t\t"@) + "]\n}"@,
{
}

/// A laid out token has, between what always stands there, its strings, the text of its authority
/// block and those of its blocks.
pub proof fn law_lay_out_token(symbols: String, authority: String, blocks: Vec<String>, r: String)
    requires
        call_ensures(lay_out_token, (&symbols, &authority, &blocks), r),
    ensures
        r@ == "Biscuit {\n\tsymbols: "@ + symbols@ + "\n\tauthority:\n"@ + authority@
            + "\n\tblocks: [\n\t\t"@ + joined(views(blocks@), ",\n\t"@) + "]\n}"@,
{
}

} // verus!
