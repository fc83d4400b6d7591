//! What holds of tokens across several operations.
use vstd::prelude::*;

use crate::block::{
    block_label, block_outcome, block_ran, caveat_outcome, caveat_outcomes, caveats_outcome,
    failures, first_bad, none_bad, reserved, verifier_label, Block, BlockModel,
};
use crate::check::{
    authority_only, authority_ran, authority_world, block_outcomes, blocks_outcome, check_outcome,
    lemma_contexts, not_ambient, not_authority, verifier_outcome, verifier_ran,
};
use crate::symbols::{
    default_symbols, disjoint, lemma_first_at_prefix, lemma_first_at_symbol, lemma_has_first,
    symbol_of, with_symbol,
};
use crate::terms::{PredicateModel, RuleModel};
use crate::token::{
    append_fault, assembled, authority_fault, first_fault, may_decode, may_decode_all,
    read_outcome, token_of, token_symbols, ContainerModel, Decoded, TokenModel,
};
use crate::world::{Answers, WorldModel};

verus! {

/// A table after strings have been inserted one by one.
pub open spec fn with_symbols(table: Seq<Seq<char>>, names: Seq<Seq<char>>) -> Seq<Seq<char>>
    decreases names.len(),
{
    if names.len() == 0 {
        table
    } else {
        with_symbol(with_symbols(table, names.drop_last()), names.last())
    }
}

/// Inserting a string twice is inserting it once.
pub proof fn law_insert_once(table: Seq<Seq<char>>, s: Seq<char>)
    ensures
        with_symbol(with_symbol(table, s), s) == with_symbol(table, s),
{
    if !table.contains(s) {
        assert(table.push(s)[table.len() as int] == s);
    }
}

/// Inserting strings keeps the symbols of the strings that a table holds.
pub proof fn law_insert_keeps_symbols(
    table: Seq<Seq<char>>,
    names: Seq<Seq<char>>,
    s: Seq<char>,
)
    requires
        table.contains(s),
    ensures
        with_symbols(table, names).contains(s),
        symbol_of(with_symbols(table, names), s) == symbol_of(table, s),
{
    let more = with_symbols(table, names);
    lemma_inserted_suffix(table, names);
    let added = more.skip(table.len() as int);
    assert(more =~= table + added);
    lemma_longer_table(table, added, s);
}

/// More strings at the end of a table keep the symbols of those that it holds.
proof fn lemma_longer_table(table: Seq<Seq<char>>, added: Seq<Seq<char>>, s: Seq<char>)
    requires
        table.contains(s),
    ensures
        (table + added).contains(s),
        symbol_of(table + added, s) == symbol_of(table, s),
{
    let i = lemma_has_first(table, s);
    lemma_first_at_prefix(table, added, s, i);
    lemma_first_at_symbol(table, s, i);
    lemma_first_at_symbol(table + added, s, i);
    assert((table + added)[i] == s);
}

/// Inserting strings leaves a table at the front, and puts behind it only strings that it lacks.
proof fn lemma_inserted_suffix(table: Seq<Seq<char>>, names: Seq<Seq<char>>)
    ensures
        with_symbols(table, names).len() >= table.len(),
        with_symbols(table, names).take(table.len() as int) == table,
        disjoint(table, with_symbols(table, names).skip(table.len() as int)),
    decreases names.len(),
{
    let n = table.len() as int;
    if names.len() == 0 {
        assert(table.take(n) =~= table);
        assert(table.skip(n) =~= Seq::empty());
    } else {
        let less = with_symbols(table, names.drop_last());
        let s = names.last();
        lemma_inserted_suffix(table, names.drop_last());
        let more = with_symbols(table, names);
        if !less.contains(s) {
            assert(more.take(n) =~= less.take(n));
            assert(more.skip(n) =~= less.skip(n).push(s));
            assert forall|t: Seq<char>|
                !(#[trigger] table.contains(t) && more.skip(n).contains(t)) by {
                if table.contains(t) && more.skip(n).contains(t) {
                    let added = more.skip(n);
                    let j = choose|j: int| 0 <= j < added.len() && added[j] == t;
                    if j < less.skip(n).len() {
                        assert(less.skip(n)[j] == t);
                        assert(less.skip(n).contains(t));
                    } else {
                        let i = choose|i: int| 0 <= i < table.len() && table[i] == t;
                        assert(less.take(n)[i] == t);
                        assert(less[i] == s);
                    }
                }
            }
        }
    }
}

/// A block that is built where `create_block` says, on the strings of the token, and then has
/// those strings taken off by `adjust_block_symbols`, can be appended to a token that is not
/// sealed. The strings of the longer token are those of the table that the block was built with,
/// so that its facts and caveats keep their meaning.
pub proof fn law_created_block_appends(
    token: TokenModel,
    names: Seq<Seq<char>>,
    block: BlockModel,
    container: ContainerModel,
)
    requires
        token.container is Some,
        token.blocks.len() < u32::MAX,
        block.index as int == (1 + token.blocks.len()) % 0x1_0000_0000,
        block.symbols == with_symbols(token.symbols, names).skip(token.symbols.len() as int),
    ensures
        append_fault(token, block) is None,
        token.with_block(block, container).symbols == with_symbols(token.symbols, names),
{
    lemma_inserted_suffix(token.symbols, names);
    let table = with_symbols(token.symbols, names);
    assert(table =~= table.take(token.symbols.len() as int) + table.skip(
        token.symbols.len() as int,
    ));
}

/// An authority block that is built on the default strings and then has them taken off by
/// `adjust_authority_symbols` makes a token, whose strings are those of the table that the block
/// was built with.
pub proof fn law_created_authority_accepted(
    names: Seq<Seq<char>>,
    block: BlockModel,
    container: Option<ContainerModel>,
)
    requires
        block.index == 0,
        block.symbols == with_symbols(default_symbols(), names).skip(
            default_symbols().len() as int,
        ),
    ensures
        authority_fault(block) is None,
        token_of(block, Seq::empty(), container).symbols == with_symbols(default_symbols(), names),
{
    let d = default_symbols();
    lemma_inserted_suffix(d, names);
    let table = with_symbols(d, names);
    assert(table =~= table.take(d.len() as int) + table.skip(d.len() as int));
    assert(token_of(block, Seq::empty(), container).symbols =~= d + block.symbols);
}

/// Appending a block to a well-formed token gives a well-formed token.
pub proof fn law_append_well_formed(
    token: TokenModel,
    block: BlockModel,
    container: ContainerModel,
)
    requires
        token.wf(),
        append_fault(token, block) is None,
    ensures
        token.with_block(block, container).wf(),
{
    let longer = token.with_block(block, container);
    assert(longer.blocks.drop_last() =~= token.blocks);
    assert(longer.symbols =~= token_symbols(longer.authority, longer.blocks));
}

/// Appending a block keeps the symbols of the strings of a token.
pub proof fn law_append_keeps_symbols(
    token: TokenModel,
    block: BlockModel,
    container: ContainerModel,
    s: Seq<char>,
)
    requires
        token.symbols.contains(s),
    ensures
        token.with_block(block, container).symbols.contains(s),
        symbol_of(token.with_block(block, container).symbols, s) == symbol_of(token.symbols, s),
{
    lemma_longer_table(token.symbols, block.symbols, s);
}

/// A sealed token cannot be extended: whatever was read from a sealed container refuses every
/// block.
pub proof fn law_sealed_is_final<D: Fn(&[u8]) -> Result<Block, String>>(
    decode: D,
    authority: Seq<u8>,
    blocks: Seq<Seq<u8>>,
    token: TokenModel,
    block: BlockModel,
)
    requires
        read_outcome(decode, authority, blocks, None, Ok(token)),
    ensures
        append_fault(token, block) == Some("cannot append a bock to a sealed token"@),
{
}

/// Blocks that are all in order have no fault.
proof fn lemma_no_fault(blocks: Seq<BlockModel>, n: int)
    requires
        0 <= n <= blocks.len(),
        forall|i: int| 0 <= i < blocks.len() ==> (#[trigger] blocks[i]).index == i + 1,
    ensures
        first_fault(blocks.take(n).map_values(|b: BlockModel| Ok::<_, Seq<char>>(b))) is None,
    decreases n,
{
    let f = |b: BlockModel| Ok::<_, Seq<char>>(b);
    let ds = blocks.take(n).map_values(f);
    if n > 0 {
        lemma_no_fault(blocks, n - 1);
        assert(ds.drop_last() =~= blocks.take(n - 1).map_values(f));
        assert(ds.last() == Ok::<_, Seq<char>>(blocks[n - 1]));
    }
}

/// Reading gives back what was written: where decoding the blocks of a container can only give the
/// blocks of a well-formed token, reading the container can only give that token, with the
/// container it was read from. A sealed container leaves the token without a signed form.
pub proof fn law_reading_back<D: Fn(&[u8]) -> Result<Block, String>>(
    decode: D,
    token: TokenModel,
    authority: Seq<u8>,
    blocks: Seq<Seq<u8>>,
    container: Option<ContainerModel>,
    out: Result<TokenModel, Seq<char>>,
)
    requires
        token.wf(),
        blocks.len() == token.blocks.len(),
        forall|d: Decoded| #[trigger] may_decode(decode, authority, d) ==> d == Ok::<_, Seq<char>>(
            token.authority,
        ),
        forall|i: int, d: Decoded|
            0 <= i < blocks.len() && #[trigger] may_decode(decode, blocks[i], d) ==> d == Ok::<
                _,
                Seq<char>,
            >(token.blocks[i]),
        read_outcome(decode, authority, blocks, container, out),
    ensures
        out == Ok::<_, Seq<char>>(TokenModel { container, ..token }),
{
    let (a, bs) = choose|a: Decoded, bs: Seq<Decoded>|
        {
            &&& #[trigger] may_decode_all(decode, authority, blocks, a, bs)
            &&& out == assembled(a, bs, container)
            &&& out is Ok ==> bs.len() == blocks.len()
        };
    let f = |b: BlockModel| Ok::<_, Seq<char>>(b);
    assert forall|i: int| 0 <= i < bs.len() implies #[trigger] bs[i] == f(token.blocks[i]) by {
        assert(may_decode(decode, blocks[i], bs[i]));
    }
    assert(bs =~= token.blocks.take(bs.len() as int).map_values(f));
    lemma_no_fault(token.blocks, bs.len() as int);
    assert(bs.map_values(|d: Decoded| d->Ok_0) =~= token.blocks);
    assert(token_of(token.authority, token.blocks, container) =~= TokenModel {
        container,
        ..token
    });
}

/// A check does not look at the signed form: a token passes and fails alike before it is sealed
/// and after it has been read back.
pub proof fn law_sealing_keeps_checks(
    answers: Answers,
    token: TokenModel,
    container: Option<ContainerModel>,
    ambient_facts: Seq<PredicateModel>,
    ambient_rules: Seq<RuleModel>,
    ambient_caveats: Seq<RuleModel>,
    messages: Seq<Seq<char>>,
)
    ensures
        check_outcome(
            answers,
            token,
            ambient_facts,
            ambient_rules,
            ambient_caveats,
            messages,
        ) == check_outcome(
            answers,
            TokenModel { container, ..token },
            ambient_facts,
            ambient_rules,
            ambient_caveats,
            messages,
        ),
{
    let other = TokenModel { container, ..token };
    lemma_check_ignores_container(
        answers,
        token,
        other,
        ambient_facts,
        ambient_rules,
        ambient_caveats,
        messages,
    );
    lemma_check_ignores_container(
        answers,
        other,
        token,
        ambient_facts,
        ambient_rules,
        ambient_caveats,
        messages,
    );
}

/// Tokens with the same blocks and strings have the same outcomes.
proof fn lemma_check_ignores_container(
    answers: Answers,
    token: TokenModel,
    other: TokenModel,
    ambient_facts: Seq<PredicateModel>,
    ambient_rules: Seq<RuleModel>,
    ambient_caveats: Seq<RuleModel>,
    messages: Seq<Seq<char>>,
)
    requires
        token.authority == other.authority,
        token.blocks == other.blocks,
        token.symbols == other.symbols,
    ensures
        check_outcome(
            answers,
            token,
            ambient_facts,
            ambient_rules,
            ambient_caveats,
            messages,
        ) ==> check_outcome(
            answers,
            other,
            ambient_facts,
            ambient_rules,
            ambient_caveats,
            messages,
        ),
{
    assert forall|w: WorldModel, m: Seq<Seq<char>>|
        blocks_outcome(answers, token, w, ambient_caveats, m) implies #[trigger] blocks_outcome(
        answers,
        other,
        w,
        ambient_caveats,
        m,
    ) by {
        let parts = choose|parts: Seq<Seq<Seq<char>>>| #[trigger]
            block_outcomes(answers, token, w, ambient_caveats, parts) && m == parts.flatten_alt();
        assert(block_outcomes(answers, other, w, ambient_caveats, parts));
    }
    assert forall|w: WorldModel|
        verifier_outcome(
            answers,
            token,
            w,
            ambient_facts,
            ambient_rules,
            ambient_caveats,
            messages,
        ) implies #[trigger] verifier_outcome(
        answers,
        other,
        w,
        ambient_facts,
        ambient_rules,
        ambient_caveats,
        messages,
    ) by {
        assert(authority_only(token, w) == authority_only(other, w));
        if authority_only(token, w) && none_bad(ambient_facts, not_ambient(token)) {
            let ran = choose|ran: WorldModel| #[trigger]
                verifier_ran(
                    answers,
                    token,
                    w,
                    ambient_facts,
                    ambient_rules,
                    ambient_caveats,
                    ran,
                    messages,
                );
            assert(verifier_ran(
                answers,
                other,
                w,
                ambient_facts,
                ambient_rules,
                ambient_caveats,
                ran,
                messages,
            ));
        }
    }
    assert(authority_world(token) == authority_world(other));
    if none_bad(token.authority.facts, not_authority(token)) && check_outcome(
        answers,
        token,
        ambient_facts,
        ambient_rules,
        ambient_caveats,
        messages,
    ) {
        let ran = choose|ran: WorldModel| #[trigger]
            authority_ran(
                answers,
                token,
                ambient_facts,
                ambient_rules,
                ambient_caveats,
                ran,
                messages,
            );
        assert(authority_ran(
            answers,
            other,
            ambient_facts,
            ambient_rules,
            ambient_caveats,
            ran,
            messages,
        ));
    }
}

/// Where there is no message, no outcome has one.
proof fn lemma_no_failures(outcomes: Seq<Option<Seq<char>>>)
    requires
        failures(outcomes).len() == 0,
    ensures
        forall|j: int| 0 <= j < outcomes.len() ==> (#[trigger] outcomes[j]) is None,
    decreases outcomes.len(),
{
    if outcomes.len() > 0 {
        lemma_no_failures(outcomes.drop_last());
        assert forall|j: int| 0 <= j < outcomes.len() implies (#[trigger] outcomes[j]) is None by {
            if j < outcomes.len() - 1 {
                assert(outcomes.drop_last()[j] == outcomes[j]);
            }
        }
    }
}

/// Caveats that can all hold can do so whatever the strings are that they would be written with.
proof fn lemma_caveats_hold_without_text(
    answers: Answers,
    world: WorldModel,
    symbols: Seq<Seq<char>>,
    other: Seq<Seq<char>>,
    label: Seq<char>,
    caveats: Seq<RuleModel>,
    messages: Seq<Seq<char>>,
)
    requires
        caveats_outcome(answers, world, symbols, label, caveats, messages),
        messages.len() == 0,
    ensures
        caveats_outcome(answers, world, other, label, caveats, messages),
{
    let outcomes = choose|outcomes: Seq<Option<Seq<char>>>| #[trigger]
        caveat_outcomes(answers, world, symbols, label, caveats, outcomes) && messages == failures(
            outcomes,
        );
    lemma_no_failures(outcomes);
    assert forall|j: int| 0 <= j < caveats.len() implies caveat_outcome(
        answers,
        world,
        other,
        label,
        j as nat,
        caveats[j],
        #[trigger] outcomes[j],
    ) by {
        assert(caveat_outcome(answers, world, symbols, label, j as nat, caveats[j], outcomes[j]));
    }
    assert(caveat_outcomes(answers, world, other, label, caveats, outcomes));
}

/// Parts without a message between them have none each.
pub proof fn lemma_flat_empty(parts: Seq<Seq<Seq<char>>>)
    requires
        parts.flatten_alt().len() == 0,
    ensures
        forall|i: int| 0 <= i < parts.len() ==> (#[trigger] parts[i]).len() == 0,
    decreases parts.len(),
{
    if parts.len() > 0 {
        lemma_flat_empty(parts.drop_last());
        assert forall|i: int| 0 <= i < parts.len() implies (#[trigger] parts[i]).len() == 0 by {
            if i < parts.len() - 1 {
                assert(parts.drop_last()[i] == parts[i]);
            }
        }
    }
}

/// Empty parts come to nothing.
proof fn lemma_empty_flat(parts: Seq<Seq<Seq<char>>>)
    requires
        forall|i: int| 0 <= i < parts.len() ==> (#[trigger] parts[i]).len() == 0,
    ensures
        parts.flatten_alt().len() == 0,
    decreases parts.len(),
{
    if parts.len() > 0 {
        assert forall|i: int| 0 <= i < parts.drop_last().len() implies (
        #[trigger] parts.drop_last()[i]).len() == 0 by {
            assert(parts.drop_last()[i] == parts[i]);
        }
        lemma_empty_flat(parts.drop_last());
    }
}

/// Blocks only restrict: if a token with one more block can pass a check, so can the token
/// without it.
pub proof fn law_append_restricts(
    answers: Answers,
    token: TokenModel,
    block: BlockModel,
    container: ContainerModel,
    ambient_facts: Seq<PredicateModel>,
    ambient_rules: Seq<RuleModel>,
    ambient_caveats: Seq<RuleModel>,
)
    requires
        token.wf(),
        append_fault(token, block) is None,
        check_outcome(
            answers,
            token.with_block(block, container),
            ambient_facts,
            ambient_rules,
            ambient_caveats,
            Seq::empty(),
        ),
    ensures
        check_outcome(
            answers,
            token,
            ambient_facts,
            ambient_rules,
            ambient_caveats,
            Seq::empty(),
        ),
{
    let longer = token.with_block(block, container);
    let none = Seq::<Seq<char>>::empty();
    law_append_well_formed(token, block, container);
    lemma_contexts(token);
    lemma_contexts(longer);
    assert(none.len() == 0);
    let first = choose|ran: WorldModel| #[trigger]
        authority_ran(
            answers,
            longer,
            ambient_facts,
            ambient_rules,
            ambient_caveats,
            ran,
            none,
        );
    assert(authority_world(longer) == authority_world(token));
    assert(authority_only(longer, first) == authority_only(token, first));
    let then = choose|ran: WorldModel| #[trigger]
        verifier_ran(
            answers,
            longer,
            first,
            ambient_facts,
            ambient_rules,
            ambient_caveats,
            ran,
            none,
        );
    let world = WorldModel { facts: then.facts, rules: ambient_rules };
    let parts = choose|parts: Seq<Seq<Seq<char>>>| #[trigger]
        block_outcomes(answers, longer, world, ambient_caveats, parts) && none
            == parts.flatten_alt();
    lemma_flat_empty(parts);
    let fewer = parts.drop_last();
    assert(reserved(token.symbols) =~= reserved(longer.symbols));
    assert forall|i: int| 0 <= i < token.blocks.len() implies block_outcome(
        answers,
        token.blocks[i],
        i as nat,
        world,
        token.symbols,
        ambient_caveats,
        #[trigger] fewer[i],
    ) by {
        assert(longer.blocks[i] == token.blocks[i]);
        assert(fewer[i] == parts[i]);
        lemma_block_passes_without_text(
            answers,
            token.blocks[i],
            i as nat,
            world,
            longer.symbols,
            token.symbols,
            ambient_caveats,
            parts[i],
        );
    }
    lemma_empty_flat(fewer);
    assert(fewer.flatten_alt() =~= none);
    assert(block_outcomes(answers, token, world, ambient_caveats, fewer));
    assert(verifier_ran(
        answers,
        token,
        first,
        ambient_facts,
        ambient_rules,
        ambient_caveats,
        then,
        none,
    ));
    assert(authority_ran(
        answers,
        token,
        ambient_facts,
        ambient_rules,
        ambient_caveats,
        first,
        none,
    ));
}

/// A block that can pass can do so whatever the strings are, if the contexts have the same symbols.
proof fn lemma_block_passes_without_text(
    answers: Answers,
    block: BlockModel,
    i: nat,
    world: WorldModel,
    symbols: Seq<Seq<char>>,
    other: Seq<Seq<char>>,
    verifier_caveats: Seq<RuleModel>,
    messages: Seq<Seq<char>>,
)
    requires
        reserved(symbols) == reserved(other),
        messages.len() == 0,
        block_outcome(answers, block, i, world, symbols, verifier_caveats, messages),
    ensures
        block_outcome(answers, block, i, world, other, verifier_caveats, messages),
{
    let (ran, own, theirs) = choose|
        ran: WorldModel,
        own: Seq<Seq<char>>,
        theirs: Seq<Seq<char>>,
    | #[trigger]
        block_ran(
            answers,
            block,
            i,
            world,
            symbols,
            verifier_caveats,
            ran,
            own,
            theirs,
        ) && messages == own + theirs;
    lemma_caveats_hold_without_text(
        answers,
        ran,
        symbols,
        other,
        block_label(i),
        block.caveats,
        own,
    );
    lemma_caveats_hold_without_text(
        answers,
        ran,
        symbols,
        other,
        verifier_label(),
        verifier_caveats,
        theirs,
    );
    assert(block_ran(answers, block, i, world, other, verifier_caveats, ran, own, theirs));
}

/// No block speaks for the authority or for the verifier: a token with a block that states a fact
/// with one of their contexts passes no check.
pub proof fn law_reserved_fact_fails(
    answers: Answers,
    token: TokenModel,
    i: int,
    ambient_facts: Seq<PredicateModel>,
    ambient_rules: Seq<RuleModel>,
    ambient_caveats: Seq<RuleModel>,
    messages: Seq<Seq<char>>,
)
    requires
        0 <= i < token.blocks.len(),
        !none_bad(token.blocks[i].facts, reserved(token.symbols)),
        check_outcome(
            answers,
            token,
            ambient_facts,
            ambient_rules,
            ambient_caveats,
            messages,
        ),
    ensures
        messages.len() > 0,
{
    if messages.len() == 0 {
        let first = choose|ran: WorldModel| #[trigger]
            authority_ran(
                answers,
                token,
                ambient_facts,
                ambient_rules,
                ambient_caveats,
                ran,
                messages,
            );
        let then = choose|ran: WorldModel| #[trigger]
            verifier_ran(
                answers,
                token,
                first,
                ambient_facts,
                ambient_rules,
                ambient_caveats,
                ran,
                messages,
            );
        let world = WorldModel { facts: then.facts, rules: ambient_rules };
        let parts = choose|parts: Seq<Seq<Seq<char>>>| #[trigger]
            block_outcomes(answers, token, world, ambient_caveats, parts) && messages
                == parts.flatten_alt();
        lemma_flat_empty(parts);
        assert(parts[i].len() == 0);
    }
}

/// Querying the world with the caveat may find a fact.
pub open spec fn caveat_holds(answers: Answers, world: WorldModel, caveat: RuleModel) -> bool {
    exists|found: Seq<PredicateModel>| #[trigger]
        (answers.query)(world, caveat, found) && found.len() > 0
}

/// Querying the world with each of these caveats may find a fact.
pub open spec fn caveats_hold(
    answers: Answers,
    world: WorldModel,
    caveats: Seq<RuleModel>,
) -> bool {
    forall|j: int| 0 <= j < caveats.len() ==> #[trigger] caveat_holds(answers, world, caveats[j])
}

/// Caveats without a message between them hold.
proof fn lemma_no_message_means_hold(
    answers: Answers,
    world: WorldModel,
    symbols: Seq<Seq<char>>,
    label: Seq<char>,
    caveats: Seq<RuleModel>,
    messages: Seq<Seq<char>>,
)
    requires
        caveats_outcome(answers, world, symbols, label, caveats, messages),
        messages.len() == 0,
    ensures
        caveats_hold(answers, world, caveats),
{
    let outcomes = choose|outcomes: Seq<Option<Seq<char>>>| #[trigger]
        caveat_outcomes(answers, world, symbols, label, caveats, outcomes) && messages == failures(
            outcomes,
        );
    lemma_no_failures(outcomes);
    assert forall|j: int| 0 <= j < caveats.len() implies #[trigger] caveat_holds(
        answers,
        world,
        caveats[j],
    ) by {
        assert(caveat_outcome(answers, world, symbols, label, j as nat, caveats[j], outcomes[j]));
    }
}

/// A block is satisfied in a world: with its facts known, its caveats and the verifier's hold.
pub open spec fn block_satisfied(
    answers: Answers,
    block: BlockModel,
    world: WorldModel,
    verifier_caveats: Seq<RuleModel>,
) -> bool {
    exists|ran: WorldModel|
        {
            &&& #[trigger] (answers.run)(world.with_facts(block.facts), ran)
            &&& caveats_hold(answers, ran, block.caveats)
            &&& caveats_hold(answers, ran, verifier_caveats)
        }
}

/// Every block of a token keeps to its own facts and is satisfied in the world.
pub open spec fn blocks_satisfied(
    answers: Answers,
    token: TokenModel,
    world: WorldModel,
    verifier_caveats: Seq<RuleModel>,
) -> bool {
    forall|i: int|
        0 <= i < token.blocks.len() ==> none_bad(
            (#[trigger] token.blocks[i]).facts,
            reserved(token.symbols),
        ) && block_satisfied(answers, token.blocks[i], world, verifier_caveats)
}

/// A block that passes states no reserved fact and is satisfied.
pub proof fn lemma_passed_block(
    answers: Answers,
    block: BlockModel,
    i: nat,
    world: WorldModel,
    symbols: Seq<Seq<char>>,
    verifier_caveats: Seq<RuleModel>,
    messages: Seq<Seq<char>>,
)
    requires
        block_outcome(answers, block, i, world, symbols, verifier_caveats, messages),
        messages.len() == 0,
    ensures
        none_bad(block.facts, reserved(symbols)),
        block_satisfied(answers, block, world, verifier_caveats),
{
    let (ran, own, theirs) = choose|
        ran: WorldModel,
        own: Seq<Seq<char>>,
        theirs: Seq<Seq<char>>,
    | #[trigger]
        block_ran(
            answers,
            block,
            i,
            world,
            symbols,
            verifier_caveats,
            ran,
            own,
            theirs,
        ) && messages == own + theirs;
    lemma_no_message_means_hold(answers, ran, symbols, block_label(i), block.caveats, own);
    lemma_no_message_means_hold(
        answers,
        ran,
        symbols,
        verifier_label(),
        verifier_caveats,
        theirs,
    );
}

/// `first` and `then` may be the worlds that the two runs of a check give, and the blocks are
/// satisfied with the facts of the second under the verifier's rules.
pub open spec fn runs_satisfy(
    answers: Answers,
    token: TokenModel,
    ambient_facts: Seq<PredicateModel>,
    ambient_rules: Seq<RuleModel>,
    ambient_caveats: Seq<RuleModel>,
    first: WorldModel,
    then: WorldModel,
) -> bool {
    &&& (answers.run)(authority_world(token), first)
    &&& authority_only(token, first)
    &&& (answers.run)(first.with_facts(ambient_facts).with_rules(ambient_rules), then)
    &&& blocks_satisfied(
        answers,
        token,
        WorldModel { facts: then.facts, rules: ambient_rules },
        ambient_caveats,
    )
}

/// A token passes a check only if its authority block and the verifier state facts of their own
/// contexts, the authority rules give no others, every block states no fact of the authority or of
/// the verifier, and every caveat of every block and of the verifier holds in the world of that
/// block: what follows from the authority block and from what the verifier brings, with the facts
/// of the block, where only the verifier's rules apply.
pub proof fn law_pass_means_caveats_hold(
    answers: Answers,
    token: TokenModel,
    ambient_facts: Seq<PredicateModel>,
    ambient_rules: Seq<RuleModel>,
    ambient_caveats: Seq<RuleModel>,
)
    requires
        check_outcome(
            answers,
            token,
            ambient_facts,
            ambient_rules,
            ambient_caveats,
            Seq::empty(),
        ),
    ensures
        none_bad(token.authority.facts, not_authority(token)),
        none_bad(ambient_facts, not_ambient(token)),
        exists|first: WorldModel, then: WorldModel| #[trigger]
            runs_satisfy(
                answers,
                token,
                ambient_facts,
                ambient_rules,
                ambient_caveats,
                first,
                then,
            ),
{
    let none = Seq::<Seq<char>>::empty();
    assert(none.len() == 0);
    let first = choose|ran: WorldModel| #[trigger]
        authority_ran(
            answers,
            token,
            ambient_facts,
            ambient_rules,
            ambient_caveats,
            ran,
            none,
        );
    let then = choose|ran: WorldModel| #[trigger]
        verifier_ran(
            answers,
            token,
            first,
            ambient_facts,
            ambient_rules,
            ambient_caveats,
            ran,
            none,
        );
    let world = WorldModel { facts: then.facts, rules: ambient_rules };
    let parts = choose|parts: Seq<Seq<Seq<char>>>| #[trigger]
        block_outcomes(answers, token, world, ambient_caveats, parts) && none
            == parts.flatten_alt();
    lemma_flat_empty(parts);
    assert forall|i: int| 0 <= i < token.blocks.len() implies none_bad(
        (#[trigger] token.blocks[i]).facts,
        reserved(token.symbols),
    ) && block_satisfied(answers, token.blocks[i], world, ambient_caveats) by {
        assert(parts[i].len() == 0);
        lemma_passed_block(
            answers,
            token.blocks[i],
            i as nat,
            world,
            token.symbols,
            ambient_caveats,
            parts[i],
        );
    }
    assert(runs_satisfy(
        answers,
        token,
        ambient_facts,
        ambient_rules,
        ambient_caveats,
        first,
        then,
    ));
}

/// No query of the world with one of these caveats can come back empty.
pub open spec fn never_empty(
    answers: Answers,
    world: WorldModel,
    caveats: Seq<RuleModel>,
) -> bool {
    forall|j: int, found: Seq<PredicateModel>|
        0 <= j < caveats.len() && #[trigger] (answers.query)(world, caveats[j], found)
            ==> found.len() > 0
}

/// In every world that the runs of a check can give for block `i`, no query with one of the
/// block's caveats or of the verifier's can come back empty.
pub open spec fn block_always_satisfied(
    answers: Answers,
    token: TokenModel,
    ambient_facts: Seq<PredicateModel>,
    ambient_rules: Seq<RuleModel>,
    ambient_caveats: Seq<RuleModel>,
    i: int,
) -> bool {
    forall|first: WorldModel, then: WorldModel, ran: WorldModel|
        #![trigger (answers.run)(authority_world(token), first), (answers.run)(
            first.with_facts(ambient_facts).with_rules(ambient_rules),
            then,
        ), (answers.run)(
            (WorldModel { facts: then.facts, rules: ambient_rules }).with_facts(
                token.blocks[i].facts,
            ),
            ran,
        )]
        {
            &&& (answers.run)(authority_world(token), first)
            &&& (answers.run)(first.with_facts(ambient_facts).with_rules(ambient_rules), then)
            &&& (answers.run)(
                (WorldModel { facts: then.facts, rules: ambient_rules }).with_facts(
                    token.blocks[i].facts,
                ),
                ran,
            )
        } ==> never_empty(answers, ran, token.blocks[i].caveats) && never_empty(
            answers,
            ran,
            ambient_caveats,
        )
}

/// Caveats that always hold give no message.
proof fn lemma_never_empty_no_message(
    answers: Answers,
    world: WorldModel,
    symbols: Seq<Seq<char>>,
    label: Seq<char>,
    caveats: Seq<RuleModel>,
    messages: Seq<Seq<char>>,
)
    requires
        caveats_outcome(answers, world, symbols, label, caveats, messages),
        never_empty(answers, world, caveats),
    ensures
        messages.len() == 0,
{
    let outcomes = choose|outcomes: Seq<Option<Seq<char>>>| #[trigger]
        caveat_outcomes(answers, world, symbols, label, caveats, outcomes) && messages == failures(
            outcomes,
        );
    assert forall|j: int| 0 <= j < outcomes.len() implies (#[trigger] outcomes[j]) is None by {
        assert(caveat_outcome(answers, world, symbols, label, j as nat, caveats[j], outcomes[j]));
    }
    lemma_all_none(outcomes);
}

/// Outcomes without a message have none between them.
proof fn lemma_all_none(outcomes: Seq<Option<Seq<char>>>)
    requires
        forall|j: int| 0 <= j < outcomes.len() ==> (#[trigger] outcomes[j]) is None,
    ensures
        failures(outcomes).len() == 0,
    decreases outcomes.len(),
{
    if outcomes.len() > 0 {
        assert forall|j: int| 0 <= j < outcomes.drop_last().len() implies (
        #[trigger] outcomes.drop_last()[j]) is None by {
            assert(outcomes.drop_last()[j] == outcomes[j]);
        }
        lemma_all_none(outcomes.drop_last());
    }
}

/// A block without a reserved fact passes if its caveats and the verifier's hold in every world
/// that its run can give.
pub proof fn lemma_satisfied_block(
    answers: Answers,
    block: BlockModel,
    i: nat,
    world: WorldModel,
    symbols: Seq<Seq<char>>,
    verifier_caveats: Seq<RuleModel>,
    messages: Seq<Seq<char>>,
)
    requires
        block_outcome(answers, block, i, world, symbols, verifier_caveats, messages),
        none_bad(block.facts, reserved(symbols)),
        forall|ran: WorldModel| #[trigger]
            (answers.run)(world.with_facts(block.facts), ran) ==> never_empty(
                answers,
                ran,
                block.caveats,
            ) && never_empty(answers, ran, verifier_caveats),
    ensures
        messages.len() == 0,
{
    let (ran, own, theirs) = choose|
        ran: WorldModel,
        own: Seq<Seq<char>>,
        theirs: Seq<Seq<char>>,
    | #[trigger]
        block_ran(
            answers,
            block,
            i,
            world,
            symbols,
            verifier_caveats,
            ran,
            own,
            theirs,
        ) && messages == own + theirs;
    lemma_never_empty_no_message(answers, ran, symbols, block_label(i), block.caveats, own);
    lemma_never_empty_no_message(
        answers,
        ran,
        symbols,
        verifier_label(),
        verifier_caveats,
        theirs,
    );
}

/// A check fails only for a reason: where all facts have their contexts, also those that the
/// authority rules give, no block states a reserved fact, and no caveat can come back empty in a
/// world that it is asked in, the check passes.
pub proof fn law_nothing_wrong_passes(
    answers: Answers,
    token: TokenModel,
    ambient_facts: Seq<PredicateModel>,
    ambient_rules: Seq<RuleModel>,
    ambient_caveats: Seq<RuleModel>,
    messages: Seq<Seq<char>>,
)
    requires
        check_outcome(
            answers,
            token,
            ambient_facts,
            ambient_rules,
            ambient_caveats,
            messages,
        ),
        none_bad(token.authority.facts, not_authority(token)),
        forall|ran: WorldModel| #[trigger]
            (answers.run)(authority_world(token), ran) ==> authority_only(token, ran),
        none_bad(ambient_facts, not_ambient(token)),
        forall|i: int|
            0 <= i < token.blocks.len() ==> none_bad(
                (#[trigger] token.blocks[i]).facts,
                reserved(token.symbols),
            ) && block_always_satisfied(
                answers,
                token,
                ambient_facts,
                ambient_rules,
                ambient_caveats,
                i,
            ),
    ensures
        messages.len() == 0,
{
    let first = choose|ran: WorldModel| #[trigger]
        authority_ran(
            answers,
            token,
            ambient_facts,
            ambient_rules,
            ambient_caveats,
            ran,
            messages,
        );
    let then = choose|ran: WorldModel| #[trigger]
        verifier_ran(
            answers,
            token,
            first,
            ambient_facts,
            ambient_rules,
            ambient_caveats,
            ran,
            messages,
        );
    let world = WorldModel { facts: then.facts, rules: ambient_rules };
    let parts = choose|parts: Seq<Seq<Seq<char>>>| #[trigger]
        block_outcomes(answers, token, world, ambient_caveats, parts) && messages
            == parts.flatten_alt();
    assert forall|i: int| 0 <= i < parts.len() implies (#[trigger] parts[i]).len() == 0 by {
        assert(block_always_satisfied(
            answers,
            token,
            ambient_facts,
            ambient_rules,
            ambient_caveats,
            i,
        ));
        lemma_satisfied_block(
            answers,
            token.blocks[i],
            i as nat,
            world,
            token.symbols,
            ambient_caveats,
            parts[i],
        );
    }
    lemma_empty_flat(parts);
}

/// The caveats of a verifier are asked for block by block, so they do not matter to a token that
/// has an authority block only.
pub proof fn law_caveats_need_blocks(
    answers: Answers,
    token: TokenModel,
    ambient_facts: Seq<PredicateModel>,
    ambient_rules: Seq<RuleModel>,
    ambient_caveats: Seq<RuleModel>,
    other_caveats: Seq<RuleModel>,
    messages: Seq<Seq<char>>,
)
    requires
        token.blocks.len() == 0,
        check_outcome(
            answers,
            token,
            ambient_facts,
            ambient_rules,
            ambient_caveats,
            messages,
        ),
    ensures
        check_outcome(answers, token, ambient_facts, ambient_rules, other_caveats, messages),
{
    if none_bad(token.authority.facts, not_authority(token)) {
        let first = choose|ran: WorldModel| #[trigger]
            authority_ran(
                answers,
                token,
                ambient_facts,
                ambient_rules,
                ambient_caveats,
                ran,
                messages,
            );
        if authority_only(token, first) && none_bad(ambient_facts, not_ambient(token)) {
            let then = choose|ran: WorldModel| #[trigger]
                verifier_ran(
                    answers,
                    token,
                    first,
                    ambient_facts,
                    ambient_rules,
                    ambient_caveats,
                    ran,
                    messages,
                );
            let world = WorldModel { facts: then.facts, rules: ambient_rules };
            let parts = choose|parts: Seq<Seq<Seq<char>>>| #[trigger]
                block_outcomes(answers, token, world, ambient_caveats, parts) && messages
                    == parts.flatten_alt();
            assert(block_outcomes(answers, token, world, other_caveats, parts));
            assert(verifier_ran(
                answers,
                token,
                first,
                ambient_facts,
                ambient_rules,
                other_caveats,
                then,
                messages,
            ));
        }
        assert(authority_ran(
            answers,
            token,
            ambient_facts,
            ambient_rules,
            other_caveats,
            first,
            messages,
        ));
    }
}

/// A run of a world has at most one result, and whether a query finds facts does not change from
/// one time to the next.
pub open spec fn decides_once(answers: Answers) -> bool {
    &&& forall|w: WorldModel, a: WorldModel, b: WorldModel| #[trigger]
        (answers.run)(w, a) && #[trigger] (answers.run)(w, b) ==> a == b
    &&& forall|w: WorldModel, r: RuleModel, a: Seq<PredicateModel>, b: Seq<PredicateModel>|
        #[trigger] (answers.query)(w, r, a) && #[trigger] (answers.query)(w, r, b) ==> (a.len()
            == 0) == (b.len() == 0)
}

/// The engine decides once, and writes each fact and each rule in one way.
pub open spec fn single_valued(answers: Answers) -> bool {
    &&& decides_once(answers)
    &&& forall|t: Seq<Seq<char>>, f: PredicateModel, a: Seq<char>, b: Seq<char>| #[trigger]
        (answers.print_fact)(t, f, a) && #[trigger] (answers.print_fact)(t, f, b) ==> a == b
    &&& forall|t: Seq<Seq<char>>, r: RuleModel, a: Seq<char>, b: Seq<char>| #[trigger]
        (answers.print_rule)(t, r, a) && #[trigger] (answers.print_rule)(t, r, b) ==> a == b
}

/// The messages about caveats are determined by the answers of the engine.
proof fn lemma_caveats_determined(
    answers: Answers,
    world: WorldModel,
    symbols: Seq<Seq<char>>,
    label: Seq<char>,
    caveats: Seq<RuleModel>,
    one: Seq<Seq<char>>,
    two: Seq<Seq<char>>,
)
    requires
        single_valued(answers),
        caveats_outcome(answers, world, symbols, label, caveats, one),
        caveats_outcome(answers, world, symbols, label, caveats, two),
    ensures
        one == two,
{
    let first = choose|outcomes: Seq<Option<Seq<char>>>| #[trigger]
        caveat_outcomes(answers, world, symbols, label, caveats, outcomes) && one == failures(
            outcomes,
        );
    let second = choose|outcomes: Seq<Option<Seq<char>>>| #[trigger]
        caveat_outcomes(answers, world, symbols, label, caveats, outcomes) && two == failures(
            outcomes,
        );
    assert forall|j: int| 0 <= j < caveats.len() implies first[j] == second[j] by {
        assert(caveat_outcome(answers, world, symbols, label, j as nat, caveats[j], first[j]));
        assert(caveat_outcome(answers, world, symbols, label, j as nat, caveats[j], second[j]));
    }
    assert(first =~= second);
}

/// The messages about a block are determined by the answers of the engine.
pub proof fn lemma_block_determined(
    answers: Answers,
    block: BlockModel,
    i: nat,
    world: WorldModel,
    symbols: Seq<Seq<char>>,
    verifier_caveats: Seq<RuleModel>,
    one: Seq<Seq<char>>,
    two: Seq<Seq<char>>,
)
    requires
        single_valued(answers),
        block_outcome(answers, block, i, world, symbols, verifier_caveats, one),
        block_outcome(answers, block, i, world, symbols, verifier_caveats, two),
    ensures
        one == two,
{
    if none_bad(block.facts, reserved(symbols)) {
        let (r1, own1, theirs1) = choose|
            ran: WorldModel,
            own: Seq<Seq<char>>,
            theirs: Seq<Seq<char>>,
        | #[trigger]
            block_ran(
                answers,
                block,
                i,
                world,
                symbols,
                verifier_caveats,
                ran,
                own,
                theirs,
            ) && one == own + theirs;
        let (r2, own2, theirs2) = choose|
            ran: WorldModel,
            own: Seq<Seq<char>>,
            theirs: Seq<Seq<char>>,
        | #[trigger]
            block_ran(
                answers,
                block,
                i,
                world,
                symbols,
                verifier_caveats,
                ran,
                own,
                theirs,
            ) && two == own + theirs;
        assert(r1 == r2);
        lemma_caveats_determined(
            answers,
            r1,
            symbols,
            block_label(i),
            block.caveats,
            own1,
            own2,
        );
        lemma_caveats_determined(
            answers,
            r1,
            symbols,
            verifier_label(),
            verifier_caveats,
            theirs1,
            theirs2,
        );
    } else {
        lemma_first_bad_unique(block.facts, reserved(symbols));
    }
}

/// There is one first bad fact at most.
proof fn lemma_first_bad_unique(
    facts: Seq<PredicateModel>,
    bad: spec_fn(PredicateModel) -> bool,
)
    ensures
        forall|a: int, b: int| #[trigger]
            first_bad(facts, bad, a) && #[trigger] first_bad(facts, bad, b) ==> a == b,
{
    assert forall|a: int, b: int| #[trigger]
        first_bad(facts, bad, a) && #[trigger] first_bad(facts, bad, b) implies a == b by {
        if a < b {
            assert(!bad(facts[a]));
        }
        if b < a {
            assert(!bad(facts[b]));
        }
    }
}

/// The messages about the blocks of a token are determined by the answers of the engine.
proof fn lemma_blocks_determined(
    answers: Answers,
    token: TokenModel,
    world: WorldModel,
    verifier_caveats: Seq<RuleModel>,
    one: Seq<Seq<char>>,
    two: Seq<Seq<char>>,
)
    requires
        single_valued(answers),
        blocks_outcome(answers, token, world, verifier_caveats, one),
        blocks_outcome(answers, token, world, verifier_caveats, two),
    ensures
        one == two,
{
    let first = choose|parts: Seq<Seq<Seq<char>>>| #[trigger]
        block_outcomes(answers, token, world, verifier_caveats, parts) && one
            == parts.flatten_alt();
    let second = choose|parts: Seq<Seq<Seq<char>>>| #[trigger]
        block_outcomes(answers, token, world, verifier_caveats, parts) && two
            == parts.flatten_alt();
    assert forall|i: int| 0 <= i < first.len() implies first[i] == second[i] by {
        lemma_block_determined(
            answers,
            token.blocks[i],
            i as nat,
            world,
            token.symbols,
            verifier_caveats,
            first[i],
            second[i],
        );
    }
    assert(first =~= second);
}

/// A check has one result: where the engine decides once and writes in one way, the messages of a
/// check are determined by the token and by what the verifier brings.
pub proof fn law_check_determined(
    answers: Answers,
    token: TokenModel,
    ambient_facts: Seq<PredicateModel>,
    ambient_rules: Seq<RuleModel>,
    ambient_caveats: Seq<RuleModel>,
    one: Seq<Seq<char>>,
    two: Seq<Seq<char>>,
)
    requires
        single_valued(answers),
        check_outcome(answers, token, ambient_facts, ambient_rules, ambient_caveats, one),
        check_outcome(answers, token, ambient_facts, ambient_rules, ambient_caveats, two),
    ensures
        one == two,
{
    lemma_first_bad_unique(token.authority.facts, not_authority(token));
    lemma_first_bad_unique(ambient_facts, not_ambient(token));
    if none_bad(token.authority.facts, not_authority(token)) {
        let r1 = choose|ran: WorldModel| #[trigger]
            authority_ran(
                answers,
                token,
                ambient_facts,
                ambient_rules,
                ambient_caveats,
                ran,
                one,
            );
        let r2 = choose|ran: WorldModel| #[trigger]
            authority_ran(
                answers,
                token,
                ambient_facts,
                ambient_rules,
                ambient_caveats,
                ran,
                two,
            );
        assert(r1 == r2);
        if authority_only(token, r1) && none_bad(ambient_facts, not_ambient(token)) {
            let t1 = choose|ran: WorldModel| #[trigger]
                verifier_ran(
                    answers,
                    token,
                    r1,
                    ambient_facts,
                    ambient_rules,
                    ambient_caveats,
                    ran,
                    one,
                );
            let t2 = choose|ran: WorldModel| #[trigger]
                verifier_ran(
                    answers,
                    token,
                    r1,
                    ambient_facts,
                    ambient_rules,
                    ambient_caveats,
                    ran,
                    two,
                );
            assert(t1 == t2);
            lemma_blocks_determined(
                answers,
                token,
                WorldModel { facts: t1.facts, rules: ambient_rules },
                ambient_caveats,
                one,
                two,
            );
        }
    }
}

/// A query that may find a fact in one world finds one in the other.
pub open spec fn finds_as_much(answers: Answers, one: WorldModel, other: WorldModel) -> bool {
    forall|r: RuleModel, a: Seq<PredicateModel>, b: Seq<PredicateModel>| #[trigger]
        (answers.query)(one, r, a) && a.len() > 0 && #[trigger] (answers.query)(other, r, b)
            ==> b.len() > 0
}

/// Caveats that hold in one world hold in a world that finds as much.
pub proof fn lemma_still_hold(
    answers: Answers,
    one: WorldModel,
    other: WorldModel,
    caveats: Seq<RuleModel>,
)
    requires
        finds_as_much(answers, one, other),
        caveats_hold(answers, one, caveats),
    ensures
        never_empty(answers, other, caveats),
{
    assert forall|j: int, found: Seq<PredicateModel>|
        0 <= j < caveats.len() && #[trigger] (answers.query)(
            other,
            caveats[j],
            found,
        ) implies found.len() > 0 by {
        assert(caveat_holds(answers, one, caveats[j]));
    }
}

/// Where a check has passed and the engine decides once, it passes again.
proof fn lemma_passes_again(
    answers: Answers,
    token: TokenModel,
    ambient_facts: Seq<PredicateModel>,
    ambient_rules: Seq<RuleModel>,
    ambient_caveats: Seq<RuleModel>,
    one: Seq<Seq<char>>,
    two: Seq<Seq<char>>,
)
    requires
        decides_once(answers),
        check_outcome(answers, token, ambient_facts, ambient_rules, ambient_caveats, one),
        check_outcome(answers, token, ambient_facts, ambient_rules, ambient_caveats, two),
        one.len() == 0,
    ensures
        two.len() == 0,
{
    assert(one =~= Seq::empty());
    law_pass_means_caveats_hold(
        answers,
        token,
        ambient_facts,
        ambient_rules,
        ambient_caveats,
    );
    let (first, then) = choose|first: WorldModel, then: WorldModel| #[trigger]
        runs_satisfy(
            answers,
            token,
            ambient_facts,
            ambient_rules,
            ambient_caveats,
            first,
            then,
        );
    assert forall|i: int| 0 <= i < token.blocks.len() implies none_bad(
        (#[trigger] token.blocks[i]).facts,
        reserved(token.symbols),
    ) && block_always_satisfied(
        answers,
        token,
        ambient_facts,
        ambient_rules,
        ambient_caveats,
        i,
    ) by {
        let block = token.blocks[i];
        let world = WorldModel { facts: then.facts, rules: ambient_rules };
        assert(block_satisfied(answers, block, world, ambient_caveats));
        let ran = choose|ran: WorldModel|
            {
                &&& #[trigger] (answers.run)(world.with_facts(block.facts), ran)
                &&& caveats_hold(answers, ran, block.caveats)
                &&& caveats_hold(answers, ran, ambient_caveats)
            };
        assert(finds_as_much(answers, ran, ran));
        lemma_still_hold(answers, ran, ran, block.caveats);
        lemma_still_hold(answers, ran, ran, ambient_caveats);
    }
    law_nothing_wrong_passes(
        answers,
        token,
        ambient_facts,
        ambient_rules,
        ambient_caveats,
        two,
    );
}

/// A token passes always or never: where the engine decides once, whether a token passes a check is
/// determined by the token and by what the verifier brings, however facts and rules are written.
pub proof fn law_pass_determined(
    answers: Answers,
    token: TokenModel,
    ambient_facts: Seq<PredicateModel>,
    ambient_rules: Seq<RuleModel>,
    ambient_caveats: Seq<RuleModel>,
    one: Seq<Seq<char>>,
    two: Seq<Seq<char>>,
)
    requires
        decides_once(answers),
        check_outcome(answers, token, ambient_facts, ambient_rules, ambient_caveats, one),
        check_outcome(answers, token, ambient_facts, ambient_rules, ambient_caveats, two),
    ensures
        (one.len() == 0) == (two.len() == 0),
{
    if one.len() == 0 {
        lemma_passes_again(
            answers,
            token,
            ambient_facts,
            ambient_rules,
            ambient_caveats,
            one,
            two,
        );
    }
    if two.len() == 0 {
        lemma_passes_again(
            answers,
            token,
            ambient_facts,
            ambient_rules,
            ambient_caveats,
            two,
            one,
        );
    }
}

} // verus!
