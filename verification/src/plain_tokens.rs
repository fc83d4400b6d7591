//! What the operations that make, read and write tokens give, told in plain terms: by places,
//! strings, bytes and the calls that they make.
use vstd::prelude::*;

use crate::block::{Block, BlockModel};
use crate::plain_values::{
    first_strings, law_views_by_place, lemma_disjoint_by_place, lemma_symbol_is_first_place,
    share_a_string,
};
use crate::symbols::{default_symbols, lemma_default_symbols_distinct, with_symbol, SymbolTable};
use crate::terms::{views, ID};
use crate::text::decimal;
use crate::token::{
    accept_authority, accept_block, added_symbols, append_fault, assembled, block_fault,
    decoded_authority_fault, decoded_model, first_fault, may_decode, may_decode_all, may_encode,
    may_sign, may_sign_next, read_outcome, token_of, token_result, Biscuit, BlockBuilder,
    ContainerModel, Decoded, SealedBiscuit, SerializedBiscuit, TokenModel,
};

verus! {

/// The strings are pairwise different.
pub open spec fn all_different(strings: Seq<Seq<char>>) -> bool {
    forall|i: int, j: int|
        0 <= i < j < strings.len() ==> #[trigger] strings[i] != #[trigger] strings[j]
}

/// The default strings are the seven first ones of every token.
pub proof fn lemma_default_strings()
    ensures
        default_symbols() == first_strings(),
        default_symbols().len() == 7,
{
}

/// A token shows its parts: the authority block, the blocks in order, and its strings. The
/// authority block has index 0, and each block its place after it. The strings are the seven first
/// ones, then those of the authority block, then those of each block in order.
pub proof fn law_token_shows_its_parts(
    token: Biscuit,
    authority: &Block,
    blocks: &Vec<Block>,
    strings: &SymbolTable,
)
    requires
        call_ensures(Biscuit::authority, (&token,), authority),
        call_ensures(Biscuit::blocks, (&token,), blocks),
        call_ensures(Biscuit::symbols, (&token,), strings),
    ensures
        token@.authority == authority@,
        token@.blocks.len() == blocks@.len(),
        forall|i: int| 0 <= i < blocks@.len() ==> #[trigger] token@.blocks[i] == blocks@[i]@,
        token@.symbols == strings@,
        authority.index == 0,
        forall|i: int| 0 <= i < blocks@.len() ==> (#[trigger] blocks@[i]).index == i + 1,
        strings@ == first_strings() + authority@.symbols + blocks@.map_values(
            |b: Block| b@.symbols,
        ).flatten_alt(),
{
    lemma_default_strings();
    assert forall|i: int| 0 <= i < blocks@.len() implies (#[trigger] blocks@[i]).index == i + 1 by {
        assert(token@.blocks[i] == blocks@[i]@);
    }
    lemma_added_strings(token@.blocks);
    assert(token@.blocks.map_values(|b: BlockModel| b.symbols) =~= blocks@.map_values(
        |b: Block| b@.symbols,
    ));
}

/// The strings that blocks add are those of each block, in order.
proof fn lemma_added_strings(blocks: Seq<BlockModel>)
    ensures
        added_symbols(blocks) == blocks.map_values(|b: BlockModel| b.symbols).flatten_alt(),
    decreases blocks.len(),
{
    let f = |b: BlockModel| b.symbols;
    if blocks.len() > 0 {
        lemma_added_strings(blocks.drop_last());
        assert(blocks.map_values(f).drop_last() =~= blocks.drop_last().map_values(f));
        assert(blocks.map_values(f).last() == blocks.last().symbols);
    }
}

/// `new` refuses an authority block one of whose strings is one of the seven first ones, and then
/// one whose index is not 0. Of every other it makes a token: with that authority block, without
/// blocks, with the seven first strings and behind them those of the block, and with what signing
/// the block gave.
pub proof fn law_new<S: Fn(&Block) -> SerializedBiscuit>(
    authority: Block,
    sign: S,
    r: Result<Biscuit, String>,
)
    requires
        call_ensures(Biscuit::new::<S>, (&authority, sign), r),
    ensures
        share_a_string(first_strings(), authority@.symbols) ==> r is Err && r->Err_0@
            == "symbol tables should have no overlap"@,
        !share_a_string(first_strings(), authority@.symbols) && authority.index != 0 ==> r is Err
            && r->Err_0@ == "invalid block index"@,
        !share_a_string(first_strings(), authority@.symbols) && authority.index == 0 ==> r is Ok,
        r is Ok ==> {
            &&& forall|i: int, j: int|
                0 <= i < 7 && 0 <= j < authority.symbols.symbols@.len()
                    ==> #[trigger] first_strings()[i] != (#[trigger] authority.symbols.symbols@[j])@
            &&& r->Ok_0@.authority == authority@
            &&& r->Ok_0@.blocks.len() == 0
            &&& r->Ok_0@.symbols == first_strings() + authority@.symbols
            &&& exists|b: Block, c: SerializedBiscuit|
                b@ == authority@ && r->Ok_0@.container == Some(c@) && #[trigger] call_ensures(
                    sign,
                    (&b,),
                    c,
                )
        },
{
    lemma_default_strings();
    lemma_disjoint_by_place(first_strings(), authority@.symbols);
    if r is Ok {
        let t = r->Ok_0;
        assert(token_result(r) == Ok::<_, Seq<char>>(t@));
        let c = choose|c: ContainerModel| #[trigger]
            may_sign(sign, authority@, c) && token_result(r) == Ok::<_, Seq<char>>(
                token_of(authority@, Seq::empty(), Some(c)),
            );
        assert(may_sign(sign, authority@, c));
        assert(t@.symbols =~= first_strings() + authority@.symbols);
        assert forall|i: int, j: int|
            0 <= i < 7 && 0 <= j < authority.symbols.symbols@.len()
                implies #[trigger] first_strings()[i] != (
        #[trigger] authority.symbols.symbols@[j])@ by {
            assert(authority@.symbols[j] == authority.symbols.symbols@[j]@);
        }
    }
}

/// A new token of an authority block with different strings has different strings.
pub proof fn law_new_keeps_strings_different<S: Fn(&Block) -> SerializedBiscuit>(
    authority: Block,
    sign: S,
    token: Biscuit,
)
    requires
        all_different(authority@.symbols),
        call_ensures(Biscuit::new::<S>, (&authority, sign), Ok::<Biscuit, String>(token)),
    ensures
        all_different(token@.symbols),
{
    law_new(authority, sign, Ok(token));
    lemma_default_symbols_distinct();
    lemma_default_strings();
    lemma_different_together(first_strings(), authority@.symbols);
}

/// Different strings and further different ones that they do not share are different together.
proof fn lemma_different_together(a: Seq<Seq<char>>, b: Seq<Seq<char>>)
    requires
        all_different(a),
        all_different(b),
        !share_a_string(a, b),
    ensures
        all_different(a + b),
{
    let c = a + b;
    assert forall|i: int, j: int| 0 <= i < j < c.len() implies #[trigger] c[i]
        != #[trigger] c[j] by {
        if j < a.len() {
            assert(c[i] == a[i] && c[j] == a[j]);
        } else if i < a.len() {
            assert(c[i] == a[i] && c[j] == b[j - a.len()]);
        } else {
            assert(c[i] == b[i - a.len()] && c[j] == b[j - a.len()]);
        }
    }
}

/// `append` refuses a token without a signed form, then a block one of whose strings is one of the
/// token's, then one whose index is not the next. Of every other it makes a longer token: with the
/// same authority block, that block behind the others, its strings behind those of the token, and
/// what signing the block after the token's container gave.
pub proof fn law_append<S: Fn(&SerializedBiscuit, &Block) -> SerializedBiscuit>(
    token: Biscuit,
    block: Block,
    sign: S,
    r: Result<Biscuit, String>,
)
    requires
        call_ensures(Biscuit::append::<S>, (&token, block, sign), r),
    ensures
        token@.container is None ==> r is Err && r->Err_0@
            == "cannot append a bock to a sealed token"@,
        token@.container is Some && share_a_string(token@.symbols, block@.symbols) ==> r is Err
            && r->Err_0@ == "symbol tables should have no overlap"@,
        token@.container is Some && !share_a_string(token@.symbols, block@.symbols) && block.index
            != token@.blocks.len() + 1 ==> r is Err && r->Err_0@ == "invalid block index"@,
        token@.container is Some && !share_a_string(token@.symbols, block@.symbols) && block.index
            == token@.blocks.len() + 1 ==> r is Ok,
        r is Ok ==> {
            &&& forall|i: int, j: int|
                0 <= i < token@.symbols.len() && 0 <= j < block.symbols.symbols@.len()
                    ==> #[trigger] token@.symbols[i] != (#[trigger] block.symbols.symbols@[j])@
            &&& r->Ok_0@.authority == token@.authority
            &&& r->Ok_0@.blocks == token@.blocks + seq![block@]
            &&& r->Ok_0@.symbols == token@.symbols + block@.symbols
            &&& exists|c: SerializedBiscuit, b: Block, d: SerializedBiscuit|
                token@.container == Some(c@) && b@ == block@ && r->Ok_0@.container == Some(d@)
                    && #[trigger] call_ensures(sign, (&c, &b), d)
        },
{
    lemma_disjoint_by_place(token@.symbols, block@.symbols);
    if r is Ok {
        let t = r->Ok_0;
        assert(token_result(r) == Ok::<_, Seq<char>>(t@));
        assert(append_fault(token@, block@) is None);
        let c = choose|c: ContainerModel| #[trigger]
            may_sign_next(sign, token@.container->Some_0, block@, c) && token_result(r)
                == Ok::<_, Seq<char>>(token@.with_block(block@, c));
        assert(may_sign_next(sign, token@.container->Some_0, block@, c));
        assert(t@.blocks =~= token@.blocks + seq![block@]);
        assert forall|i: int, j: int|
            0 <= i < token@.symbols.len() && 0 <= j < block.symbols.symbols@.len()
                implies #[trigger] token@.symbols[i] != (
        #[trigger] block.symbols.symbols@[j])@ by {
            assert(block@.symbols[j] == block.symbols.symbols@[j]@);
        }
    }
}

/// Where a token has different strings, and a block has, the longer token has.
pub proof fn law_append_keeps_strings_different<
    S: Fn(&SerializedBiscuit, &Block) -> SerializedBiscuit,
>(token: Biscuit, block: Block, sign: S, longer: Biscuit)
    requires
        all_different(token@.symbols),
        all_different(block@.symbols),
        call_ensures(Biscuit::append::<S>, (&token, block, sign), Ok::<Biscuit, String>(longer)),
    ensures
        all_different(longer@.symbols),
{
    law_append(token, block, sign, Ok(longer));
    lemma_different_together(token@.symbols, block@.symbols);
}

/// `create_block` starts at the index behind the last block, as far as 32 bits can tell it, with
/// the strings of the token.
pub proof fn law_create_block(token: Biscuit, r: BlockBuilder)
    requires
        call_ensures(Biscuit::create_block, (&token,), r),
    ensures
        token@.blocks.len() < u32::MAX ==> r.index == token@.blocks.len() + 1,
        token@.blocks.len() == u32::MAX ==> r.index == 0,
        r.symbols.symbols@.len() == token@.symbols.len(),
        forall|k: int|
            0 <= k < token@.symbols.len() ==> (#[trigger] r.symbols.symbols@[k])@
                == token@.symbols[k],
{
    assert forall|k: int| 0 <= k < token@.symbols.len() implies (#[trigger] r.symbols.symbols@[k])@
        == token@.symbols[k] by {
        assert(r.symbols@[k] == r.symbols.symbols@[k]@);
    }
    assert(r.symbols@.len() == r.symbols.symbols@.len());
}

/// A builder and a block start with the index and the strings that they are given, and a block
/// without facts and caveats.
pub proof fn law_starts(index: u32, table: SymbolTable, builder: BlockBuilder, block: Block)
    requires
        call_ensures(BlockBuilder::new, (index, table), builder),
        call_ensures(Block::new, (index, table), block),
    ensures
        builder.index == index,
        builder.symbols@ == table@,
        block.index == index,
        block.symbols@ == table@,
        block.facts@.len() == 0,
        block.caveats@.len() == 0,
{
    assert(block@.index == block.index && block@.symbols == block.symbols@);
    law_views_by_place(block.facts@);
    law_views_by_place(block.caveats@);
}

/// A block's `symbol_insert` and `symbol_add` put a string behind the block's own where no place
/// holds it, give its first place, and change nothing else.
pub proof fn law_symbol_insert(block: &mut Block, s: &str, r: u64)
    requires
        call_ensures(Block::symbol_insert, (block, s), r),
        final(block)@.symbols.len() <= u64::MAX,
    ensures
        final(block)@.index == old(block)@.index,
        final(block)@.facts == old(block)@.facts,
        final(block)@.caveats == old(block)@.caveats,
        final(block)@.symbols == old(block)@.symbols || (final(block)@.symbols
            == old(block)@.symbols + seq![s@] && !old(block)@.symbols.contains(s@)),
        r < final(block)@.symbols.len(),
        final(block)@.symbols[r as int] == s@,
        forall|j: int| 0 <= j < r ==> #[trigger] final(block)@.symbols[j] != s@,
{
    lemma_symbol_put(old(block)@.symbols, s@);
    lemma_symbol_is_first_place(final(block)@.symbols, s@);
}

/// A block's `symbol_add` does what its `symbol_insert` does, and gives the place as a symbol.
pub proof fn law_symbol_add(block: &mut Block, s: &str, r: ID)
    requires
        call_ensures(Block::symbol_add, (block, s), r),
        final(block)@.symbols.len() <= u64::MAX,
    ensures
        final(block)@.index == old(block)@.index,
        final(block)@.facts == old(block)@.facts,
        final(block)@.caveats == old(block)@.caveats,
        final(block)@.symbols == old(block)@.symbols || (final(block)@.symbols
            == old(block)@.symbols + seq![s@] && !old(block)@.symbols.contains(s@)),
        r is Symbol,
        r->Symbol_0 < final(block)@.symbols.len(),
        final(block)@.symbols[r->Symbol_0 as int] == s@,
        forall|j: int| 0 <= j < r->Symbol_0 ==> #[trigger] final(block)@.symbols[j] != s@,
{
    lemma_symbol_put(old(block)@.symbols, s@);
    lemma_symbol_is_first_place(final(block)@.symbols, s@);
}

/// A table with a string that was put into it is the table, or has that string behind it.
proof fn lemma_symbol_put(table: Seq<Seq<char>>, s: Seq<char>)
    ensures
        with_symbol(table, s).contains(s),
        with_symbol(table, s) == table || (with_symbol(table, s)
            == table + seq![s] && !table.contains(s)),
{
    if !table.contains(s) {
        assert(table.push(s)[table.len() as int] == s);
        assert(table.push(s) =~= table + seq![s]);
    }
}

/// `adjust_authority_symbols` takes off the first seven strings of a block, keeps the others in
/// order, and changes nothing else.
pub proof fn law_adjust_authority_symbols(block: &mut Block)
    requires
        call_ensures(Biscuit::adjust_authority_symbols, (block,), ()),
        old(block)@.symbols.len() >= 7,
    ensures
        final(block)@.index == old(block)@.index,
        final(block)@.facts == old(block)@.facts,
        final(block)@.caveats == old(block)@.caveats,
        final(block)@.symbols.len() == old(block)@.symbols.len() - 7,
        forall|k: int|
            0 <= k < final(block)@.symbols.len() ==> #[trigger] final(block)@.symbols[k]
                == old(block)@.symbols[7 + k],
{
    lemma_default_strings();
}

/// `adjust_block_symbols` takes off as many strings of a block as the token has, keeps the others
/// in order, and changes nothing else.
pub proof fn law_adjust_block_symbols(token: Biscuit, block: &mut Block)
    requires
        call_ensures(Biscuit::adjust_block_symbols, (&token, block), ()),
        old(block)@.symbols.len() >= token@.symbols.len(),
    ensures
        final(block)@.index == old(block)@.index,
        final(block)@.facts == old(block)@.facts,
        final(block)@.caveats == old(block)@.caveats,
        final(block)@.symbols.len() == old(block)@.symbols.len() - token@.symbols.len(),
        forall|k: int|
            0 <= k < final(block)@.symbols.len() ==> #[trigger] final(block)@.symbols[k]
                == old(block)@.symbols[token@.symbols.len() + k],
{
}

/// Decoding these bytes may return this.
pub open spec fn decoded_as<D: Fn(&[u8]) -> Result<Block, String>>(
    decode: D,
    bytes: Seq<u8>,
    out: Result<Block, String>,
) -> bool {
    exists|s: &[u8]| s@ == bytes && #[trigger] call_ensures(decode, (s,), out)
}

/// What decoding returned for the block at place `i` of a list is a block with the index that is
/// due there.
pub open spec fn is_in_place(decoded: Result<Block, String>, i: int) -> bool {
    decoded is Ok && decoded->Ok_0.index == i + 1
}

/// The message about what decoding returned for the block at place `i` of a list.
pub open spec fn is_block_message(decoded: Result<Block, String>, i: int, m: Seq<char>) -> bool {
    match decoded {
        Err(e) => m == "error deserializing block: "@ + e@,
        Ok(b) => b.index != i + 1 && m == "invalid index "@ + decimal(b.index as nat)
            + " for block n°"@ + decimal((i + 1) as nat),
    }
}

/// `first` and `rest` may be what decoding the authority bytes and then those of the blocks
/// returned, and reading them gives `r`: the token of the decoded blocks where all were decoded and
/// have their indexes, and the message about the first that was not or has not.
pub open spec fn reads_to<D: Fn(&[u8]) -> Result<Block, String>>(
    decode: D,
    authority: Seq<u8>,
    blocks: Seq<Seq<u8>>,
    first: Result<Block, String>,
    rest: Seq<Result<Block, String>>,
    r: Result<Biscuit, String>,
) -> bool {
    &&& decoded_as(decode, authority, first)
    &&& rest.len() <= blocks.len()
    &&& forall|i: int| 0 <= i < rest.len() ==> decoded_as(decode, blocks[i], #[trigger] rest[i])
    &&& match r {
        Ok(t) => {
            &&& first is Ok
            &&& first->Ok_0.index == 0
            &&& t@.authority == first->Ok_0@
            &&& rest.len() == blocks.len()
            &&& t@.blocks.len() == rest.len()
            &&& forall|i: int|
                0 <= i < rest.len() ==> is_in_place(#[trigger] rest[i], i) && t@.blocks[i]
                    == rest[i]->Ok_0@
            &&& t@.symbols == first_strings() + first->Ok_0@.symbols + rest.map_values(
                |d: Result<Block, String>| d->Ok_0@.symbols,
            ).flatten_alt()
        },
        Err(m) => match first {
            Err(e) => m@ == "error deserializing authority block: "@ + e@,
            Ok(b) => if b.index != 0 {
                m@ == "authority block should have index 0"@
            } else {
                exists|k: int|
                    {
                        &&& 0 <= k < rest.len()
                        &&& forall|i: int| 0 <= i < k ==> is_in_place(#[trigger] rest[i], i)
                        &&& #[trigger] is_block_message(rest[k], k, m@)
                    }
            },
        },
    }
}

/// The first fault among decoded blocks is that of the first one that is not in place.
proof fn lemma_first_fault_place(blocks: Seq<Decoded>) -> (k: int)
    ensures
        first_fault(blocks) is None ==> forall|i: int|
            0 <= i < blocks.len() ==> block_fault(#[trigger] blocks[i], i as nat) is None,
        first_fault(blocks) is Some ==> {
            &&& 0 <= k < blocks.len()
            &&& forall|i: int|
                0 <= i < k ==> block_fault(#[trigger] blocks[i], i as nat) is None
            &&& block_fault(blocks[k], k as nat) == first_fault(blocks)
        },
    decreases blocks.len(),
{
    if blocks.len() == 0 {
        0
    } else {
        let front = blocks.drop_last();
        let n: int = blocks.len() - 1;
        let k = lemma_first_fault_place(front);
        assert forall|i: int| 0 <= i < n implies #[trigger] blocks[i] == front[i] by {}
        if first_fault(front) is Some {
            k
        } else {
            assert forall|i: int| 0 <= i < n implies block_fault(
                #[trigger] blocks[i],
                i as nat,
            ) is None by {
                assert(blocks[i] == front[i]);
            }
            n
        }
    }
}

/// What reading may give is told by what decoding returned.
proof fn lemma_reads_to<D: Fn(&[u8]) -> Result<Block, String>>(
    decode: D,
    authority: Seq<u8>,
    blocks: Seq<Seq<u8>>,
    container: Option<ContainerModel>,
    r: Result<Biscuit, String>,
)
    requires
        read_outcome(decode, authority, blocks, container, token_result(r)),
    ensures
        r is Ok ==> r->Ok_0@.container == container,
        exists|first: Result<Block, String>, rest: Seq<Result<Block, String>>| #[trigger]
            reads_to(decode, authority, blocks, first, rest, r),
{
    let out = token_result(r);
    let (a, bs) = choose|a: Decoded, bs: Seq<Decoded>|
        {
            &&& #[trigger] may_decode_all(decode, authority, blocks, a, bs)
            &&& out == assembled(a, bs, container)
            &&& out is Ok ==> bs.len() == blocks.len()
        };
    let first = choose|d: Result<Block, String>| #[trigger]
        decoded_as(decode, authority, d) && decoded_model(d) == a;
    assert(decoded_as(decode, authority, first) && decoded_model(first) == a) by {
        let (s, d) = choose|s: &[u8], d: Result<Block, String>|
            s@ == authority && decoded_model(d) == a && #[trigger] call_ensures(decode, (s,), d);
        assert(decoded_as(decode, authority, d));
    }
    let rest = Seq::new(
        bs.len(),
        |i: int|
            choose|d: Result<Block, String>| #[trigger]
                decoded_as(decode, blocks[i], d) && decoded_model(d) == bs[i],
    );
    assert forall|i: int| 0 <= i < bs.len() implies decoded_as(
        decode,
        blocks[i],
        #[trigger] rest[i],
    ) && decoded_model(rest[i]) == bs[i] by {
        assert(may_decode(decode, blocks[i], bs[i]));
        let (s, d) = choose|s: &[u8], d: Result<Block, String>|
            s@ == blocks[i] && decoded_model(d) == bs[i] && #[trigger] call_ensures(
                decode,
                (s,),
                d,
            );
        assert(decoded_as(decode, blocks[i], d));
    }
    let k = lemma_first_fault_place(bs);
    match r {
        Ok(t) => {
            assert(out == Ok::<_, Seq<char>>(t@));
            lemma_default_strings();
            assert(t@.blocks =~= bs.map_values(|d: Decoded| d->Ok_0));
            lemma_added_strings(t@.blocks);
            assert(t@.blocks.map_values(|b: BlockModel| b.symbols) =~= rest.map_values(
                |d: Result<Block, String>| d->Ok_0@.symbols,
            )) by {
                assert forall|i: int| 0 <= i < rest.len() implies t@.blocks[i].symbols == (
                #[trigger] rest[i])->Ok_0@.symbols by {
                    assert(block_fault(bs[i], i as nat) is None);
                }
            }
            assert forall|i: int| 0 <= i < rest.len() implies is_in_place(#[trigger] rest[i], i)
                && t@.blocks[i] == rest[i]->Ok_0@ by {
                assert(block_fault(bs[i], i as nat) is None);
            }
        },
        Err(m) => {
            if decoded_authority_fault(a) is None {
                assert forall|i: int| 0 <= i < k implies is_in_place(#[trigger] rest[i], i) by {
                    assert(block_fault(bs[i], i as nat) is None);
                }
                assert(block_fault(bs[k], k as nat) == Some(m@));
                assert(is_block_message(rest[k], k, m@));
            }
        },
    }
    assert(reads_to(decode, authority, blocks, first, rest, r));
}

/// `from` gives the error of loading where loading fails. Else it decodes the authority bytes and
/// then those of each block of the container that was loaded, refuses at the first that is not
/// decoded or has not the index that is due, and makes of the others a token that keeps the
/// container.
pub proof fn law_from<
    L: Fn(&[u8]) -> Result<SerializedBiscuit, String>,
    D: Fn(&[u8]) -> Result<Block, String>,
>(slice: &[u8], load: L, decode: D, r: Result<Biscuit, String>)
    requires
        call_ensures(Biscuit::from::<L, D>, (slice, load, decode), r),
    ensures
        exists|loaded: Result<SerializedBiscuit, String>| #[trigger]
            call_ensures(load, (slice,), loaded) && match loaded {
                Err(e) => r is Err && r->Err_0@ == e@,
                Ok(c) => {
                    &&& r is Ok ==> r->Ok_0@.container == Some(c@)
                    &&& exists|first: Result<Block, String>, rest: Seq<Result<Block, String>>|
                        #[trigger]
                        reads_to(decode, c.authority@, views(c.blocks@), first, rest, r)
                },
            },
{
    let loaded = choose|loaded: Result<SerializedBiscuit, String>| #[trigger]
        call_ensures(load, (slice,), loaded) && match loaded {
            Err(e) => token_result(r) == Err::<TokenModel, _>(e@),
            Ok(c) => read_outcome(decode, c@.authority, c@.blocks, Some(c@), token_result(r)),
        };
    match loaded {
        Err(e) => {},
        Ok(c) => {
            lemma_reads_to(decode, c@.authority, c@.blocks, Some(c@), r);
        },
    }
}

/// `from_sealed` gives the error of loading where loading fails. Else it decodes the authority
/// bytes and then those of each block of the container that was loaded, refuses at the first that
/// is not decoded or has not the index that is due, and makes of the others a token without a
/// signed form.
pub proof fn law_from_sealed<
    L: Fn(&[u8]) -> Result<SealedBiscuit, String>,
    D: Fn(&[u8]) -> Result<Block, String>,
>(slice: &[u8], load: L, decode: D, r: Result<Biscuit, String>)
    requires
        call_ensures(Biscuit::from_sealed::<L, D>, (slice, load, decode), r),
    ensures
        exists|loaded: Result<SealedBiscuit, String>| #[trigger]
            call_ensures(load, (slice,), loaded) && match loaded {
                Err(e) => r is Err && r->Err_0@ == e@,
                Ok(c) => {
                    &&& r is Ok ==> r->Ok_0@.container is None
                    &&& exists|first: Result<Block, String>, rest: Seq<Result<Block, String>>|
                        #[trigger]
                        reads_to(decode, c.authority@, views(c.blocks@), first, rest, r)
                },
            },
{
    let loaded = choose|loaded: Result<SealedBiscuit, String>| #[trigger]
        call_ensures(load, (slice,), loaded) && match loaded {
            Err(e) => token_result(r) == Err::<TokenModel, _>(e@),
            Ok(c) => read_outcome(decode, c@.authority, c@.blocks, None, token_result(r)),
        };
    match loaded {
        Err(e) => {},
        Ok(c) => {
            lemma_reads_to(decode, c@.authority, c@.blocks, None, r);
        },
    }
}

/// `accept_authority` passes on a decoded block with index 0, and tells of every other.
pub proof fn law_accept_authority(decoded: Result<Block, String>, r: Result<Block, String>)
    requires
        call_ensures(accept_authority, (decoded,), r),
    ensures
        match decoded {
            Err(e) => r is Err && r->Err_0@ == "error deserializing authority block: "@ + e@,
            Ok(b) => if b.index == 0 {
                r == decoded
            } else {
                r is Err && r->Err_0@ == "authority block should have index 0"@
            },
        },
{
}

/// `accept_block` passes on a decoded block with the index after `i` others, and tells of every
/// other.
pub proof fn law_accept_block(decoded: Result<Block, String>, i: usize, r: Result<Block, String>)
    requires
        call_ensures(accept_block, (decoded, i), r),
    ensures
        is_in_place(decoded, i as int) ==> r == decoded,
        !is_in_place(decoded, i as int) ==> r is Err && is_block_message(
            decoded,
            i as int,
            r->Err_0@,
        ),
{
}

/// `to_vec` gives nothing exactly where the token has no signed form, and else what encoding that
/// form gave.
pub proof fn law_to_vec<E: Fn(&SerializedBiscuit) -> Vec<u8>>(
    token: Biscuit,
    encode: E,
    r: Option<Vec<u8>>,
)
    requires
        call_ensures(Biscuit::to_vec::<E>, (&token, encode), r),
    ensures
        (r is None) == (token@.container is None),
        r is Some ==> exists|c: SerializedBiscuit, v: Vec<u8>|
            token@.container == Some(c@) && v@ == r->Some_0@ && #[trigger] call_ensures(
                encode,
                (&c,),
                v,
            ),
{
    if r is Some {
        assert(may_encode(encode, token@.container->Some_0, r->Some_0@));
    }
}

/// `seal` gives what encoding gave of what authenticating this token with this secret gave.
pub proof fn law_seal<
    T: Fn(&Biscuit, &[u8]) -> SealedBiscuit,
    E: Fn(&SealedBiscuit) -> Vec<u8>,
>(token: Biscuit, secret: &[u8], from_token: T, encode: E, r: Vec<u8>)
    requires
        call_ensures(Biscuit::seal::<T, E>, (&token, secret, from_token, encode), r),
    ensures
        exists|sealed: SealedBiscuit| #[trigger]
            call_ensures(from_token, (&token, secret), sealed) && call_ensures(
                encode,
                (&sealed,),
                r,
            ),
{
}

/// A copy of a token has the same parts.
pub proof fn law_token_copy(token: Biscuit, copy: Biscuit)
    requires
        call_ensures(Biscuit::clone, (&token,), copy),
    ensures
        copy@ == token@,
{
}

} // verus!
