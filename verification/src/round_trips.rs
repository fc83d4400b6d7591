//! What holds of tokens over several calls: built and written, sealed, read back and checked.
use vstd::prelude::*;

use crate::block::{messages_of, Block};
use crate::laws::{
    decides_once, law_append_restricts, law_append_well_formed, law_check_determined,
    law_pass_determined, law_reading_back, law_sealing_keeps_checks, single_valued,
};
use crate::symbols::SymbolTable;
use crate::terms::{views, Fact, Rule};
use crate::token::{
    assembled, first_fault, may_decode, may_decode_all, may_encode, may_sign_next, read_outcome,
    token_result, Biscuit, ContainerModel, Decoded, SealedBiscuit, SerializedBiscuit, TokenModel,
};
use crate::world::{Engine, World};

verus! {

/// Decoding the parts of a container can only give the blocks of the token.
pub open spec fn decodes_to<D: Fn(&[u8]) -> Result<Block, String>>(
    decode: D,
    container: ContainerModel,
    token: TokenModel,
) -> bool {
    &&& container.blocks.len() == token.blocks.len()
    &&& forall|d: Decoded| #[trigger]
        may_decode(decode, container.authority, d) ==> d == Ok::<_, Seq<char>>(token.authority)
    &&& forall|i: int, d: Decoded|
        0 <= i < container.blocks.len() && #[trigger] may_decode(decode, container.blocks[i], d)
            ==> d == Ok::<_, Seq<char>>(token.blocks[i])
}

/// Signing an authority block gives a container with that block only.
pub open spec fn signs_authority<
    S: Fn(&Block) -> SerializedBiscuit,
    D: Fn(&[u8]) -> Result<Block, String>,
>(sign: S, decode: D) -> bool {
    forall|b: Block, c: SerializedBiscuit| #[trigger]
        call_ensures(sign, (&b,), c) ==> {
            &&& c@.blocks.len() == 0
            &&& forall|d: Decoded| #[trigger]
                may_decode(decode, c@.authority, d) ==> d == Ok::<_, Seq<char>>(b@)
        }
}

/// Signing a further block keeps the parts of the container and adds that block behind them.
pub open spec fn signs_next<
    S: Fn(&SerializedBiscuit, &Block) -> SerializedBiscuit,
    D: Fn(&[u8]) -> Result<Block, String>,
>(sign: S, decode: D) -> bool {
    forall|c: SerializedBiscuit, b: Block, next: SerializedBiscuit| #[trigger]
        call_ensures(sign, (&c, &b), next) ==> {
            &&& next@.authority == c@.authority
            &&& next@.blocks.len() == c@.blocks.len() + 1
            &&& next@.blocks.drop_last() == c@.blocks
            &&& forall|d: Decoded| #[trigger]
                may_decode(decode, next@.blocks.last(), d) ==> d == Ok::<_, Seq<char>>(b@)
        }
}

/// Loading what was written of a container gives that container.
pub open spec fn loads_back<
    E: Fn(&SerializedBiscuit) -> Vec<u8>,
    L: Fn(&[u8]) -> Result<SerializedBiscuit, String>,
>(encode: E, load: L) -> bool {
    forall|
        c: SerializedBiscuit,
        v: Vec<u8>,
        s: &[u8],
        loaded: Result<SerializedBiscuit, String>,
    |
        #![trigger call_ensures(encode, (&c,), v), call_ensures(load, (s,), loaded)]
        call_ensures(encode, (&c,), v) && s@ == v@ && call_ensures(load, (s,), loaded)
            ==> loaded is Ok && loaded->Ok_0@ == c@
}

/// Loading what was written of the token's container gives one that decodes to its blocks.
pub open spec fn written_decodes<
    E: Fn(&SerializedBiscuit) -> Vec<u8>,
    L: Fn(&[u8]) -> Result<SerializedBiscuit, String>,
    D: Fn(&[u8]) -> Result<Block, String>,
>(encode: E, load: L, decode: D, token: TokenModel) -> bool {
    forall|
        c: SerializedBiscuit,
        v: Vec<u8>,
        s: &[u8],
        loaded: Result<SerializedBiscuit, String>,
    |
        #![trigger call_ensures(encode, (&c,), v), call_ensures(load, (s,), loaded)]
        token.container == Some(c@) && call_ensures(encode, (&c,), v) && s@ == v@ && call_ensures(
            load,
            (s,),
            loaded,
        ) ==> loaded is Ok && decodes_to(decode, loaded->Ok_0@, token)
}

/// Loading what was written of a sealed container gives that container.
pub open spec fn loads_sealed_back<
    E: Fn(&SealedBiscuit) -> Vec<u8>,
    L: Fn(&[u8]) -> Result<SealedBiscuit, String>,
>(encode: E, load: L) -> bool {
    forall|c: SealedBiscuit, v: Vec<u8>, s: &[u8], loaded: Result<SealedBiscuit, String>|
        #![trigger call_ensures(encode, (&c,), v), call_ensures(load, (s,), loaded)]
        call_ensures(encode, (&c,), v) && s@ == v@ && call_ensures(load, (s,), loaded)
            ==> loaded is Ok && loaded->Ok_0@ == c@
}

/// Loading what was written of the token's sealed form gives a container that decodes to its
/// blocks.
pub open spec fn sealed_decodes<
    T: Fn(&Biscuit, &[u8]) -> SealedBiscuit,
    E: Fn(&SealedBiscuit) -> Vec<u8>,
    L: Fn(&[u8]) -> Result<SealedBiscuit, String>,
    D: Fn(&[u8]) -> Result<Block, String>,
>(from_token: T, encode: E, load: L, decode: D, token: Biscuit, secret: &[u8]) -> bool {
    forall|c: SealedBiscuit, v: Vec<u8>, s: &[u8], loaded: Result<SealedBiscuit, String>|
        #![trigger
            call_ensures(from_token, (&token, secret), c),
            call_ensures(encode, (&c,), v),
            call_ensures(load, (s,), loaded)]
        {
            &&& call_ensures(from_token, (&token, secret), c)
            &&& call_ensures(encode, (&c,), v)
            &&& s@ == v@
            &&& call_ensures(load, (s,), loaded)
        } ==> loaded is Ok && decodes_to(decode, loaded->Ok_0@, token@)
}

/// A token holds what it signs, from the start: the container of a new token decodes to its
/// authority block.
pub proof fn law_new_container_decodes<
    S: Fn(&Block) -> SerializedBiscuit,
    D: Fn(&[u8]) -> Result<Block, String>,
>(authority: Block, sign: S, decode: D, token: Biscuit)
    requires
        signs_authority(sign, decode),
        call_ensures(Biscuit::new::<S>, (&authority, sign), Ok::<Biscuit, String>(token)),
    ensures
        token@.wf(),
        token@.container is Some,
        token@.authority == authority@,
        token@.blocks.len() == 0,
        decodes_to(decode, token@.container->Some_0, token@),
{
    assert(token_result(Ok(token)) == Ok::<_, Seq<char>>(token@));
}

/// A token holds what it signs, block by block: where its container decodes to its blocks, so does
/// the container of the token with one more block.
pub proof fn law_append_container_decodes<
    S: Fn(&SerializedBiscuit, &Block) -> SerializedBiscuit,
    D: Fn(&[u8]) -> Result<Block, String>,
>(token: Biscuit, block: Block, sign: S, decode: D, next: Biscuit)
    requires
        token@.wf(),
        token@.container is Some,
        decodes_to(decode, token@.container->Some_0, token@),
        signs_next(sign, decode),
        call_ensures(Biscuit::append::<S>, (&token, block, sign), Ok::<Biscuit, String>(next)),
    ensures
        next@.wf(),
        next@.container is Some,
        next@.authority == token@.authority,
        next@.blocks == token@.blocks.push(block@),
        decodes_to(decode, next@.container->Some_0, next@),
{
    assert(token_result(Ok(next)) == Ok::<_, Seq<char>>(next@));
    law_append_well_formed(token@, block@, next@.container->Some_0);
    let before = token@.container->Some_0.blocks;
    let after = next@.container->Some_0.blocks;
    assert(may_sign_next(sign, token@.container->Some_0, block@, next@.container->Some_0));
    assert forall|i: int, d: Decoded|
        0 <= i < after.len() && #[trigger] may_decode(decode, after[i], d) implies d == Ok::<
        _,
        Seq<char>,
    >(next@.blocks[i]) by {
        if i < before.len() {
            assert(after.drop_last()[i] == before[i]);
        } else {
            assert(after[i] == after.last());
        }
    }
}

/// The first of these tokens was made by `new`, and each further one from the one before it by
/// `append`, of these blocks with these ways to sign.
pub open spec fn built<
    N: Fn(&Block) -> SerializedBiscuit,
    S: Fn(&SerializedBiscuit, &Block) -> SerializedBiscuit,
>(authority: Block, sign: N, blocks: Seq<Block>, signs: Seq<S>, tokens: Seq<Biscuit>) -> bool {
    &&& signs.len() == blocks.len()
    &&& tokens.len() == blocks.len() + 1
    &&& call_ensures(Biscuit::new::<N>, (&authority, sign), Ok::<Biscuit, String>(tokens[0]))
    &&& forall|k: int|
        0 <= k < blocks.len() ==> call_ensures(
            Biscuit::append::<S>,
            (&tokens[k], #[trigger] blocks[k], signs[k]),
            Ok::<Biscuit, String>(tokens[k + 1]),
        )
}

/// A token that was built is well-formed, and has the blocks that it was built of.
pub proof fn law_built_well_formed<
    N: Fn(&Block) -> SerializedBiscuit,
    S: Fn(&SerializedBiscuit, &Block) -> SerializedBiscuit,
>(authority: Block, sign: N, blocks: Seq<Block>, signs: Seq<S>, tokens: Seq<Biscuit>)
    requires
        built(authority, sign, blocks, signs, tokens),
    ensures
        tokens.last()@.wf(),
        tokens.last()@.container is Some,
        tokens.last()@.authority == authority@,
        tokens.last()@.blocks == views(blocks),
    decreases blocks.len(),
{
    if blocks.len() == 0 {
        assert(token_result(Ok(tokens[0])) == Ok::<_, Seq<char>>(tokens[0]@));
        assert(tokens[0]@.blocks =~= views(blocks));
    } else {
        let n: int = blocks.len() - 1;
        lemma_built_before(authority, sign, blocks, signs, tokens);
        law_built_well_formed(
            authority,
            sign,
            blocks.drop_last(),
            signs.drop_last(),
            tokens.drop_last(),
        );
        let next = tokens[n + 1];
        assert(blocks[n] == blocks.last());
        assert(token_result(Ok(next)) == Ok::<_, Seq<char>>(next@));
        law_append_well_formed(tokens[n]@, blocks[n]@, next@.container->Some_0);
        assert(views(blocks.drop_last()).push(blocks[n]@) =~= views(blocks));
    }
}

/// What comes before the last block was built in the same way.
proof fn lemma_built_before<
    N: Fn(&Block) -> SerializedBiscuit,
    S: Fn(&SerializedBiscuit, &Block) -> SerializedBiscuit,
>(authority: Block, sign: N, blocks: Seq<Block>, signs: Seq<S>, tokens: Seq<Biscuit>)
    requires
        blocks.len() > 0,
        built(authority, sign, blocks, signs, tokens),
    ensures
        built(authority, sign, blocks.drop_last(), signs.drop_last(), tokens.drop_last()),
{
    let fewer = blocks.drop_last();
    let earlier = tokens.drop_last();
    assert forall|k: int| 0 <= k < fewer.len() implies call_ensures(
        Biscuit::append::<S>,
        (&earlier[k], #[trigger] fewer[k], signs.drop_last()[k]),
        Ok::<Biscuit, String>(earlier[k + 1]),
    ) by {
        assert(fewer[k] == blocks[k]);
    }
}

/// A token holds what it signs, however many blocks were appended: its container
/// decodes to the blocks that it was built of.
pub proof fn law_built_container_decodes<
    N: Fn(&Block) -> SerializedBiscuit,
    S: Fn(&SerializedBiscuit, &Block) -> SerializedBiscuit,
    D: Fn(&[u8]) -> Result<Block, String>,
>(
    authority: Block,
    sign: N,
    blocks: Seq<Block>,
    signs: Seq<S>,
    tokens: Seq<Biscuit>,
    decode: D,
)
    requires
        built(authority, sign, blocks, signs, tokens),
        signs_authority(sign, decode),
        forall|k: int| 0 <= k < signs.len() ==> signs_next(#[trigger] signs[k], decode),
    ensures
        decodes_to(decode, tokens.last()@.container->Some_0, tokens.last()@),
    decreases blocks.len(),
{
    if blocks.len() == 0 {
        law_new_container_decodes(authority, sign, decode, tokens[0]);
    } else {
        let n: int = blocks.len() - 1;
        let fewer = blocks.drop_last();
        let earlier = tokens.drop_last();
        lemma_built_before(authority, sign, blocks, signs, tokens);
        law_built_well_formed(authority, sign, fewer, signs.drop_last(), earlier);
        law_built_container_decodes(authority, sign, fewer, signs.drop_last(), earlier, decode);
        assert(signs_next(signs[n], decode));
        assert(blocks[n] == blocks.last());
        law_append_container_decodes(tokens[n], blocks[n], signs[n], decode, tokens[n + 1]);
    }
}

/// A token whose container decodes to its blocks can be read back wherever loading gives back what
/// was written.
pub proof fn law_loading_decodes<
    E: Fn(&SerializedBiscuit) -> Vec<u8>,
    L: Fn(&[u8]) -> Result<SerializedBiscuit, String>,
    D: Fn(&[u8]) -> Result<Block, String>,
>(encode: E, load: L, decode: D, token: TokenModel)
    requires
        token.container is Some,
        decodes_to(decode, token.container->Some_0, token),
        loads_back(encode, load),
    ensures
        written_decodes(encode, load, decode, token),
{
}

/// Reading a written token gives that token: `from` on the bytes of `to_vec` succeeds, with the
/// same authority block, blocks and strings, and the result has a signed form again.
pub proof fn law_write_read<
    E: Fn(&SerializedBiscuit) -> Vec<u8>,
    L: Fn(&[u8]) -> Result<SerializedBiscuit, String>,
    D: Fn(&[u8]) -> Result<Block, String>,
>(
    token: Biscuit,
    encode: E,
    load: L,
    decode: D,
    written: Option<Vec<u8>>,
    slice: &[u8],
    read: Result<Biscuit, String>,
)
    requires
        token@.wf(),
        token@.container is Some,
        written_decodes(encode, load, decode, token@),
        call_ensures(Biscuit::to_vec::<E>, (&token, encode), written),
        written is Some ==> slice@ == written->Some_0@,
        call_ensures(Biscuit::from::<L, D>, (slice, load, decode), read),
    ensures
        written is Some,
        read is Ok,
        read->Ok_0@.authority == token@.authority,
        read->Ok_0@.blocks == token@.blocks,
        read->Ok_0@.symbols == token@.symbols,
        read->Ok_0@.container is Some,
        forall|again: Option<Vec<u8>>| #[trigger]
            call_ensures(Biscuit::to_vec::<E>, (&read->Ok_0, encode), again) ==> again is Some,
{
    assert(may_encode(encode, token@.container->Some_0, slice@));
    let (c, v) = choose|c: SerializedBiscuit, v: Vec<u8>|
        c@ == token@.container->Some_0 && v@ == slice@ && #[trigger] call_ensures(
            encode,
            (&c,),
            v,
        );
    let loaded = choose|loaded: Result<SerializedBiscuit, String>| #[trigger]
        call_ensures(load, (slice,), loaded) && match loaded {
            Err(e) => token_result(read) == Err::<TokenModel, _>(e@),
            Ok(c) => read_outcome(
                decode,
                c@.authority,
                c@.blocks,
                Some(c@),
                token_result(read),
            ),
        };
    let container = loaded->Ok_0@;
    law_reading_back(
        decode,
        token@,
        container.authority,
        container.blocks,
        Some(container),
        token_result(read),
    );
}

/// Reading back any token that was made by `new` and any number of `append`s, where signing puts
/// the blocks into the container and loading gives back what was written: `from` on the bytes of
/// `to_vec` succeeds, with the blocks that the token was built of and with the same strings.
pub proof fn law_built_write_read<
    N: Fn(&Block) -> SerializedBiscuit,
    S: Fn(&SerializedBiscuit, &Block) -> SerializedBiscuit,
    E: Fn(&SerializedBiscuit) -> Vec<u8>,
    L: Fn(&[u8]) -> Result<SerializedBiscuit, String>,
    D: Fn(&[u8]) -> Result<Block, String>,
>(
    authority: Block,
    sign: N,
    blocks: Seq<Block>,
    signs: Seq<S>,
    tokens: Seq<Biscuit>,
    encode: E,
    load: L,
    decode: D,
    written: Option<Vec<u8>>,
    slice: &[u8],
    read: Result<Biscuit, String>,
)
    requires
        built(authority, sign, blocks, signs, tokens),
        signs_authority(sign, decode),
        forall|k: int| 0 <= k < signs.len() ==> signs_next(#[trigger] signs[k], decode),
        loads_back(encode, load),
        call_ensures(Biscuit::to_vec::<E>, (&tokens.last(), encode), written),
        written is Some ==> slice@ == written->Some_0@,
        call_ensures(Biscuit::from::<L, D>, (slice, load, decode), read),
    ensures
        written is Some,
        read is Ok,
        read->Ok_0@.authority == authority@,
        read->Ok_0@.blocks == views(blocks),
        read->Ok_0@.symbols == tokens.last()@.symbols,
        read->Ok_0@.container is Some,
{
    law_built_well_formed(authority, sign, blocks, signs, tokens);
    law_built_container_decodes(authority, sign, blocks, signs, tokens, decode);
    law_loading_decodes(encode, load, decode, tokens.last()@);
    law_write_read(tokens.last(), encode, load, decode, written, slice, read);
}

/// What `seal` writes can be loaded: it gives a container that decodes to the blocks of the token,
/// where sealing puts these into the container and loading gives back what was written.
pub proof fn law_sealed_bytes_decode<
    T: Fn(&Biscuit, &[u8]) -> SealedBiscuit,
    E: Fn(&SealedBiscuit) -> Vec<u8>,
    L: Fn(&[u8]) -> Result<SealedBiscuit, String>,
    D: Fn(&[u8]) -> Result<Block, String>,
>(
    token: Biscuit,
    secret: &[u8],
    from_token: T,
    encode: E,
    load: L,
    decode: D,
    sealed: Vec<u8>,
    slice: &[u8],
    loaded: Result<SealedBiscuit, String>,
)
    requires
        forall|c: SealedBiscuit| #[trigger]
            call_ensures(from_token, (&token, secret), c) ==> decodes_to(decode, c@, token@),
        loads_sealed_back(encode, load),
        call_ensures(
            Biscuit::seal::<T, E>,
            (&token, secret, from_token, encode),
            sealed,
        ),
        slice@ == sealed@,
        call_ensures(load, (slice,), loaded),
    ensures
        sealed_decodes(from_token, encode, load, decode, token, secret),
        loaded is Ok,
        decodes_to(decode, loaded->Ok_0@, token@),
{
}

/// What `from_sealed` gives of the bytes of `seal`.
proof fn lemma_seal_read<
    T: Fn(&Biscuit, &[u8]) -> SealedBiscuit,
    E: Fn(&SealedBiscuit) -> Vec<u8>,
    L: Fn(&[u8]) -> Result<SealedBiscuit, String>,
    D: Fn(&[u8]) -> Result<Block, String>,
>(
    token: Biscuit,
    secret: &[u8],
    from_token: T,
    encode: E,
    load: L,
    decode: D,
    sealed: Vec<u8>,
    slice: &[u8],
    read: Result<Biscuit, String>,
)
    requires
        token@.wf(),
        sealed_decodes(from_token, encode, load, decode, token, secret),
        call_ensures(
            Biscuit::seal::<T, E>,
            (&token, secret, from_token, encode),
            sealed,
        ),
        slice@ == sealed@,
        call_ensures(Biscuit::from_sealed::<L, D>, (slice, load, decode), read),
    ensures
        token_result(read) == Ok::<_, Seq<char>>(TokenModel { container: None, ..token@ }),
{
    let loaded = choose|loaded: Result<SealedBiscuit, String>| #[trigger]
        call_ensures(load, (slice,), loaded) && match loaded {
            Err(e) => token_result(read) == Err::<TokenModel, _>(e@),
            Ok(c) => read_outcome(
                decode,
                c@.authority,
                c@.blocks,
                None,
                token_result(read),
            ),
        };
    let container = loaded->Ok_0@;
    law_reading_back(
        decode,
        token@,
        container.authority,
        container.blocks,
        None,
        token_result(read),
    );
}

/// Reading a sealed token gives that token: `from_sealed` on the bytes of `seal` succeeds, with the
/// same authority block, blocks and strings, and the result has no signed form to write.
pub proof fn law_seal_read<
    T: Fn(&Biscuit, &[u8]) -> SealedBiscuit,
    E: Fn(&SealedBiscuit) -> Vec<u8>,
    L: Fn(&[u8]) -> Result<SealedBiscuit, String>,
    D: Fn(&[u8]) -> Result<Block, String>,
    W: Fn(&SerializedBiscuit) -> Vec<u8>,
>(
    token: Biscuit,
    secret: &[u8],
    from_token: T,
    encode: E,
    load: L,
    decode: D,
    sealed: Vec<u8>,
    slice: &[u8],
    read: Result<Biscuit, String>,
    write: W,
)
    requires
        token@.wf(),
        sealed_decodes(from_token, encode, load, decode, token, secret),
        call_ensures(
            Biscuit::seal::<T, E>,
            (&token, secret, from_token, encode),
            sealed,
        ),
        slice@ == sealed@,
        call_ensures(Biscuit::from_sealed::<L, D>, (slice, load, decode), read),
    ensures
        read is Ok,
        read->Ok_0@.authority == token@.authority,
        read->Ok_0@.blocks == token@.blocks,
        read->Ok_0@.symbols == token@.symbols,
        read->Ok_0@.container is None,
        forall|written: Option<Vec<u8>>| #[trigger]
            call_ensures(Biscuit::to_vec::<W>, (&read->Ok_0, write), written) ==> written is None,
{
    lemma_seal_read(token, secret, from_token, encode, load, decode, sealed, slice, read);
}

/// Reading back any token that was made by `new` and any number of `append`s, and then sealed,
/// where sealing puts its blocks into the container and loading gives back what was written:
/// `from_sealed` on the bytes of `seal` succeeds, with the blocks that the token was built of and
/// with the same strings, and without a signed form.
pub proof fn law_built_seal_read<
    N: Fn(&Block) -> SerializedBiscuit,
    S: Fn(&SerializedBiscuit, &Block) -> SerializedBiscuit,
    T: Fn(&Biscuit, &[u8]) -> SealedBiscuit,
    E: Fn(&SealedBiscuit) -> Vec<u8>,
    L: Fn(&[u8]) -> Result<SealedBiscuit, String>,
    D: Fn(&[u8]) -> Result<Block, String>,
>(
    authority: Block,
    sign: N,
    blocks: Seq<Block>,
    signs: Seq<S>,
    tokens: Seq<Biscuit>,
    secret: &[u8],
    from_token: T,
    encode: E,
    load: L,
    decode: D,
    sealed: Vec<u8>,
    slice: &[u8],
    read: Result<Biscuit, String>,
)
    requires
        built(authority, sign, blocks, signs, tokens),
        forall|c: SealedBiscuit| #[trigger]
            call_ensures(from_token, (&tokens.last(), secret), c) ==> decodes_to(
                decode,
                c@,
                tokens.last()@,
            ),
        loads_sealed_back(encode, load),
        call_ensures(
            Biscuit::seal::<T, E>,
            (&tokens.last(), secret, from_token, encode),
            sealed,
        ),
        slice@ == sealed@,
        call_ensures(Biscuit::from_sealed::<L, D>, (slice, load, decode), read),
    ensures
        read is Ok,
        read->Ok_0@.authority == authority@,
        read->Ok_0@.blocks == views(blocks),
        read->Ok_0@.symbols == tokens.last()@.symbols,
        read->Ok_0@.container is None,
{
    let token = tokens.last();
    law_built_well_formed(authority, sign, blocks, signs, tokens);
    assert(sealed_decodes(from_token, encode, load, decode, token, secret));
    lemma_seal_read(token, secret, from_token, encode, load, decode, sealed, slice, read);
}

/// Decoding the same bytes always gives the same.
pub open spec fn decodes_once<D: Fn(&[u8]) -> Result<Block, String>>(decode: D) -> bool {
    forall|bytes: Seq<u8>, a: Decoded, b: Decoded| #[trigger]
        may_decode(decode, bytes, a) && #[trigger] may_decode(decode, bytes, b) ==> a == b
}

/// Decoded blocks without a fault were decoded, each with its place as its index.
proof fn lemma_faultless(blocks: Seq<Decoded>)
    requires
        first_fault(blocks) is None,
    ensures
        forall|i: int|
            0 <= i < blocks.len() ==> (#[trigger] blocks[i]) is Ok && blocks[i]->Ok_0.index == i
                + 1,
    decreases blocks.len(),
{
    if blocks.len() > 0 {
        lemma_faultless(blocks.drop_last());
        assert forall|i: int| 0 <= i < blocks.len() implies (#[trigger] blocks[i]) is Ok
            && blocks[i]->Ok_0.index == i + 1 by {
            if i < blocks.len() - 1 {
                assert(blocks.drop_last()[i] == blocks[i]);
            }
        }
    }
}

/// The same bytes are the same token, signed or sealed: where `from` reads a token, `from_sealed`
/// reads one with the same authority block, blocks and strings from a sealed container with the
/// same bytes, where decoding the same bytes always gives the same. Only the one has a signed form.
pub proof fn law_signed_and_sealed_read_alike<
    L: Fn(&[u8]) -> Result<SerializedBiscuit, String>,
    M: Fn(&[u8]) -> Result<SealedBiscuit, String>,
    D: Fn(&[u8]) -> Result<Block, String>,
>(
    slice: &[u8],
    load: L,
    sealed_slice: &[u8],
    load_sealed: M,
    decode: D,
    signed: Biscuit,
    read: Result<Biscuit, String>,
)
    requires
        decodes_once(decode),
        forall|a: Result<SerializedBiscuit, String>, b: Result<SealedBiscuit, String>| #[trigger]
            call_ensures(load, (slice,), a) && a is Ok && #[trigger] call_ensures(
                load_sealed,
                (sealed_slice,),
                b,
            ) ==> b is Ok && b->Ok_0@.authority == a->Ok_0@.authority && b->Ok_0@.blocks
                == a->Ok_0@.blocks,
        call_ensures(
            Biscuit::from::<L, D>,
            (slice, load, decode),
            Ok::<Biscuit, String>(signed),
        ),
        call_ensures(Biscuit::from_sealed::<M, D>, (sealed_slice, load_sealed, decode), read),
    ensures
        read is Ok,
        read->Ok_0@.authority == signed@.authority,
        read->Ok_0@.blocks == signed@.blocks,
        read->Ok_0@.symbols == signed@.symbols,
        signed@.container is Some,
        read->Ok_0@.container is None,
{
    let first = token_result(Ok(signed));
    let a = choose|a: Result<SerializedBiscuit, String>| #[trigger]
        call_ensures(load, (slice,), a) && match a {
            Err(e) => first == Err::<TokenModel, _>(e@),
            Ok(c) => read_outcome(decode, c@.authority, c@.blocks, Some(c@), first),
        };
    let b = choose|b: Result<SealedBiscuit, String>| #[trigger]
        call_ensures(load_sealed, (sealed_slice,), b) && match b {
            Err(e) => token_result(read) == Err::<TokenModel, _>(e@),
            Ok(c) => read_outcome(
                decode,
                c@.authority,
                c@.blocks,
                None,
                token_result(read),
            ),
        };
    let c = a->Ok_0@;
    let (authority, blocks) = choose|authority: Decoded, blocks: Seq<Decoded>|
        {
            &&& #[trigger] may_decode_all(decode, c.authority, c.blocks, authority, blocks)
            &&& first == assembled(authority, blocks, Some(c))
            &&& first is Ok ==> blocks.len() == c.blocks.len()
        };
    lemma_faultless(blocks);
    law_reading_back(decode, signed@, c.authority, c.blocks, None, token_result(read));
}

/// A reread token is checked alike: where a token has the blocks and strings of another, whatever
/// its signed form, both pass or both fail a check with the same facts, rules and caveats if the
/// engine decides once, with the same messages if it also writes in one way.
pub proof fn law_reread_checks_alike<R, Q, F, P>(
    token: Biscuit,
    reread: Biscuit,
    facts: Vec<Fact>,
    rules: Vec<Rule>,
    caveats: Vec<Rule>,
    same_facts: Vec<Fact>,
    same_rules: Vec<Rule>,
    same_caveats: Vec<Rule>,
    engine: Engine<R, Q, F, P>,
    before: Result<(), Vec<String>>,
    after: Result<(), Vec<String>>,
) where
    R: Fn(World) -> World,
    Q: Fn(&World, &Rule) -> Vec<Fact>,
    F: Fn(&SymbolTable, &Fact) -> String,
    P: Fn(&SymbolTable, &Rule) -> String,

    requires
        reread@ == (TokenModel { container: reread@.container, ..token@ }),
        views(same_facts@) == views(facts@),
        views(same_rules@) == views(rules@),
        views(same_caveats@) == views(caveats@),
        call_ensures(
            Biscuit::check::<R, Q, F, P>,
            (&token, facts, rules, caveats, &engine),
            before,
        ),
        call_ensures(
            Biscuit::check::<R, Q, F, P>,
            (&reread, same_facts, same_rules, same_caveats, &engine),
            after,
        ),
    ensures
        decides_once(engine.answers()) ==> (before is Ok) == (after is Ok),
        single_valued(engine.answers()) ==> messages_of(before) == messages_of(after),
{
    law_sealing_keeps_checks(
        engine.answers(),
        token@,
        reread@.container,
        views(facts@),
        views(rules@),
        views(caveats@),
        messages_of(after),
    );
    if decides_once(engine.answers()) {
        law_pass_determined(
            engine.answers(),
            token@,
            views(facts@),
            views(rules@),
            views(caveats@),
            messages_of(before),
            messages_of(after),
        );
    }
    if single_valued(engine.answers()) {
        law_check_determined(
            engine.answers(),
            token@,
            views(facts@),
            views(rules@),
            views(caveats@),
            messages_of(before),
            messages_of(after),
        );
    }
}

/// A token passes and fails alike before it is sealed and after it has been read back: `check` on
/// what `from_sealed` gives of the bytes of `seal` returns `Ok` where `check` on the token does if
/// the engine decides once, and returns the same messages if it also writes in one way.
pub proof fn law_seal_read_check<
    T: Fn(&Biscuit, &[u8]) -> SealedBiscuit,
    E: Fn(&SealedBiscuit) -> Vec<u8>,
    L: Fn(&[u8]) -> Result<SealedBiscuit, String>,
    D: Fn(&[u8]) -> Result<Block, String>,
    R,
    Q,
    F,
    P,
>(
    token: Biscuit,
    secret: &[u8],
    from_token: T,
    encode: E,
    load: L,
    decode: D,
    sealed: Vec<u8>,
    slice: &[u8],
    reread: Biscuit,
    facts: Vec<Fact>,
    rules: Vec<Rule>,
    caveats: Vec<Rule>,
    same_facts: Vec<Fact>,
    same_rules: Vec<Rule>,
    same_caveats: Vec<Rule>,
    engine: Engine<R, Q, F, P>,
    before: Result<(), Vec<String>>,
    after: Result<(), Vec<String>>,
) where
    R: Fn(World) -> World,
    Q: Fn(&World, &Rule) -> Vec<Fact>,
    F: Fn(&SymbolTable, &Fact) -> String,
    P: Fn(&SymbolTable, &Rule) -> String,

    requires
        token@.wf(),
        sealed_decodes(from_token, encode, load, decode, token, secret),
        call_ensures(
            Biscuit::seal::<T, E>,
            (&token, secret, from_token, encode),
            sealed,
        ),
        slice@ == sealed@,
        call_ensures(
            Biscuit::from_sealed::<L, D>,
            (slice, load, decode),
            Ok::<Biscuit, String>(reread),
        ),
        views(same_facts@) == views(facts@),
        views(same_rules@) == views(rules@),
        views(same_caveats@) == views(caveats@),
        call_ensures(
            Biscuit::check::<R, Q, F, P>,
            (&token, facts, rules, caveats, &engine),
            before,
        ),
        call_ensures(
            Biscuit::check::<R, Q, F, P>,
            (&reread, same_facts, same_rules, same_caveats, &engine),
            after,
        ),
    ensures
        decides_once(engine.answers()) ==> (before is Ok) == (after is Ok),
        single_valued(engine.answers()) ==> messages_of(before) == messages_of(after),
{
    lemma_seal_read(token, secret, from_token, encode, load, decode, sealed, slice, Ok(reread));
    law_reread_checks_alike(
        token,
        reread,
        facts,
        rules,
        caveats,
        same_facts,
        same_rules,
        same_caveats,
        engine,
        before,
        after,
    );
}

/// Blocks only restrict, over the calls: where `append` gave a longer token and `check` returned
/// `Ok` for it, `check` returns `Ok` for the shorter one, where the engine decides once.
pub proof fn law_append_restricts_check<S, R, Q, F, P>(
    token: Biscuit,
    block: Block,
    sign: S,
    longer: Biscuit,
    facts: Vec<Fact>,
    rules: Vec<Rule>,
    caveats: Vec<Rule>,
    same_facts: Vec<Fact>,
    same_rules: Vec<Rule>,
    same_caveats: Vec<Rule>,
    engine: Engine<R, Q, F, P>,
    result: Result<(), Vec<String>>,
) where
    S: Fn(&SerializedBiscuit, &Block) -> SerializedBiscuit,
    R: Fn(World) -> World,
    Q: Fn(&World, &Rule) -> Vec<Fact>,
    F: Fn(&SymbolTable, &Fact) -> String,
    P: Fn(&SymbolTable, &Rule) -> String,

    requires
        token@.wf(),
        decides_once(engine.answers()),
        call_ensures(Biscuit::append::<S>, (&token, block, sign), Ok::<Biscuit, String>(longer)),
        views(same_facts@) == views(facts@),
        views(same_rules@) == views(rules@),
        views(same_caveats@) == views(caveats@),
        call_ensures(
            Biscuit::check::<R, Q, F, P>,
            (&longer, facts, rules, caveats, &engine),
            Ok::<(), Vec<String>>(()),
        ),
        call_ensures(
            Biscuit::check::<R, Q, F, P>,
            (&token, same_facts, same_rules, same_caveats, &engine),
            result,
        ),
    ensures
        result is Ok,
{
    assert(token_result(Ok(longer)) == Ok::<_, Seq<char>>(longer@));
    assert(messages_of(Ok(())) =~= Seq::empty());
    law_append_restricts(
        engine.answers(),
        token@,
        block@,
        longer@.container->Some_0,
        views(facts@),
        views(rules@),
        views(caveats@),
    );
    law_pass_determined(
        engine.answers(),
        token@,
        views(facts@),
        views(rules@),
        views(caveats@),
        Seq::empty(),
        messages_of(result),
    );
}

} // verus!
