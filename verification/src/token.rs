//! Tokens: an authority block, the blocks appended to it, and the strings they share.
use vstd::prelude::*;

use crate::block::{Block, BlockModel};
use crate::symbols::{default_symbol_table, default_symbols, disjoint, SymbolTable};
use crate::terms::{copy_all, views};
use crate::text::{decimal, decimal_text};

verus! {

/// The blocks of a token in encoded form, signed with the keys of those who added them.
#[derive(Debug, PartialEq, Eq)]
pub struct SerializedBiscuit {
    pub authority: Vec<u8>,
    pub blocks: Vec<Vec<u8>>,
    /// The keys and the signature over the blocks, in the encoding of the signing code.
    pub signature: Vec<u8>,
}

/// The blocks of a token in encoded form, authenticated with a shared secret.
#[derive(Debug, PartialEq, Eq)]
pub struct SealedBiscuit {
    pub authority: Vec<u8>,
    pub blocks: Vec<Vec<u8>>,
    /// The code that authenticates the blocks.
    pub signature: Vec<u8>,
}

/// The model of a [`SerializedBiscuit`] or a [`SealedBiscuit`].
#[verifier::ext_equal]
pub struct ContainerModel {
    pub authority: Seq<u8>,
    pub blocks: Seq<Seq<u8>>,
    pub signature: Seq<u8>,
}

impl View for SerializedBiscuit {
    type V = ContainerModel;

    open spec fn view(&self) -> ContainerModel {
        ContainerModel {
            authority: self.authority@,
            blocks: views(self.blocks@),
            signature: self.signature@,
        }
    }
}

impl View for SealedBiscuit {
    type V = ContainerModel;

    open spec fn view(&self) -> ContainerModel {
        ContainerModel {
            authority: self.authority@,
            blocks: views(self.blocks@),
            signature: self.signature@,
        }
    }
}

/// Copies bytes.
fn copy_bytes(v: &Vec<u8>) -> (r: Vec<u8>)
    ensures
        r@ == v@,
{
    let r = v.clone();
    assert(r@ =~= v@);
    r
}

impl Clone for SerializedBiscuit {
    fn clone(&self) -> (r: Self)
        ensures
            r@ == self@,
    {
        let mut blocks: Vec<Vec<u8>> = Vec::new();
        for k in 0..self.blocks.len()
            invariant
                blocks@.len() == k,
                forall|j: int| 0 <= j < k ==> (#[trigger] blocks@[j])@ == self.blocks@[j]@,
        {
            blocks.push(copy_bytes(&self.blocks[k]));
        }
        assert(views(blocks@) =~= views(self.blocks@));
        SerializedBiscuit {
            authority: copy_bytes(&self.authority),
            blocks,
            signature: copy_bytes(&self.signature),
        }
    }
}

/// Where a new block of a token starts: its index, and the strings it can refer to.
#[derive(Debug)]
pub struct BlockBuilder {
    pub index: u32,
    pub symbols: SymbolTable,
}

impl BlockBuilder {
    /// A builder for the block at `index` over `base_symbols`.
    pub fn new(index: u32, base_symbols: SymbolTable) -> (r: BlockBuilder)
        ensures
            r.index == index,
            r.symbols@ == base_symbols@,
    {
        BlockBuilder { index, symbols: base_symbols }
    }
}

/// A token.
#[derive(Debug)]
pub struct Biscuit {
    authority: Block,
    blocks: Vec<Block>,
    symbols: SymbolTable,
    container: Option<SerializedBiscuit>,
}

/// The model of a [`Biscuit`].
#[verifier::ext_equal]
pub struct TokenModel {
    pub authority: BlockModel,
    pub blocks: Seq<BlockModel>,
    pub symbols: Seq<Seq<char>>,
    /// The signed form; a sealed token has none.
    pub container: Option<ContainerModel>,
}

impl View for Biscuit {
    type V = TokenModel;

    closed spec fn view(&self) -> TokenModel {
        TokenModel {
            authority: self.authority@,
            blocks: views(self.blocks@),
            symbols: self.symbols@,
            container: match self.container {
                Some(c) => Some(c@),
                None => None,
            },
        }
    }
}

/// The strings that blocks add, in order.
pub open spec fn added_symbols(blocks: Seq<BlockModel>) -> Seq<Seq<char>>
    decreases blocks.len(),
{
    if blocks.len() == 0 {
        Seq::empty()
    } else {
        added_symbols(blocks.drop_last()) + blocks.last().symbols
    }
}

/// The strings of a token with these blocks: the default ones, then those of each block.
pub open spec fn token_symbols(authority: BlockModel, blocks: Seq<BlockModel>) -> Seq<Seq<char>> {
    default_symbols() + authority.symbols + added_symbols(blocks)
}

impl TokenModel {
    /// Each block has its place as its index, and the strings are those of the blocks.
    pub open spec fn wf(self) -> bool {
        &&& self.authority.index == 0
        &&& forall|i: int| 0 <= i < self.blocks.len() ==> (#[trigger] self.blocks[i]).index == i + 1
        &&& self.symbols == token_symbols(self.authority, self.blocks)
    }

    /// The token with one more block, in a new signed form.
    pub open spec fn with_block(self, block: BlockModel, container: ContainerModel) -> TokenModel {
        TokenModel {
            authority: self.authority,
            blocks: self.blocks.push(block),
            symbols: self.symbols + block.symbols,
            container: Some(container),
        }
    }
}

/// The token that is made of these blocks.
pub open spec fn token_of(
    authority: BlockModel,
    blocks: Seq<BlockModel>,
    container: Option<ContainerModel>,
) -> TokenModel {
    TokenModel { authority, blocks, symbols: token_symbols(authority, blocks), container }
}

/// Why a block cannot be the authority block of a new token, if it cannot.
pub open spec fn authority_fault(block: BlockModel) -> Option<Seq<char>> {
    if !disjoint(default_symbols(), block.symbols) {
        Some("symbol tables should have no overlap"@)
    } else if block.index != 0 {
        Some("invalid block index"@)
    } else {
        None
    }
}

/// Why a block cannot be appended to a token, if it cannot.
pub open spec fn append_fault(token: TokenModel, block: BlockModel) -> Option<Seq<char>> {
    if token.container is None {
        Some("cannot append a bock to a sealed token"@)
    } else if !disjoint(token.symbols, block.symbols) {
        Some("symbol tables should have no overlap"@)
    } else if block.index != 1 + token.blocks.len() {
        Some("invalid block index"@)
    } else {
        None
    }
}

/// A decoded block, or the text of the error that decoding it gave.
pub type Decoded = Result<BlockModel, Seq<char>>;

/// The model of what a decoder returns.
pub open spec fn decoded_model(r: Result<Block, String>) -> Decoded {
    match r {
        Ok(b) => Ok(b@),
        Err(e) => Err(e@),
    }
}

/// Decoding these bytes may give this result.
pub open spec fn may_decode<D: Fn(&[u8]) -> Result<Block, String>>(
    decode: D,
    bytes: Seq<u8>,
    out: Decoded,
) -> bool {
    exists|s: &[u8], r: Result<Block, String>|
        s@ == bytes && decoded_model(r) == out && #[trigger] call_ensures(decode, (s,), r)
}

/// Why what was decoded at place `i` cannot be the block after `i` others, if it cannot.
pub open spec fn block_fault(block: Decoded, i: nat) -> Option<Seq<char>> {
    match block {
        Err(e) => Some("error deserializing block: "@ + e),
        Ok(b) => if b.index != i + 1 {
            Some("invalid index "@ + decimal(b.index as nat) + " for block n°"@ + decimal(i + 1))
        } else {
            None
        },
    }
}

/// The first fault among decoded blocks.
pub open spec fn first_fault(blocks: Seq<Decoded>) -> Option<Seq<char>>
    decreases blocks.len(),
{
    if blocks.len() == 0 {
        None
    } else {
        match first_fault(blocks.drop_last()) {
            Some(m) => Some(m),
            None => block_fault(blocks.last(), (blocks.len() - 1) as nat),
        }
    }
}

/// Why what was decoded cannot be an authority block, if it cannot.
pub open spec fn decoded_authority_fault(authority: Decoded) -> Option<Seq<char>> {
    match authority {
        Err(e) => Some("error deserializing authority block: "@ + e),
        Ok(b) => if b.index != 0 {
            Some("authority block should have index 0"@)
        } else {
            None
        },
    }
}

/// The token that decoded blocks make, or the first fault among them.
pub open spec fn assembled(
    authority: Decoded,
    blocks: Seq<Decoded>,
    container: Option<ContainerModel>,
) -> Result<TokenModel, Seq<char>> {
    match decoded_authority_fault(authority) {
        Some(m) => Err(m),
        None => match first_fault(blocks) {
            Some(m) => Err(m),
            None => Ok(
                token_of(authority->Ok_0, blocks.map_values(|d: Decoded| d->Ok_0), container),
            ),
        },
    }
}

/// Decoding an authority block, and after it the first of these blocks, may give these results.
pub open spec fn may_decode_all<D: Fn(&[u8]) -> Result<Block, String>>(
    decode: D,
    authority: Seq<u8>,
    blocks: Seq<Seq<u8>>,
    a: Decoded,
    bs: Seq<Decoded>,
) -> bool {
    &&& may_decode(decode, authority, a)
    &&& bs.len() <= blocks.len()
    &&& forall|i: int| 0 <= i < bs.len() ==> may_decode(decode, blocks[i], #[trigger] bs[i])
}

/// Reading encoded blocks may give this result. Blocks are decoded in order, and none after the
/// first fault.
pub open spec fn read_outcome<D: Fn(&[u8]) -> Result<Block, String>>(
    decode: D,
    authority: Seq<u8>,
    blocks: Seq<Seq<u8>>,
    container: Option<ContainerModel>,
    out: Result<TokenModel, Seq<char>>,
) -> bool {
    exists|a: Decoded, bs: Seq<Decoded>|
        {
            &&& #[trigger] may_decode_all(decode, authority, blocks, a, bs)
            &&& out == assembled(a, bs, container)
            &&& out is Ok ==> bs.len() == blocks.len()
        }
}

/// The model of a result that holds a token.
pub open spec fn token_result(r: Result<Biscuit, String>) -> Result<TokenModel, Seq<char>> {
    match r {
        Ok(t) => Ok(t@),
        Err(e) => Err(e@),
    }
}

impl Clone for Biscuit {
    fn clone(&self) -> (r: Self)
        ensures
            r@ == self@,
    {
        proof {
            use_type_invariant(self);
        }
        let authority = self.authority.clone();
        let blocks = copy_all(&self.blocks);
        let symbols = self.symbols.clone();
        let container = match &self.container {
            Some(c) => Some(c.clone()),
            None => None,
        };
        Biscuit { authority, blocks, symbols, container }
    }
}

/// Takes what was decoded as an authority block.
pub fn accept_authority(decoded: Result<Block, String>) -> (r: Result<Block, String>)
    ensures
        match decoded_authority_fault(decoded_model(decoded)) {
            Some(m) => decoded_model(r) == Err::<BlockModel, _>(m),
            None => r == decoded && r is Ok,
        },
{
    match decoded {
        Err(e) => {
            let mut m = "error deserializing authority block: ".to_owned();
            m.append(e.as_str());
            Err(m)
        },
        Ok(b) => if b.index != 0 {
            Err("authority block should have index 0".to_owned())
        } else {
            Ok(b)
        },
    }
}

/// Takes what was decoded as the block after `i` others.
pub fn accept_block(decoded: Result<Block, String>, i: usize) -> (r: Result<Block, String>)
    requires
        i < usize::MAX,
    ensures
        match block_fault(decoded_model(decoded), i as nat) {
            Some(m) => decoded_model(r) == Err::<BlockModel, _>(m),
            None => r == decoded && r is Ok,
        },
{
    match decoded {
        Err(e) => {
            let mut m = "error deserializing block: ".to_owned();
            m.append(e.as_str());
            Err(m)
        },
        Ok(b) => {
            let place: u64 = i as u64 + 1;
            if b.index as u64 != place {
                let mut m = "invalid index ".to_owned();
                m.append(decimal_text(b.index as u64).as_str());
                m.append(" for block n°");
                m.append(decimal_text(place).as_str());
                Err(m)
            } else {
                Ok(b)
            }
        },
    }
}

/// Signing this block as the authority block of a token may give this container.
pub open spec fn may_sign<S: Fn(&Block) -> SerializedBiscuit>(
    sign: S,
    block: BlockModel,
    out: ContainerModel,
) -> bool {
    exists|b: Block, c: SerializedBiscuit|
        b@ == block && c@ == out && #[trigger] call_ensures(sign, (&b,), c)
}

/// Signing this block after the blocks of a container may give this container.
pub open spec fn may_sign_next<S: Fn(&SerializedBiscuit, &Block) -> SerializedBiscuit>(
    sign: S,
    container: ContainerModel,
    block: BlockModel,
    out: ContainerModel,
) -> bool {
    exists|c: SerializedBiscuit, b: Block, d: SerializedBiscuit|
        c@ == container && b@ == block && d@ == out && #[trigger] call_ensures(sign, (&c, &b), d)
}

/// Encoding this container may give these bytes.
pub open spec fn may_encode<E: Fn(&SerializedBiscuit) -> Vec<u8>>(
    encode: E,
    container: ContainerModel,
    out: Seq<u8>,
) -> bool {
    exists|c: SerializedBiscuit, v: Vec<u8>|
        c@ == container && v@ == out && #[trigger] call_ensures(encode, (&c,), v)
}

impl Biscuit {
    /// The token is well formed.
    #[verifier::type_invariant]
    spec fn well_formed(self) -> bool {
        self@.wf()
    }

    /// The authority block.
    pub fn authority(&self) -> (r: &Block)
        ensures
            r@ == self@.authority,
            self@.wf(),
    {
        proof {
            use_type_invariant(self);
        }
        &self.authority
    }

    /// The blocks after the authority block.
    pub fn blocks(&self) -> (r: &Vec<Block>)
        ensures
            views(r@) == self@.blocks,
            self@.wf(),
    {
        proof {
            use_type_invariant(self);
        }
        &self.blocks
    }

    /// The strings that the blocks refer to.
    pub fn symbols(&self) -> (r: &SymbolTable)
        ensures
            r@ == self@.symbols,
            self@.wf(),
    {
        proof {
            use_type_invariant(self);
        }
        &self.symbols
    }

    /// Decodes the blocks of a container and makes a token of them.
    fn read<D: Fn(&[u8]) -> Result<Block, String>>(
        authority: &Vec<u8>,
        blocks: &Vec<Vec<u8>>,
        decode: &D,
    ) -> (r: Result<Biscuit, String>)
        requires
            forall|s: &[u8]| #[trigger] call_requires(*decode, (s,)),
        ensures
            read_outcome(*decode, authority@, views(blocks@), None, token_result(r)),
    {
        let ghost none: Option<ContainerModel> = None;
        let first = (*decode)(authority.as_slice());
        let ghost a = decoded_model(first);
        assert(may_decode(*decode, authority@, a));
        let first = match accept_authority(first) {
            Ok(b) => b,
            Err(m) => {
                assert(may_decode_all(*decode, authority@, views(blocks@), a, Seq::empty()));
                assert(assembled(a, Seq::empty(), none) == Err::<TokenModel, _>(m@));
                return Err(m);
            },
        };
        let mut read: Vec<Block> = Vec::new();
        let ghost mut bs: Seq<Decoded> = Seq::empty();
        let mut symbols = default_symbol_table();
        symbols.extend(&first.symbols);
        for k in 0..blocks.len()
            invariant
                forall|s: &[u8]| #[trigger] call_requires(*decode, (s,)),
                may_decode(*decode, authority@, a),
                a == Ok::<BlockModel, Seq<char>>(first@),
                first@.index == 0,
                read@.len() == k,
                bs.len() == k,
                forall|i: int|
                    0 <= i < k ==> may_decode(*decode, views(blocks@)[i], #[trigger] bs[i]),
                forall|i: int| 0 <= i < k ==> #[trigger] bs[i] == Ok::<BlockModel, Seq<char>>(read@[i]@),
                forall|i: int| 0 <= i < k ==> (#[trigger] read@[i])@.index == i + 1,
                first_fault(bs) is None,
                none is None,
        {
            let next = (*decode)(blocks[k].as_slice());
            let ghost d = decoded_model(next);
            assert(may_decode(*decode, views(blocks@)[k as int], d));
            let ghost more = bs.push(d);
            assert(more.drop_last() =~= bs);
            assert(may_decode_all(*decode, authority@, views(blocks@), a, more));
            let next = match accept_block(next, k) {
                Ok(b) => b,
                Err(m) => {
                    assert(assembled(a, more, none) == Err::<TokenModel, _>(m@));
                    return Err(m);
                },
            };
            read.push(next);
            proof {
                bs = more;
            }
        }
        assert(bs.map_values(|d: Decoded| d->Ok_0) =~= views(read@));
        for k in 0..read.len()
            invariant
                symbols@ == default_symbols() + first@.symbols + added_symbols(
                    views(read@).take(k as int),
                ),
        {
            symbols.extend(&read[k].symbols);
            assert(views(read@).take(k + 1).drop_last() =~= views(read@).take(k as int));
            assert(views(read@).take(k + 1).last() == read@[k as int]@);
            assert(symbols@ =~= default_symbols() + first@.symbols + added_symbols(
                views(read@).take(k + 1),
            ));
        }
        assert(views(read@).take(read@.len() as int) =~= views(read@));
        let token = Biscuit { authority: first, blocks: read, symbols, container: None };
        assert(may_decode_all(*decode, authority@, views(blocks@), a, bs));
        assert(assembled(a, bs, none) == Ok::<_, Seq<char>>(token@));
        Ok(token)
    }

    /// A token with this authority block, signed by `sign`.
    pub fn new<S: Fn(&Block) -> SerializedBiscuit>(authority: &Block, sign: S) -> (r: Result<
        Biscuit,
        String,
    >)
        requires
            forall|b: Block| #[trigger] call_requires(sign, (&b,)),
        ensures
            match authority_fault(authority@) {
                Some(m) => token_result(r) == Err::<TokenModel, _>(m),
                None => exists|c: ContainerModel| #[trigger]
                    may_sign(sign, authority@, c) && token_result(r) == Ok::<_, Seq<char>>(
                        token_of(authority@, Seq::empty(), Some(c)),
                    ),
            },
    {
        let mut symbols = default_symbol_table();
        if !symbols.is_disjoint(&authority.symbols) {
            return Err("symbol tables should have no overlap".to_owned());
        }
        if authority.index != 0 {
            return Err("invalid block index".to_owned());
        }
        symbols.extend(&authority.symbols);
        let blocks: Vec<Block> = Vec::new();
        let container = sign(authority);
        let ghost c = container@;
        assert(may_sign(sign, authority@, c));
        assert(views(blocks@) =~= Seq::empty());
        assert(symbols@ =~= token_symbols(authority@, Seq::empty()));
        let token = Biscuit {
            authority: authority.clone(),
            blocks,
            symbols,
            container: Some(container),
        };
        assert(token@ =~= token_of(authority@, Seq::empty(), Some(c)));
        Ok(token)
    }

    /// Reads a signed token: `load` checks the signature and takes the container out of `slice`,
    /// and `decode` decodes each of its blocks.
    pub fn from<
        L: Fn(&[u8]) -> Result<SerializedBiscuit, String>,
        D: Fn(&[u8]) -> Result<Block, String>,
    >(slice: &[u8], load: L, decode: D) -> (r: Result<Biscuit, String>)
        requires
            call_requires(load, (slice,)),
            forall|s: &[u8]| #[trigger] call_requires(decode, (s,)),
        ensures
            exists|loaded: Result<SerializedBiscuit, String>| #[trigger]
                call_ensures(load, (slice,), loaded) && match loaded {
                    Err(e) => token_result(r) == Err::<TokenModel, _>(e@),
                    Ok(c) => read_outcome(
                        decode,
                        c@.authority,
                        c@.blocks,
                        Some(c@),
                        token_result(r),
                    ),
                },
    {
        let container = match load(slice) {
            Ok(c) => c,
            Err(e) => {
                return Err(e);
            },
        };
        let ghost c = container@;
        let ghost loaded = Ok::<SerializedBiscuit, String>(container);
        assert(call_ensures(load, (slice,), loaded));
        match Biscuit::read(&container.authority, &container.blocks, &decode) {
            Err(e) => {
                proof {
                    lemma_read_keeps_container(
                        decode,
                        c.authority,
                        c.blocks,
                        Some(c),
                        Err::<TokenModel, _>(e@),
                    );
                }
                Err(e)
            },
            Ok(token) => {
                proof {
                    lemma_read_keeps_container(
                        decode,
                        c.authority,
                        c.blocks,
                        Some(c),
                        Ok::<_, Seq<char>>(token@),
                    );
                    use_type_invariant(&token);
                }
                let Biscuit { authority, blocks, symbols, container: _ } = token;
                let token = Biscuit { authority, blocks, symbols, container: Some(container) };
                Ok(token)
            },
        }
    }

    /// Reads a sealed token: `load` checks it against the secret and takes the container out of
    /// `slice`, and `decode` decodes each of its blocks.
    pub fn from_sealed<
        L: Fn(&[u8]) -> Result<SealedBiscuit, String>,
        D: Fn(&[u8]) -> Result<Block, String>,
    >(slice: &[u8], load: L, decode: D) -> (r: Result<Biscuit, String>)
        requires
            call_requires(load, (slice,)),
            forall|s: &[u8]| #[trigger] call_requires(decode, (s,)),
        ensures
            exists|loaded: Result<SealedBiscuit, String>| #[trigger]
                call_ensures(load, (slice,), loaded) && match loaded {
                    Err(e) => token_result(r) == Err::<TokenModel, _>(e@),
                    Ok(c) => read_outcome(
                        decode,
                        c@.authority,
                        c@.blocks,
                        None,
                        token_result(r),
                    ),
                },
    {
        let container = match load(slice) {
            Ok(c) => c,
            Err(e) => {
                return Err(e);
            },
        };
        let ghost loaded = Ok::<SealedBiscuit, String>(container);
        assert(call_ensures(load, (slice,), loaded));
        Biscuit::read(&container.authority, &container.blocks, &decode)
    }

    /// The signed form of the token, in the encoding of `encode`. A sealed token has none.
    pub fn to_vec<E: Fn(&SerializedBiscuit) -> Vec<u8>>(&self, encode: E) -> (r: Option<Vec<u8>>)
        requires
            forall|c: SerializedBiscuit| #[trigger] call_requires(encode, (&c,)),
        ensures
            match self@.container {
                None => r is None,
                Some(c) => r is Some && may_encode(encode, c, r->Some_0@),
            },
    {
        match &self.container {
            None => None,
            Some(c) => {
                let v = encode(c);
                assert(may_encode(encode, c@, v@));
                Some(v)
            },
        }
    }

    /// The token sealed with a secret: `from_token` authenticates its blocks, and `encode` encodes
    /// what it makes of them.
    pub fn seal<
        T: Fn(&Biscuit, &[u8]) -> SealedBiscuit,
        E: Fn(&SealedBiscuit) -> Vec<u8>,
    >(&self, secret: &[u8], from_token: T, encode: E) -> (r: Vec<u8>)
        requires
            call_requires(from_token, (self, secret)),
            forall|c: SealedBiscuit| #[trigger] call_requires(encode, (&c,)),
        ensures
            exists|sealed: SealedBiscuit| #[trigger]
                call_ensures(from_token, (self, secret), sealed) && call_ensures(
                    encode,
                    (&sealed,),
                    r,
                ),
    {
        let sealed = from_token(self, secret);
        encode(&sealed)
    }

    /// Where the next block of the token starts.
    pub fn create_block(&self) -> (r: BlockBuilder)
        ensures
            r.index as int == (1 + self@.blocks.len()) % 0x1_0000_0000,
            r.symbols@ == self@.symbols,
            self@.wf(),
    {
        proof {
            use_type_invariant(self);
            if self@.blocks.len() > u32::MAX {
                assert(self@.blocks[u32::MAX as int].index == u32::MAX + 1);
            }
        }
        let len: u64 = self.blocks.len() as u64;
        BlockBuilder::new(((1 + len) % 0x1_0000_0000) as u32, self.symbols.clone())
    }

    /// The token with one more block, signed by `sign`.
    pub fn append<S: Fn(&SerializedBiscuit, &Block) -> SerializedBiscuit>(
        &self,
        block: Block,
        sign: S,
    ) -> (r: Result<Biscuit, String>)
        requires
            forall|c: SerializedBiscuit, b: Block| #[trigger] call_requires(sign, (&c, &b)),
        ensures
            match append_fault(self@, block@) {
                Some(m) => token_result(r) == Err::<TokenModel, _>(m),
                None => exists|c: ContainerModel| #[trigger]
                    may_sign_next(sign, self@.container->Some_0, block@, c) && token_result(r)
                        == Ok::<_, Seq<char>>(self@.with_block(block@, c)),
            },
    {
        proof {
            use_type_invariant(self);
        }
        let container = match &self.container {
            Some(c) => c,
            None => {
                return Err("cannot append a bock to a sealed token".to_owned());
            },
        };
        if !self.symbols.is_disjoint(&block.symbols) {
            return Err("symbol tables should have no overlap".to_owned());
        }
        if block.index == 0 || (block.index - 1) as u64 != self.blocks.len() as u64 {
            return Err("invalid block index".to_owned());
        }
        let authority = self.authority.clone();
        let mut blocks = copy_all(&self.blocks);
        let mut symbols = self.symbols.clone();
        let container = sign(container, &block);
        let ghost c = container@;
        let ghost b = block@;
        assert(may_sign_next(sign, self@.container->Some_0, b, c));
        symbols.extend(&block.symbols);
        let ghost before = views(blocks@);
        blocks.push(block);
        assert(views(blocks@) =~= before.push(b));
        assert(before.push(b).drop_last() =~= before);
        assert(symbols@ =~= token_symbols(authority@, views(blocks@)));
        let token = Biscuit { authority, blocks, symbols, container: Some(container) };
        assert(token@ =~= self@.with_block(b, c));
        Ok(token)
    }

    /// Takes the default strings off the front of the table of an authority block.
    pub fn adjust_authority_symbols(block: &mut Block)
        requires
            old(block)@.symbols.len() >= default_symbols().len(),
        ensures
            final(block)@ == (BlockModel {
                symbols: old(block)@.symbols.skip(default_symbols().len() as int),
                ..old(block)@
            }),
    {
        let base_symbols = default_symbol_table();
        let new_syms = block.symbols.symbols.split_off(base_symbols.symbols.len());
        block.symbols.symbols = new_syms;
        assert(block@.symbols =~= old(block)@.symbols.skip(default_symbols().len() as int));
    }

    /// Takes the strings of the token off the front of the table of a block.
    pub fn adjust_block_symbols(&self, block: &mut Block)
        requires
            old(block)@.symbols.len() >= self@.symbols.len(),
        ensures
            final(block)@ == (BlockModel {
                symbols: old(block)@.symbols.skip(self@.symbols.len() as int),
                ..old(block)@
            }),
    {
        let new_syms = block.symbols.symbols.split_off(self.symbols.symbols.len());
        block.symbols.symbols = new_syms;
        assert(block@.symbols =~= old(block)@.symbols.skip(self@.symbols.len() as int));
    }
}

/// What reading may give without a container, it may give with one, which the token then keeps.
proof fn lemma_read_keeps_container<D: Fn(&[u8]) -> Result<Block, String>>(
    decode: D,
    authority: Seq<u8>,
    blocks: Seq<Seq<u8>>,
    container: Option<ContainerModel>,
    out: Result<TokenModel, Seq<char>>,
)
    requires
        read_outcome(decode, authority, blocks, None, out),
    ensures
        read_outcome(
            decode,
            authority,
            blocks,
            container,
            match out {
                Ok(t) => Ok(TokenModel { container, ..t }),
                Err(e) => Err(e),
            },
        ),
{
    let (a, bs) = choose|a: Decoded, bs: Seq<Decoded>|
        {
            &&& #[trigger] may_decode_all(decode, authority, blocks, a, bs)
            &&& out == assembled(a, bs, None)
            &&& out is Ok ==> bs.len() == blocks.len()
        };
    let with = assembled(a, bs, container);
    assert(with == match out {
        Ok(t) => Ok::<_, Seq<char>>(TokenModel { container, ..t }),
        Err(e) => Err(e),
    });
}

} // verus!
