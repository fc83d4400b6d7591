//! Whole tokens, with a small Datalog engine, a toy signature and an encoding as CBOR.
use std::collections::{HashMap, HashSet};
use std::time::{Duration, SystemTime, UNIX_EPOCH};

use biscuit_poc::{
    default_symbol_table, Biscuit, Block, Constraint, ConstraintKind, Engine, Fact, Predicate,
    Rule, SealedBiscuit, SerializedBiscuit, SymbolTable, World, ID,
};

// ---- Datalog ----

type Bindings = HashMap<u32, ID>;

fn match_predicate(pattern: &Predicate, fact: &Predicate, known: &Bindings) -> Option<Bindings> {
    if pattern.name != fact.name || pattern.ids.len() != fact.ids.len() {
        return None;
    }
    let mut bound = known.clone();
    for (p, f) in pattern.ids.iter().zip(fact.ids.iter()) {
        match p {
            ID::Variable(v) => match bound.get(v) {
                Some(id) if id != f => return None,
                Some(_) => {}
                None => {
                    bound.insert(*v, f.clone());
                }
            },
            _ if p != f => return None,
            _ => {}
        }
    }
    Some(bound)
}

fn satisfies(c: &Constraint, bound: &Bindings) -> bool {
    match (&c.kind, bound.get(&c.id)) {
        (ConstraintKind::IntLower(n), Some(ID::Integer(i))) => i < n,
        (ConstraintKind::IntLarger(n), Some(ID::Integer(i))) => i > n,
        (ConstraintKind::IntEqual(n), Some(ID::Integer(i))) => i == n,
        (ConstraintKind::IntIn(s), Some(ID::Integer(i))) => s.contains(i),
        (ConstraintKind::IntNotIn(s), Some(ID::Integer(i))) => !s.contains(i),
        (ConstraintKind::StrPrefix(p), Some(ID::Str(s))) => s.starts_with(p.as_str()),
        (ConstraintKind::StrSuffix(p), Some(ID::Str(s))) => s.ends_with(p.as_str()),
        (ConstraintKind::StrEqual(p), Some(ID::Str(s))) => s == p,
        (ConstraintKind::StrIn(v), Some(ID::Str(s))) => v.contains(s),
        (ConstraintKind::StrNotIn(v), Some(ID::Str(s))) => !v.contains(s),
        (ConstraintKind::DateBefore(d), Some(ID::Date(t))) => t <= d,
        (ConstraintKind::DateAfter(d), Some(ID::Date(t))) => t >= d,
        (ConstraintKind::SymbolIn(v), Some(ID::Symbol(s))) => v.contains(s),
        (ConstraintKind::SymbolNotIn(v), Some(ID::Symbol(s))) => !v.contains(s),
        _ => false,
    }
}

fn apply(facts: &[Fact], rule: &Rule) -> Vec<Fact> {
    let mut bindings = vec![Bindings::new()];
    for pattern in rule.1.iter() {
        let mut next = vec![];
        for known in bindings.iter() {
            for fact in facts.iter() {
                if let Some(b) = match_predicate(pattern, &fact.0, known) {
                    next.push(b);
                }
            }
        }
        bindings = next;
    }
    let mut out = vec![];
    for b in bindings.iter() {
        if rule.2.iter().all(|c| satisfies(c, b)) {
            let ids = rule.0.ids.iter().map(|id| match id {
                ID::Variable(v) => b[v].clone(),
                _ => id.clone(),
            });
            out.push(Fact(Predicate { name: rule.0.name, ids: ids.collect() }));
        }
    }
    out
}

fn run(mut world: World) -> World {
    loop {
        let before = world.facts().len();
        let mut new_facts = vec![];
        for rule in world.rules().iter() {
            new_facts.extend(apply(world.facts(), rule));
        }
        for fact in new_facts {
            world.add_fact(fact);
        }
        if world.facts().len() == before {
            return world;
        }
    }
}

fn query(world: &World, rule: &Rule) -> Vec<Fact> {
    apply(world.facts(), rule)
}

fn name_of(symbols: &SymbolTable, s: u64) -> String {
    match symbols.symbols.get(s as usize) {
        Some(name) => name.clone(),
        None => format!("<{}?>", s),
    }
}

fn print_predicate(symbols: &SymbolTable, p: &Predicate) -> String {
    let ids: Vec<String> = p
        .ids
        .iter()
        .map(|id| match id {
            ID::Symbol(s) => format!("#{}", name_of(symbols, *s)),
            ID::Variable(v) => format!("{}?", v),
            ID::Integer(i) => format!("{}", i),
            ID::Str(s) => format!("\"{}\"", s),
            ID::Date(d) => format!("@{}", d),
        })
        .collect();
    format!("{}({})", name_of(symbols, p.name), ids.join(", "))
}

fn print_fact(symbols: &SymbolTable, fact: &Fact) -> String {
    print_predicate(symbols, &fact.0)
}

fn print_constraint(c: &Constraint) -> String {
    match &c.kind {
        ConstraintKind::StrPrefix(p) => format!("{}? matches {}*", c.id, p),
        ConstraintKind::IntNotIn(s) => format!("{}? not in {:?}", c.id, s),
        kind => format!("{}? {:?}", c.id, kind),
    }
}

fn print_rule(symbols: &SymbolTable, rule: &Rule) -> String {
    let body: Vec<String> = rule.1.iter().map(|p| print_predicate(symbols, p)).collect();
    let constraints: Vec<String> = rule.2.iter().map(print_constraint).collect();
    format!(
        "{} <- {} | {}",
        print_predicate(symbols, &rule.0),
        body.join(" && "),
        constraints.join(" && ")
    )
}

fn check(
    token: &Biscuit,
    facts: Vec<Fact>,
    rules: Vec<Rule>,
    caveats: Vec<Rule>,
) -> Result<(), Vec<String>> {
    token.check(facts, rules, caveats, &Engine { run, query, print_fact, print_rule })
}

fn print(token: &Biscuit) -> String {
    token.print(&Engine { run, query, print_fact, print_rule })
}

// ---- Encoding ----

type IdParts = (u8, i64, String);
type PredicateParts = (u64, Vec<IdParts>);
type ConstraintParts = (u32, u8, Vec<i64>, Vec<String>);
type RuleParts = (PredicateParts, Vec<PredicateParts>, Vec<ConstraintParts>);
type BlockParts = (u32, Vec<String>, Vec<PredicateParts>, Vec<RuleParts>);
type ContainerParts = (Vec<u8>, Vec<Vec<u8>>, Vec<u8>);

fn id_parts(id: &ID) -> IdParts {
    match id {
        ID::Symbol(s) => (0, *s as i64, String::new()),
        ID::Variable(v) => (1, *v as i64, String::new()),
        ID::Integer(i) => (2, *i, String::new()),
        ID::Str(s) => (3, 0, s.clone()),
        ID::Date(d) => (4, *d as i64, String::new()),
    }
}

fn id_of(parts: IdParts) -> ID {
    match parts.0 {
        0 => ID::Symbol(parts.1 as u64),
        1 => ID::Variable(parts.1 as u32),
        2 => ID::Integer(parts.1),
        3 => ID::Str(parts.2),
        _ => ID::Date(parts.1 as u64),
    }
}

fn predicate_parts(p: &Predicate) -> PredicateParts {
    (p.name, p.ids.iter().map(id_parts).collect())
}

fn predicate_of(parts: PredicateParts) -> Predicate {
    Predicate { name: parts.0, ids: parts.1.into_iter().map(id_of).collect() }
}

fn constraint_parts(c: &Constraint) -> ConstraintParts {
    match &c.kind {
        ConstraintKind::StrPrefix(p) => (c.id, 0, vec![], vec![p.clone()]),
        ConstraintKind::IntNotIn(s) => (c.id, 1, s.clone(), vec![]),
        ConstraintKind::DateBefore(d) => (c.id, 2, vec![*d as i64], vec![]),
        kind => panic!("no block here holds {:?}", kind),
    }
}

fn constraint_of(parts: ConstraintParts) -> Constraint {
    let kind = match parts.1 {
        0 => ConstraintKind::StrPrefix(parts.3[0].clone()),
        1 => ConstraintKind::IntNotIn(parts.2),
        _ => ConstraintKind::DateBefore(parts.2[0] as u64),
    };
    Constraint { id: parts.0, kind }
}

fn rule_parts(r: &Rule) -> RuleParts {
    (
        predicate_parts(&r.0),
        r.1.iter().map(predicate_parts).collect(),
        r.2.iter().map(constraint_parts).collect(),
    )
}

fn rule_of(parts: RuleParts) -> Rule {
    Rule(
        predicate_of(parts.0),
        parts.1.into_iter().map(predicate_of).collect(),
        parts.2.into_iter().map(constraint_of).collect(),
    )
}

fn encode_block(b: &Block) -> Vec<u8> {
    let parts: BlockParts = (
        b.index,
        b.symbols.symbols.clone(),
        b.facts.iter().map(|f| predicate_parts(&f.0)).collect(),
        b.caveats.iter().map(rule_parts).collect(),
    );
    serde_cbor::to_vec(&parts).unwrap()
}

fn decode_block(bytes: &[u8]) -> Result<Block, String> {
    let parts: BlockParts = serde_cbor::from_slice(bytes).map_err(|e| format!("{:?}", e))?;
    Ok(Block {
        index: parts.0,
        symbols: SymbolTable { symbols: parts.1 },
        facts: parts.2.into_iter().map(|p| Fact(predicate_of(p))).collect(),
        caveats: parts.3.into_iter().map(rule_of).collect(),
    })
}

// ---- Toy signatures: a sum over the key and the blocks ----

fn sum(key: &[u8], authority: &[u8], blocks: &[Vec<u8>]) -> Vec<u8> {
    let mut total: u64 = 7;
    let all = key.iter().chain(authority.iter()).chain(blocks.iter().flatten());
    for b in all {
        total = total.wrapping_mul(31).wrapping_add(*b as u64);
    }
    total.to_be_bytes().to_vec()
}

fn new_token(root: &[u8], authority: &Block) -> Result<Biscuit, String> {
    Biscuit::new(authority, |b: &Block| {
        let authority = encode_block(b);
        let signature = sum(root, &authority, &[]);
        SerializedBiscuit { authority, blocks: vec![], signature }
    })
}

fn append(token: &Biscuit, root: &[u8], block: Block) -> Result<Biscuit, String> {
    token.append(block, |c: &SerializedBiscuit, b: &Block| {
        let mut c = c.clone();
        c.blocks.push(encode_block(b));
        c.signature = sum(root, &c.authority, &c.blocks);
        c
    })
}

fn to_vec(token: &Biscuit) -> Option<Vec<u8>> {
    token.to_vec(|c: &SerializedBiscuit| {
        let parts: ContainerParts = (c.authority.clone(), c.blocks.clone(), c.signature.clone());
        serde_cbor::to_vec(&parts).unwrap()
    })
}

fn load(slice: &[u8], key: &[u8]) -> Result<ContainerParts, String> {
    let parts: ContainerParts =
        serde_cbor::from_slice(slice).map_err(|e| format!("deserialization error: {:?}", e))?;
    if parts.2 != sum(key, &parts.0, &parts.1) {
        return Err(String::from("invalid signature"));
    }
    Ok(parts)
}

fn from(slice: &[u8], root: &[u8]) -> Result<Biscuit, String> {
    let take = |slice: &[u8]| {
        let (authority, blocks, signature) = load(slice, root)?;
        Ok(SerializedBiscuit { authority, blocks, signature })
    };
    Biscuit::from(slice, take, decode_block)
}

fn seal(token: &Biscuit, secret: &[u8]) -> Vec<u8> {
    let from_token = |t: &Biscuit, secret: &[u8]| {
        let authority = encode_block(t.authority());
        let blocks: Vec<Vec<u8>> = t.blocks().iter().map(encode_block).collect();
        let signature = sum(secret, &authority, &blocks);
        SealedBiscuit { authority, blocks, signature }
    };
    let encode = |c: &SealedBiscuit| {
        let parts: ContainerParts = (c.authority.clone(), c.blocks.clone(), c.signature.clone());
        serde_cbor::to_vec(&parts).unwrap()
    };
    token.seal(secret, from_token, encode)
}

fn from_sealed(slice: &[u8], secret: &[u8]) -> Result<Biscuit, String> {
    let take = |slice: &[u8]| {
        let (authority, blocks, signature) = load(slice, secret)?;
        Ok(SealedBiscuit { authority, blocks, signature })
    };
    Biscuit::from_sealed(slice, take, decode_block)
}

// ---- Building blocks ----

#[derive(Clone)]
enum Atom {
    Symbol(String),
    Variable(u32),
    Integer(i64),
    Str(String),
    Date(SystemTime),
}

#[derive(Clone)]
struct Pred(String, Vec<Atom>);

#[derive(Clone)]
struct Deduction(Pred, Vec<Pred>, Vec<Constraint>);

fn s(name: &str) -> Atom {
    Atom::Symbol(name.to_string())
}

fn var(i: u32) -> Atom {
    Atom::Variable(i)
}

fn integer(i: i64) -> Atom {
    Atom::Integer(i)
}

fn string(text: &str) -> Atom {
    Atom::Str(text.to_string())
}

fn date(t: SystemTime) -> Atom {
    Atom::Date(t)
}

fn pred(name: &str, ids: &[Atom]) -> Pred {
    Pred(name.to_string(), ids.to_vec())
}

fn fact(name: &str, ids: &[Atom]) -> Pred {
    pred(name, ids)
}

fn rule(name: &str, ids: &[Atom], body: &[Pred]) -> Deduction {
    Deduction(pred(name, ids), body.to_vec(), vec![])
}

fn seconds(t: SystemTime) -> u64 {
    t.duration_since(UNIX_EPOCH).unwrap().as_secs()
}

impl Pred {
    fn convert(&self, symbols: &mut SymbolTable) -> Predicate {
        let name = symbols.insert(&self.0);
        let ids = self.1.iter().map(|a| match a {
            Atom::Symbol(name) => symbols.add(name),
            Atom::Variable(i) => ID::Variable(*i),
            Atom::Integer(i) => ID::Integer(*i),
            Atom::Str(text) => ID::Str(text.clone()),
            Atom::Date(t) => ID::Date(seconds(*t)),
        });
        Predicate { name, ids: ids.collect() }
    }
}

impl Deduction {
    fn convert(&self, symbols: &mut SymbolTable) -> Rule {
        let head = self.0.convert(symbols);
        let body = self.1.iter().map(|p| p.convert(symbols)).collect();
        Rule(head, body, self.2.clone())
    }
}

/// A block under construction, over the strings of a token or the default ones.
struct Builder {
    block: Block,
}

impl Builder {
    fn authority() -> Builder {
        Builder { block: Block::new(0, default_symbol_table()) }
    }

    fn next(token: &Biscuit) -> Builder {
        let start = token.create_block();
        Builder { block: Block::new(start.index, start.symbols) }
    }

    fn add_fact(&mut self, f: &Pred) {
        let p = f.convert(&mut self.block.symbols);
        self.block.facts.push(Fact(p));
    }

    fn add_caveat(&mut self, r: &Deduction) {
        let r = r.convert(&mut self.block.symbols);
        self.block.caveats.push(r);
    }

    fn add_right(&mut self, resource: &str, right: &str) {
        self.add_fact(&fact("right", &[s("authority"), string(resource), s(right)]));
    }

    fn resource_prefix(&mut self, prefix: &str) {
        let kind = ConstraintKind::StrPrefix(prefix.to_string());
        self.add_caveat(&Deduction(
            pred("prefix", &[var(0)]),
            vec![pred("resource", &[s("ambient"), var(0)])],
            vec![Constraint { id: 0, kind }],
        ));
    }

    fn check_right(&mut self, right: &str) {
        self.add_caveat(&rule(
            "check_right",
            &[s(right)],
            &[
                pred("resource", &[s("ambient"), var(0)]),
                pred("operation", &[s("ambient"), s(right)]),
                pred("right", &[s("authority"), var(0), s(right)]),
            ],
        ));
    }

    fn expiration_date(&mut self, t: SystemTime) {
        self.add_caveat(&Deduction(
            pred("expiration", &[var(0)]),
            vec![pred("current_time", &[s("ambient"), var(0)])],
            vec![Constraint { id: 0, kind: ConstraintKind::DateBefore(seconds(t)) }],
        ));
    }

    fn revocation_id(&mut self, id: i64) {
        self.add_fact(&fact("revocation_id", &[integer(id)]));
    }

    fn to_authority(mut self) -> Block {
        Biscuit::adjust_authority_symbols(&mut self.block);
        self.block
    }

    fn to_block(mut self, token: &Biscuit) -> Block {
        token.adjust_block_symbols(&mut self.block);
        self.block
    }
}

/// What a verifier knows and asks for.
struct Verifier {
    facts: Vec<Pred>,
    caveats: Vec<Deduction>,
}

impl Verifier {
    fn new() -> Verifier {
        Verifier { facts: vec![], caveats: vec![] }
    }

    fn resource(&mut self, resource: &str) {
        self.facts.push(fact("resource", &[s("ambient"), string(resource)]));
    }

    fn operation(&mut self, operation: &str) {
        self.facts.push(fact("operation", &[s("ambient"), s(operation)]));
    }

    fn time(&mut self) {
        self.facts.push(fact("current_time", &[s("ambient"), date(SystemTime::now())]));
    }

    fn revocation_check(&mut self, ids: &[i64]) {
        let kind = ConstraintKind::IntNotIn(ids.to_vec());
        self.caveats.push(Deduction(
            pred("revocation_check", &[var(0)]),
            vec![pred("revocation_id", &[var(0)])],
            vec![Constraint { id: 0, kind }],
        ));
    }

    fn verify(&self, token: Biscuit) -> Result<(), Vec<String>> {
        let mut symbols = token.symbols().clone();
        let facts = self.facts.iter().map(|f| Fact(f.convert(&mut symbols))).collect();
        let caveats = self.caveats.iter().map(|r| r.convert(&mut symbols)).collect();
        check(&token, facts, vec![], caveats)
    }
}

// ---- Tests ----

#[test]
fn basic() {
    let root = b"root key";

    let serialized1 = {
        let mut authority_block = Builder::authority();

        authority_block.add_fact(&fact("right", &[s("authority"), s("file1"), s("read")]));
        authority_block.add_fact(&fact("right", &[s("authority"), s("file2"), s("read")]));
        authority_block.add_fact(&fact("right", &[s("authority"), s("file1"), s("write")]));

        let biscuit1 = new_token(root, &authority_block.to_authority()).unwrap();

        println!("biscuit1 (authority): {}", print(&biscuit1));

        to_vec(&biscuit1).unwrap()
    };

    let serialized2 = {
        let biscuit1_deser = from(&serialized1, root).unwrap();

        // new caveat: can only have read access1
        let mut block2 = Builder::next(&biscuit1_deser);

        block2.add_caveat(&rule(
            "caveat1",
            &[var(0)],
            &[
                pred("resource", &[s("ambient"), var(0)]),
                pred("operation", &[s("ambient"), s("read")]),
                pred("right", &[s("authority"), var(0), s("read")]),
            ],
        ));

        let biscuit2 = append(&biscuit1_deser, root, block2.to_block(&biscuit1_deser)).unwrap();

        println!("biscuit2 (1 caveat): {}", print(&biscuit2));

        to_vec(&biscuit2).unwrap()
    };

    let serialized3 = {
        let biscuit2_deser = from(&serialized2, root).unwrap();

        // new caveat: can only access file1
        let mut block3 = Builder::next(&biscuit2_deser);

        block3.add_caveat(&rule(
            "caveat2",
            &[s("file1")],
            &[pred("resource", &[s("ambient"), s("file1")])],
        ));

        let biscuit3 = append(&biscuit2_deser, root, block3.to_block(&biscuit2_deser)).unwrap();

        to_vec(&biscuit3).unwrap()
    };

    let final_token = from(&serialized3, root).unwrap();
    println!("final token:\n{}", print(&final_token));
    {
        let mut symbols = final_token.symbols().clone();

        let facts = vec![
            fact("resource", &[s("ambient"), s("file1")]),
            fact("operation", &[s("ambient"), s("read")]),
        ];
        let mut ambient_facts = vec![];

        for fact in facts.iter() {
            ambient_facts.push(Fact(fact.convert(&mut symbols)));
        }

        let res = check(&final_token, ambient_facts, vec![], vec![]);
        println!("res1: {:?}", res);
        res.unwrap();
    }

    {
        let mut symbols = final_token.symbols().clone();

        let facts = vec![
            fact("resource", &[s("ambient"), s("file2")]),
            fact("operation", &[s("ambient"), s("write")]),
        ];
        let mut ambient_facts = vec![];

        for fact in facts.iter() {
            ambient_facts.push(Fact(fact.convert(&mut symbols)));
        }

        let res = check(&final_token, ambient_facts, vec![], vec![]);
        println!("res2: {:#?}", res);
        assert_eq!(res,
          Err(vec![
            "Block 0: caveat 0 failed: caveat1(0?) <- resource(#ambient, 0?) && operation(#ambient, #read) && right(#authority, 0?, #read) | ".to_string(),
            "Block 1: caveat 0 failed: caveat2(#file1) <- resource(#ambient, #file1) | ".to_string()
          ]));
    }
}

#[test]
fn folders() {
    let root = b"root key";

    let mut authority_block = Builder::authority();

    authority_block.add_right("/folder1/file1", "read");
    authority_block.add_right("/folder1/file1", "write");
    authority_block.add_right("/folder1/file2", "read");
    authority_block.add_right("/folder1/file2", "write");
    authority_block.add_right("/folder2/file3", "read");

    let biscuit1 = new_token(root, &authority_block.to_authority()).unwrap();

    println!("biscuit1 (authority): {}", print(&biscuit1));

    let mut block2 = Builder::next(&biscuit1);

    block2.resource_prefix("/folder1/");
    block2.check_right("read");

    let biscuit2 = append(&biscuit1, root, block2.to_block(&biscuit1)).unwrap();

    {
        let mut verifier = Verifier::new();
        verifier.resource("/folder1/file1");
        verifier.operation("read");

        let res = verifier.verify(biscuit2.clone());
        println!("res1: {:?}", res);
        res.unwrap();
    }

    {
        let mut verifier = Verifier::new();
        verifier.resource("/folder2/file3");
        verifier.operation("read");

        let res = verifier.verify(biscuit2.clone());
        println!("res2: {:?}", res);
        assert_eq!(res,
          Err(vec![
            "Block 0: caveat 0 failed: prefix(0?) <- resource(#ambient, 0?) | 0? matches /folder1/*".to_string(),
          ]));
    }

    {
        let mut verifier = Verifier::new();
        verifier.resource("/folder2/file1");
        verifier.operation("write");

        let res = verifier.verify(biscuit2.clone());
        println!("res3: {:?}", res);
        assert_eq!(res,
          Err(vec![
            "Block 0: caveat 0 failed: prefix(0?) <- resource(#ambient, 0?) | 0? matches /folder1/*".to_string(),
            "Block 0: caveat 1 failed: check_right(#read) <- resource(#ambient, 0?) && operation(#ambient, #read) && right(#authority, 0?, #read) | ".to_string()
          ]));
    }
}

#[test]
fn constraints() {
    let root = b"root key";

    let mut authority_block = Builder::authority();

    authority_block.add_right("file1", "read");
    authority_block.add_right("file2", "read");

    let biscuit1 = new_token(root, &authority_block.to_authority()).unwrap();

    println!("biscuit1 (authority): {}", print(&biscuit1));

    let mut block2 = Builder::next(&biscuit1);

    block2.expiration_date(SystemTime::now() + Duration::from_secs(30));
    block2.revocation_id(1234);

    let biscuit2 = append(&biscuit1, root, block2.to_block(&biscuit1)).unwrap();

    {
        let mut verifier = Verifier::new();
        verifier.resource("file1");
        verifier.operation("read");
        verifier.time();

        let res = verifier.verify(biscuit2.clone());
        println!("res1: {:?}", res);
        res.unwrap();
    }

    {
        let mut verifier = Verifier::new();
        verifier.resource("file1");
        verifier.operation("read");
        verifier.time();
        verifier.revocation_check(&[0, 1, 2, 5, 1234]);

        let res = verifier.verify(biscuit2.clone());
        println!("res3: {:?}", res);

        // error message should be like this:
        //"Verifier caveat 0 failed: revocation_check(0?) <- revocation_id(0?) | 0? not in {2, 1234, 1, 5, 0}"
        assert!(res.is_err());
        let messages = res.unwrap_err();
        assert_eq!(messages.len(), 1);
        assert!(messages[0].starts_with("Verifier caveat 0 failed: "));
    }
}

#[test]
fn sealed_token() {
    let root = b"root key";

    let mut authority_block = Builder::authority();

    authority_block.add_right("/folder1/file1", "read");
    authority_block.add_right("/folder1/file1", "write");
    authority_block.add_right("/folder1/file2", "read");
    authority_block.add_right("/folder1/file2", "write");
    authority_block.add_right("/folder2/file3", "read");

    let biscuit1 = new_token(root, &authority_block.to_authority()).unwrap();

    println!("biscuit1 (authority): {}", print(&biscuit1));

    let mut block2 = Builder::next(&biscuit1);

    block2.resource_prefix("/folder1/");
    block2.check_right("read");

    let biscuit2 = append(&biscuit1, root, block2.to_block(&biscuit1)).unwrap();

    println!("biscuit2:\n{:#?}", biscuit2);

    {
        let mut verifier = Verifier::new();
        verifier.resource("/folder1/file1");
        verifier.operation("read");

        let res = verifier.verify(biscuit2.clone());
        println!("res1: {:?}", res);
        res.unwrap();
    }

    let serialized = to_vec(&biscuit2).unwrap();
    println!("biscuit2 serialized ({} bytes)", serialized.len());

    let secret = b"secret key";
    let sealed = seal(&biscuit2, &secret[..]);
    println!("biscuit2 sealed ({} bytes)", sealed.len());

    let biscuit3 = from_sealed(&sealed, &secret[..]).unwrap();

    {
        let mut verifier = Verifier::new();
        verifier.resource("/folder1/file1");
        verifier.operation("read");

        let res = verifier.verify(biscuit3.clone());
        println!("res1: {:?}", res);
        res.unwrap();
    }
}

fn simple_token() -> Biscuit {
    let mut authority_block = Builder::authority();
    authority_block.add_right("file1", "read");
    new_token(b"k", &authority_block.to_authority()).unwrap()
}

#[test]
fn sealed_tokens_are_final() {
    let token = simple_token();
    let sealed = seal(&token, b"secret");
    let read = from_sealed(&sealed, b"secret").unwrap();
    assert_eq!(to_vec(&read), None);
    assert_eq!(read.symbols(), token.symbols());
    assert_eq!(read.authority().facts, token.authority().facts);
    let block = Builder::next(&read).to_block(&read);
    assert_eq!(
        append(&read, b"k", block).unwrap_err(),
        "cannot append a bock to a sealed token"
    );
    assert_eq!(from_sealed(&sealed, b"other").unwrap_err(), "invalid signature");
}

#[test]
fn loading_errors_come_out_unchanged() {
    let bytes = to_vec(&simple_token()).unwrap();
    assert_eq!(from(&bytes, b"wrong").unwrap_err(), "invalid signature");
    assert!(from(&[0xff], b"k").unwrap_err().starts_with("deserialization error: "));
}

#[test]
fn reading_back_gives_the_token() {
    let token = simple_token();
    let mut block = Builder::next(&token);
    block.revocation_id(5);
    block.resource_prefix("/a");
    let token = append(&token, b"k", block.to_block(&token)).unwrap();
    let read = from(&to_vec(&token).unwrap(), b"k").unwrap();
    assert_eq!(read.symbols(), token.symbols());
    assert_eq!(read.authority().facts, token.authority().facts);
    assert_eq!(read.blocks().len(), 1);
    assert_eq!(read.blocks()[0].index, 1);
    assert_eq!(read.blocks()[0].symbols, token.blocks()[0].symbols);
    assert_eq!(read.blocks()[0].facts, token.blocks()[0].facts);
    assert_eq!(read.blocks()[0].caveats, token.blocks()[0].caveats);
    assert_eq!(to_vec(&read), to_vec(&token));
}

#[test]
fn authority_facts_need_the_authority_context() {
    let mut block = Builder::authority();
    block.add_right("file1", "read");
    block.add_fact(&fact("right", &[s("ambient"), string("x")]));
    block.add_fact(&fact("right", &[string("y")]));
    let token = new_token(b"k", &block.to_authority()).unwrap();
    assert_eq!(
        check(&token, vec![], vec![], vec![]),
        Err(vec!["invalid authority fact: right(#ambient, \"x\")".to_string()])
    );
}

#[test]
fn authority_rules_give_authority_facts() {
    let mut block = Builder::authority();
    block.add_right("file1", "read");
    block.add_caveat(&rule(
        "owner",
        &[s("authority"), var(0)],
        &[pred("right", &[s("authority"), var(0), var(1)])],
    ));
    let token = new_token(b"k", &block.to_authority()).unwrap();
    assert_eq!(check(&token, vec![], vec![], vec![]), Ok(()));

    let mut block = Builder::authority();
    block.add_right("file1", "read");
    block.add_caveat(&rule(
        "owner",
        &[var(0)],
        &[pred("right", &[s("authority"), var(0), var(1)])],
    ));
    let token = new_token(b"k", &block.to_authority()).unwrap();
    assert_eq!(
        check(&token, vec![], vec![], vec![]),
        Err(vec!["generated authority facts should have the authority context".to_string()])
    );

    // A fact without any identifier has no context either.
    let mut block = Builder::authority();
    block.add_right("file1", "read");
    block.add_caveat(&rule("any", &[], &[pred("right", &[s("authority"), var(0), var(1)])]));
    let token = new_token(b"k", &block.to_authority()).unwrap();
    assert_eq!(
        check(&token, vec![], vec![], vec![]),
        Err(vec!["generated authority facts should have the authority context".to_string()])
    );
}

#[test]
fn facts_behind_a_generated_fault_are_not_looked_at() {
    let mut block = Builder::authority();
    block.add_right("file1", "read");
    block.add_caveat(&rule(
        "owner",
        &[var(0)],
        &[pred("right", &[s("authority"), var(0), var(1)])],
    ));
    let token = new_token(b"k", &block.to_authority()).unwrap();
    let mut block = Builder::next(&token);
    block.add_fact(&fact("bare", &[]));
    let token = append(&token, b"k", block.to_block(&token)).unwrap();
    let mut symbols = token.symbols().clone();
    let bare = Fact(fact("bare", &[]).convert(&mut symbols));
    let generated = "generated authority facts should have the authority context".to_string();
    assert_eq!(check(&token, vec![], vec![], vec![]), Err(vec![generated.clone()]));
    assert_eq!(check(&token, vec![bare], vec![], vec![]), Err(vec![generated]));
}

#[test]
fn ambient_facts_need_the_ambient_context() {
    let token = simple_token();
    let mut symbols = token.symbols().clone();
    let good = Fact(fact("resource", &[s("ambient"), s("right")]).convert(&mut symbols));
    let bad = Fact(fact("resource", &[s("authority"), s("right")]).convert(&mut symbols));
    assert_eq!(check(&token, vec![good.clone()], vec![], vec![]), Ok(()));
    assert_eq!(
        check(&token, vec![good, bad], vec![], vec![]),
        Err(vec!["invalid ambient fact: resource(#authority, #right)".to_string()])
    );
}

#[test]
fn blocks_may_not_state_reserved_facts() {
    let token = simple_token();
    for context in ["authority", "ambient"] {
        let mut block = Builder::next(&token);
        block.revocation_id(1);
        block.add_fact(&fact("right", &[s(context), s("read")]));
        // A caveat that never holds, which is not asked for.
        block.check_right("read");
        let longer = append(&token, b"k", block.to_block(&token)).unwrap();
        assert_eq!(
            check(&longer, vec![], vec![], vec![]),
            Err(vec![format!("Block 0: invalid fact: right(#{}, #read)", context)])
        );
    }
}

#[test]
fn verifier_rules_apply_in_blocks_and_authority_rules_do_not() {
    let mut authority = Builder::authority();
    authority.add_right("file1", "read");
    authority.add_caveat(&rule(
        "seen",
        &[s("authority"), var(0)],
        &[pred("revocation_id", &[var(0)])],
    ));
    let token = new_token(b"k", &authority.to_authority()).unwrap();
    let mut block = Builder::next(&token);
    block.revocation_id(3);
    block.add_caveat(&rule("a", &[var(0)], &[pred("seen", &[s("authority"), var(0)])]));
    block.add_caveat(&rule("b", &[var(0)], &[pred("noted", &[var(0)])]));
    let token = append(&token, b"k", block.to_block(&token)).unwrap();
    let mut symbols = token.symbols().clone();
    let noted = rule("noted", &[var(0)], &[pred("revocation_id", &[var(0)])]);
    let noted = noted.convert(&mut symbols);
    assert_eq!(
        check(&token, vec![], vec![noted], vec![]),
        Err(vec!["Block 0: caveat 0 failed: a(0?) <- seen(#authority, 0?) | ".to_string()])
    );
}

#[test]
fn appending_only_restricts() {
    let token = simple_token();
    let mut pass = Verifier::new();
    pass.resource("file1");
    pass.operation("read");
    let mut fail = Verifier::new();
    fail.resource("file2");
    fail.operation("read");

    let mut block = Builder::next(&token);
    block.check_right("read");
    let one = append(&token, b"k", block.to_block(&token)).unwrap();
    assert_eq!(pass.verify(one.clone()), Ok(()));
    assert!(fail.verify(one.clone()).is_err());

    let mut block = Builder::next(&one);
    block.revocation_id(9);
    block.add_fact(&fact("right", &[s("free"), string("file2"), s("read")]));
    let two = append(&one, b"k", block.to_block(&one)).unwrap();
    assert_eq!(pass.verify(two.clone()), Ok(()));
    assert!(fail.verify(two.clone()).is_err());
}

#[test]
fn messages_of_all_blocks_come_in_order() {
    let token = simple_token();
    let mut block = Builder::next(&token);
    block.check_right("read");
    let one = append(&token, b"k", block.to_block(&token)).unwrap();
    let mut block = Builder::next(&one);
    block.resource_prefix("/z/");
    let two = append(&one, b"k", block.to_block(&one)).unwrap();
    let never = rule("never", &[var(0)], &[pred("current_time", &[s("ambient"), var(0)])]);
    let never = never.convert(&mut two.symbols().clone());
    let res = check(&two, vec![], vec![], vec![never]);
    let messages = res.unwrap_err();
    let starts: Vec<&str> = messages.iter().map(|m| m.split(" failed").next().unwrap()).collect();
    assert_eq!(
        starts,
        vec!["Block 0: caveat 0", "Verifier caveat 0", "Block 1: caveat 0", "Verifier caveat 0"]
    );
}

#[test]
fn verifier_caveats_need_a_block() {
    let token = simple_token();
    let never = rule("never", &[var(0)], &[pred("current_time", &[s("ambient"), var(0)])]);
    let never = never.convert(&mut token.symbols().clone());
    assert_eq!(check(&token, vec![], vec![], vec![never.clone()]), Ok(()));
    let block = Builder::next(&token).to_block(&token);
    let longer = append(&token, b"k", block).unwrap();
    assert!(check(&longer, vec![], vec![], vec![never]).is_err());
}

#[test]
fn checks_give_the_same_result_every_time() {
    let token = simple_token();
    let mut block = Builder::next(&token);
    block.check_right("write");
    let token = append(&token, b"k", block.to_block(&token)).unwrap();
    let one = check(&token, vec![], vec![], vec![]);
    let two = check(&token, vec![], vec![], vec![]);
    assert!(one.is_err());
    assert_eq!(one, two);
}

#[test]
fn sealing_keeps_checks() {
    let token = simple_token();
    let mut block = Builder::next(&token);
    block.check_right("write");
    let token = append(&token, b"k", block.to_block(&token)).unwrap();
    let sealed = from_sealed(&seal(&token, b"x"), b"x").unwrap();
    assert_eq!(check(&token, vec![], vec![], vec![]), check(&sealed, vec![], vec![], vec![]));
}

#[test]
fn tokens_of_many_blocks_read_back() {
    let mut token = simple_token();
    for right in ["read", "write", "delete"] {
        let mut block = Builder::next(&token);
        block.revocation_id(7);
        block.check_right(right);
        token = append(&token, b"k", block.to_block(&token)).unwrap();
    }
    let written = to_vec(&token).unwrap();
    let read = from(&written, b"k").unwrap();
    let sealed = from_sealed(&seal(&token, b"x"), b"x").unwrap();
    for other in [&read, &sealed] {
        assert_eq!(other.authority().facts, token.authority().facts);
        assert_eq!(other.blocks().len(), 3);
        for (a, b) in other.blocks().iter().zip(token.blocks().iter()) {
            assert_eq!(a.index, b.index);
            assert_eq!(a.symbols, b.symbols);
            assert_eq!(a.facts, b.facts);
            assert_eq!(a.caveats, b.caveats);
        }
        assert_eq!(other.symbols(), token.symbols());
        assert_eq!(check(other, vec![], vec![], vec![]), check(&token, vec![], vec![], vec![]));
    }
    assert_eq!(to_vec(&read), Some(written));
    assert_eq!(to_vec(&sealed), None);
}

#[test]
fn larger_worlds_keep_passed_blocks() {
    let token = simple_token();
    let mut builder = Builder::next(&token);
    builder.add_caveat(&rule("a", &[var(0)], &[pred("seen", &[var(0)])]));
    let block = builder.to_block(&token);
    let token = append(&token, b"k", block.clone()).unwrap();
    let mut symbols = token.symbols().clone();
    let seen = Fact(fact("seen", &[integer(1)]).convert(&mut symbols));
    let more = Fact(fact("seen", &[integer(2)]).convert(&mut symbols));
    let doubled = rule("twice", &[var(0)], &[pred("seen", &[var(0)])]).convert(&mut symbols);
    let engine = Engine { run, query, print_fact, print_rule };

    let empty = World::new();
    assert!(block.check(0, empty, &symbols, &[], &engine).is_err());
    let mut world = World::new();
    world.add_fact(seen.clone());
    assert_eq!(block.check(0, world, &symbols, &[], &engine), Ok(()));
    let mut larger = World::new();
    larger.add_fact(more);
    larger.add_fact(seen);
    larger.add_rule(doubled);
    assert_eq!(block.check(0, larger, &symbols, &[], &engine), Ok(()));
}

#[test]
fn one_more_verifier_caveat_adds_one_message() {
    let token = simple_token();
    let mut builder = Builder::next(&token);
    builder.revocation_id(1);
    builder.check_right("write");
    let block = builder.to_block(&token);
    let token = append(&token, b"k", block.clone()).unwrap();
    let mut symbols = token.symbols().clone();
    let never = rule("no", &[var(0)], &[pred("missing", &[var(0)])]).convert(&mut symbols);
    let holds = rule("yes", &[var(0)], &[pred("revocation_id", &[var(0)])]).convert(&mut symbols);
    let engine = Engine { run, query, print_fact, print_rule };
    let messages = |caveats: &[Rule]| {
        block.check(4, World::new(), &symbols, caveats, &engine).unwrap_err()
    };

    let fewer = messages(&[never.clone()]);
    assert_eq!(fewer.len(), 2);
    assert!(fewer[0].starts_with("Block 4: caveat 0 failed: "));
    assert_eq!(fewer[1], "Verifier caveat 0 failed: no(0?) <- missing(0?) | ");
    assert_eq!(messages(&[never.clone(), holds.clone()]), fewer);
    let mut more = fewer.clone();
    more.push("Verifier caveat 1 failed: no(0?) <- missing(0?) | ".to_string());
    assert_eq!(messages(&[never.clone(), never]), more);
}

#[test]
fn a_block_check_does_not_consult_index_and_strings() {
    let token = simple_token();
    let mut builder = Builder::next(&token);
    builder.revocation_id(1);
    builder.check_right("write");
    let block = builder.to_block(&token);
    let token = append(&token, b"k", block.clone()).unwrap();
    let mut other = block.clone();
    other.index = 9;
    other.symbols = SymbolTable::new();
    assert_ne!(other.symbols, block.symbols);
    let engine = Engine { run, query, print_fact, print_rule };
    let one = block.check(0, World::new(), token.symbols(), &[], &engine);
    let two = other.check(0, World::new(), token.symbols(), &[], &engine);
    assert!(one.is_err());
    assert_eq!(one, two);
}

#[test]
fn more_from_the_verifier_keeps_a_pass() {
    let token = simple_token();
    let mut block = Builder::next(&token);
    block.check_right("read");
    let token = append(&token, b"k", block.to_block(&token)).unwrap();
    let mut symbols = token.symbols().clone();
    let resource = Fact(fact("resource", &[s("ambient"), string("file1")]).convert(&mut symbols));
    let other = Fact(fact("resource", &[s("ambient"), string("file2")]).convert(&mut symbols));
    let operation = Fact(fact("operation", &[s("ambient"), s("read")]).convert(&mut symbols));
    let copied = rule(
        "copied",
        &[s("ambient"), var(0)],
        &[pred("resource", &[s("ambient"), var(0)])],
    );
    let copied = copied.convert(&mut symbols);
    assert!(check(&token, vec![resource.clone()], vec![], vec![]).is_err());
    let few = vec![resource.clone(), operation.clone()];
    let many = vec![other, operation, resource];
    assert_eq!(check(&token, few, vec![], vec![]), Ok(()));
    assert_eq!(check(&token, many, vec![copied], vec![]), Ok(()));
}

#[test]
fn a_printed_token() {
    let mut block = Builder::authority();
    block.add_fact(&fact("right", &[s("authority"), s("a\"b")]));
    block.add_fact(&fact("right", &[s("authority")]));
    let token = new_token(b"k", &block.to_authority()).unwrap();
    let mut block = Builder::next(&token);
    block.add_caveat(&rule("c", &[], &[pred("right", &[var(3)])]));
    let token = append(&token, b"k", block.to_block(&token)).unwrap();
    let block = Builder::next(&token).to_block(&token);
    let token = append(&token, b"k", block).unwrap();
    let expected = concat(&[
        "Biscuit {\n\tsymbols: [\"authority\", \"ambient\", \"resource\", \"operation\", ",
        "\"right\", \"current_time\", \"revocation_id\", \"a\\\"b\", \"c\"]\n",
        "\tauthority:\n",
        "Block[0] {\n\t\tsymbols: [\"a\\\"b\"]\n",
        "\t\tfacts: [\n\t\t\tright(#authority, #a\"b),\n\t\t\tright(#authority)]\n",
        "\t\trules:[\n\t\t\t]\n}\n",
        "\tblocks: [\n\t\tBlock[1] {\n\t\tsymbols: [\"c\"]\n",
        "\t\tfacts: [\n\t\t\t]\n\t\trules:[\n\t\t\tc() <- right(3?) | ]\n},\n",
        "\tBlock[2] {\n\t\tsymbols: []\n\t\tfacts: [\n\t\t\t]\n\t\trules:[\n\t\t\t]\n}]\n}",
    ]);
    assert_eq!(print(&token), expected);
}

fn concat(parts: &[&str]) -> String {
    parts.iter().copied().collect()
}

#[test]
fn worlds_are_sets_of_facts() {
    let mut world = World::new();
    let f = |n: i64| Fact(Predicate { name: 0, ids: vec![ID::Integer(n), ID::Str("x".into())] });
    world.add_fact(f(1));
    world.add_fact(f(2));
    world.add_fact(f(1));
    assert_eq!(world.facts(), &vec![f(1), f(2)]);
    assert!(world.holds(&f(2)));
    assert!(!world.holds(&f(3)));
    assert!(!world.all_in_context(0));
    let r = Rule(Predicate { name: 1, ids: vec![] }, vec![], vec![]);
    world.add_rule(r.clone());
    world.add_rules(&vec![r.clone()]);
    assert_eq!(world.rules().len(), 2);
    world.replace_rules(vec![]);
    assert_eq!(world.rules().len(), 0);
    let same: HashSet<Fact> = world.clone().facts().iter().cloned().collect();
    assert_eq!(same.len(), 2);
}
