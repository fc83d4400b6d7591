//! Symbol tables, blocks, the faults of tokens, and texts.
use biscuit_poc::text::{decimal_text, join};
use biscuit_poc::print::{lay_out_block, lay_out_token};
use biscuit_poc::token::{accept_authority, accept_block};
use biscuit_poc::{
    default_symbol_table, Biscuit, Block, Constraint, ConstraintKind, Fact, Predicate, Rule,
    SerializedBiscuit, SymbolTable, ID,
};

fn table(names: &[&str]) -> SymbolTable {
    SymbolTable { symbols: names.iter().map(|s| s.to_string()).collect() }
}

fn block(index: u32, names: &[&str]) -> Block {
    Block::new(index, table(names))
}

fn container(mark: u8) -> SerializedBiscuit {
    SerializedBiscuit { authority: vec![mark], blocks: vec![], signature: vec![] }
}

fn token(names: &[&str]) -> Biscuit {
    Biscuit::new(&block(0, names), |_: &Block| container(1)).unwrap()
}

fn extend(token: &Biscuit, b: Block) -> Result<Biscuit, String> {
    token.append(b, |c: &SerializedBiscuit, b: &Block| {
        let mut c = c.clone();
        c.blocks.push(vec![b.index as u8]);
        c
    })
}

#[test]
fn the_default_symbols() {
    let t = default_symbol_table();
    assert_eq!(
        t.symbols,
        vec![
            "authority",
            "ambient",
            "resource",
            "operation",
            "right",
            "current_time",
            "revocation_id"
        ]
    );
    assert_eq!(t.get("authority"), Some(0));
    assert_eq!(t.get("ambient"), Some(1));
    assert_eq!(t.get("revocation_id"), Some(6));
    assert_eq!(t.get("read"), None);
}

#[test]
fn inserting_symbols() {
    let mut t = SymbolTable::new();
    assert_eq!(t.insert("a"), 0);
    assert_eq!(t.insert("b"), 1);
    assert_eq!(t.insert("a"), 0);
    assert_eq!(t.add("c"), ID::Symbol(2));
    assert_eq!(t.add("b"), ID::Symbol(1));
    assert_eq!(t, table(&["a", "b", "c"]));
    assert!(t.holds(&"c".to_string()));
    assert!(!t.holds(&"d".to_string()));
    t.extend(&table(&["c", "d"]));
    assert_eq!(t, table(&["a", "b", "c", "c", "d"]));
    assert_eq!(t.get("c"), Some(2));
    assert!(t.is_disjoint(&table(&["e", "f"])));
    assert!(!t.is_disjoint(&table(&["e", "d"])));
    assert!(t.is_disjoint(&table(&[])));
}

#[test]
fn symbols_of_a_block() {
    let mut b = block(4, &["x"]);
    assert_eq!(b.symbol_insert("y"), 1);
    assert_eq!(b.symbol_add("x"), ID::Symbol(0));
    assert_eq!(b.symbol_add("z"), ID::Symbol(2));
    assert_eq!(b.index, 4);
    assert_eq!(b.symbols, table(&["x", "y", "z"]));
    assert!(b.facts.is_empty() && b.caveats.is_empty());
}

#[test]
fn faults_of_a_new_token() {
    let sign = |_: &Block| container(1);
    assert_eq!(
        Biscuit::new(&block(0, &["a", "right"]), sign).unwrap_err(),
        "symbol tables should have no overlap"
    );
    // The overlap is reported before the index.
    assert_eq!(
        Biscuit::new(&block(1, &["right"]), sign).unwrap_err(),
        "symbol tables should have no overlap"
    );
    assert_eq!(Biscuit::new(&block(1, &["a"]), sign).unwrap_err(), "invalid block index");
    let t = Biscuit::new(&block(0, &["a"]), sign).unwrap();
    assert_eq!(t.symbols().symbols.len(), 8);
    assert_eq!(t.symbols().get("a"), Some(7));
    assert_eq!(t.authority().symbols, table(&["a"]));
    assert_eq!(t.blocks().len(), 0);
    assert_eq!(t.to_vec(|c: &SerializedBiscuit| c.authority.clone()), Some(vec![1]));
}

#[test]
fn faults_of_an_appended_block() {
    let t = token(&["a"]);
    assert_eq!(
        extend(&t, block(1, &["a"])).unwrap_err(),
        "symbol tables should have no overlap"
    );
    assert_eq!(
        extend(&t, block(5, &["ambient"])).unwrap_err(),
        "symbol tables should have no overlap"
    );
    assert_eq!(extend(&t, block(0, &[])).unwrap_err(), "invalid block index");
    assert_eq!(extend(&t, block(2, &["b"])).unwrap_err(), "invalid block index");
    let t1 = extend(&t, block(1, &["b", "c"])).unwrap();
    assert_eq!(t1.symbols().get("c"), Some(9));
    assert_eq!(t1.symbols().get("a"), t.symbols().get("a"));
    assert_eq!(extend(&t1, block(2, &["c"])).unwrap_err(), "symbol tables should have no overlap");
    let t2 = extend(&t1, block(2, &["d"])).unwrap();
    assert_eq!(t2.blocks().len(), 2);
    assert_eq!(t2.blocks()[1].index, 2);
    assert_eq!(t.blocks().len(), 0);
    assert_eq!(
        t2.to_vec(|c: &SerializedBiscuit| c.blocks.concat()),
        Some(vec![1, 2])
    );
}

#[test]
fn a_created_block_can_be_appended() {
    let t = token(&["a"]);
    let start = t.create_block();
    assert_eq!(start.index, 1);
    assert_eq!(&start.symbols, t.symbols());
    let mut b = Block::new(start.index, start.symbols);
    assert_eq!(b.symbol_insert("right"), 4);
    assert_eq!(b.symbol_insert("new"), 8);
    assert_eq!(b.symbol_insert("a"), 7);
    let built = b.symbols.clone();
    t.adjust_block_symbols(&mut b);
    assert_eq!(b.symbols, table(&["new"]));
    let longer = extend(&t, b).unwrap();
    assert_eq!(longer.symbols(), &built);
    assert_eq!(longer.create_block().index, 2);
}

#[test]
fn an_adjusted_authority_block_is_accepted() {
    let mut b = Block::new(0, default_symbol_table());
    b.symbol_insert("operation");
    b.symbol_insert("x");
    b.symbol_insert("y");
    let built = b.symbols.clone();
    Biscuit::adjust_authority_symbols(&mut b);
    assert_eq!(b.symbols, table(&["x", "y"]));
    let t = Biscuit::new(&b, |_: &Block| container(0)).unwrap();
    assert_eq!(t.symbols(), &built);
}

#[test]
fn decoded_blocks() {
    assert_eq!(
        accept_authority(Err("bad".to_string())).unwrap_err(),
        "error deserializing authority block: bad"
    );
    assert_eq!(
        accept_authority(Ok(block(3, &[]))).unwrap_err(),
        "authority block should have index 0"
    );
    assert_eq!(accept_authority(Ok(block(0, &["q"]))).unwrap().symbols, table(&["q"]));
    assert_eq!(
        accept_block(Err("bad".to_string()), 0).unwrap_err(),
        "error deserializing block: bad"
    );
    assert_eq!(accept_block(Ok(block(12, &[])), 0).unwrap_err(), "invalid index 12 for block n°1");
    assert_eq!(accept_block(Ok(block(0, &[])), 9).unwrap_err(), "invalid index 0 for block n°10");
    assert_eq!(accept_block(Ok(block(1, &[])), 0).unwrap().index, 1);
}

fn read(indices: &[u32]) -> Result<Biscuit, String> {
    // Each block is one byte: its index, or a sign that it cannot be decoded.
    let bytes: Vec<u8> = indices.iter().map(|i| *i as u8).collect();
    let load = |s: &[u8]| {
        if s.is_empty() {
            return Err("nothing to load".to_string());
        }
        Ok(SerializedBiscuit {
            authority: vec![s[0]],
            blocks: s[1..].iter().map(|b| vec![*b]).collect(),
            signature: vec![42],
        })
    };
    let decode = |s: &[u8]| {
        if s[0] == 255 {
            return Err("cut short".to_string());
        }
        let name = format!("s{}", s[0]);
        Ok(block(s[0] as u32, &[name.as_str()]))
    };
    Biscuit::from(&bytes, load, decode)
}

#[test]
fn reading_reports_the_first_fault() {
    assert_eq!(read(&[]).unwrap_err(), "nothing to load");
    assert_eq!(read(&[255]).unwrap_err(), "error deserializing authority block: cut short");
    assert_eq!(read(&[1, 255]).unwrap_err(), "authority block should have index 0");
    assert_eq!(read(&[0, 1, 255, 9]).unwrap_err(), "error deserializing block: cut short");
    assert_eq!(read(&[0, 1, 3, 255]).unwrap_err(), "invalid index 3 for block n°2");
    let t = read(&[0, 1, 2]).unwrap();
    assert_eq!(t.blocks().len(), 2);
    assert_eq!(t.symbols().symbols[7..], ["s0", "s1", "s2"]);
    assert_eq!(t.to_vec(|c: &SerializedBiscuit| c.signature.clone()), Some(vec![42]));
}

#[test]
fn reading_does_not_ask_for_disjoint_tables() {
    let load = |_: &[u8]| {
        Ok(SerializedBiscuit { authority: vec![0], blocks: vec![vec![1]], signature: vec![] })
    };
    let decode = |s: &[u8]| Ok(block(s[0] as u32, &["same"]));
    let t = Biscuit::from(&[], load, decode).unwrap();
    assert_eq!(t.symbols().symbols.len(), 9);
    assert_eq!(t.symbols().get("same"), Some(7));
}

#[test]
fn decimal_numbers() {
    assert_eq!(decimal_text(0), "0");
    assert_eq!(decimal_text(9), "9");
    assert_eq!(decimal_text(10), "10");
    assert_eq!(decimal_text(1234567890), "1234567890");
    assert_eq!(decimal_text(u64::MAX), "18446744073709551615");
}

#[test]
fn joined_texts() {
    let v = |parts: &[&str]| parts.iter().map(|s| s.to_string()).collect::<Vec<String>>();
    assert_eq!(join(&v(&[]), ", "), "");
    assert_eq!(join(&v(&["a"]), ", "), "a");
    assert_eq!(join(&v(&["", "b"]), ", "), ", b");
    assert_eq!(join(&v(&["a", "b", "c"]), ", "), "a, b, c");
    assert_eq!(
        lay_out_block(3, &"[]".to_string(), &v(&["f", "g"]), &v(&["r"])),
        "Block[3] {\n\t\tsymbols: []\n\t\tfacts: [\n\t\t\tf,\n\t\t\tg]\n\t\trules:[\n\t\t\tr]\n}"
    );
    assert_eq!(
        lay_out_token(&"[]".to_string(), &"A".to_string(), &v(&["B", "C"])),
        "Biscuit {\n\tsymbols: []\n\tauthority:\nA\n\tblocks: [\n\t\tB,\n\tC]\n}"
    );
}

#[test]
fn comparing_and_copying_terms() {
    let ids = vec![
        ID::Symbol(1),
        ID::Variable(1),
        ID::Integer(1),
        ID::Str("1".to_string()),
        ID::Str("2".to_string()),
        ID::Date(1),
    ];
    for (i, a) in ids.iter().enumerate() {
        for (j, b) in ids.iter().enumerate() {
            assert_eq!(a.same(b), i == j);
        }
        assert_eq!(&a.clone(), a);
    }
    let p = Predicate { name: 1, ids: ids.clone() };
    assert!(p.same(&p.clone()));
    assert!(!p.same(&Predicate { name: 2, ids: ids.clone() }));
    assert!(!p.same(&Predicate { name: 1, ids: ids[1..].to_vec() }));
    assert!(Fact(p.clone()).has_context(1));
    assert!(!Fact(p.clone()).has_context(2));
    assert!(!Fact(Predicate { name: 1, ids: vec![] }).has_context(0));
    let kinds = vec![
        ConstraintKind::IntLower(-1),
        ConstraintKind::IntLarger(2),
        ConstraintKind::IntEqual(3),
        ConstraintKind::IntIn(vec![4, 5]),
        ConstraintKind::IntNotIn(vec![6]),
        ConstraintKind::StrPrefix("a".to_string()),
        ConstraintKind::StrSuffix("b".to_string()),
        ConstraintKind::StrEqual("c".to_string()),
        ConstraintKind::StrIn(vec!["d".to_string()]),
        ConstraintKind::StrNotIn(vec!["e".to_string(), "f".to_string()]),
        ConstraintKind::DateBefore(7),
        ConstraintKind::DateAfter(8),
        ConstraintKind::SymbolIn(vec![9]),
        ConstraintKind::SymbolNotIn(vec![10]),
    ];
    let constraints: Vec<Constraint> =
        kinds.into_iter().map(|kind| Constraint { id: 2, kind }).collect();
    let r = Rule(p.clone(), vec![p.clone()], constraints);
    assert_eq!(r.clone(), r);
}
