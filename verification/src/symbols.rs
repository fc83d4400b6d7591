//! Symbol tables: the strings that the predicates of a token refer to by index.
use vstd::prelude::*;

use crate::terms::{copy_all, views, IdModel, ID};

verus! {

/// Strings in the order in which they were met; a symbol is an index into them.
#[derive(Debug, PartialEq, Eq)]
pub struct SymbolTable {
    pub symbols: Vec<String>,
}

impl View for SymbolTable {
    type V = Seq<Seq<char>>;

    open spec fn view(&self) -> Seq<Seq<char>> {
        views(self.symbols@)
    }
}

impl Clone for SymbolTable {
    fn clone(&self) -> (r: Self)
        ensures
            r@ == self@,
    {
        SymbolTable { symbols: copy_all(&self.symbols) }
    }
}

/// `i` is the first place of `s` in `table`.
pub open spec fn first_at(table: Seq<Seq<char>>, s: Seq<char>, i: int) -> bool {
    &&& 0 <= i < table.len()
    &&& table[i] == s
    &&& forall|j: int| 0 <= j < i ==> #[trigger] table[j] != s
}

/// The symbol of a string that `table` holds.
pub open spec fn symbol_of(table: Seq<Seq<char>>, s: Seq<char>) -> u64
    recommends
        table.contains(s),
{
    (choose|i: int| first_at(table, s, i)) as u64
}

/// `table` with `s` at its end, unless it holds `s` already.
pub open spec fn with_symbol(table: Seq<Seq<char>>, s: Seq<char>) -> Seq<Seq<char>> {
    if table.contains(s) {
        table
    } else {
        table.push(s)
    }
}

/// No string stands in both tables.
pub open spec fn disjoint(a: Seq<Seq<char>>, b: Seq<Seq<char>>) -> bool {
    forall|s: Seq<char>| !(#[trigger] a.contains(s) && b.contains(s))
}

/// A string has one first place, and it is its symbol.
pub proof fn lemma_first_at_symbol(table: Seq<Seq<char>>, s: Seq<char>, i: int)
    requires
        first_at(table, s, i),
    ensures
        symbol_of(table, s) == i as u64,
{
    let k = choose|k: int| first_at(table, s, k);
    assert(first_at(table, s, k));
    if k < i {
        assert(table[k] != s);
    }
    if i < k {
        assert(table[i] != s);
    }
}

/// A string that a table holds has a first place.
pub proof fn lemma_has_first(table: Seq<Seq<char>>, s: Seq<char>) -> (i: int)
    requires
        table.contains(s),
    ensures
        first_at(table, s, i),
    decreases table.len(),
{
    let front = table.drop_last();
    if front.contains(s) {
        let i = lemma_has_first(front, s);
        assert(table =~= front + seq![table.last()]);
        lemma_first_at_prefix(front, seq![table.last()], s, i);
        i
    } else {
        let i = table.len() - 1;
        assert forall|j: int| 0 <= j < i implies #[trigger] table[j] != s by {
            assert(front[j] == table[j]);
        }
        i
    }
}

/// More strings at the end of a table leave the first places where they are.
pub proof fn lemma_first_at_prefix(a: Seq<Seq<char>>, b: Seq<Seq<char>>, s: Seq<char>, i: int)
    requires
        first_at(a, s, i),
    ensures
        first_at(a + b, s, i),
{
    assert forall|j: int| 0 <= j < i implies #[trigger] (a + b)[j] != s by {
        assert(a[j] != s);
    }
}

impl SymbolTable {
    /// An empty table.
    pub fn new() -> (r: SymbolTable)
        ensures
            r@ == Seq::<Seq<char>>::empty(),
    {
        let r = SymbolTable { symbols: Vec::new() };
        assert(r@ =~= Seq::<Seq<char>>::empty());
        r
    }

    /// The symbol of `s`, if the table holds `s`.
    pub fn get(&self, s: &str) -> (r: Option<u64>)
        ensures
            match r {
                Some(i) => first_at(self@, s@, i as int) && i == symbol_of(self@, s@),
                None => !self@.contains(s@),
            },
    {
        let wanted = s.to_owned();
        for k in 0..self.symbols.len()
            invariant
                wanted@ == s@,
                forall|j: int| 0 <= j < k ==> #[trigger] self@[j] != s@,
        {
            assert(self@[k as int] == self.symbols@[k as int]@);
            if self.symbols[k] == wanted {
                proof {
                    lemma_first_at_symbol(self@, s@, k as int);
                }
                return Some(k as u64);
            }
        }
        None
    }

    /// The symbol of `s`, which is put at the end of the table if it is not there yet.
    pub fn insert(&mut self, s: &str) -> (r: u64)
        ensures
            final(self)@ == with_symbol(old(self)@, s@),
            first_at(final(self)@, s@, r as int),
            r == symbol_of(final(self)@, s@),
    {
        match self.get(s) {
            Some(i) => i,
            None => {
                let place: usize = self.symbols.len();
                self.symbols.push(s.to_owned());
                assert(self@ =~= old(self)@.push(s@));
                proof {
                    assert forall|j: int| 0 <= j < place implies #[trigger] self@[j] != s@ by {
                        assert(old(self)@[j] == self@[j]);
                    }
                    lemma_first_at_symbol(self@, s@, place as int);
                }
                place as u64
            },
        }
    }

    /// The identifier that stands for `s`, which is put into the table as [`SymbolTable::insert`]
    /// does.
    pub fn add(&mut self, s: &str) -> (r: ID)
        ensures
            final(self)@ == with_symbol(old(self)@, s@),
            r@ == IdModel::Symbol(symbol_of(final(self)@, s@)),
    {
        ID::Symbol(self.insert(s))
    }

    /// Whether the table holds `s`.
    pub fn holds(&self, s: &String) -> (r: bool)
        ensures
            r == self@.contains(s@),
    {
        self.get(s.as_str()).is_some()
    }

    /// Whether no string stands in both tables.
    pub fn is_disjoint(&self, other: &SymbolTable) -> (r: bool)
        ensures
            r == disjoint(self@, other@),
    {
        for k in 0..other.symbols.len()
            invariant
                forall|j: int| 0 <= j < k ==> !self@.contains(#[trigger] other@[j]),
        {
            assert(other@[k as int] == other.symbols@[k as int]@);
            if self.holds(&other.symbols[k]) {
                assert(other@.contains(other@[k as int]));
                return false;
            }
        }
        assert forall|s: Seq<char>| !(#[trigger] self@.contains(s) && other@.contains(s)) by {
            if other@.contains(s) {
                let j = choose|j: int| 0 <= j < other@.len() && other@[j] == s;
                assert(!self@.contains(other@[j]));
            }
        }
        true
    }

    /// Puts copies of the strings of `other`, in their order, at the end of the table.
    pub fn extend(&mut self, other: &SymbolTable)
        ensures
            final(self)@ == old(self)@ + other@,
    {
        let mut more = copy_all(&other.symbols);
        let ghost added = more@;
        self.symbols.append(&mut more);
        assert(self@ =~= old(self)@ + views(added));
    }
}

/// The strings that every token knows, in the order of their symbols.
pub open spec fn default_symbols() -> Seq<Seq<char>> {
    seq![
        "authority"@,
        "ambient"@,
        "resource"@,
        "operation"@,
        "right"@,
        "current_time"@,
        "revocation_id"@,
    ]
}

/// The default strings are seven different ones.
pub proof fn lemma_default_symbols_distinct()
    ensures
        default_symbols().no_duplicates(),
        default_symbols().len() == 7,
{
    reveal_strlit("authority");
    reveal_strlit("ambient");
    reveal_strlit("resource");
    reveal_strlit("operation");
    reveal_strlit("right");
    reveal_strlit("current_time");
    reveal_strlit("revocation_id");
    let d = default_symbols();
    assert(d[0].len() == 9 && d[1].len() == 7 && d[2].len() == 8 && d[3].len() == 9 && d[4].len()
        == 5 && d[5].len() == 12 && d[6].len() == 13);
    assert(d[0][0] == 'a' && d[3][0] == 'o');
}

/// The table that every token starts from.
pub fn default_symbol_table() -> (r: SymbolTable)
    ensures
        r@ == default_symbols(),
{
    let mut syms = SymbolTable::new();
    proof {
        lemma_default_symbols_distinct();
    }
    let ghost d = default_symbols();
    syms.insert("authority");
    assert(syms@ =~= d.take(1));
    syms.insert("ambient");
    assert(syms@ =~= d.take(2));
    syms.insert("resource");
    assert(syms@ =~= d.take(3));
    syms.insert("operation");
    assert(syms@ =~= d.take(4));
    syms.insert("right");
    assert(syms@ =~= d.take(5));
    syms.insert("current_time");
    assert(syms@ =~= d.take(6));
    syms.insert("revocation_id");
    assert(syms@ =~= d);
    syms
}

} // verus!
