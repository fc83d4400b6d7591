//! What the values of the library hold and what their own operations give, told in plain terms: by
//! fields, places and characters.
use vstd::prelude::*;

use crate::block::{messages_of, Block};
use crate::symbols::{
    default_symbol_table, default_symbols, disjoint, lemma_first_at_symbol, lemma_has_first,
    symbol_of, SymbolTable,
};
use crate::terms::{
    views, Constraint, ConstraintKind, ConstraintKindModel, Fact, IdModel, Predicate, Rule, ID,
};
use crate::text::{decimal, decimal_text, join, joined};
use crate::token::{SealedBiscuit, SerializedBiscuit};

verus! {

/// The models of the elements of a sequence are as many as the elements, each at its place.
pub proof fn law_views_by_place<T: View>(s: Seq<T>)
    ensures
        views(s).len() == s.len(),
        forall|i: int| 0 <= i < s.len() ==> #[trigger] views(s)[i] == s[i].view(),
{
}

/// Two identifiers have the same model exactly if they are of one kind and hold the same value.
pub proof fn law_id_model_is_its_value(a: ID, b: ID)
    ensures
        (a@ == b@) == match (a, b) {
            (ID::Symbol(x), ID::Symbol(y)) => x == y,
            (ID::Variable(x), ID::Variable(y)) => x == y,
            (ID::Integer(x), ID::Integer(y)) => x == y,
            (ID::Str(x), ID::Str(y)) => x@ == y@,
            (ID::Date(x), ID::Date(y)) => x == y,
            _ => false,
        },
        (a@ is Symbol) == (a is Symbol),
        a is Symbol ==> a@ == IdModel::Symbol(a->Symbol_0),
{
}

/// `ID::same` compares kinds and values.
pub proof fn law_same_ids(a: ID, b: ID, r: bool)
    requires
        call_ensures(ID::same, (&a, &b), r),
    ensures
        r == match (a, b) {
            (ID::Symbol(x), ID::Symbol(y)) => x == y,
            (ID::Variable(x), ID::Variable(y)) => x == y,
            (ID::Integer(x), ID::Integer(y)) => x == y,
            (ID::Str(x), ID::Str(y)) => x@ == y@,
            (ID::Date(x), ID::Date(y)) => x == y,
            _ => false,
        },
{
}

/// The model of a predicate has its name and the models of its identifiers, each at its place.
pub proof fn law_predicate_model(p: Predicate)
    ensures
        p@.name == p.name,
        p@.ids.len() == p.ids@.len(),
        forall|k: int| 0 <= k < p.ids@.len() ==> #[trigger] p@.ids[k] == p.ids@[k]@,
{
}

/// `Predicate::same` compares names, numbers of identifiers, and identifiers place by place.
pub proof fn law_same_predicates(a: Predicate, b: Predicate, r: bool)
    requires
        call_ensures(Predicate::same, (&a, &b), r),
    ensures
        r == (a.name == b.name && a.ids@.len() == b.ids@.len() && forall|k: int|
            #![trigger a.ids@[k]]
            #![trigger b.ids@[k]]
            0 <= k < a.ids@.len() ==> a.ids@[k]@ == b.ids@[k]@),
{
    if a.name == b.name && a.ids@.len() == b.ids@.len() && forall|k: int|
        #![trigger a.ids@[k]]
        #![trigger b.ids@[k]]
        0 <= k < a.ids@.len() ==> a.ids@[k]@ == b.ids@[k]@ {
        assert forall|k: int| 0 <= k < a@.ids.len() implies #[trigger] a@.ids[k] == b@.ids[k] by {
            assert(a.ids@[k]@ == b.ids@[k]@);
        }
        assert(a@.ids =~= b@.ids);
    }
    if a@ == b@ {
        assert forall|k: int|
            #![trigger a.ids@[k]]
            #![trigger b.ids@[k]]
            0 <= k < a.ids@.len() implies a.ids@[k]@ == b.ids@[k]@ by {
            assert(a@.ids[k] == b@.ids[k]);
        }
        assert(a@.ids.len() == a.ids@.len() && b@.ids.len() == b.ids@.len());
    }
}

/// The model of a fact is that of its predicate.
pub proof fn law_fact_model(f: Fact)
    ensures
        f@.name == f.0.name,
        f@.ids.len() == f.0.ids@.len(),
        forall|k: int| 0 <= k < f.0.ids@.len() ==> #[trigger] f@.ids[k] == f.0.ids@[k]@,
{
}

/// `Fact::has_context` says whether there is a first identifier and it is this symbol.
pub proof fn law_has_context(f: Fact, context: u64, r: bool)
    requires
        call_ensures(Fact::has_context, (&f, context), r),
    ensures
        r == (f.0.ids@.len() > 0 && f.0.ids@[0] == ID::Symbol(context)),
{
    if f.0.ids@.len() > 0 {
        assert(f@.ids[0] == f.0.ids@[0]@);
    }
}

/// The model of a constraint has its variable, and a kind of the same name with the same values.
pub proof fn law_constraint_model(c: Constraint)
    ensures
        c@.id == c.id,
        match c.kind {
            ConstraintKind::IntLower(i) => c@.kind == ConstraintKindModel::IntLower(i),
            ConstraintKind::IntLarger(i) => c@.kind == ConstraintKindModel::IntLarger(i),
            ConstraintKind::IntEqual(i) => c@.kind == ConstraintKindModel::IntEqual(i),
            ConstraintKind::IntIn(v) => c@.kind == ConstraintKindModel::IntIn(v@),
            ConstraintKind::IntNotIn(v) => c@.kind == ConstraintKindModel::IntNotIn(v@),
            ConstraintKind::StrPrefix(s) => c@.kind == ConstraintKindModel::StrPrefix(s@),
            ConstraintKind::StrSuffix(s) => c@.kind == ConstraintKindModel::StrSuffix(s@),
            ConstraintKind::StrEqual(s) => c@.kind == ConstraintKindModel::StrEqual(s@),
            ConstraintKind::StrIn(v) => c@.kind == ConstraintKindModel::StrIn(
                Seq::new(v@.len(), |k: int| v@[k]@),
            ),
            ConstraintKind::StrNotIn(v) => c@.kind == ConstraintKindModel::StrNotIn(
                Seq::new(v@.len(), |k: int| v@[k]@),
            ),
            ConstraintKind::DateBefore(d) => c@.kind == ConstraintKindModel::DateBefore(d),
            ConstraintKind::DateAfter(d) => c@.kind == ConstraintKindModel::DateAfter(d),
            ConstraintKind::SymbolIn(v) => c@.kind == ConstraintKindModel::SymbolIn(v@),
            ConstraintKind::SymbolNotIn(v) => c@.kind == ConstraintKindModel::SymbolNotIn(v@),
        },
{
    match c.kind {
        ConstraintKind::StrIn(v) => {
            assert(views(v@) =~= Seq::new(v@.len(), |k: int| v@[k]@));
        },
        ConstraintKind::StrNotIn(v) => {
            assert(views(v@) =~= Seq::new(v@.len(), |k: int| v@[k]@));
        },
        _ => {},
    }
}

/// The model of a rule has its head, its body and its constraints, each at its place.
pub proof fn law_rule_model(r: Rule)
    ensures
        r@.head == r.0@,
        r@.body.len() == r.1@.len(),
        forall|k: int| 0 <= k < r.1@.len() ==> #[trigger] r@.body[k] == r.1@[k]@,
        r@.constraints.len() == r.2@.len(),
        forall|k: int| 0 <= k < r.2@.len() ==> #[trigger] r@.constraints[k] == r.2@[k]@,
{
}

/// The model of a block has its index, and its strings, facts and caveats, each at its place.
pub proof fn law_block_model(b: Block)
    ensures
        b@.index == b.index,
        b@.symbols.len() == b.symbols.symbols@.len(),
        forall|k: int|
            0 <= k < b.symbols.symbols@.len() ==> #[trigger] b@.symbols[k]
                == b.symbols.symbols@[k]@,
        b@.facts.len() == b.facts@.len(),
        forall|k: int| 0 <= k < b.facts@.len() ==> #[trigger] b@.facts[k] == b.facts@[k]@,
        b@.caveats.len() == b.caveats@.len(),
        forall|k: int| 0 <= k < b.caveats@.len() ==> #[trigger] b@.caveats[k] == b.caveats@[k]@,
{
}

/// The models of containers have the bytes of their parts, each block at its place.
pub proof fn law_container_models(c: SerializedBiscuit, d: SealedBiscuit)
    ensures
        c@.authority == c.authority@,
        c@.signature == c.signature@,
        c@.blocks.len() == c.blocks@.len(),
        forall|k: int| 0 <= k < c.blocks@.len() ==> #[trigger] c@.blocks[k] == c.blocks@[k]@,
        d@.authority == d.authority@,
        d@.signature == d.signature@,
        d@.blocks.len() == d.blocks@.len(),
        forall|k: int| 0 <= k < d.blocks@.len() ==> #[trigger] d@.blocks[k] == d.blocks@[k]@,
{
}

/// A check that succeeds has no messages, and one that fails has those that it returns.
pub proof fn law_messages_of(r: Result<(), Vec<String>>)
    ensures
        r is Ok ==> messages_of(r).len() == 0,
        r is Err ==> messages_of(r).len() == r->Err_0@.len() && forall|k: int|
            0 <= k < r->Err_0@.len() ==> #[trigger] messages_of(r)[k] == r->Err_0@[k]@,
{
}

/// Copies hold the same as what they were made of.
pub proof fn law_copies(
    block: Block,
    same_block: Block,
    fact: Fact,
    same_fact: Fact,
    rule: Rule,
    same_rule: Rule,
    table: SymbolTable,
    same_table: SymbolTable,
    container: SerializedBiscuit,
    same_container: SerializedBiscuit,
)
    requires
        call_ensures(Block::clone, (&block,), same_block),
        call_ensures(Fact::clone, (&fact,), same_fact),
        call_ensures(Rule::clone, (&rule,), same_rule),
        call_ensures(SymbolTable::clone, (&table,), same_table),
        call_ensures(SerializedBiscuit::clone, (&container,), same_container),
    ensures
        same_block@ == block@,
        same_fact@ == fact@,
        same_rule@ == rule@,
        same_table@ == table@,
        same_container@ == container@,
{
}

/// The model of a symbol table has its strings, each at its place.
pub proof fn law_symbol_table_model(t: SymbolTable)
    ensures
        t@.len() == t.symbols@.len(),
        forall|k: int| 0 <= k < t.symbols@.len() ==> #[trigger] t@[k] == t.symbols@[k]@,
{
}

/// A table without strings has none.
pub proof fn law_new_table(t: SymbolTable)
    requires
        call_ensures(SymbolTable::new, (), t),
    ensures
        t.symbols@.len() == 0,
{
    law_symbol_table_model(t);
}

/// `get` gives the first place of a string, and nothing only where no place holds it.
pub proof fn law_get(t: SymbolTable, s: &str, r: Option<u64>)
    requires
        call_ensures(SymbolTable::get, (&t, s), r),
    ensures
        match r {
            Some(i) => i < t.symbols@.len() && t.symbols@[i as int]@ == s@ && forall|j: int|
                0 <= j < i ==> (#[trigger] t.symbols@[j])@ != s@,
            None => forall|j: int| 0 <= j < t.symbols@.len() ==> (#[trigger] t.symbols@[j])@ != s@,
        },
{
    law_symbol_table_model(t);
    assert forall|j: int| 0 <= j < t.symbols@.len() implies (#[trigger] t.symbols@[j])@
        == t@[j] by {
        assert(t@[j] == t.symbols@[j]@);
    }
    if r is None {
        assert forall|j: int| 0 <= j < t.symbols@.len() implies (#[trigger] t.symbols@[j])@
            != s@ by {
            assert(t@[j] == t.symbols@[j]@);
            if t@[j] == s@ {
                assert(t@.contains(s@));
            }
        }
    }
}

/// `insert` leaves every string where it is, adds the string at the end only where no place holds
/// it, and gives its first place.
pub proof fn law_insert(t: &mut SymbolTable, s: &str, r: u64)
    requires
        call_ensures(SymbolTable::insert, (t, s), r),
    ensures
        old(t)@.len() <= final(t)@.len() <= old(t)@.len() + 1,
        forall|j: int| 0 <= j < old(t)@.len() ==> #[trigger] final(t)@[j] == old(t)@[j],
        r < final(t)@.len(),
        final(t)@[r as int] == s@,
        forall|j: int| 0 <= j < r ==> #[trigger] final(t)@[j] != s@,
        final(t)@.len() == old(t)@.len() + 1 ==> r == old(t)@.len(),
        (final(t)@.len() == old(t)@.len()) == (exists|j: int|
            0 <= j < old(t)@.len() && #[trigger] old(t)@[j] == s@),
{
    if old(t)@.contains(s@) {
        let j = choose|j: int| 0 <= j < old(t)@.len() && old(t)@[j] == s@;
        assert(old(t)@[j] == s@);
    } else {
        assert forall|j: int| 0 <= j < old(t)@.len() implies #[trigger] old(t)@[j] != s@ by {
            if old(t)@[j] == s@ {
                assert(old(t)@.contains(s@));
            }
        }
        if r < old(t)@.len() {
            assert(final(t)@[r as int] == old(t)@[r as int]);
        }
    }
}

/// `add` does to a table what `insert` does, and gives the place of the string as a symbol.
pub proof fn law_add(t: &mut SymbolTable, s: &str, r: ID)
    requires
        call_ensures(SymbolTable::add, (t, s), r),
        final(t)@.len() <= u64::MAX,
    ensures
        old(t)@.len() <= final(t)@.len() <= old(t)@.len() + 1,
        forall|j: int| 0 <= j < old(t)@.len() ==> #[trigger] final(t)@[j] == old(t)@[j],
        (final(t)@.len() == old(t)@.len()) == (exists|j: int|
            0 <= j < old(t)@.len() && #[trigger] old(t)@[j] == s@),
        r is Symbol,
        r->Symbol_0 < final(t)@.len(),
        final(t)@[r->Symbol_0 as int] == s@,
        forall|j: int| 0 <= j < r->Symbol_0 ==> #[trigger] final(t)@[j] != s@,
{
    if old(t)@.contains(s@) {
        let j = choose|j: int| 0 <= j < old(t)@.len() && old(t)@[j] == s@;
        assert(old(t)@[j] == s@);
    } else {
        assert forall|j: int| 0 <= j < old(t)@.len() implies #[trigger] old(t)@[j] != s@ by {
            if old(t)@[j] == s@ {
                assert(old(t)@.contains(s@));
            }
        }
        assert(final(t)@[old(t)@.len() as int] == s@);
    }
    assert(final(t)@.contains(s@));
    lemma_symbol_is_first_place(final(t)@, s@);
}

/// The symbol of a string that a table holds is its first place.
pub proof fn lemma_symbol_is_first_place(table: Seq<Seq<char>>, s: Seq<char>)
    requires
        table.contains(s),
        table.len() <= u64::MAX,
    ensures
        symbol_of(table, s) < table.len(),
        table[symbol_of(table, s) as int] == s,
        forall|j: int|
            0 <= j < symbol_of(table, s) ==> #[trigger] table[j] != s,
{
    let i = lemma_has_first(table, s);
    lemma_first_at_symbol(table, s, i);
}

/// `holds` says whether some place has the string.
pub proof fn law_holds(t: SymbolTable, s: String, r: bool)
    requires
        call_ensures(SymbolTable::holds, (&t, &s), r),
    ensures
        r == exists|j: int| 0 <= j < t.symbols@.len() && (#[trigger] t.symbols@[j])@ == s@,
{
    if r {
        let j = choose|j: int| 0 <= j < t@.len() && t@[j] == s@;
        assert(t.symbols@[j]@ == s@);
    } else {
        assert forall|j: int| 0 <= j < t.symbols@.len() implies (#[trigger] t.symbols@[j])@
            != s@ by {
            assert(t@[j] == t.symbols@[j]@);
            if t@[j] == s@ {
                assert(t@.contains(s@));
            }
        }
    }
}

/// Some place of the one list and some place of the other have the same string.
pub open spec fn share_a_string(a: Seq<Seq<char>>, b: Seq<Seq<char>>) -> bool {
    exists|i: int, j: int|
        0 <= i < a.len() && 0 <= j < b.len() && #[trigger] a[i] == #[trigger] b[j]
}

/// Lists that share no string are disjoint, and only they.
pub proof fn lemma_disjoint_by_place(a: Seq<Seq<char>>, b: Seq<Seq<char>>)
    ensures
        disjoint(a, b) == !share_a_string(a, b),
{
    if share_a_string(a, b) {
        let (i, j) = choose|i: int, j: int|
            0 <= i < a.len() && 0 <= j < b.len() && #[trigger] a[i] == #[trigger] b[j];
        assert(a.contains(a[i]) && b.contains(b[j]));
    }
    if !disjoint(a, b) {
        let s = choose|s: Seq<char>| #[trigger] a.contains(s) && b.contains(s);
        let i = choose|i: int| 0 <= i < a.len() && a[i] == s;
        let j = choose|j: int| 0 <= j < b.len() && b[j] == s;
        assert(a[i] == b[j]);
    }
}

/// `is_disjoint` says whether no place of the one table has the string of a place of the other.
pub proof fn law_is_disjoint(a: SymbolTable, b: SymbolTable, r: bool)
    requires
        call_ensures(SymbolTable::is_disjoint, (&a, &b), r),
    ensures
        r == forall|i: int, j: int|
            0 <= i < a.symbols@.len() && 0 <= j < b.symbols@.len() ==> (#[trigger] a.symbols@[i])@
                != (#[trigger] b.symbols@[j])@,
{
    lemma_disjoint_by_place(a@, b@);
    if !r {
        let (i, j) = choose|i: int, j: int|
            0 <= i < a@.len() && 0 <= j < b@.len() && #[trigger] a@[i] == #[trigger] b@[j];
        assert(a.symbols@[i]@ == b.symbols@[j]@);
    } else {
        assert forall|i: int, j: int|
            0 <= i < a.symbols@.len() && 0 <= j < b.symbols@.len() implies (
        #[trigger] a.symbols@[i])@ != (#[trigger] b.symbols@[j])@ by {
            assert(a@[i] == a.symbols@[i]@ && b@[j] == b.symbols@[j]@);
        }
    }
}

/// `extend` leaves every string where it is and puts those of the other table behind, in order.
pub proof fn law_extend(t: &mut SymbolTable, other: SymbolTable)
    requires
        call_ensures(SymbolTable::extend, (t, &other), ()),
    ensures
        final(t)@.len() == old(t)@.len() + other.symbols@.len(),
        forall|j: int| 0 <= j < old(t)@.len() ==> #[trigger] final(t)@[j] == old(t)@[j],
        forall|j: int|
            0 <= j < other.symbols@.len() ==> final(t)@[old(t)@.len() + j] == (
            #[trigger] other.symbols@[j])@,
{
    assert forall|j: int| 0 <= j < other.symbols@.len() implies final(t)@[old(t)@.len() + j] == (
    #[trigger] other.symbols@[j])@ by {
        assert(other@[j] == other.symbols@[j]@);
    }
}

/// The seven strings that stand first in every token, by their symbols.
pub open spec fn first_strings() -> Seq<Seq<char>> {
    seq![
        "authority"@,
        "ambient"@,
        "resource"@,
        "operation"@,
        "right"@,
        "current_time"@,
        "revocation_id"@,
    ]
}

/// The default table has the seven strings, in this order and no others.
pub proof fn law_default_symbol_table(t: SymbolTable)
    requires
        call_ensures(default_symbol_table, (), t),
    ensures
        default_symbols() == first_strings(),
        t@ == first_strings(),
        t.symbols@.len() == 7,
        t.symbols@[0]@ == "authority"@,
        t.symbols@[1]@ == "ambient"@,
        t.symbols@[2]@ == "resource"@,
        t.symbols@[3]@ == "operation"@,
        t.symbols@[4]@ == "right"@,
        t.symbols@[5]@ == "current_time"@,
        t.symbols@[6]@ == "revocation_id"@,
{
    assert(t@ == first_strings());
    law_symbol_table_model(t);
    assert(t@[0] == "authority"@ && t@[1] == "ambient"@ && t@[2] == "resource"@ && t@[3]
        == "operation"@ && t@[4] == "right"@ && t@[5] == "current_time"@ && t@[6]
        == "revocation_id"@);
}

/// The number that decimal digits stand for.
pub open spec fn number_of(digits: Seq<char>) -> int
    decreases digits.len(),
{
    if digits.len() == 0 {
        0
    } else {
        number_of(digits.drop_last()) * 10 + (digits.last() as int - '0' as int)
    }
}

/// The digits of a number stand for that number, and none leads that is zero.
pub proof fn law_decimal_is_the_number(n: nat)
    ensures
        decimal(n).len() > 0,
        forall|k: int| 0 <= k < decimal(n).len() ==> '0' <= #[trigger] decimal(n)[k] <= '9',
        n > 0 ==> decimal(n)[0] != '0',
        n == 0 ==> decimal(n).len() == 1,
        number_of(decimal(n)) == n,
    decreases n,
{
    reveal_with_fuel(number_of, 2);
    if n >= 10 {
        law_decimal_is_the_number(n / 10);
        assert(decimal(n).drop_last() =~= decimal(n / 10));
    } else {
        assert(decimal(n).drop_last() =~= Seq::empty());
    }
}

/// `decimal_text` writes the digits of the number that it is given.
pub proof fn law_decimal_text(n: u64, r: String)
    requires
        call_ensures(decimal_text, (n,), r),
    ensures
        number_of(r@) == n,
        forall|k: int| 0 <= k < r@.len() ==> '0' <= #[trigger] r@[k] <= '9',
        r@.len() > 0,
        r@.len() > 1 ==> r@[0] != '0',
{
    law_decimal_is_the_number(n as nat);
}

/// Joining nothing gives nothing, joining one text gives that text, and joining texts in two parts
/// gives what joining each part does, with the separator between.
pub proof fn law_joined(a: Seq<Seq<char>>, b: Seq<Seq<char>>, separator: Seq<char>)
    ensures
        a.len() == 0 ==> joined(a, separator).len() == 0,
        a.len() == 1 ==> joined(a, separator) == a[0],
        a.len() > 0 && b.len() > 0 ==> joined(a + b, separator) == joined(a, separator) + separator
            + joined(b, separator),
    decreases b.len(),
{
    reveal_with_fuel(joined, 2);
    if a.len() == 1 {
        assert(a.drop_last() =~= Seq::empty());
        assert(joined(a, separator) =~= a[0]);
    }
    if a.len() > 0 && b.len() > 0 {
        let whole = a + b;
        assert(whole.drop_last() =~= a + b.drop_last());
        assert(whole.last() == b.last());
        if b.len() == 1 {
            assert(b.drop_last() =~= Seq::empty());
            assert(a + b.drop_last() =~= a);
            assert(joined(b, separator) =~= b.last());
        } else {
            law_joined(a, b.drop_last(), separator);
        }
        assert(joined(whole, separator) =~= joined(a, separator) + separator + joined(
            b,
            separator,
        ));
    }
}

/// `join` gives nothing for no texts, the text for one, and for texts in two parts what it gives
/// for each part with the separator between.
pub proof fn law_join(
    all: Vec<String>,
    a: Vec<String>,
    b: Vec<String>,
    separator: &str,
    whole: String,
    front: String,
    back: String,
)
    requires
        views(all@) == views(a@) + views(b@),
        call_ensures(join, (&all, separator), whole),
        call_ensures(join, (&a, separator), front),
        call_ensures(join, (&b, separator), back),
    ensures
        a@.len() == 0 ==> front@.len() == 0 && whole@ == back@,
        a@.len() == 1 ==> front@ == a@[0]@,
        a@.len() > 0 && b@.len() > 0 ==> whole@ == front@ + separator@ + back@,
{
    law_joined(views(a@), views(b@), separator@);
    if a@.len() == 0 {
        assert(views(all@) =~= views(b@));
    }
}

} // verus!
