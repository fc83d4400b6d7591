//! The Datalog values that a token carries: identifiers, predicates, facts and rules.
//!
//! Each type has a model, written with mathematical sequences, that contracts speak of.
use vstd::prelude::*;

verus! {

/// The models of the elements of a sequence.
pub open spec fn views<T: View>(s: Seq<T>) -> Seq<T::V> {
    s.map_values(|t: T| t.view())
}

/// Copies a vector whose elements have copies with the same model.
pub fn copy_all<T: View + Clone>(v: &Vec<T>) -> (r: Vec<T>)
    requires
        forall|a: T, b: T| #[trigger] cloned(a, b) ==> a.view() == b.view(),
    ensures
        views(r@) == views(v@),
{
    let r = v.clone();
    assert forall|i: int| 0 <= i < v@.len() implies views(r@)[i] == views(v@)[i] by {
        assert(cloned(v@[i], r@[i]));
    }
    assert(views(r@) =~= views(v@));
    r
}

/// A value in a predicate.
#[derive(Debug, PartialEq, Eq, Hash)]
pub enum ID {
    /// An index into a symbol table.
    Symbol(u64),
    /// A variable of a rule.
    Variable(u32),
    /// An integer.
    Integer(i64),
    /// A string.
    Str(String),
    /// A date, in seconds.
    Date(u64),
}

/// The model of an [`ID`].
pub enum IdModel {
    Symbol(u64),
    Variable(u32),
    Integer(i64),
    Str(Seq<char>),
    Date(u64),
}

impl View for ID {
    type V = IdModel;

    open spec fn view(&self) -> IdModel {
        match self {
            ID::Symbol(s) => IdModel::Symbol(*s),
            ID::Variable(v) => IdModel::Variable(*v),
            ID::Integer(i) => IdModel::Integer(*i),
            ID::Str(s) => IdModel::Str(s@),
            ID::Date(d) => IdModel::Date(*d),
        }
    }
}

impl Clone for ID {
    fn clone(&self) -> (r: Self)
        ensures
            r@ == self@,
    {
        match self {
            ID::Symbol(s) => ID::Symbol(*s),
            ID::Variable(v) => ID::Variable(*v),
            ID::Integer(i) => ID::Integer(*i),
            ID::Str(s) => ID::Str(s.clone()),
            ID::Date(d) => ID::Date(*d),
        }
    }
}

impl ID {
    /// Whether two identifiers are the same value.
    pub fn same(&self, other: &ID) -> (r: bool)
        ensures
            r == (self@ == other@),
    {
        match (self, other) {
            (ID::Symbol(a), ID::Symbol(b)) => *a == *b,
            (ID::Variable(a), ID::Variable(b)) => *a == *b,
            (ID::Integer(a), ID::Integer(b)) => *a == *b,
            (ID::Str(a), ID::Str(b)) => *a == *b,
            (ID::Date(a), ID::Date(b)) => *a == *b,
            _ => false,
        }
    }
}

/// A name, as an index into a symbol table, applied to identifiers.
#[derive(Debug, PartialEq, Eq, Hash)]
pub struct Predicate {
    pub name: u64,
    pub ids: Vec<ID>,
}

/// The model of a [`Predicate`].
#[verifier::ext_equal]
pub struct PredicateModel {
    pub name: u64,
    pub ids: Seq<IdModel>,
}

impl View for Predicate {
    type V = PredicateModel;

    open spec fn view(&self) -> PredicateModel {
        PredicateModel { name: self.name, ids: views(self.ids@) }
    }
}

impl Clone for Predicate {
    fn clone(&self) -> (r: Self)
        ensures
            r@ == self@,
    {
        Predicate { name: self.name, ids: copy_all(&self.ids) }
    }
}

impl Predicate {
    /// Whether two predicates have the same name and the same identifiers.
    pub fn same(&self, other: &Predicate) -> (r: bool)
        ensures
            r == (self@ == other@),
    {
        if self.name != other.name || self.ids.len() != other.ids.len() {
            assert(views(self.ids@).len() == self.ids@.len());
            assert(views(other.ids@).len() == other.ids@.len());
            return false;
        }
        for k in 0..self.ids.len()
            invariant
                self.ids@.len() == other.ids@.len(),
                forall|i: int| 0 <= i < k ==> self@.ids[i] == other@.ids[i],
        {
            if !self.ids[k].same(&other.ids[k]) {
                assert(self@.ids[k as int] != other@.ids[k as int]);
                return false;
            }
        }
        assert(self@.ids =~= other@.ids);
        true
    }
}

/// A predicate that is known to hold.
#[derive(Debug, PartialEq, Eq, Hash)]
pub struct Fact(pub Predicate);

impl View for Fact {
    type V = PredicateModel;

    open spec fn view(&self) -> PredicateModel {
        self.0@
    }
}

impl Clone for Fact {
    fn clone(&self) -> (r: Self)
        ensures
            r@ == self@,
    {
        Fact(self.0.clone())
    }
}

/// What a constraint asks of the value of its variable.
#[derive(Debug, PartialEq, Eq)]
pub enum ConstraintKind {
    IntLower(i64),
    IntLarger(i64),
    IntEqual(i64),
    IntIn(Vec<i64>),
    IntNotIn(Vec<i64>),
    StrPrefix(String),
    StrSuffix(String),
    StrEqual(String),
    StrIn(Vec<String>),
    StrNotIn(Vec<String>),
    DateBefore(u64),
    DateAfter(u64),
    SymbolIn(Vec<u64>),
    SymbolNotIn(Vec<u64>),
}

/// The model of a [`ConstraintKind`].
pub enum ConstraintKindModel {
    IntLower(i64),
    IntLarger(i64),
    IntEqual(i64),
    IntIn(Seq<i64>),
    IntNotIn(Seq<i64>),
    StrPrefix(Seq<char>),
    StrSuffix(Seq<char>),
    StrEqual(Seq<char>),
    StrIn(Seq<Seq<char>>),
    StrNotIn(Seq<Seq<char>>),
    DateBefore(u64),
    DateAfter(u64),
    SymbolIn(Seq<u64>),
    SymbolNotIn(Seq<u64>),
}

impl View for ConstraintKind {
    type V = ConstraintKindModel;

    open spec fn view(&self) -> ConstraintKindModel {
        match self {
            ConstraintKind::IntLower(i) => ConstraintKindModel::IntLower(*i),
            ConstraintKind::IntLarger(i) => ConstraintKindModel::IntLarger(*i),
            ConstraintKind::IntEqual(i) => ConstraintKindModel::IntEqual(*i),
            ConstraintKind::IntIn(v) => ConstraintKindModel::IntIn(v@),
            ConstraintKind::IntNotIn(v) => ConstraintKindModel::IntNotIn(v@),
            ConstraintKind::StrPrefix(s) => ConstraintKindModel::StrPrefix(s@),
            ConstraintKind::StrSuffix(s) => ConstraintKindModel::StrSuffix(s@),
            ConstraintKind::StrEqual(s) => ConstraintKindModel::StrEqual(s@),
            ConstraintKind::StrIn(v) => ConstraintKindModel::StrIn(views(v@)),
            ConstraintKind::StrNotIn(v) => ConstraintKindModel::StrNotIn(views(v@)),
            ConstraintKind::DateBefore(d) => ConstraintKindModel::DateBefore(*d),
            ConstraintKind::DateAfter(d) => ConstraintKindModel::DateAfter(*d),
            ConstraintKind::SymbolIn(v) => ConstraintKindModel::SymbolIn(v@),
            ConstraintKind::SymbolNotIn(v) => ConstraintKindModel::SymbolNotIn(v@),
        }
    }
}

/// Copies a vector of integers.
fn copy_i64s(v: &Vec<i64>) -> (r: Vec<i64>)
    ensures
        r@ == v@,
{
    let r = v.clone();
    assert(r@ =~= v@);
    r
}

/// Copies a vector of indices.
fn copy_u64s(v: &Vec<u64>) -> (r: Vec<u64>)
    ensures
        r@ == v@,
{
    let r = v.clone();
    assert(r@ =~= v@);
    r
}

impl Clone for ConstraintKind {
    fn clone(&self) -> (r: Self)
        ensures
            r@ == self@,
    {
        match self {
            ConstraintKind::IntLower(i) => ConstraintKind::IntLower(*i),
            ConstraintKind::IntLarger(i) => ConstraintKind::IntLarger(*i),
            ConstraintKind::IntEqual(i) => ConstraintKind::IntEqual(*i),
            ConstraintKind::IntIn(v) => ConstraintKind::IntIn(copy_i64s(v)),
            ConstraintKind::IntNotIn(v) => ConstraintKind::IntNotIn(copy_i64s(v)),
            ConstraintKind::StrPrefix(s) => ConstraintKind::StrPrefix(s.clone()),
            ConstraintKind::StrSuffix(s) => ConstraintKind::StrSuffix(s.clone()),
            ConstraintKind::StrEqual(s) => ConstraintKind::StrEqual(s.clone()),
            ConstraintKind::StrIn(v) => ConstraintKind::StrIn(copy_all(v)),
            ConstraintKind::StrNotIn(v) => ConstraintKind::StrNotIn(copy_all(v)),
            ConstraintKind::DateBefore(d) => ConstraintKind::DateBefore(*d),
            ConstraintKind::DateAfter(d) => ConstraintKind::DateAfter(*d),
            ConstraintKind::SymbolIn(v) => ConstraintKind::SymbolIn(copy_u64s(v)),
            ConstraintKind::SymbolNotIn(v) => ConstraintKind::SymbolNotIn(copy_u64s(v)),
        }
    }
}

/// A condition on the value of one variable of a rule.
#[derive(Debug, PartialEq, Eq)]
pub struct Constraint {
    pub id: u32,
    pub kind: ConstraintKind,
}

/// The model of a [`Constraint`].
pub struct ConstraintModel {
    pub id: u32,
    pub kind: ConstraintKindModel,
}

impl View for Constraint {
    type V = ConstraintModel;

    open spec fn view(&self) -> ConstraintModel {
        ConstraintModel { id: self.id, kind: self.kind@ }
    }
}

impl Clone for Constraint {
    fn clone(&self) -> (r: Self)
        ensures
            r@ == self@,
    {
        Constraint { id: self.id, kind: self.kind.clone() }
    }
}

/// A predicate that follows from other predicates under constraints.
#[derive(Debug, PartialEq, Eq)]
pub struct Rule(pub Predicate, pub Vec<Predicate>, pub Vec<Constraint>);

/// The model of a [`Rule`].
#[verifier::ext_equal]
pub struct RuleModel {
    pub head: PredicateModel,
    pub body: Seq<PredicateModel>,
    pub constraints: Seq<ConstraintModel>,
}

impl View for Rule {
    type V = RuleModel;

    open spec fn view(&self) -> RuleModel {
        RuleModel { head: self.0@, body: views(self.1@), constraints: views(self.2@) }
    }
}

impl Clone for Rule {
    fn clone(&self) -> (r: Self)
        ensures
            r@ == self@,
    {
        Rule(self.0.clone(), copy_all(&self.1), copy_all(&self.2))
    }
}

} // verus!
