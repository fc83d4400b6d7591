//! The texts that errors and printed tokens are made of.
use vstd::prelude::*;

use crate::terms::views;

verus! {

/// The decimal digits of `n`, without leading zeros.
pub open spec fn decimal(n: nat) -> Seq<char>
    decreases n,
{
    if n < 10 {
        seq![digit(n)]
    } else {
        decimal(n / 10).push(digit(n % 10))
    }
}

/// The character for a number below ten.
pub open spec fn digit(d: nat) -> char {
    (48 + d) as char
}

/// Writes `n` in decimal.
pub fn decimal_text(n: u64) -> (r: String)
    ensures
        r@ == decimal(n as nat),
    decreases n,
{
    let last: u64 = n % 10;
    let d = match last {
        0 => "0",
        1 => "1",
        2 => "2",
        3 => "3",
        4 => "4",
        5 => "5",
        6 => "6",
        7 => "7",
        8 => "8",
        _ => "9",
    };
    proof {
        reveal_strlit("0");
        reveal_strlit("1");
        reveal_strlit("2");
        reveal_strlit("3");
        reveal_strlit("4");
        reveal_strlit("5");
        reveal_strlit("6");
        reveal_strlit("7");
        reveal_strlit("8");
        reveal_strlit("9");
        assert(d@ =~= seq![digit(last as nat)]);
    }
    if n < 10 {
        d.to_owned()
    } else {
        let mut r = decimal_text(n / 10);
        r.append(d);
        assert(r@ =~= decimal(n as nat));
        r
    }
}

/// The texts one after another, with `separator` between them.
pub open spec fn joined(texts: Seq<Seq<char>>, separator: Seq<char>) -> Seq<char>
    decreases texts.len(),
{
    if texts.len() == 0 {
        Seq::empty()
    } else {
        let before = joined(texts.drop_last(), separator);
        (if texts.len() == 1 {
            before
        } else {
            before + separator
        }) + texts.last()
    }
}

/// Puts texts one after another, with `separator` between them.
pub fn join(texts: &Vec<String>, separator: &str) -> (r: String)
    ensures
        r@ == joined(views(texts@), separator@),
{
    let mut r = String::new();
    let ghost all = views(texts@);
    for k in 0..texts.len()
        invariant
            all == views(texts@),
            r@ == joined(all.take(k as int), separator@),
    {
        proof {
            assert(all.take(k + 1).drop_last() =~= all.take(k as int));
            assert(all.take(k + 1).last() == texts@[k as int]@);
        }
        if k > 0 {
            r.append(separator);
        }
        r.append(texts[k].as_str());
    }
    assert(all.take(texts@.len() as int) =~= all);
    r
}

/// What the formatting trait `Debug` of the standard library writes for a vector of strings: a
/// list in square brackets of the strings in quotes, with special characters escaped.
pub uninterp spec fn debug_text(strings: Seq<Seq<char>>) -> Seq<char>;

/// Formats a vector of strings with the standard library's `Debug`.
///
/// The contract claims that the text depends on the strings alone.
#[verifier::external_body]
pub(crate) fn debug_strings(strings: &Vec<String>) -> (r: String)
    ensures
        r@ == debug_text(views(strings@)),
{
    format!("{:?}", strings)
}

} // verus!
