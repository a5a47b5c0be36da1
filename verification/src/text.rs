//! Rendering of counts as text.

use vstd::prelude::*;
use vstd::string::StringExecFns;

verus! {

/// The character that writes the digit `d`.
pub open spec fn digit_char(d: nat) -> char
    recommends
        d < 10,
{
    seq!['0', '1', '2', '3', '4', '5', '6', '7', '8', '9'][d as int]
}

/// The decimal numeral of `n`, most significant digit first, without leading zeros.
pub open spec fn decimal(n: nat) -> Seq<char>
    decreases n,
{
    if n < 10 {
        seq![digit_char(n)]
    } else {
        decimal(n / 10).push(digit_char(n % 10))
    }
}

/// The plural ending that follows a count of `num` things.
pub open spec fn plural_suffix(num: nat) -> Seq<char> {
    if num == 1 {
        Seq::empty()
    } else {
        seq!['s']
    }
}

fn digit_str(d: usize) -> (s: &'static str)
    requires
        d < 10,
    ensures
        s@ == seq![digit_char(d as nat)],
{
    proof {
        reveal_strlit("0");
        reveal_strlit("1");
        reveal_strlit("2");
        reveal_strlit("3");
        reveal_strlit("4");
        reveal_strlit("5");
        reveal_strlit("6");
        reveal_strlit("7");
        reveal_strlit("8");
        reveal_strlit("9");
    }
    let s = match d {
        0 => "0",
        1 => "1",
        2 => "2",
        3 => "3",
        4 => "4",
        5 => "5",
        6 => "6",
        7 => "7",
        8 => "8",
        _ => "9",
    };
    assert(s@ =~= seq![digit_char(d as nat)]);
    s
}

/// Writes `n` in decimal.
pub fn decimal_string(n: usize) -> (s: String)
    ensures
        s@ == decimal(n as nat),
    decreases n,
{
    if n < 10 {
        String::from_str(digit_str(n))
    } else {
        let mut s = decimal_string(n / 10);
        s.append(digit_str(n % 10));
        s
    }
}

/// The ending to put after a noun that `num` counts: nothing for exactly one, `s` otherwise.
pub fn pluralize(num: usize) -> (suffix: &'static str)
    ensures
        suffix@ == plural_suffix(num as nat),
{
    proof {
        reveal_strlit("");
        reveal_strlit("s");
    }
    if num == 0 {
        let suffix = "s";
        assert(suffix@ =~= seq!['s']);
        suffix
    } else if num == 1 {
        let suffix = "";
        assert(suffix@ =~= Seq::<char>::empty());
        suffix
    } else {
        let suffix = "s";
        assert(suffix@ =~= seq!['s']);
        suffix
    }
}

} // verus!
