//! Decimal numerals and the texts that are built from them.

use vstd::prelude::*;
use vstd::string::*;

verus! {

/// The numeral of one decimal digit.
pub open spec fn digit(d: nat) -> char {
    (d + 48) as char
}

/// The decimal numeral of `n`, without leading zeros.
pub open spec fn decimal(n: nat) -> Seq<char>
    decreases n,
{
    if n < 10 {
        seq![digit(n)]
    } else {
        decimal(n / 10).push(digit(n % 10))
    }
}

/// The number that a text of decimal digits stands for.
pub open spec fn value(s: Seq<char>) -> nat
    decreases s.len(),
{
    if s.len() == 0 {
        0
    } else {
        value(s.drop_last()) * 10 + (s.last() as nat - 48) as nat
    }
}

/// Whether `s` is made of decimal digits alone.
pub open spec fn all_digits(s: Seq<char>) -> bool {
    forall|i: int| 0 <= i < s.len() ==> '0' <= #[trigger] s[i] && s[i] <= '9'
}

/// A numeral is made of digits, and stands for the number that it was made from.
pub proof fn law_decimal_round_trip(n: nat)
    ensures
        decimal(n).len() > 0,
        all_digits(decimal(n)),
        value(decimal(n)) == n,
    decreases n,
{
    if n < 10 {
        assert(decimal(n).drop_last() =~= Seq::empty());
        assert(value(decimal(n).drop_last()) == 0);
    } else {
        law_decimal_round_trip(n / 10);
        assert(decimal(n).drop_last() =~= decimal(n / 10));
    }
}

/// A numeral has no leading zeros, and each digit more counts one, and all before it ten times as much
/// as before.
pub proof fn law_numerals_are_decimal(n: nat, s: Seq<char>, d: nat)
    requires
        d < 10,
    ensures
        decimal(n).len() > 1 ==> decimal(n)[0] != '0',
        n > 0 ==> decimal(n)[0] != '0',
        value(Seq::empty()) == 0,
        value(s.push((48 + d) as char)) == 10 * value(s) + d,
        all_digits(s.push((48 + d) as char)) <==> all_digits(s),
    decreases n,
{
    let c = (48 + d) as char;
    let t = s.push(c);
    if n >= 10 {
        law_numerals_are_decimal(n / 10, s, d);
        law_decimal_round_trip(n / 10);
    }
    assert(t.drop_last() =~= s);
    if all_digits(t) {
        assert forall|i: int| 0 <= i < s.len() implies '0' <= #[trigger] s[i] && s[i] <= '9' by {
            assert(t[i] == s[i]);
        }
    }
}

/// A text that holds anything but a decimal digit is no numeral.
pub proof fn law_digits(s: Seq<char>, i: int)
    requires
        0 <= i < s.len(),
        (s[i] as nat) < 48 || (s[i] as nat) > 57,
    ensures
        !all_digits(s),
{
}

/// Different numbers have different numerals.
pub proof fn law_decimal_injective(m: nat, n: nat)
    requires
        decimal(m) == decimal(n),
    ensures
        m == n,
{
    law_decimal_round_trip(m);
    law_decimal_round_trip(n);
}

/// The numeral of one digit.
fn digit_text(d: u128) -> (text: &'static str)
    requires
        d < 10,
    ensures
        text@ == seq![digit(d as nat)],
{
    proof {
        reveal_strlit("0");
        reveal_strlit("1");
        reveal_strlit("2");
        reveal_strlit("3");
        reveal_strlit("4");
        reveal_strlit("5");
        reveal_strlit("6");
        reveal_strlit("7");
        reveal_strlit("8");
        reveal_strlit("9");
    }
    let text = match d {
        0 => "0",
        1 => "1",
        2 => "2",
        3 => "3",
        4 => "4",
        5 => "5",
        6 => "6",
        7 => "7",
        8 => "8",
        _ => "9",
    };
    assert(text@ =~= seq![digit(d as nat)]);
    text
}

/// The decimal numeral of `n`.
pub fn decimal_text(n: u128) -> (text: String)
    ensures
        text@ == decimal(n as nat),
    decreases n,
{
    if n < 10 {
        digit_text(n).to_owned()
    } else {
        let mut text = decimal_text(n / 10);
        text.append(digit_text(n % 10));
        assert(text@ =~= decimal(n as nat));
        text
    }
}

/// `prefix` followed by the decimal numeral of `n`.
pub fn numbered(prefix: &str, n: u128) -> (text: String)
    ensures
        text@ == prefix@ + decimal(n as nat),
{
    prefix.to_owned().concat(decimal_text(n).as_str())
}

/// Different numbers make different texts of one prefix.
pub proof fn law_numbered_injective(prefix: Seq<char>, m: nat, n: nat)
    requires
        prefix + decimal(m) == prefix + decimal(n),
    ensures
        m == n,
{
    let (a, b) = (prefix + decimal(m), prefix + decimal(n));
    assert(a.skip(prefix.len() as int) =~= decimal(m));
    assert(b.skip(prefix.len() as int) =~= decimal(n));
    law_decimal_injective(m, n);
}

} // verus!
