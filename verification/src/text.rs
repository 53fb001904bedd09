//! Decimal numerals.

use vstd::prelude::*;
use vstd::string::StringExecFns;

verus! {

/// The numeral of a digit.
pub open spec fn digit(d: nat) -> char {
    (48 + d) as char
}

/// The decimal numeral of a number, without leading zeros.
pub open spec fn numeral(n: nat) -> Seq<char>
    decreases n,
{
    if n < 10 {
        seq![digit(n)]
    } else {
        numeral(n / 10).push(digit(n % 10))
    }
}

/// The decimal numeral of an integer.
pub open spec fn signed_numeral(n: int) -> Seq<char> {
    if n < 0 {
        seq!['-'] + numeral((-n) as nat)
    } else {
        numeral(n as nat)
    }
}

/// A digit as text.
fn digit_text(d: u64) -> (r: &'static str)
    requires
        d < 10,
    ensures
        r@ == seq![digit(d as nat)],
{
    proof {
        reveal_strlit("0");
        reveal_strlit("1");
        reveal_strlit("2");
        reveal_strlit("3");
        reveal_strlit("4");
        reveal_strlit("5");
        reveal_strlit("6");
        reveal_strlit("7");
        reveal_strlit("8");
        reveal_strlit("9");
    }
    let r = match d {
        0 => "0",
        1 => "1",
        2 => "2",
        3 => "3",
        4 => "4",
        5 => "5",
        6 => "6",
        7 => "7",
        8 => "8",
        _ => "9",
    };
    assert(r@ =~= seq![digit(d as nat)]);
    r
}

/// Appends the decimal numeral of a number.
fn append_numeral(text: &mut String, n: u64)
    ensures
        final(text)@ == old(text)@ + numeral(n as nat),
    decreases n,
{
    if n >= 10 {
        append_numeral(text, n / 10);
    }
    text.append(digit_text(n % 10));
    assert(text@ =~= old(text)@ + numeral(n as nat));
}

/// Appends the decimal numeral of an integer.
pub fn append_signed_numeral(text: &mut String, n: i32)
    ensures
        final(text)@ == old(text)@ + signed_numeral(n as int),
{
    let wide: i64 = n as i64;
    if wide < 0 {
        proof {
            reveal_strlit("-");
        }
        text.append("-");
        append_numeral(text, (-wide) as u64);
        assert(text@ =~= old(text)@ + signed_numeral(n as int));
    } else {
        append_numeral(text, wide as u64);
    }
}

/// The number that digits stand for, the most significant first.
pub open spec fn value_of(digits: Seq<char>) -> int
    decreases digits.len(),
{
    if digits.len() == 0 {
        0
    } else {
        10 * value_of(digits.drop_last()) + (digits.last() as int - '0' as int)
    }
}

/// Digits without a needless zero in front.
pub open spec fn is_plain(digits: Seq<char>) -> bool {
    &&& digits.len() > 0
    &&& digits.len() > 1 ==> digits[0] != '0'
    &&& forall|k: int| 0 <= k < digits.len() ==> '0' <= #[trigger] digits[k] && digits[k] <= '9'
}

/// A text is the decimal numeral of a number, with a minus sign in front of a
/// negative one.
pub open spec fn denotes(text: Seq<char>, n: int) -> bool {
    if n < 0 {
        &&& text.len() > 0
        &&& text[0] == '-'
        &&& is_plain(text.skip(1))
        &&& value_of(text.skip(1)) == -n
    } else {
        &&& is_plain(text)
        &&& value_of(text) == n
    }
}

proof fn lemma_numeral(n: nat)
    ensures
        is_plain(numeral(n)),
        value_of(numeral(n)) == n,
        n > 0 ==> numeral(n)[0] != '0',
    decreases n,
{
    if n < 10 {
        assert(numeral(n).drop_last() =~= Seq::empty());
        assert(value_of(Seq::<char>::empty()) == 0);
    } else {
        lemma_numeral(n / 10);
        assert(numeral(n).drop_last() =~= numeral(n / 10));
        assert(numeral(n)[0] == numeral(n / 10)[0]);
    }
}

/// A numeral denotes the number that it was made of.
pub proof fn law_numeral_denotes_its_number(n: int)
    ensures
        denotes(signed_numeral(n), n),
{
    if n < 0 {
        lemma_numeral((-n) as nat);
        assert(signed_numeral(n).skip(1) =~= numeral((-n) as nat));
    } else {
        lemma_numeral(n as nat);
    }
}

/// A number is appended to a text as its numeral, and the text before it stays.
pub proof fn law_number_is_appended(before: String, after: String, n: i32)
    requires
        exists|text: &mut String|
            *text == before && *final(text) == after && #[trigger] call_ensures(
                append_signed_numeral,
                (text, n),
                (),
            ),
    ensures
        after@.len() >= before@.len(),
        after@.take(before@.len() as int) == before@,
        denotes(after@.skip(before@.len() as int), n as int),
{
    law_numeral_denotes_its_number(n as int);
    assert(after@.take(before@.len() as int) =~= before@);
    assert(after@.skip(before@.len() as int) =~= signed_numeral(n as int));
}

} // verus!
