//! Identifiers as text. On the wire an identifier is its number in decimal,
//! written as a string: a reader that keeps numbers in floating point would
//! lose the low bits of a 63-bit number.

use crate::snowflake::Snowflake;
use vstd::prelude::*;
use vstd::string::StringExecFns;

verus! {

broadcast use vstd::string::group_string_axioms;

/// The character of a decimal digit.
pub open spec fn digit_char(d: nat) -> char {
    if d == 0 {
        '0'
    } else if d == 1 {
        '1'
    } else if d == 2 {
        '2'
    } else if d == 3 {
        '3'
    } else if d == 4 {
        '4'
    } else if d == 5 {
        '5'
    } else if d == 6 {
        '6'
    } else if d == 7 {
        '7'
    } else if d == 8 {
        '8'
    } else {
        '9'
    }
}

/// The decimal digit that a character stands for, if it stands for one.
pub open spec fn digit_value(c: char) -> Option<nat> {
    if c == '0' {
        Some(0)
    } else if c == '1' {
        Some(1)
    } else if c == '2' {
        Some(2)
    } else if c == '3' {
        Some(3)
    } else if c == '4' {
        Some(4)
    } else if c == '5' {
        Some(5)
    } else if c == '6' {
        Some(6)
    } else if c == '7' {
        Some(7)
    } else if c == '8' {
        Some(8)
    } else if c == '9' {
        Some(9)
    } else {
        None
    }
}

/// A number in decimal, without leading zeros.
pub open spec fn decimal(n: nat) -> Seq<char>
    decreases n,
{
    if n < 10 {
        seq![digit_char(n)]
    } else {
        decimal(n / 10).push(digit_char(n % 10))
    }
}

/// A number in decimal, with a minus sign where it is negative.
pub open spec fn signed_decimal(n: int) -> Seq<char> {
    if n < 0 {
        seq!['-'] + decimal((-n) as nat)
    } else {
        decimal(n as nat)
    }
}

/// Every character is a decimal digit.
pub open spec fn all_digits(text: Seq<char>) -> bool {
    forall|i: int| 0 <= i < text.len() ==> digit_value(#[trigger] text[i]) is Some
}

/// The number that decimal digits stand for. Leading zeros count for
/// nothing.
pub open spec fn value_of(digits: Seq<char>) -> nat
    decreases digits.len(),
{
    if digits.len() == 0 {
        0
    } else {
        match digit_value(digits.last()) {
            Some(d) => value_of(digits.drop_last()) * 10 + d,
            None => 0,
        }
    }
}

/// The text without the plus sign that it may start with.
pub open spec fn unsigned_part(text: Seq<char>) -> Seq<char> {
    if text.len() > 0 && text[0] == '+' {
        text.subrange(1, text.len() as int)
    } else {
        text
    }
}

/// The number that a text stands for: the text is to be one or more decimal
/// digits, after a plus sign or none, and the number is to fit in 64 bits.
pub open spec fn parsed(text: Seq<char>) -> Option<u64> {
    let digits = unsigned_part(text);
    if digits.len() > 0 && all_digits(digits) && value_of(digits) <= u64::MAX {
        Some(value_of(digits) as u64)
    } else {
        None
    }
}

/// The digits of a number from the last to the first.
pub open spec fn digits_backwards(n: nat) -> Seq<u8>
    decreases n,
{
    if n < 10 {
        seq![n as u8]
    } else {
        seq![(n % 10) as u8] + digits_backwards(n / 10)
    }
}

/// The digits of a number from the last to the first are its decimal text
/// read backwards.
pub proof fn lemma_decimal_backwards(n: nat)
    ensures
        decimal(n).len() == digits_backwards(n).len(),
        forall|k: int|
            0 <= k < decimal(n).len() ==> #[trigger] decimal(n)[k] == digit_char(
                digits_backwards(n)[decimal(n).len() - 1 - k] as nat,
            ),
        forall|k: int| 0 <= k < digits_backwards(n).len() ==> #[trigger] digits_backwards(n)[k] < 10,
    decreases n,
{
    if n >= 10 {
        lemma_decimal_backwards(n / 10);
        let front = decimal(n / 10);
        let back = digits_backwards(n / 10);
        let len = decimal(n).len() as int;
        assert(len == front.len() + 1);
        assert forall|k: int| 0 <= k < len implies #[trigger] decimal(n)[k] == digit_char(
            digits_backwards(n)[len - 1 - k] as nat,
        ) by {
            if k < front.len() {
                assert(decimal(n)[k] == front[k]);
                assert(digits_backwards(n)[len - 1 - k] == back[front.len() - 1 - k]);
            } else {
                assert(digits_backwards(n)[0] == (n % 10) as u8);
            }
        }
        assert forall|k: int| 0 <= k < digits_backwards(n).len() implies #[trigger] digits_backwards(
            n,
        )[k] < 10 by {
            if k > 0 {
                assert(digits_backwards(n)[k] == back[k - 1]);
            }
        }
    }
}

/// The text of one decimal digit.
fn digit_text(d: u8) -> (r: &'static str)
    requires
        d < 10,
    ensures
        r@ == seq![digit_char(d as nat)],
{
    proof {
        reveal_strlit("0");
        reveal_strlit("1");
        reveal_strlit("2");
        reveal_strlit("3");
        reveal_strlit("4");
        reveal_strlit("5");
        reveal_strlit("6");
        reveal_strlit("7");
        reveal_strlit("8");
        reveal_strlit("9");
    }
    let r = if d == 0 {
        "0"
    } else if d == 1 {
        "1"
    } else if d == 2 {
        "2"
    } else if d == 3 {
        "3"
    } else if d == 4 {
        "4"
    } else if d == 5 {
        "5"
    } else if d == 6 {
        "6"
    } else if d == 7 {
        "7"
    } else if d == 8 {
        "8"
    } else {
        "9"
    };
    assert(r@ =~= seq![digit_char(d as nat)]);
    r
}

/// Appends a number in decimal to a text.
pub fn push_decimal(out: &mut String, n: u64)
    ensures
        final(out)@ == old(out)@ + decimal(n as nat),
{
    let mut digits: Vec<u8> = Vec::new();
    let mut m = n;
    while m >= 10
        invariant
            digits_backwards(n as nat) == digits@ + digits_backwards(m as nat),
        decreases m,
    {
        digits.push((m % 10) as u8);
        proof {
            assert(digits@ + digits_backwards((m / 10) as nat) =~= digits@.drop_last() + (seq![
                (m % 10) as u8,
            ] + digits_backwards((m / 10) as nat)));
        }
        m = m / 10;
    }
    digits.push(m as u8);
    proof {
        assert(digits@ =~= digits@.drop_last() + digits_backwards(m as nat));
        lemma_decimal_backwards(n as nat);
        assert(digits@ == digits_backwards(n as nat));
        assert forall|k: int| 0 <= k < digits@.len() implies #[trigger] digits@[k] < 10 by {
            assert(digits_backwards(n as nat)[k] < 10);
        }
    }
    let len = digits.len();
    let mut i = len;
    while i > 0
        invariant
            i <= len,
            len == digits@.len(),
            digits@ == digits_backwards(n as nat),
            decimal(n as nat).len() == len,
            forall|k: int|
                0 <= k < len ==> #[trigger] decimal(n as nat)[k] == digit_char(
                    digits@[len - 1 - k] as nat,
                ),
            forall|k: int| 0 <= k < len ==> #[trigger] digits@[k] < 10,
            out@ == old(out)@ + decimal(n as nat).subrange(0, len - i),
        decreases i,
    {
        i = i - 1;
        let ghost before = out@;
        out.append(digit_text(digits[i]));
        proof {
            let k = len - 1 - i;
            assert(decimal(n as nat)[k] == digit_char(digits@[len - 1 - k] as nat));
            assert(decimal(n as nat).subrange(0, k + 1) =~= decimal(n as nat).subrange(0, k).push(
                decimal(n as nat)[k],
            ));
            assert(out@ =~= old(out)@ + decimal(n as nat).subrange(0, len - i));
        }
    }
    assert(decimal(n as nat).subrange(0, len as int) =~= decimal(n as nat));
}

impl Snowflake {
    /// The identifier as it goes over the wire: its number in decimal.
    pub fn to_string(&self) -> (r: String)
        ensures
            r@ == signed_decimal(self.packed() as int),
    {
        let number = self.into_number();
        let mut out = String::new();
        if number < 0 {
            proof {
                reveal_strlit("-");
            }
            out.append("-");
            assert(out@ =~= seq!['-']);
            let size: u64 = if number == i64::MIN {
                0x8000_0000_0000_0000
            } else {
                (-number) as u64
            };
            push_decimal(&mut out, size);
        } else {
            push_decimal(&mut out, number as u64);
            assert(out@ =~= decimal(number as nat));
        }
        out
    }
}

/// Digits that no longer stand for a number of 64 bits: a character among
/// them is no digit, or the number has grown too large.
pub open spec fn spoiled(digits: Seq<char>) -> bool {
    !all_digits(digits) || value_of(digits) > u64::MAX
}

/// What one more character does to digits.
pub proof fn lemma_one_more(digits: Seq<char>, c: char)
    ensures
        spoiled(digits) ==> spoiled(digits.push(c)),
        all_digits(digits.push(c)) <==> all_digits(digits) && digit_value(c) is Some,
        digit_value(c) is Some ==> value_of(digits.push(c)) == value_of(digits) * 10 + digit_value(
            c,
        ).unwrap(),
{
    let more = digits.push(c);
    assert(more.drop_last() =~= digits);
    assert(more.last() == c);
    if all_digits(more) {
        assert(digit_value(more[digits.len() as int]) is Some);
        assert forall|i: int| 0 <= i < digits.len() implies digit_value(
            #[trigger] digits[i],
        ) is Some by {
            assert(digit_value(more[i]) is Some);
        }
    }
    if all_digits(digits) && digit_value(c) is Some {
        assert forall|i: int| 0 <= i < more.len() implies digit_value(#[trigger] more[i]) is Some by {
            if i < digits.len() {
                assert(more[i] == digits[i]);
            }
        }
    }
    if !all_digits(digits) {
        let w = choose|w: int| 0 <= w < digits.len() && !(digit_value(#[trigger] digits[w]) is Some);
        assert(more[w] == digits[w]);
    }
}

/// The decimal digit that a character stands for, if it stands for one.
pub fn digit_of(c: char) -> (r: Option<u8>)
    ensures
        match r {
            Some(d) => digit_value(c) == Some(d as nat),
            None => digit_value(c) is None,
        },
{
    if c == '0' {
        Some(0)
    } else if c == '1' {
        Some(1)
    } else if c == '2' {
        Some(2)
    } else if c == '3' {
        Some(3)
    } else if c == '4' {
        Some(4)
    } else if c == '5' {
        Some(5)
    } else if c == '6' {
        Some(6)
    } else if c == '7' {
        Some(7)
    } else if c == '8' {
        Some(8)
    } else if c == '9' {
        Some(9)
    } else {
        None
    }
}

/// Reads a number of 64 bits from text: one or more decimal digits, after a
/// plus sign or none. Anything else, a number too large among it, gives
/// `None`.
pub fn parse_number(text: &str) -> (r: Option<u64>)
    ensures
        r == parsed(text@),
{
    let mut acc: u64 = 0;
    let mut first = true;
    let mut any = false;
    let mut bad = false;
    assert(text@.take(0) =~= Seq::<char>::empty());
    for c in it: text.chars()
        invariant
            it.seq() == text@,
            first <==> it.index() == 0,
            any <==> unsigned_part(text@.take(it.index())).len() > 0,
            bad <==> spoiled(unsigned_part(text@.take(it.index()))),
            !bad ==> acc == value_of(unsigned_part(text@.take(it.index()))),
    {
        let ghost k = it.index();
        let ghost before = unsigned_part(text@.take(k));
        proof {
            assert(text@.take(k + 1) =~= text@.take(k).push(c));
            assert(text@.take(k + 1)[0] == text@[0]);
            if k > 0 {
                assert(text@.take(k)[0] == text@[0]);
            }
        }
        if first && c == '+' {
            proof {
                assert(unsigned_part(text@.take(k + 1)) =~= Seq::<char>::empty());
            }
        } else {
            proof {
                assert(unsigned_part(text@.take(k + 1)) =~= before.push(c));
                lemma_one_more(before, c);
            }
            any = true;
            match digit_of(c) {
                None => {
                    bad = true;
                },
                Some(d) => {
                    if !bad {
                        match acc.checked_mul(10) {
                            None => {
                                bad = true;
                            },
                            Some(tens) => match tens.checked_add(d as u64) {
                                None => {
                                    bad = true;
                                },
                                Some(sum) => {
                                    acc = sum;
                                },
                            },
                        }
                    }
                },
            }
        }
        first = false;
    }
    proof {
        assert(text@.take(text@.len() as int) =~= text@);
    }
    if any && !bad {
        Some(acc)
    } else {
        None
    }
}

impl Snowflake {
    /// Reads an identifier from its form on the wire: its number in decimal.
    pub fn parse(text: &str) -> (r: Option<Self>)
        ensures
            r == match parsed(text@) {
                Some(number) => Some(Snowflake::unpacked(number)),
                None => None,
            },
    {
        match parse_number(text) {
            Some(number) => Some(Snowflake::from_number(number)),
            None => None,
        }
    }
}

/// The decimal text of a number is made of digits that stand for the number.
pub proof fn lemma_decimal_value(n: nat)
    ensures
        decimal(n).len() > 0,
        all_digits(decimal(n)),
        value_of(decimal(n)) == n,
    decreases n,
{
    if n < 10 {
        let text = decimal(n);
        assert(text.drop_last() =~= Seq::<char>::empty());
        assert(text.last() == digit_char(n));
        assert(value_of(Seq::<char>::empty()) == 0);
        assert(digit_value(digit_char(n)) == Some(n));
    } else {
        lemma_decimal_value(n / 10);
        assert(digit_value(digit_char(n % 10)) == Some(n % 10));
        lemma_one_more(decimal(n / 10), digit_char(n % 10));
    }
}

/// Reading what was written gives the identifier back, where its number is
/// not negative.
pub proof fn law_text_round_trip(s: Snowflake)
    requires
        s.packed() >= 0,
    ensures
        parsed(signed_decimal(s.packed() as int)) == Some(s.packed() as u64),
{
    let n = s.packed() as nat;
    lemma_decimal_value(n);
    let text = decimal(n);
    assert(digit_value(text[0]) is Some);
    assert(unsigned_part(text) == text);
}

} // verus!
