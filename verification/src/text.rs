use vstd::prelude::*;

verus! {

/// The character of the decimal digit `d`.
pub open spec fn digit_char(d: int) -> char {
    if d == 0 {
        '0'
    } else if d == 1 {
        '1'
    } else if d == 2 {
        '2'
    } else if d == 3 {
        '3'
    } else if d == 4 {
        '4'
    } else if d == 5 {
        '5'
    } else if d == 6 {
        '6'
    } else if d == 7 {
        '7'
    } else if d == 8 {
        '8'
    } else {
        '9'
    }
}

/// The decimal notation of `n`, without leading zeros.
pub open spec fn decimal(n: nat) -> Seq<char>
    decreases n,
{
    if n < 10 {
        seq![digit_char(n as int)]
    } else {
        decimal(n / 10).push(digit_char((n % 10) as int))
    }
}

/// The one-character string of the decimal digit `d`.
fn digit_str(d: u8) -> (r: &'static str)
    requires
        d < 10,
    ensures
        r@ == seq![digit_char(d as int)],
{
    proof {
        reveal_strlit("0");
        reveal_strlit("1");
        reveal_strlit("2");
        reveal_strlit("3");
        reveal_strlit("4");
        reveal_strlit("5");
        reveal_strlit("6");
        reveal_strlit("7");
        reveal_strlit("8");
        reveal_strlit("9");
    }
    let r = if d == 0 {
        "0"
    } else if d == 1 {
        "1"
    } else if d == 2 {
        "2"
    } else if d == 3 {
        "3"
    } else if d == 4 {
        "4"
    } else if d == 5 {
        "5"
    } else if d == 6 {
        "6"
    } else if d == 7 {
        "7"
    } else if d == 8 {
        "8"
    } else {
        "9"
    };
    assert(r@ =~= seq![digit_char(d as int)]);
    r
}

/// The decimal notation of `n`.
pub fn decimal_string(n: u8) -> (r: String)
    ensures
        r@ == decimal(n as nat),
{
    let mut s = String::new();
    if n >= 100 {
        s.append(digit_str(n / 100));
    }
    if n >= 10 {
        s.append(digit_str((n / 10) % 10));
    }
    s.append(digit_str(n % 10));
    proof {
        let m = n as nat;
        if m >= 100 {
            assert(decimal(m / 100) == seq![digit_char((m / 100) as int)]);
            assert(decimal(m / 10) =~= decimal(m / 100).push(digit_char(((m / 10) % 10) as int)));
            assert(m / 10 / 10 == m / 100);
        } else if m >= 10 {
            assert(decimal(m / 10) == seq![digit_char((m / 10) as int)]);
        }
        assert(s@ =~= decimal(m));
    }
    s
}

/// The value of the decimal digit `c`, or nothing when `c` is no decimal digit.
pub open spec fn digit_value(c: char) -> Option<int> {
    if c == '0' {
        Some(0)
    } else if c == '1' {
        Some(1)
    } else if c == '2' {
        Some(2)
    } else if c == '3' {
        Some(3)
    } else if c == '4' {
        Some(4)
    } else if c == '5' {
        Some(5)
    } else if c == '6' {
        Some(6)
    } else if c == '7' {
        Some(7)
    } else if c == '8' {
        Some(8)
    } else if c == '9' {
        Some(9)
    } else {
        None
    }
}

/// Whether every character of `d` is a decimal digit.
pub open spec fn all_digits(d: Seq<char>) -> bool {
    forall|i: int| 0 <= i < d.len() ==> #[trigger] digit_value(d[i]) is Some
}

/// The number that the decimal digits `d` spell (leading zeros allowed).
pub open spec fn digits_value(d: Seq<char>) -> int
    decreases d.len(),
{
    if d.len() == 0 {
        0
    } else {
        digits_value(d.drop_last()) * 10 + digit_value(d.last()).unwrap()
    }
}

/// The digits of a bid as typed: the text without one leading plus sign.
pub open spec fn bid_digits(s: Seq<char>) -> Seq<char> {
    if s.len() > 0 && s[0] == '+' {
        s.skip(1)
    } else {
        s
    }
}

/// The byte that the text `s` spells in decimal, with an optional leading plus sign,
/// or nothing when it spells none.
pub open spec fn parsed_byte(s: Seq<char>) -> Option<u8> {
    let d = bid_digits(s);
    if d.len() > 0 && all_digits(d) && digits_value(d) <= 255 {
        Some(digits_value(d) as u8)
    } else {
        None
    }
}

fn digit_of(c: char) -> (r: Option<u32>)
    ensures
        r matches Some(v) ==> digit_value(c) == Some(v as int),
        r is None ==> digit_value(c) is None,
{
    if c == '0' {
        Some(0)
    } else if c == '1' {
        Some(1)
    } else if c == '2' {
        Some(2)
    } else if c == '3' {
        Some(3)
    } else if c == '4' {
        Some(4)
    } else if c == '5' {
        Some(5)
    } else if c == '6' {
        Some(6)
    } else if c == '7' {
        Some(7)
    } else if c == '8' {
        Some(8)
    } else if c == '9' {
        Some(9)
    } else {
        None
    }
}

/// Reads a byte written in decimal, such as a bid typed by a player: optional plus sign,
/// at least one digit, a value of at most 255.
pub fn parse_byte(text: &str) -> (r: Option<u8>)
    ensures
        r == parsed_byte(text@),
{
    let n = text.unicode_len();
    let start: usize = if n > 0 && text.get_char(0) == '+' {
        1
    } else {
        0
    };
    let ghost d = bid_digits(text@);
    assert(d =~= text@.skip(start as int));
    if start == n {
        return None;
    }
    let mut acc: u32 = 0;
    let mut i: usize = start;
    assert(d.take(0) =~= Seq::<char>::empty());
    while i < n
        invariant
            n == text@.len(),
            start <= i <= n,
            d == text@.skip(start as int),
            d == bid_digits(text@),
            all_digits(d.take(i - start)),
            digits_value(d.take(i - start)) >= 0,
            acc == (if digits_value(d.take(i - start)) < 256 {
                digits_value(d.take(i - start))
            } else {
                256
            }),
        decreases n - i,
    {
        let c = text.get_char(i);
        let ghost k = (i - start) as int;
        assert(d[k] == c);
        match digit_of(c) {
            None => {
                assert(!all_digits(d));
                return None;
            },
            Some(v) => {
                proof {
                    assert(d.take(k + 1).drop_last() =~= d.take(k));
                    assert(d.take(k + 1).last() == c);
                    assert(all_digits(d.take(k + 1))) by {
                        assert forall|j: int| 0 <= j < k + 1 implies #[trigger] digit_value(
                            d.take(k + 1)[j],
                        ) is Some by {
                            if j < k {
                                assert(d.take(k + 1)[j] == d.take(k)[j]);
                            }
                        }
                    }
                }
                let next = acc * 10 + v;
                acc = if next > 256 {
                    256
                } else {
                    next
                };
                i = i + 1;
            },
        }
    }
    assert(d.take(i - start) =~= d);
    if acc <= 255 {
        Some(acc as u8)
    } else {
        None
    }
}

/// The decimal notation of a number consists of digits that spell the number, with no
/// leading zero.
pub proof fn lemma_decimal_spells(n: nat)
    ensures
        decimal(n).len() > 0,
        all_digits(decimal(n)),
        digits_value(decimal(n)) == n,
        digit_value(decimal(n)[0]) is Some,
        n > 0 ==> decimal(n)[0] != '0',
    decreases n,
{
    let d = decimal(n);
    if n < 10 {
        assert(d.drop_last() =~= Seq::<char>::empty());
        assert(digits_value(d.drop_last()) == 0);
    } else {
        lemma_decimal_spells(n / 10);
        assert(d.drop_last() =~= decimal(n / 10));
        assert(d.last() == digit_char((n % 10) as int));
        assert forall|i: int| 0 <= i < d.len() implies #[trigger] digit_value(d[i]) is Some by {
            if i < d.len() - 1 {
                assert(d[i] == decimal(n / 10)[i]);
            }
        }
        assert(d[0] == decimal(n / 10)[0]);
    }
}

/// Reading back the decimal notation of a byte gives the byte.
pub proof fn lemma_parse_decimal(n: u8)
    ensures
        parsed_byte(decimal(n as nat)) == Some(n),
{
    lemma_decimal_spells(n as nat);
    let d = decimal(n as nat);
    assert(d[0] != '+');
    assert(bid_digits(d) == d);
}

/// Text with a character that is no digit, other than one leading plus sign, spells
/// no byte; neither does text with no digit at all.
pub proof fn lemma_parse_rejects_non_digits(s: Seq<char>, i: int)
    requires
        0 <= i < s.len(),
        digit_value(s[i]) is None,
        !(i == 0 && s[i] == '+'),
    ensures
        parsed_byte(s) is None,
        parsed_byte(Seq::<char>::empty()) is None,
        parsed_byte(seq!['+']) is None,
{
    let d = bid_digits(s);
    if s[0] == '+' {
        assert(d[i - 1] == s[i]);
    } else {
        assert(d[i] == s[i]);
    }
    assert(bid_digits(seq!['+']).len() == 0);
}

/// A plus sign before the decimal notation of a byte still reads as that byte.
pub proof fn lemma_parse_plus_decimal(n: u8)
    ensures
        parsed_byte(seq!['+'] + decimal(n as nat)) == Some(n),
{
    lemma_parse_decimal(n);
    lemma_decimal_spells(n as nat);
    let d = decimal(n as nat);
    let t = seq!['+'] + d;
    assert(t[0] == '+');
    assert(t.skip(1) =~= d);
    assert(bid_digits(t) == d);
    assert(d[0] != '+');
    assert(bid_digits(d) == d);
}

} // verus!
