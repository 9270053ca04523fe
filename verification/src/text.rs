//! Decimal numerals: reading them out of character sequences and writing
//! them into strings.
use vstd::prelude::*;

verus! {

/// `c` is one of the ASCII digits `0` to `9`.
pub open spec fn is_digit(c: char) -> bool {
    '0' <= c && c <= '9'
}

/// The value of the ASCII digit `c`.
pub open spec fn digit_value(c: char) -> nat {
    (c as int - '0' as int) as nat
}

/// The ASCII digit that stands for `d`, a number below ten.
pub open spec fn digit_char(d: nat) -> char {
    (d + '0' as int) as char
}

/// Every character of `s` is an ASCII digit.
pub open spec fn all_digits(s: Seq<char>) -> bool {
    forall|i: int| 0 <= i < s.len() ==> is_digit(#[trigger] s[i])
}

/// The number that the digit string `s` denotes (most significant digit first).
pub open spec fn digits_value(s: Seq<char>) -> nat
    decreases s.len(),
{
    if s.len() == 0 {
        0
    } else {
        digits_value(s.drop_last()) * 10 + digit_value(s.last())
    }
}

/// The digits of an unsigned numeral: an optional leading `+` is dropped.
pub open spec fn unsigned_digits(s: Seq<char>) -> Seq<char> {
    if s.len() > 0 && s[0] == '+' {
        s.drop_first()
    } else {
        s
    }
}

/// What reading `s` as an unsigned decimal numeral no larger than `max` gives:
/// an optional `+`, then at least one ASCII digit and nothing else, with a
/// value that does not exceed `max`.
pub open spec fn spec_parse_unsigned(s: Seq<char>, max: nat) -> Option<nat> {
    let d = unsigned_digits(s);
    if d.len() > 0 && all_digits(d) && digits_value(d) <= max {
        Some(digits_value(d))
    } else {
        None
    }
}

/// The shortest decimal numeral of `n`.
pub open spec fn decimal_chars(n: nat) -> Seq<char>
    decreases n,
{
    if n < 10 {
        seq![digit_char(n)]
    } else {
        decimal_chars(n / 10).push(digit_char(n % 10))
    }
}

pub proof fn lemma_digits_value_push(s: Seq<char>, c: char)
    ensures
        digits_value(s.push(c)) == digits_value(s) * 10 + digit_value(c),
{
    assert(s.push(c).drop_last() =~= s);
}

/// The value of a prefix never exceeds the value of the whole digit string.
pub proof fn lemma_digits_value_prefix(s: Seq<char>, i: int)
    requires
        0 <= i <= s.len(),
    ensures
        digits_value(s.take(i)) <= digits_value(s),
    decreases s.len() - i,
{
    if i < s.len() {
        lemma_digits_value_prefix(s, i + 1);
        assert(s.take(i + 1) =~= s.take(i).push(s[i]));
        lemma_digits_value_push(s.take(i), s[i]);
    } else {
        assert(s.take(i) =~= s);
    }
}

/// A decimal numeral consists of digits only, starts with a non-zero digit
/// unless it is `0`, and denotes the number it was written for.
pub proof fn lemma_decimal_chars(n: nat)
    ensures
        all_digits(decimal_chars(n)),
        decimal_chars(n).len() >= 1,
        digits_value(decimal_chars(n)) == n,
        decimal_chars(n).len() > 1 ==> decimal_chars(n)[0] != '0',
        n < 10 ==> decimal_chars(n).len() == 1,
        n >= 10 ==> decimal_chars(n).len() >= 2,
        10 <= n < 100 ==> decimal_chars(n).len() == 2,
        100 <= n < 1000 ==> decimal_chars(n).len() == 3,
    decreases n,
{
    assert(digit_value(digit_char(n % 10)) == n % 10);
    if n < 10 {
        assert(seq![digit_char(n)].drop_last() =~= Seq::<char>::empty());
        assert(digit_value(digit_char(n)) == n);
        assert(digits_value(Seq::<char>::empty()) == 0);
        assert(digits_value(decimal_chars(n)) == n);
    }
    if n >= 10 {
        assert(n / 10 * 10 + n % 10 == n);
        lemma_decimal_chars(n / 10);
        let p = decimal_chars(n / 10);
        assert(decimal_chars(n) == p.push(digit_char(n % 10)));
        lemma_digits_value_push(p, digit_char(n % 10));
        assert(digits_value(p) == n / 10);
        assert(digits_value(decimal_chars(n)) == n);
        assert forall|i: int| 0 <= i < p.push(digit_char(n % 10)).len() implies is_digit(
            #[trigger] p.push(digit_char(n % 10))[i],
        ) by {
            if i < p.len() {
                assert(is_digit(p[i]));
            }
        }
        if n / 10 < 10 {
            assert(p[0] == digit_char(n / 10));
            assert(digit_value(p[0]) == n / 10);
            assert(digit_value('0') == 0);
        }
        assert(p.push(digit_char(n % 10))[0] == p[0]);
    }
}

/// Writing a number as a decimal numeral and reading it back, with any bound
/// that the number does not exceed, gives the same number.
pub proof fn lemma_decimal_roundtrip(n: nat, max: nat)
    requires
        n <= max,
    ensures
        spec_parse_unsigned(decimal_chars(n), max) == Some(n),
{
    lemma_decimal_chars(n);
    assert(is_digit(decimal_chars(n)[0]));
    assert(unsigned_digits(decimal_chars(n)) == decimal_chars(n));
}

/// Reads the unsigned decimal numeral `s` (optional `+`, then digits), failing
/// when it is malformed or its value exceeds `max`.
pub fn parse_unsigned(s: &[char], max: u64) -> (res: Option<u64>)
    ensures
        res is Some ==> spec_parse_unsigned(s@, max as nat) == Some(res->0 as nat),
        res is None ==> spec_parse_unsigned(s@, max as nat) is None,
{
    let len = s.len();
    let mut start: usize = 0;
    if len > 0 && s[0] == '+' {
        start = 1;
    }
    let ghost d = unsigned_digits(s@);
    assert(d =~= s@.subrange(start as int, len as int));
    if start == len {
        return None;
    }
    let mut acc: u64 = 0;
    let mut i: usize = start;
    while i < len
        invariant
            start <= i <= len,
            len == s@.len(),
            d == unsigned_digits(s@),
            d =~= s@.subrange(start as int, len as int),
            all_digits(d.take(i - start)),
            acc as nat == digits_value(d.take(i - start)),
            acc <= max,
        decreases len - i,
    {
        let c = s[i];
        if !('0' <= c && c <= '9') {
            assert(d[i - start] == c);
            assert(!is_digit(d[i - start]));
            assert(!all_digits(d));
            return None;
        }
        let dv = (c as u32 - '0' as u32) as u64;
        assert(d.take(i + 1 - start) =~= d.take(i - start).push(c));
        proof {
            lemma_digits_value_push(d.take(i - start), c);
        }
        if dv > max || acc > (max - dv) / 10 {
            proof {
                assert(acc * 10 + dv > max) by (nonlinear_arith)
                    requires
                        dv > max || acc > (max - dv) / 10,
                        dv <= 9,
                ;
                lemma_digits_value_prefix(d, i + 1 - start);
            }
            return None;
        }
        proof {
            assert(acc * 10 + dv <= max) by (nonlinear_arith)
                requires
                    acc <= (max - dv) / 10,
                    dv <= max,
            ;
        }
        acc = acc * 10 + dv;
        i = i + 1;
    }
    assert(d.take(i - start) =~= d);
    Some(acc)
}

/// The characters of `s`, in order.
pub fn chars_of(s: &str) -> (v: Vec<char>)
    ensures
        v@ == s@,
{
    let mut v: Vec<char> = Vec::new();
    for c in it: s.chars()
        invariant
            v@ == it.seq().take(it.index() as int),
            it.seq() == s@,
    {
        v.push(c);
    }
    v
}

/// The one-character string of the digit `d`.
fn digit_str(d: u8) -> (s: &'static str)
    requires
        d < 10,
    ensures
        s@ == seq![digit_char(d as nat)],
{
    proof {
        reveal_strlit("0");
        reveal_strlit("1");
        reveal_strlit("2");
        reveal_strlit("3");
        reveal_strlit("4");
        reveal_strlit("5");
        reveal_strlit("6");
        reveal_strlit("7");
        reveal_strlit("8");
        reveal_strlit("9");
    }
    match d {
        0 => "0",
        1 => "1",
        2 => "2",
        3 => "3",
        4 => "4",
        5 => "5",
        6 => "6",
        7 => "7",
        8 => "8",
        _ => "9",
    }
}

/// Appends the decimal numeral of `n` to `out`.
pub fn push_decimal(out: &mut String, n: u128)
    ensures
        final(out)@ == old(out)@ + decimal_chars(n as nat),
    decreases n,
{
    if n >= 10 {
        push_decimal(out, n / 10);
    }
    let d = (n % 10) as u8;
    out.append(digit_str(d));
    proof {
        if n >= 10 {
            assert(decimal_chars(n as nat) == decimal_chars((n / 10) as nat).push(
                digit_char((n % 10) as nat),
            ));
        }
    }
}

/// The decimal numeral of `n`, as a string.
pub fn decimal_string(n: u128) -> (s: String)
    ensures
        s@ == decimal_chars(n as nat),
{
    let mut s = String::new();
    push_decimal(&mut s, n);
    assert(s@ =~= decimal_chars(n as nat));
    s
}

} // verus!
