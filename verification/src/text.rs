use vstd::prelude::*;
use vstd::std_specs::iter::IteratorSpec;

verus! {

/// Letters of the source language: the ASCII letters and the underscore.
pub open spec fn is_letter(c: char) -> bool {
    ('a' <= c && c <= 'z') || ('A' <= c && c <= 'Z') || c == '_'
}

/// The ASCII digits.
pub open spec fn is_digit(c: char) -> bool {
    '0' <= c && c <= '9'
}

/// What may follow the first character of an identifier.
pub open spec fn is_ident_part(c: char) -> bool {
    is_letter(c) || is_digit(c)
}

/// The four characters skipped between tokens: space, tab, CR and LF.
pub open spec fn is_space(c: char) -> bool {
    c == ' ' || c == '\t' || c == '\r' || c == '\n'
}

/// Whether `c` is a letter of the source language.
pub fn letter(c: char) -> (r: bool)
    ensures
        r == is_letter(c),
{
    (c >= 'a' && c <= 'z') || (c >= 'A' && c <= 'Z') || c == '_'
}

/// Whether `c` is a digit.
pub fn digit(c: char) -> (r: bool)
    ensures
        r == is_digit(c),
{
    c >= '0' && c <= '9'
}

/// Whether `c` may follow the first character of an identifier.
pub fn ident_part(c: char) -> (r: bool)
    ensures
        r == is_ident_part(c),
{
    letter(c) || digit(c)
}

/// Whether `c` is skipped between tokens.
pub fn space(c: char) -> (r: bool)
    ensures
        r == is_space(c),
{
    c == ' ' || c == '\t' || c == '\r' || c == '\n'
}

/// The character that writes the digit `d`.
pub open spec fn digit_char(d: int) -> char {
    if d == 0 {
        '0'
    } else if d == 1 {
        '1'
    } else if d == 2 {
        '2'
    } else if d == 3 {
        '3'
    } else if d == 4 {
        '4'
    } else if d == 5 {
        '5'
    } else if d == 6 {
        '6'
    } else if d == 7 {
        '7'
    } else if d == 8 {
        '8'
    } else {
        '9'
    }
}

/// The number that the digit `c` stands for.
pub open spec fn digit_of(c: char) -> int {
    c as int - '0' as int
}

/// Value of a run of digits read as a decimal numeral; the empty run is 0.
pub open spec fn digits_value(s: Seq<char>) -> nat
    decreases s.len(),
{
    if s.len() == 0 {
        0
    } else {
        (10 * digits_value(s.drop_last()) + digit_of(s.last())) as nat
    }
}

/// Every character of `s` is a digit.
pub open spec fn all_digits(s: Seq<char>) -> bool {
    forall|i: int| 0 <= i < s.len() ==> is_digit(#[trigger] s[i])
}

/// Decimal numeral of a natural number, without leading zeros.
pub open spec fn nat_digits(n: nat) -> Seq<char>
    decreases n,
{
    if n < 10 {
        seq![digit_char(n as int)]
    } else {
        nat_digits(n / 10).push(digit_char((n % 10) as int))
    }
}

/// Decimal numeral of an integer, with a leading minus sign below zero.
pub open spec fn decimal(n: int) -> Seq<char> {
    if n < 0 {
        seq!['-'] + nat_digits((-n) as nat)
    } else {
        nat_digits(n as nat)
    }
}

/// What reading a token's text as a 64-bit integer gives: the value of a
/// non-empty run of digits that fits, and nothing otherwise.
pub open spec fn parsed_i64(s: Seq<char>) -> Option<i64> {
    if s.len() > 0 && all_digits(s) && digits_value(s) <= i64::MAX {
        Some(digits_value(s) as i64)
    } else {
        None
    }
}

/// Whether `s` is the one character `a`.
pub open spec fn is_char(s: Seq<char>, a: char) -> bool {
    s.len() == 1 && s[0] == a
}

/// Whether `s` is the two characters `a` and `b`.
pub open spec fn is_pair(s: Seq<char>, a: char, b: char) -> bool {
    s.len() == 2 && s[0] == a && s[1] == b
}

/// Whether two texts hold the same characters.
pub fn same_text(a: &str, b: &str) -> (r: bool)
    ensures
        r == (a@ == b@),
{
    broadcast use vstd::string::group_string_axioms;

    let mut x = a.chars();
    let mut y = b.chars();
    let ghost mut i: int = 0;
    loop
        invariant
            0 <= i <= a@.len(),
            i <= b@.len(),
            x.obeys_prophetic_iter_laws(),
            y.obeys_prophetic_iter_laws(),
            x.remaining() == a@.skip(i),
            y.remaining() == b@.skip(i),
            a@.take(i) == b@.take(i),
        decreases a@.len() - i,
    {
        let p = x.next();
        let q = y.next();
        match (p, q) {
            (None, None) => {
                proof {
                    assert(a@.take(i) == a@);
                    assert(b@.take(i) == b@);
                }
                return true;
            },
            (Some(c), Some(d)) => {
                if c != d {
                    proof {
                        assert(a@[i] != b@[i]);
                    }
                    return false;
                }
                proof {
                    assert(a@.skip(i).drop_first() == a@.skip(i + 1));
                    assert(b@.skip(i).drop_first() == b@.skip(i + 1));
                    assert(a@.take(i + 1) == a@.take(i).push(a@[i]));
                    assert(b@.take(i + 1) == b@.take(i).push(b@[i]));
                    i = i + 1;
                }
            },
            _ => {
                return false;
            },
        }
    }
}

/// Appends one character to a string, as `String::push` does.
#[verifier::external_body]
pub(crate) fn push_char(s: &mut String, c: char)
    ensures
        final(s)@ == old(s)@.push(c),
{
    s.push(c);
}

/// A numeral grows with its digits: a longer prefix never has a smaller value.
pub proof fn lemma_digits_value_prefix(s: Seq<char>, k: int)
    requires
        all_digits(s),
        0 <= k <= s.len(),
    ensures
        digits_value(s.take(k)) <= digits_value(s),
    decreases s.len(),
{
    if k < s.len() {
        let t = s.drop_last();
        assert(all_digits(t)) by {
            assert forall|i: int| 0 <= i < t.len() implies is_digit(#[trigger] t[i]) by {
                assert(t[i] == s[i]);
            }
        }
        lemma_digits_value_prefix(t, k);
        assert(t.take(k) == s.take(k));
        assert(is_digit(s.last()));
    } else {
        assert(s.take(k) == s);
    }
}

/// Reads a run of digits as a 64-bit integer.
pub fn parse_i64(s: &str) -> (r: Option<i64>)
    ensures
        r == parsed_i64(s@),
{
    let mut seen = false;
    let mut value: i64 = 0;
    let mut ok = true;
    for c in it: s.chars()
        invariant
            it.seq() == s@,
            seen == (it.index() > 0),
            ok ==> all_digits(s@.take(it.index())) && digits_value(s@.take(it.index())) == value,
            !ok ==> parsed_i64(s@) is None,
    {
        let ghost k = it.index();
        proof {
            assert(s@.take(k + 1).drop_last() == s@.take(k));
            assert(s@.take(k + 1).last() == c);
        }
        if ok {
            if !digit(c) {
                ok = false;
                proof {
                    assert(!is_digit(s@[k]));
                }
            } else {
                let d: i64 = (c as u32 - '0' as u32) as i64;
                if value > (i64::MAX - d) / 10 {
                    ok = false;
                    proof {
                        if all_digits(s@) {
                            assert(all_digits(s@.take(k + 1)));
                            lemma_digits_value_prefix(s@, k + 1);
                        }
                    }
                } else {
                    value = value * 10 + d;
                    proof {
                        assert forall|i: int| 0 <= i < k + 1 implies is_digit(
                            #[trigger] s@.take(k + 1)[i],
                        ) by {
                            if i < k {
                                assert(s@.take(k)[i] == s@.take(k + 1)[i]);
                            }
                        }
                    }
                }
            }
        }
        seen = true;
    }
    proof {
        assert(s@.take(s@.len() as int) == s@);
    }
    if ok && seen {
        Some(value)
    } else {
        None
    }
}

/// The digit character for a number below ten.
pub fn digit_to_char(d: u64) -> (c: char)
    requires
        d < 10,
    ensures
        c == digit_char(d as int),
        is_digit(c),
        digit_of(c) == d,
{
    if d == 0 {
        '0'
    } else if d == 1 {
        '1'
    } else if d == 2 {
        '2'
    } else if d == 3 {
        '3'
    } else if d == 4 {
        '4'
    } else if d == 5 {
        '5'
    } else if d == 6 {
        '6'
    } else if d == 7 {
        '7'
    } else if d == 8 {
        '8'
    } else {
        '9'
    }
}

/// Appends the decimal numeral of `n` to `s`.
pub fn push_nat(s: &mut String, n: u64)
    ensures
        final(s)@ == old(s)@ + nat_digits(n as nat),
    decreases n,
{
    if n >= 10 {
        push_nat(s, n / 10);
    }
    push_char(s, digit_to_char(n % 10));
    proof {
        if n < 10 {
            assert(old(s)@.push(digit_char(n as int)) == old(s)@ + seq![digit_char(n as int)]);
        } else {
            assert((old(s)@ + nat_digits((n / 10) as nat)).push(digit_char((n % 10) as int))
                == old(s)@ + nat_digits((n / 10) as nat).push(digit_char((n % 10) as int)));
        }
    }
}

/// Writes a 64-bit integer in decimal.
pub fn i64_to_string(n: i64) -> (s: String)
    ensures
        s@ == decimal(n as int),
{
    let mut s = String::new();
    if n < 0 {
        push_char(&mut s, '-');
        let m: u64 = ((-(n + 1)) as u64) + 1;
        push_nat(&mut s, m);
        proof {
            assert(Seq::<char>::empty().push('-') == seq!['-']);
        }
    } else {
        push_nat(&mut s, n as u64);
        proof {
            assert(Seq::<char>::empty() + nat_digits(n as nat) == nat_digits(n as nat));
        }
    }
    s
}

/// A decimal numeral holds digits only, and at least one.
pub proof fn lemma_nat_digits_are_digits(n: nat)
    ensures
        nat_digits(n).len() > 0,
        all_digits(nat_digits(n)),
    decreases n,
{
    if n >= 10 {
        lemma_nat_digits_are_digits(n / 10);
        let t = nat_digits(n / 10);
        let c = digit_char((n % 10) as int);
        assert forall|i: int| 0 <= i < t.push(c).len() implies is_digit(#[trigger] t.push(c)[i]) by {
            if i < t.len() {
                assert(t.push(c)[i] == t[i]);
            }
        }
    }
}

/// Reading a number's decimal numeral gives the number back.
pub proof fn lemma_digits_value_of_nat_digits(n: nat)
    ensures
        digits_value(nat_digits(n)) == n,
    decreases n,
{
    if n < 10 {
        let s = seq![digit_char(n as int)];
        assert(s.drop_last() == Seq::<char>::empty());
        assert(digits_value(s.drop_last()) == 0);
        assert(s.last() == digit_char(n as int));
    } else {
        lemma_digits_value_of_nat_digits(n / 10);
        let t = nat_digits(n / 10);
        let c = digit_char((n % 10) as int);
        assert(t.push(c).drop_last() == t);
        assert(t.push(c).last() == c);
    }
}

/// A non-negative 64-bit integer written in decimal and read again is
/// unchanged.
pub proof fn lemma_parse_of_decimal(n: i64)
    requires
        n >= 0,
    ensures
        parsed_i64(decimal(n as int)) == Some(n),
{
    lemma_nat_digits_are_digits(n as nat);
    lemma_digits_value_of_nat_digits(n as nat);
}

} // verus!
