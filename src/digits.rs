use vstd::prelude::*;

use crate::errors::Error;

verus! {

/// The value of a letter or digit as a digit: `0`-`9` are 0-9, `a`-`z` and `A`-`Z` are 10-35.
pub open spec fn digit_value(c: char) -> Option<nat> {
    if '0' <= c && c <= '9' {
        Some((c as int - '0' as int) as nat)
    } else if 'a' <= c && c <= 'z' {
        Some((c as int - 'a' as int + 10) as nat)
    } else if 'A' <= c && c <= 'Z' {
        Some((c as int - 'A' as int + 10) as nat)
    } else {
        None
    }
}

/// The value of `c` as a digit in `radix`, if it is one.
pub open spec fn digit_in(c: char, radix: nat) -> Option<nat> {
    match digit_value(c) {
        Some(d) => if d < radix {
            Some(d)
        } else {
            None
        },
        None => None,
    }
}

/// Every character of `s` is a digit in `radix`.
pub open spec fn all_digits(s: Seq<char>, radix: nat) -> bool {
    forall|i: int| 0 <= i < s.len() ==> (#[trigger] digit_in(s[i], radix)) is Some
}

/// The number that the digits `s` denote in `radix`, most significant first.
pub open spec fn value_of(s: Seq<char>, radix: nat) -> nat
    decreases s.len(),
{
    if s.len() == 0 {
        0
    } else {
        value_of(s.drop_last(), radix) * radix + match digit_value(s.last()) {
            Some(d) => d,
            None => 0,
        }
    }
}

/// `s` is a non-empty run of digits in `radix` whose value fits in 32 bits.
pub open spec fn reads_as_u32(s: Seq<char>, radix: nat) -> bool {
    s.len() > 0 && all_digits(s, radix) && value_of(s, radix) <= u32::MAX
}

/// The character that writes the digit `d`: `0`-`9`, then `a`-`z`.
pub open spec fn digit_char(d: nat) -> char {
    if d < 10 {
        (d + 48) as char
    } else {
        (d - 10 + 97) as char
    }
}

#[via_fn]
proof fn digits_of_decreases(v: nat, radix: nat) {
    if !(radix < 2 || v < radix) {
        assert(v / radix < v) by (nonlinear_arith)
            requires
                radix >= 2,
                v >= radix,
        ;
    }
}

/// `v` written in `radix`, most significant digit first, without leading zeros.
pub open spec fn digits_of(v: nat, radix: nat) -> Seq<char>
    decreases v,
    via digits_of_decreases
{
    if radix < 2 || v < radix {
        seq![digit_char(v)]
    } else {
        digits_of(v / radix, radix).push(digit_char(v % radix))
    }
}

/// The message for text that cannot be read as a number.
pub open spec fn unreadable_text(s: Seq<char>, radix: nat) -> Seq<char> {
    "could not read "@ + s + " in base "@ + digits_of(radix, 10)
}

/// The message for a character that is no digit.
pub open spec fn not_a_digit_text(c: char, radix: nat) -> Seq<char> {
    "cannot convert "@.push(c) + " to number of base "@ + digits_of(radix, 10)
}

/// Relies on `String::push`: the character is added at the end.
#[verifier::external_body]
fn push_char(s: &mut String, c: char)
    ensures
        final(s)@ == old(s)@.push(c),
{
    s.push(c)
}

proof fn lemma_value_prefix(s: Seq<char>, radix: nat, i: int)
    requires
        0 <= i <= s.len(),
        radix >= 1,
    ensures
        value_of(s, radix) >= value_of(s.take(i), radix),
    decreases s.len(),
{
    if i == s.len() {
        assert(s.take(i) =~= s);
    } else {
        let p = s.drop_last();
        lemma_value_prefix(p, radix, i);
        assert(p.take(i) =~= s.take(i));
        let x = value_of(p, radix);
        let d: nat = match digit_value(s.last()) {
            Some(d) => d,
            None => 0,
        };
        assert(x * radix + d >= x) by (nonlinear_arith)
            requires
                radix >= 1,
        ;
    }
}

proof fn lemma_digit_char(d: nat)
    requires
        d < 36,
    ensures
        digit_value(digit_char(d)) == Some(d),
{
}

/// The digits of `v` in `radix` are digits of that radix and denote `v`.
pub proof fn lemma_digits_of(v: nat, radix: nat)
    requires
        2 <= radix <= 36,
    ensures
        digits_of(v, radix).len() > 0,
        all_digits(digits_of(v, radix), radix),
        value_of(digits_of(v, radix), radix) == v,
    decreases v,
{
    if v < radix {
        lemma_digit_char(v);
        let s = seq![digit_char(v)];
        assert(s.drop_last() =~= Seq::<char>::empty());
        assert(s.last() == digit_char(v));
        assert(value_of(s.drop_last(), radix) == 0);
        assert(0 * radix == 0);
        assert(s == digits_of(v, radix));
    } else {
        let q = v / radix;
        let m = v % radix;
        assert(q < v) by (nonlinear_arith)
            requires
                v >= radix,
                radix >= 2,
                q == v / radix,
        ;
        lemma_digits_of(q, radix);
        lemma_digit_char(m);
        let s = digits_of(q, radix).push(digit_char(m));
        assert(s.drop_last() =~= digits_of(q, radix));
        assert(s.last() == digit_char(m));
        assert(s == digits_of(v, radix));
        assert(value_of(s, radix) == q * radix + m);
        assert(q * radix + m == v) by (nonlinear_arith)
            requires
                q == v / radix,
                m == v % radix,
                radix >= 2,
        ;
        assert forall|i: int| 0 <= i < s.len() implies (#[trigger] digit_in(s[i], radix)) is Some by {
            if i < s.len() - 1 {
                assert(s[i] == digits_of(q, radix)[i]);
            }
        }
    }
}

/// The value of `c` as a digit in `radix`, if it is one.
pub fn digit_of(c: char, radix: u32) -> (r: Option<u32>)
    requires
        2 <= radix <= 36,
    ensures
        r is Some <==> digit_in(c, radix as nat) is Some,
        r matches Some(d) ==> d == digit_in(c, radix as nat)->0,
{
    let d: u32 = if '0' <= c && c <= '9' {
        (c as u32) - ('0' as u32)
    } else if 'a' <= c && c <= 'z' {
        (c as u32) - ('a' as u32) + 10
    } else if 'A' <= c && c <= 'Z' {
        (c as u32) - ('A' as u32) + 10
    } else {
        return None;
    };
    if d < radix {
        Some(d)
    } else {
        None
    }
}

/// Writes `value` in `radix`, most significant digit first, without leading zeros.
pub fn format_radix(value: u32, radix: u32) -> (r: String)
    requires
        2 <= radix <= 36,
    ensures
        r@ == digits_of(value as nat, radix as nat),
    decreases value,
{
    let last = value % radix;
    let c = if last < 10 {
        ((last + 48) as u8) as char
    } else {
        ((last - 10 + 97) as u8) as char
    };
    assert(c == digit_char(last as nat));
    if value < radix {
        proof {
            vstd::arithmetic::div_mod::lemma_small_mod(value as nat, radix as nat);
        }
        let mut s = String::new();
        push_char(&mut s, c);
        assert(s@ =~= digits_of(value as nat, radix as nat));
        s
    } else {
        assert(value / radix < value) by (nonlinear_arith)
            requires
                value >= radix,
                radix >= 2,
        ;
        let mut s = format_radix(value / radix, radix);
        push_char(&mut s, c);
        s
    }
}

/// Reads `digits` as a number in `radix`; fails unless they are digits of that radix
/// and their value fits in 32 bits.
pub fn parse_digits(digits: &str, radix: u32) -> (r: Result<u32, Error>)
    requires
        2 <= radix <= 36,
    ensures
        r is Ok <==> reads_as_u32(digits@, radix as nat),
        r matches Ok(v) ==> v == value_of(digits@, radix as nat),
        r matches Err(e) ==> (e matches Error::DataConversionError(m) && m@ == unreadable_text(
            digits@,
            radix as nat,
        )),
{
    let n = digits.unicode_len();
    let mut acc: u64 = 0;
    let mut i: usize = 0;
    let mut ok = n > 0;
    while ok && i < n
        invariant
            n == digits@.len(),
            i <= n,
            acc == value_of(digits@.take(i as int), radix as nat),
            acc <= u32::MAX,
            all_digits(digits@.take(i as int), radix as nat),
            2 <= radix <= 36,
            ok ==> n > 0,
            !ok ==> !reads_as_u32(digits@, radix as nat),
        decreases n - i + (if ok { 1int } else { 0int }),
    {
        let c = digits.get_char(i);
        match digit_of(c, radix) {
            None => {
                ok = false;
            },
            Some(d) => {
                assert((acc as int) * (radix as int) <= (u32::MAX as int) * 36) by (nonlinear_arith)
                    requires
                        acc <= u32::MAX,
                        radix <= 36,
                ;
                let next = acc * (radix as u64) + (d as u64);
                let ghost t = digits@.take(i as int + 1);
                assert(t.drop_last() =~= digits@.take(i as int));
                assert(t.last() == c);
                assert(next == value_of(t, radix as nat));
                if next > u32::MAX as u64 {
                    proof {
                        lemma_value_prefix(digits@, radix as nat, i as int + 1);
                    }
                    ok = false;
                } else {
                    acc = next;
                    i = i + 1;
                    assert forall|j: int| 0 <= j < t.len() implies (#[trigger] digit_in(
                        t[j],
                        radix as nat,
                    )) is Some by {
                        if j < i - 1 {
                            assert(t[j] == digits@.take(i as int - 1)[j]);
                        }
                    }
                }
            },
        }
    }
    if ok {
        assert(digits@.take(i as int) =~= digits@);
        Ok(acc as u32)
    } else {
        let mut m = String::from_str("could not read ");
        m.append(digits);
        m.append(" in base ");
        let b = format_radix(radix, 10);
        m.append(b.as_str());
        Err(Error::DataConversionError(m))
    }
}

/// The value of `c` as a digit in `radix`; fails when it is no digit of that radix.
pub fn char_to_digit(c: char, radix: u32) -> (r: Result<u32, Error>)
    requires
        2 <= radix <= 36,
    ensures
        r is Ok <==> digit_in(c, radix as nat) is Some,
        r matches Ok(d) ==> d == digit_in(c, radix as nat)->0,
        r matches Err(e) ==> (e matches Error::DataConversionError(m) && m@ == not_a_digit_text(
            c,
            radix as nat,
        )),
{
    match digit_of(c, radix) {
        Some(d) => Ok(d),
        None => {
            let mut m = String::from_str("cannot convert ");
            push_char(&mut m, c);
            m.append(" to number of base ");
            let b = format_radix(radix, 10);
            m.append(b.as_str());
            Err(Error::DataConversionError(m))
        },
    }
}

/// The digit value of each character of `token` in `radix`, in order; fails at the first
/// character that is no digit of that radix.
pub fn token_to_digits(token: &str, radix: u32) -> (r: Result<Vec<u32>, Error>)
    requires
        2 <= radix <= 36,
    ensures
        r is Ok <==> all_digits(token@, radix as nat),
        r matches Ok(v) ==> v@.len() == token@.len() && forall|i: int|
            0 <= i < v@.len() ==> v@[i] == (#[trigger] digit_in(token@[i], radix as nat))->0,
        r matches Err(e) ==> (e matches Error::DataConversionError(m) && exists|i: int|
            0 <= i < token@.len() && (#[trigger] digit_in(token@[i], radix as nat)) is None
                && (forall|j: int|
                0 <= j < i ==> (#[trigger] digit_in(token@[j], radix as nat)) is Some) && m@
                == not_a_digit_text(token@[i], radix as nat)),
{
    let n = token.unicode_len();
    let mut out: Vec<u32> = Vec::new();
    let mut i: usize = 0;
    while i < n
        invariant
            n == token@.len(),
            i <= n,
            out@.len() == i,
            2 <= radix <= 36,
            forall|j: int| 0 <= j < i ==> (#[trigger] digit_in(token@[j], radix as nat)) is Some,
            forall|j: int|
                0 <= j < i ==> out@[j] == (#[trigger] digit_in(token@[j], radix as nat))->0,
        decreases n - i,
    {
        let c = token.get_char(i);
        match char_to_digit(c, radix) {
            Ok(d) => {
                out.push(d);
                i = i + 1;
            },
            Err(e) => {
                return Err(e);
            },
        }
    }
    Ok(out)
}

} // verus!
