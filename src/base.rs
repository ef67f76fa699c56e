use vstd::prelude::*;

use crate::digits::{
    all_digits, digit_in, digit_value, digits_of, lemma_digits_of, parse_digits, reads_as_u32,
    unreadable_text, value_of,
};
use crate::errors::{ConfusingBaseError, Error};

verus! {

/// The radix used when no base is chosen.
pub const DEFAULT_BASE: u32 = 10;

/// A choice among the four supported bases, one flag for each.
#[derive(PartialEq, Eq, Structural, Debug, Clone, Copy)]
pub struct BaseChoice {
    pub bin: bool,
    pub dec: bool,
    pub hex: bool,
    pub oct: bool,
}

/// A numeric base that a token can be written in.
#[derive(PartialEq, Eq, Structural, Debug, Clone, Copy)]
pub enum Base {
    Bin,
    Dec,
    Hex,
    Oct,
}

/// The flags of a choice, in the order bin, dec, hex, oct.
pub open spec fn flags(c: BaseChoice) -> Seq<bool> {
    seq![c.bin, c.dec, c.hex, c.oct]
}

/// How many of the four flags are set.
pub open spec fn count_chosen(c: BaseChoice) -> nat {
    (if c.bin { 1nat } else { 0nat }) + (if c.dec { 1nat } else { 0nat }) + (if c.hex {
        1nat
    } else {
        0nat
    }) + (if c.oct { 1nat } else { 0nat })
}

/// The names of the chosen flags, in the order bin, dec, hex, oct.
pub open spec fn chosen_names(c: BaseChoice) -> Seq<Seq<char>> {
    (if c.bin { seq!["bin"@] } else { seq![] }) + (if c.dec { seq!["dec"@] } else { seq![] }) + (
    if c.hex {
        seq!["hex"@]
    } else {
        seq![]
    }) + (if c.oct { seq!["oct"@] } else { seq![] })
}

/// The parts joined with a comma and a space between each two.
pub open spec fn join_names(parts: Seq<Seq<char>>) -> Seq<char>
    decreases parts.len(),
{
    if parts.len() == 0 {
        Seq::empty()
    } else if parts.len() == 1 {
        parts[0]
    } else {
        join_names(parts.drop_last()) + ", "@ + parts.last()
    }
}

/// The chosen flags as text, e.g. `bin, dec`; empty when none is chosen.
pub open spec fn choices_text(c: BaseChoice) -> Seq<char> {
    join_names(chosen_names(c))
}

/// The reason given when more than one base is chosen.
pub open spec fn confusing_text(c: BaseChoice) -> Seq<char> {
    "only one choice is allowed, but got multiple: "@ + choices_text(c)
}

/// The radix a valid choice stands for: the chosen base, or decimal when none is.
pub open spec fn choice_radix(c: BaseChoice) -> u32 {
    if c.bin {
        2
    } else if c.dec {
        10
    } else if c.hex {
        16
    } else if c.oct {
        8
    } else {
        DEFAULT_BASE
    }
}

/// The radix of each base.
pub open spec fn base_radix(b: Base) -> u32 {
    match b {
        Base::Bin => 2,
        Base::Dec => 10,
        Base::Hex => 16,
        Base::Oct => 8,
    }
}

/// The choice with exactly the flag of the base set.
pub open spec fn base_choice(b: Base) -> BaseChoice {
    BaseChoice {
        bin: b == Base::Bin,
        dec: b == Base::Dec,
        hex: b == Base::Hex,
        oct: b == Base::Oct,
    }
}

proof fn lemma_join_push(parts: Seq<Seq<char>>, name: Seq<char>)
    ensures
        join_names(parts.push(name)) == if parts.len() == 0 {
            name
        } else {
            join_names(parts) + ", "@ + name
        },
{
    assert(parts.push(name).drop_last() =~= parts);
}

/// Adds one name to a comma-separated list.
fn push_name(text: &mut String, any: bool, name: &str, Ghost(parts): Ghost<Seq<Seq<char>>>)
    requires
        old(text)@ == join_names(parts),
        any <==> parts.len() > 0,
    ensures
        final(text)@ == join_names(parts.push(name@)),
{
    proof {
        lemma_join_push(parts, name@);
    }
    if any {
        text.append(", ");
    }
    text.append(name);
    proof {
        if !any {
            assert(parts.len() == 0);
            assert(join_names(parts) == Seq::<char>::empty());
            assert(text@ =~= name@);
        }
    }
}

/// `v` is the code of a Unicode scalar value: below the surrogates, or above them up to 0x10FFFF.
pub open spec fn is_scalar_value(v: u32) -> bool {
    v < 0xD800 || (0xE000 <= v && v <= 0x10FFFF)
}

/// The message for a value that is no character.
pub open spec fn no_char_text(v: u32) -> Seq<char> {
    "could not convert "@ + digits_of(v as nat, 10) + " to char"@
}

/// Relies on `char::from_u32`: `Some` exactly for the Unicode scalar values, holding the
/// character with that code.
#[verifier::external_body]
fn char_from_u32(v: u32) -> (r: Option<char>)
    ensures
        r is Some <==> is_scalar_value(v),
        r matches Some(c) ==> c as u32 == v,
{
    char::from_u32(v)
}

impl BaseChoice {
    /// The character whose code is `val`; fails when `val` is no Unicode scalar value.
    pub fn chr(&self, val: u32) -> (r: core::result::Result<char, Error>)
        ensures
            r is Ok <==> is_scalar_value(val),
            r matches Ok(c) ==> c as u32 == val,
            r matches Err(e) ==> (e matches Error::DataConversionError(m) && m@ == no_char_text(
                val,
            )),
    {
        match char_from_u32(val) {
            Some(c) => Ok(c),
            None => {
                let mut m = String::from_str("could not convert ");
                let v = crate::digits::format_radix(val, 10);
                m.append(v.as_str());
                m.append(" to char");
                Err(Error::DataConversionError(m))
            },
        }
    }

    /// The flags in the order bin, dec, hex, oct.
    pub fn to_vec(&self) -> (r: Vec<bool>)
        ensures
            r@ == flags(*self),
    {
        let r = vec![self.bin, self.dec, self.hex, self.oct];
        assert(r@ =~= flags(*self));
        r
    }

    /// The chosen flags as text, in the order bin, dec, hex, oct, separated by a comma and a space.
    pub fn to_string(&self) -> (r: String)
        ensures
            r@ == choices_text(*self),
    {
        let mut text = String::new();
        let ghost parts: Seq<Seq<char>> = seq![];
        let mut any = false;
        if self.bin {
            push_name(&mut text, any, "bin", Ghost(parts));
            proof { parts = parts.push("bin"@); }
            any = true;
        }
        if self.dec {
            push_name(&mut text, any, "dec", Ghost(parts));
            proof { parts = parts.push("dec"@); }
            any = true;
        }
        if self.hex {
            push_name(&mut text, any, "hex", Ghost(parts));
            proof { parts = parts.push("hex"@); }
            any = true;
        }
        if self.oct {
            push_name(&mut text, any, "oct", Ghost(parts));
            proof { parts = parts.push("oct"@); }
        }
        assert(parts =~= chosen_names(*self));
        text
    }

    /// Refuses a choice of more than one base.
    pub fn validate(&self) -> (r: core::result::Result<(), ConfusingBaseError>)
        ensures
            r is Err <==> count_chosen(*self) > 1,
            r matches Err(e) ==> e@ == confusing_text(*self),
    {
        let set = self.to_vec();
        let mut count: usize = 0;
        let mut i: usize = 0;
        while i < set.len()
            invariant
                set@ == flags(*self),
                i <= set@.len(),
                count <= i,
                count == count_chosen(BaseChoice {
                    bin: self.bin && i > 0,
                    dec: self.dec && i > 1,
                    hex: self.hex && i > 2,
                    oct: self.oct && i > 3,
                }),
            decreases set@.len() - i,
        {
            if set[i] {
                count = count + 1;
            }
            i = i + 1;
        }
        if count > 1 {
            let mut reason = String::from_str("only one choice is allowed, but got multiple: ");
            let listed = self.to_string();
            reason.append(listed.as_str());
            Err(ConfusingBaseError::new(reason))
        } else {
            Ok(())
        }
    }

    /// The radix of the chosen base, or decimal when none is chosen; refuses more than one.
    pub fn to_radix(&self) -> (r: core::result::Result<u32, Error>)
        ensures
            r is Ok <==> count_chosen(*self) <= 1,
            r matches Ok(v) ==> v == choice_radix(*self),
            r matches Err(e) ==> (e matches Error::ConfusingBaseError(c) && c@ == confusing_text(
                *self,
            )),
    {
        match self.validate() {
            Err(e) => Err(Error::ConfusingBaseError(e)),
            Ok(()) => Ok(
                if self.bin {
                    2
                } else if self.dec {
                    10
                } else if self.hex {
                    16
                } else if self.oct {
                    8
                } else {
                    DEFAULT_BASE
                },
            ),
        }
    }
}

impl Base {
    /// The choice that selects exactly this base.
    pub fn to_choice(&self) -> (r: BaseChoice)
        ensures
            r == base_choice(*self),
    {
        match self {
            Base::Bin => BaseChoice { bin: true, dec: false, hex: false, oct: false },
            Base::Dec => BaseChoice { bin: false, dec: true, hex: false, oct: false },
            Base::Hex => BaseChoice { bin: false, dec: false, hex: true, oct: false },
            Base::Oct => BaseChoice { bin: false, dec: false, hex: false, oct: true },
        }
    }
}

/// What `str::to_lowercase` makes of a text.
pub uninterp spec fn lower_of(s: Seq<char>) -> Seq<char>;

/// Relies on `str::to_lowercase`: the lower-case form depends on the characters alone.
#[verifier::external_body]
fn lowercase(s: &str) -> (r: String)
    ensures
        r@ == lower_of(s@),
{
    s.to_lowercase()
}

/// The base that a (lower-case) token announces: `0b`, `0o` or `0x` at its start, else decimal.
pub open spec fn prefix_base(t: Seq<char>) -> Base {
    if t.len() >= 2 && t[0] == '0' && t[1] == 'b' {
        Base::Bin
    } else if t.len() >= 2 && t[0] == '0' && t[1] == 'o' {
        Base::Oct
    } else if t.len() >= 2 && t[0] == '0' && t[1] == 'x' {
        Base::Hex
    } else {
        Base::Dec
    }
}

/// The length of the prefix that a token starts with: 2, or 0 when it has none.
pub open spec fn prefix_len(t: Seq<char>) -> int {
    if prefix_base(t) == Base::Dec {
        0
    } else {
        2
    }
}

/// What follows the prefix of a token.
pub open spec fn digit_part(t: Seq<char>) -> Seq<char> {
    t.subrange(prefix_len(t), t.len() as int)
}

/// An ASCII letter or digit.
pub open spec fn is_ascii_alnum(c: char) -> bool {
    ('0' <= c && c <= '9') || ('a' <= c && c <= 'z') || ('A' <= c && c <= 'Z')
}

/// `t` is an optional `0b`, `0o` or `0x` prefix followed by one or more ASCII letters and
/// digits. As the prefixes are letters and digits themselves, this is a non-empty run of
/// ASCII letters and digits; a bare prefix such as `0x` has the shape, but no digits.
pub open spec fn has_token_shape(t: Seq<char>) -> bool {
    t.len() > 0 && forall|i: int| 0 <= i < t.len() ==> #[trigger] is_ascii_alnum(t[i])
}

/// `t` has the shape of a token and its digit part reads as a 32-bit number in its base.
pub open spec fn token_reads(t: Seq<char>) -> bool {
    has_token_shape(t) && reads_as_u32(digit_part(t), base_radix(prefix_base(t)) as nat)
}

/// The number that the digit part of `t` denotes in the base that `t` announces.
pub open spec fn token_value(t: Seq<char>) -> nat {
    value_of(digit_part(t), base_radix(prefix_base(t)) as nat)
}

/// The message for a token without the shape of one.
pub open spec fn shape_error_text(t: Seq<char>) -> Seq<char> {
    "expected an optional 0b, 0o or 0x prefix followed by letters and digits, got "@ + t
}

/// The prefix that announces a base; decimal has none.
pub open spec fn prefix_text(b: Base) -> Seq<char> {
    match b {
        Base::Bin => "0b"@,
        Base::Dec => ""@,
        Base::Hex => "0x"@,
        Base::Oct => "0o"@,
    }
}

/// The base that a lower-case token announces by its prefix.
pub fn detect_base(lowered: &str) -> (r: Base)
    ensures
        r == prefix_base(lowered@),
{
    let n = lowered.unicode_len();
    if n >= 2 && lowered.get_char(0) == '0' {
        let c = lowered.get_char(1);
        if c == 'b' {
            Base::Bin
        } else if c == 'o' {
            Base::Oct
        } else if c == 'x' {
            Base::Hex
        } else {
            Base::Dec
        }
    } else {
        Base::Dec
    }
}

/// Whether `token` is an optional base prefix followed by one or more ASCII letters and digits.
pub fn is_token_shaped(token: &str) -> (r: bool)
    ensures
        r == has_token_shape(token@),
{
    let n = token.unicode_len();
    if n == 0 {
        return false;
    }
    let mut i: usize = 0;
    while i < n
        invariant
            n == token@.len(),
            i <= n,
            forall|j: int| 0 <= j < i ==> #[trigger] is_ascii_alnum(token@[j]),
        decreases n - i,
    {
        let c = token.get_char(i);
        if !(('0' <= c && c <= '9') || ('a' <= c && c <= 'z') || ('A' <= c && c <= 'Z')) {
            assert(!is_ascii_alnum(token@[i as int]));
            return false;
        }
        i = i + 1;
    }
    true
}

/// Reads a lower-case token: its base from the prefix, its value from the digits after it.
/// Fails with `RegexCaptureError` when the token lacks the shape, and with
/// `DataConversionError` when the digit part is empty (a bare prefix), holds a character
/// that is no digit of the base, or exceeds 32 bits.
pub fn parse_lowered_token(lowered: &str) -> (r: core::result::Result<(Base, u32), Error>)
    ensures
        r is Ok <==> token_reads(lowered@),
        r matches Ok(p) ==> p.0 == prefix_base(lowered@) && p.1 == token_value(lowered@),
        !has_token_shape(lowered@) ==> (r matches Err(e) && e matches Error::RegexCaptureError(m)
            && m@ == shape_error_text(lowered@)),
        has_token_shape(lowered@) && !token_reads(lowered@) ==> (r matches Err(e)
            && e matches Error::DataConversionError(m) && m@ == unreadable_text(
            digit_part(lowered@),
            base_radix(prefix_base(lowered@)) as nat,
        )),
{
    if !is_token_shaped(lowered) {
        let mut m = String::from_str(
            "expected an optional 0b, 0o or 0x prefix followed by letters and digits, got ",
        );
        m.append(lowered);
        return Err(Error::RegexCaptureError(m));
    }
    let base = detect_base(lowered);
    let radix = match base.to_choice().to_radix() {
        Ok(radix) => radix,
        Err(e) => {
            return Err(e);
        },
    };
    let n = lowered.unicode_len();
    let start: usize = if base == Base::Dec {
        0
    } else {
        2
    };
    let digits = lowered.substring_char(start, n);
    match parse_digits(digits, radix) {
        Ok(v) => Ok((base, v)),
        Err(e) => Err(e),
    }
}

/// The base that a token announces by its prefix, upper or lower case; decimal when it
/// has none.
pub fn parse_base_from_prefix(data: String) -> (r: Base)
    ensures
        r == prefix_base(lower_of(data@)),
{
    let lowered = lowercase(data.as_str());
    detect_base(lowered.as_str())
}

/// Reads a token, upper or lower case, as its base and its value; see
/// [`parse_lowered_token`] for the lower-case form that is read.
pub fn parse_u32_from_string(data: String) -> (r: core::result::Result<(Base, u32), Error>)
    ensures
        r is Ok <==> token_reads(lower_of(data@)),
        r matches Ok(p) ==> p.0 == prefix_base(lower_of(data@)) && p.1 == token_value(
            lower_of(data@),
        ),
        !has_token_shape(lower_of(data@)) ==> (r matches Err(e)
            && e matches Error::RegexCaptureError(m) && m@ == shape_error_text(lower_of(data@))),
        has_token_shape(lower_of(data@)) && !token_reads(lower_of(data@)) ==> (r matches Err(e)
            && e matches Error::DataConversionError(m) && m@ == unreadable_text(
            digit_part(lower_of(data@)),
            base_radix(prefix_base(lower_of(data@))) as nat,
        )),
{
    let lowered = lowercase(data.as_str());
    parse_lowered_token(lowered.as_str())
}

/// The choice of each base selects exactly one flag, and its radix is the radix of the base:
/// 2 for binary, 10 for decimal, 16 for hexadecimal, 8 for octal.
pub proof fn lemma_choice_radix(b: Base)
    ensures
        count_chosen(base_choice(b)) == 1,
        choice_radix(base_choice(b)) == base_radix(b),
        base_radix(b) == match b {
            Base::Bin => 2u32,
            Base::Dec => 10u32,
            Base::Hex => 16u32,
            Base::Oct => 8u32,
        },
{
}

/// A choice of two or more bases is refused, and the reason names exactly the chosen flags,
/// in the order bin, dec, hex, oct.
pub proof fn lemma_several_refused(c: BaseChoice)
    requires
        count_chosen(c) >= 2,
    ensures
        !(count_chosen(c) <= 1),
        confusing_text(c) == "only one choice is allowed, but got multiple: "@ + join_names(
            chosen_names(c),
        ),
        chosen_names(c).len() == count_chosen(c),
        chosen_names(c).contains("bin"@) <==> c.bin,
        chosen_names(c).contains("dec"@) <==> c.dec,
        chosen_names(c).contains("hex"@) <==> c.hex,
        chosen_names(c).contains("oct"@) <==> c.oct,
{
    reveal_strlit("bin");
    reveal_strlit("dec");
    reveal_strlit("hex");
    reveal_strlit("oct");
    let names = chosen_names(c);
    assert(names.len() == count_chosen(c));
    if c.bin {
        assert(names[0] == "bin"@);
    }
    if c.dec {
        assert(names[(if c.bin { 1int } else { 0int })] == "dec"@);
    }
    if c.hex {
        assert(names[(if c.bin { 1int } else { 0int }) + (if c.dec { 1int } else { 0int })]
            == "hex"@);
    }
    if c.oct {
        assert(names[names.len() - 1] == "oct"@);
    }
    assert forall|i: int| 0 <= i < names.len() implies ((#[trigger] names[i])[0] == 'b' && c.bin)
        || (names[i][0] == 'd' && c.dec) || (names[i][0] == 'h' && c.hex) || (names[i][0] == 'o'
        && c.oct) by {
        let a: Seq<Seq<char>> = if c.bin { seq!["bin"@] } else { seq![] };
        let b: Seq<Seq<char>> = if c.dec { seq!["dec"@] } else { seq![] };
        let h: Seq<Seq<char>> = if c.hex { seq!["hex"@] } else { seq![] };
        let o: Seq<Seq<char>> = if c.oct { seq!["oct"@] } else { seq![] };
        assert(names == a + b + h + o);
    }
    assert(names.contains("bin"@) ==> c.bin);
    assert(names.contains("dec"@) ==> c.dec);
    assert(names.contains("hex"@) ==> c.hex);
    assert(names.contains("oct"@) ==> c.oct);
}

/// A choice of at most one base is accepted; its radix is one of 2, 8, 10 and 16, and
/// decimal when no base is chosen.
pub proof fn lemma_single_accepted(c: BaseChoice)
    requires
        count_chosen(c) <= 1,
    ensures
        choice_radix(c) == 2 || choice_radix(c) == 8 || choice_radix(c) == 10 || choice_radix(c)
            == 16,
        count_chosen(c) == 0 ==> choice_radix(c) == 10,
        c.bin ==> choice_radix(c) == 2,
        c.dec ==> choice_radix(c) == 10,
        c.hex ==> choice_radix(c) == 16,
        c.oct ==> choice_radix(c) == 8,
{
}

/// A value written in a base, behind that base's prefix, reads back as the same base and
/// the same value.
pub proof fn lemma_round_trip(b: Base, v: u32)
    ensures
        token_reads(prefix_text(b) + digits_of(v as nat, base_radix(b) as nat)),
        prefix_base(prefix_text(b) + digits_of(v as nat, base_radix(b) as nat)) == b,
        token_value(prefix_text(b) + digits_of(v as nat, base_radix(b) as nat)) == v,
{
    reveal_strlit("0b");
    reveal_strlit("0o");
    reveal_strlit("0x");
    reveal_strlit("");
    let radix = base_radix(b) as nat;
    let d = digits_of(v as nat, radix);
    let p = prefix_text(b);
    let t = p + d;
    lemma_digits_of(v as nat, radix);
    assert forall|i: int| 0 <= i < d.len() implies #[trigger] is_ascii_alnum(d[i]) by {
        assert(digit_in(d[i], radix) is Some);
    }
    if b == Base::Dec {
        assert(t =~= d);
        if d.len() >= 2 {
            assert(digit_in(d[1], radix) is Some);
            assert(digit_value(d[1]) is Some);
        }
        assert(prefix_base(t) == Base::Dec);
        assert(digit_part(t) =~= d);
    } else {
        assert(t[0] == '0');
        assert(prefix_base(t) == b);
        assert(digit_part(t) =~= d);
        assert forall|i: int| 0 <= i < t.len() implies #[trigger] is_ascii_alnum(t[i]) by {
            if i >= 2 {
                assert(t[i] == d[i - 2]);
            }
        }
    }
}

/// A bare prefix has the shape of a token but no digits, so it does not read as a number.
pub proof fn lemma_bare_prefix(b: Base)
    requires
        b != Base::Dec,
    ensures
        has_token_shape(prefix_text(b)),
        prefix_base(prefix_text(b)) == b,
        digit_part(prefix_text(b)).len() == 0,
        !token_reads(prefix_text(b)),
{
    reveal_strlit("0b");
    reveal_strlit("0o");
    reveal_strlit("0x");
    let t = prefix_text(b);
    assert(is_ascii_alnum(t[0]) && is_ascii_alnum(t[1]));
}

} // verus!
