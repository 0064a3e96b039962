//! The text form of an identifier: 26 symbols of the alphabet, each standing
//! for five bits, the most significant first. The two bits that 26 symbols
//! hold beyond 128 are always zero.
use vstd::prelude::*;
use vstd::string::*;
use crate::alphabet::{
    char_digit, char_to_digit, digit_char, digit_to_str, in_alphabet, upper,
};
use crate::codec_lemmas::{lemma_decode_encode, lemma_encode_decode};
use crate::error::Error;
use crate::identifier::{agrees, value_span, Identifier};

verus! {

/// The number of characters in the text form.
pub const TEXT_LENGTH: usize = 26;

/// 32 to the power `n`.
pub open spec fn pow32(n: nat) -> nat
    decreases n,
{
    if n == 0 {
        1
    } else {
        32 * pow32((n - 1) as nat)
    }
}

/// Digit `i` of `v` written in base 32 with 26 digits, where digit 0 is the
/// most significant.
pub open spec fn digit_at(v: nat, i: int) -> int
    recommends
        0 <= i < 26,
{
    ((v / pow32((25 - i) as nat)) % 32) as int
}

/// The text form of the number `v`: the symbol of each of its 26 digits.
pub open spec fn encode_spec(v: nat) -> Seq<char> {
    Seq::new(26, |i: int| digit_char(digit_at(v, i)))
}

/// The number that `digits` denote in base 32, most significant digit first.
pub open spec fn digits_value(digits: Seq<int>) -> nat
    decreases digits.len(),
{
    if digits.len() == 0 {
        0
    } else {
        (digits_value(digits.drop_last()) * 32 + digits.last()) as nat
    }
}

/// Whether every character of `s` belongs to the alphabet, in either case.
pub open spec fn all_in_alphabet(s: Seq<char>) -> bool {
    forall|i: int| 0 <= i < s.len() ==> in_alphabet(#[trigger] s[i])
}

/// The digits that the characters of `s` stand for. A character outside the
/// alphabet counts as zero here; `decode_spec` never reads such a text.
pub open spec fn text_digits(s: Seq<char>) -> Seq<int> {
    Seq::new(
        s.len(),
        |i: int|
            match char_digit(s[i]) {
                Some(d) => d,
                None => 0,
            },
    )
}

/// The text `s` in its canonical form: every lower-case letter replaced by
/// its upper-case form.
pub open spec fn canonical(s: Seq<char>) -> Seq<char> {
    Seq::new(s.len(), |i: int| upper(s[i]))
}

/// What reading the text `s` gives: the number it denotes, or the reason it
/// denotes none. The length is judged first, then the characters, then the
/// size of the number.
pub open spec fn decode_spec(s: Seq<char>) -> Result<nat, Error> {
    if s.len() != 26 {
        Err(Error::InvalidLength)
    } else if !all_in_alphabet(s) {
        Err(Error::InvalidCharacter)
    } else if digits_value(text_digits(s)) >= value_span() {
        Err(Error::Overflow)
    } else {
        Ok(digits_value(text_digits(s)))
    }
}

/// Powers of 32 are positive and grow by a factor of 32 with each step.
pub proof fn lemma_pow32_step(n: nat)
    ensures
        pow32(n) > 0,
        pow32(n + 1) == 32 * pow32(n),
    decreases n,
{
    if n > 0 {
        lemma_pow32_step((n - 1) as nat);
    }
}

/// A greater exponent gives a power of 32 that is at least as great.
pub proof fn lemma_pow32_increasing(a: nat, b: nat)
    requires
        a <= b,
    ensures
        pow32(a) <= pow32(b),
    decreases b,
{
    if a < b {
        lemma_pow32_increasing(a, (b - 1) as nat);
        lemma_pow32_step((b - 1) as nat);
    }
}

/// The 25th power of 32 is 2^125, an eighth of the number of 128-bit values.
pub proof fn lemma_pow32_top()
    ensures
        pow32(25) == 0x2000_0000_0000_0000_0000_0000_0000_0000,
        8 * pow32(25) == value_span(),
        pow32(26) == 4 * value_span(),
{
    reveal_with_fuel(pow32, 27);
}

/// The text form of `id`: exactly 26 upper-case symbols of the alphabet.
/// Reading it gives `id` back.
pub fn encode(id: &Identifier) -> (s: String)
    ensures
        s@ == encode_spec(id@),
        s@.len() == 26,
        decode_spec(s@) == Ok::<nat, Error>(id@),
{
    let v: u128 = id.value;
    let mut out = String::new();
    let mut divisor: u128 = 0x2000_0000_0000_0000_0000_0000_0000_0000;
    let mut i: usize = 0;
    proof {
        lemma_pow32_top();
    }
    while i < TEXT_LENGTH
        invariant
            i <= 26,
            out@.len() == i,
            forall|j: int| 0 <= j < i ==> out@[j] == digit_char(digit_at(v as nat, j)),
            i < 26 ==> divisor == pow32((25 - i) as nat),
        decreases 26 - i,
    {
        proof {
            lemma_pow32_step((25 - i) as nat);
            if i < 25 {
                lemma_pow32_step((24 - i) as nat);
            }
        }
        let d: u8 = ((v / divisor) % 32) as u8;
        out.append(digit_to_str(d));
        divisor = divisor / 32;
        i += 1;
    }
    assert(out@ =~= encode_spec(v as nat));
    proof {
        lemma_decode_encode(*id);
    }
    out
}

/// Appending one digit to a sequence multiplies its value by 32 and adds the
/// digit.
pub proof fn lemma_digits_value_push(digits: Seq<int>, d: int)
    requires
        0 <= d,
    ensures
        digits_value(digits.push(d)) == digits_value(digits) * 32 + d,
{
    assert(digits.push(d).drop_last() =~= digits);
}

/// A sequence of digits whose first digit is 8 or more denotes at least
/// eight times the power of 32 that belongs to its first place.
pub proof fn lemma_leading_digit_large(digits: Seq<int>)
    requires
        digits.len() >= 1,
        digits[0] >= 8,
        forall|i: int| 0 <= i < digits.len() ==> 0 <= #[trigger] digits[i] < 32,
    ensures
        digits_value(digits) >= 8 * pow32((digits.len() - 1) as nat),
    decreases digits.len(),
{
    if digits.len() == 1 {
        assert(digits.drop_last().len() == 0);
        assert(digits_value(digits.drop_last()) == 0);
    } else {
        lemma_leading_digit_large(digits.drop_last());
        lemma_pow32_step((digits.len() - 2) as nat);
    }
}

/// The identifier that the text `s` denotes. Lower-case letters are read as
/// upper-case ones, so the text form of the result is `s` in upper case.
/// Fails with `InvalidLength` unless `s` has exactly 26 characters, else
/// with `InvalidCharacter` if one of them is outside the alphabet, else with
/// `Overflow` if the number does not fit in 128 bits.
pub fn decode(s: &str) -> (r: Result<Identifier, Error>)
    ensures
        agrees(r, decode_spec(s@)),
        r is Ok ==> s@.len() == 26 && all_in_alphabet(s@),
        r is Ok ==> encode_spec(r->Ok_0@) == canonical(s@),
{
    if s.unicode_len() != TEXT_LENGTH {
        return Err(Error::InvalidLength);
    }
    let ghost digits: Seq<int> = text_digits(s@);
    let mut acc: u128 = 0;
    let mut large: bool = false;
    let mut i: usize = 0;
    while i < TEXT_LENGTH
        invariant
            i <= 26,
            s@.len() == 26,
            digits == text_digits(s@),
            forall|j: int| 0 <= j < i ==> in_alphabet(#[trigger] s@[j]),
            forall|j: int| 0 <= j < i ==> 0 <= #[trigger] digits[j] < 32,
            large <==> i >= 1 && digits[0] >= 8,
            !large ==> acc == digits_value(digits.subrange(0, i as int)),
            !large && i >= 1 ==> acc < 8 * pow32((i - 1) as nat),
        decreases 26 - i,
    {
        let c: char = s.get_char(i);
        match char_to_digit(c) {
            None => {
                assert(!in_alphabet(s@[i as int]));
                return Err(Error::InvalidCharacter);
            },
            Some(d) => {
                assert(digits[i as int] == d);
                if i == 0 && d >= 8 {
                    large = true;
                }
                if !large {
                    proof {
                        lemma_digits_value_push(digits.subrange(0, i as int), d as int);
                        assert(digits.subrange(0, i as int).push(d as int) =~= digits.subrange(
                            0,
                            i + 1,
                        ));
                        if i >= 1 {
                            lemma_pow32_step((i - 1) as nat);
                            lemma_pow32_increasing(i as nat, 25);
                            lemma_pow32_top();
                        } else {
                            assert(digits.subrange(0, 0).len() == 0);
                        }
                    }
                    acc = acc * 32 + (d as u128);
                }
            },
        }
        i += 1;
    }
    proof {
        lemma_pow32_top();
        assert(digits.subrange(0, 26) =~= digits);
        assert(all_in_alphabet(s@));
    }
    if large {
        proof {
            lemma_leading_digit_large(digits);
        }
        return Err(Error::Overflow);
    }
    proof {
        lemma_encode_decode(s@);
    }
    Ok(Identifier { value: acc })
}

impl Identifier {
    /// The text form of the identifier: see `encode`.
    pub fn to_string(&self) -> (s: String)
        ensures
            s@ == encode_spec(self@),
            s@.len() == 26,
            decode_spec(s@) == Ok::<nat, Error>(self@),
    {
        encode(self)
    }

    /// The identifier that the text `s` denotes: see `decode`.
    pub fn from_string(s: &str) -> (r: Result<Identifier, Error>)
        ensures
            agrees(r, decode_spec(s@)),
            r is Ok ==> s@.len() == 26 && all_in_alphabet(s@),
            r is Ok ==> encode_spec(r->Ok_0@) == canonical(s@),
    {
        decode(s)
    }
}

} // verus!
