//! What holds of the text form: reading undoes writing, and the order of the
//! texts is the order of the numbers.
use vstd::prelude::*;
use vstd::arithmetic::div_mod::{
    lemma_basic_div, lemma_div_denominator, lemma_fundamental_div_mod,
    lemma_fundamental_div_mod_converse_div,
};
use crate::alphabet::{
    char_digit, digit_char, in_alphabet, is_symbol_of, lemma_char_digit_of_digit_char,
    lemma_digit_char_increasing, upper,
};
use crate::codec::{
    all_in_alphabet, canonical, decode_spec, digit_at, digits_value, encode_spec, lemma_pow32_step,
    lemma_pow32_top, pow32, text_digits,
};
use crate::error::Error;
use crate::identifier::{
    lemma_timestamp_orders, randomness_of, randomness_span, timestamp_of, value_span, Identifier,
};

verus! {

/// The 26 base-32 digits of `v`, most significant first.
pub open spec fn digits_of(v: nat) -> Seq<int> {
    Seq::new(26, |i: int| digit_at(v, i))
}

/// Whether every element of `digits` is a base-32 digit.
pub open spec fn valid_digits(digits: Seq<int>) -> bool {
    forall|i: int| 0 <= i < digits.len() ==> 0 <= #[trigger] digits[i] < 32
}

/// Whether `s` and `t` agree before position `k` and `s` has the smaller
/// character at `k`.
pub open spec fn precedes_at(s: Seq<char>, t: Seq<char>, k: int) -> bool {
    &&& 0 <= k < s.len()
    &&& k < t.len()
    &&& forall|i: int| 0 <= i < k ==> s[i] == t[i]
    &&& s[k] < t[k]
}

/// Whether `s` comes before `t` in lexicographic order: at the first position
/// where they differ `s` has the smaller character, or `s` is a proper prefix
/// of `t`. This is the order in which strings compare.
pub open spec fn text_lt(s: Seq<char>, t: Seq<char>) -> bool {
    ||| exists|k: int| precedes_at(s, t, k)
    ||| (s.len() < t.len() && forall|i: int| 0 <= i < s.len() ==> s[i] == t[i])
}

/// The first `k` digits of `v` denote `v` without its last `26 - k` digits.
proof fn lemma_prefix_value(v: nat, k: nat)
    requires
        v < 4 * value_span(),
        k <= 26,
    ensures
        digits_value(digits_of(v).subrange(0, k as int)) == v / pow32((26 - k) as nat),
    decreases k,
{
    let prefix = digits_of(v).subrange(0, k as int);
    if k == 0 {
        lemma_pow32_top();
        assert(prefix.len() == 0);
        assert(digits_value(prefix) == 0);
        lemma_basic_div(v as int, pow32(26) as int);
    } else {
        lemma_prefix_value(v, (k - 1) as nat);
        let unit = pow32((26 - k) as nat);
        lemma_pow32_step((26 - k) as nat);
        lemma_div_denominator(v as int, unit as int, 32);
        assert(prefix.drop_last() =~= digits_of(v).subrange(0, k - 1));
        assert(prefix.last() == digit_at(v, k - 1));
        let x = v / unit;
        assert(pow32((27 - k) as nat) == unit * 32);
        assert(v / pow32((27 - k) as nat) == x / 32);
        assert(pow32((25 - (k - 1)) as nat) == unit);
        assert(digit_at(v, k - 1) == x % 32);
        assert(digits_value(prefix.drop_last()) == x / 32);
        assert(digits_value(prefix) == (x / 32) * 32 + x % 32);
    }
}

/// The digits of a number below 2^130 denote that number.
pub proof fn lemma_digits_of_value(v: nat)
    requires
        v < 4 * value_span(),
    ensures
        digits_of(v).len() == 26,
        valid_digits(digits_of(v)),
        digits_value(digits_of(v)) == v,
{
    lemma_prefix_value(v, 26);
    assert(pow32(0) == 1);
    assert(v / 1 == v);
    assert(digits_of(v).subrange(0, 26) =~= digits_of(v));
}

/// Two digit sequences of one length that denote the same number are the
/// same sequence.
pub proof fn lemma_digits_value_injective(a: Seq<int>, b: Seq<int>)
    requires
        a.len() == b.len(),
        valid_digits(a),
        valid_digits(b),
        digits_value(a) == digits_value(b),
    ensures
        a == b,
    decreases a.len(),
{
    if a.len() > 0 {
        lemma_digits_value_injective(a.drop_last(), b.drop_last());
        assert(a =~= a.drop_last().push(a.last()));
        assert(b =~= b.drop_last().push(b.last()));
    } else {
        assert(a =~= b);
    }
}

/// Of two digit sequences of one length, the one that denotes the smaller
/// number has the smaller digit where they first differ.
pub proof fn lemma_first_difference(a: Seq<int>, b: Seq<int>) -> (k: int)
    requires
        a.len() == b.len(),
        valid_digits(a),
        valid_digits(b),
        digits_value(a) < digits_value(b),
    ensures
        0 <= k < a.len(),
        forall|i: int| 0 <= i < k ==> a[i] == b[i],
        a[k] < b[k],
    decreases a.len(),
{
    let shorter_a = a.drop_last();
    let shorter_b = b.drop_last();
    if digits_value(shorter_a) < digits_value(shorter_b) {
        let k = lemma_first_difference(shorter_a, shorter_b);
        assert forall|i: int| 0 <= i < k implies a[i] == b[i] by {
            assert(shorter_a[i] == shorter_b[i]);
        }
        assert(shorter_a[k] < shorter_b[k]);
        k
    } else {
        lemma_digits_value_injective(shorter_a, shorter_b);
        assert forall|i: int| 0 <= i < a.len() - 1 implies a[i] == b[i] by {
            assert(shorter_a[i] == shorter_b[i]);
        }
        a.len() - 1
    }
}

/// The text form of a number consists of the symbols of its digits, and they
/// read back as those digits.
pub proof fn lemma_encode_digits(v: nat)
    ensures
        encode_spec(v).len() == 26,
        all_in_alphabet(encode_spec(v)),
        text_digits(encode_spec(v)) == digits_of(v),
        valid_digits(digits_of(v)),
{
    let s = encode_spec(v);
    assert forall|i: int| 0 <= i < 26 implies in_alphabet(#[trigger] s[i]) && char_digit(s[i])
        == Some(digit_at(v, i)) by {
        lemma_char_digit_of_digit_char(digit_at(v, i));
    }
    assert(text_digits(s) =~= digits_of(v));
}

/// Round trip: reading the text form of an identifier gives the identifier
/// back.
pub proof fn lemma_decode_encode(x: Identifier)
    ensures
        decode_spec(encode_spec(x@)) == Ok::<nat, Error>(x@),
{
    lemma_encode_digits(x@);
    lemma_digits_of_value(x@);
}

/// A text that reads as a number is the text form of that number, up to the
/// case of its letters.
pub proof fn lemma_encode_decode(s: Seq<char>)
    requires
        decode_spec(s) is Ok,
    ensures
        encode_spec(decode_spec(s)->Ok_0) == canonical(s),
{
    let v = decode_spec(s)->Ok_0;
    let digits = text_digits(s);
    assert forall|i: int| 0 <= i < 26 implies 0 <= #[trigger] digits[i] < 32 && digit_char(
        digits[i],
    ) == upper(s[i]) by {
        assert(in_alphabet(s[i]));
        let d = choose|d: int| is_symbol_of(s[i], d);
        assert(is_symbol_of(s[i], d));
    }
    lemma_digits_of_value(v);
    lemma_digits_value_injective(digits_of(v), digits);
    assert forall|i: int| 0 <= i < 26 implies encode_spec(v)[i] == upper(s[i]) by {
        assert(digits_of(v)[i] == digits[i]);
    }
    assert(encode_spec(v) =~= canonical(s));
}

/// No text comes before itself, and of two texts at most one comes before
/// the other.
pub proof fn lemma_text_lt_asymmetric(s: Seq<char>, t: Seq<char>)
    requires
        text_lt(s, t),
    ensures
        s != t,
        !text_lt(t, s),
{
    if text_lt(t, s) {
        if exists|k: int| precedes_at(s, t, k) {
            let k = choose|k: int| precedes_at(s, t, k);
            if exists|j: int| precedes_at(t, s, j) {
                let j = choose|j: int| precedes_at(t, s, j);
                assert(k != j);
                if k < j {
                    assert(t[k] == s[k]);
                } else {
                    assert(s[j] == t[j]);
                }
            } else {
                assert(s[k] == t[k]);
            }
        } else {
            let j = choose|j: int| precedes_at(t, s, j);
            assert(s[j] == t[j]);
        }
    }
    if s == t {
        let k = choose|k: int| precedes_at(s, t, k);
        assert(precedes_at(s, t, k));
    }
}

/// The text form of the smaller number comes first.
proof fn lemma_encode_increasing(v: nat, w: nat)
    requires
        v < w < value_span(),
    ensures
        text_lt(encode_spec(v), encode_spec(w)),
{
    lemma_encode_digits(v);
    lemma_encode_digits(w);
    lemma_digits_of_value(v);
    lemma_digits_of_value(w);
    let k = lemma_first_difference(digits_of(v), digits_of(w));
    assert(digits_of(v)[k] < digits_of(w)[k]);
    lemma_digit_char_increasing(digit_at(v, k), digit_at(w, k));
    assert forall|i: int| 0 <= i < k implies encode_spec(v)[i] == encode_spec(w)[i] by {
        assert(digits_of(v)[i] == digits_of(w)[i]);
    }
    assert(precedes_at(encode_spec(v), encode_spec(w), k));
}

/// Sorting identifiers by their text forms sorts them by their numbers: one
/// identifier is smaller than another exactly when its text comes first.
pub proof fn lemma_encode_preserves_order(a: Identifier, b: Identifier)
    ensures
        a@ < b@ <==> text_lt(encode_spec(a@), encode_spec(b@)),
{
    if a@ < b@ {
        lemma_encode_increasing(a@, b@);
    } else if b@ < a@ {
        lemma_encode_increasing(b@, a@);
        if text_lt(encode_spec(a@), encode_spec(b@)) {
            lemma_text_lt_asymmetric(encode_spec(a@), encode_spec(b@));
        }
    } else {
        if text_lt(encode_spec(a@), encode_spec(b@)) {
            lemma_text_lt_asymmetric(encode_spec(a@), encode_spec(b@));
        }
    }
}

/// An identifier with the earlier timestamp has the text that comes first,
/// whatever the two randomness fields hold.
pub proof fn lemma_encode_orders_by_timestamp(a: Identifier, b: Identifier)
    requires
        a.spec_timestamp() < b.spec_timestamp(),
    ensures
        text_lt(encode_spec(a@), encode_spec(b@)),
{
    lemma_timestamp_orders(a@, b@);
    lemma_encode_preserves_order(a, b);
}

/// The ten symbols that stand for the timestamp `t`.
pub open spec fn timestamp_text(t: nat) -> Seq<char> {
    Seq::new(10, |i: int| digit_char(((t / pow32((9 - i) as nat)) % 32) as int))
}

/// The sixteen symbols that stand for the randomness `r`.
pub open spec fn randomness_text(r: nat) -> Seq<char> {
    Seq::new(16, |i: int| digit_char(((r / pow32((15 - i) as nat)) % 32) as int))
}

/// The power of 32 for a sum of exponents is the product of the powers.
proof fn lemma_pow32_add(a: nat, b: nat)
    ensures
        pow32(a + b) == pow32(a) * pow32(b),
    decreases b,
{
    if b == 0 {
        assert(pow32(a) * 1 == pow32(a));
    } else {
        lemma_pow32_add(a, (b - 1) as nat);
        let x = pow32(a);
        let y = pow32((b - 1) as nat);
        assert(pow32(a + b) == 32 * pow32((a + b - 1) as nat));
        assert(32 * (x * y) == x * (32 * y)) by (nonlinear_arith);
    }
}

/// Digit `i` of a number, for one of the first ten places, is a digit of
/// its timestamp.
proof fn lemma_timestamp_digit(v: nat, i: int)
    requires
        0 <= i < 10,
    ensures
        digit_at(v, i) == (timestamp_of(v) / pow32((9 - i) as nat)) % 32,
{
    reveal_with_fuel(pow32, 17);
    assert(pow32(16) == randomness_span());
    lemma_pow32_add(16, (9 - i) as nat);
    lemma_pow32_step((9 - i) as nat);
    lemma_div_denominator(v as int, pow32(16) as int, pow32((9 - i) as nat) as int);
}

/// Digit `i` of a number, for one of the last sixteen places, is a digit of
/// its randomness.
proof fn lemma_randomness_digit(v: nat, i: int)
    requires
        10 <= i < 26,
    ensures
        digit_at(v, i) == (randomness_of(v) / pow32((25 - i) as nat)) % 32,
{
    let k = (25 - i) as nat;
    let unit = pow32(k);
    let rest = pow32((15 - k) as nat);
    let t = timestamp_of(v);
    let r = randomness_of(v);
    assert(pow32(16) == randomness_span()) by {
        reveal_with_fuel(pow32, 17);
    }
    lemma_pow32_add(k, (16 - k) as nat);
    lemma_pow32_step(k);
    lemma_pow32_step((15 - k) as nat);
    assert(randomness_span() == unit * (32 * rest));
    let high = t * rest;
    assert(t * (unit * (32 * rest)) == (32 * high) * unit) by (nonlinear_arith)
        requires
            high == t * rest,
    ;
    lemma_fundamental_div_mod(r as int, unit as int);
    let q = 32 * high + r / unit;
    assert(v == q * unit + r % unit) by (nonlinear_arith)
        requires
            v == (32 * high) * unit + r,
            r == unit * (r / unit) + r % unit,
            q == 32 * high + r / unit,
    ;
    lemma_fundamental_div_mod_converse_div(v as int, unit as int, q as int, (r % unit) as int);
}

/// The first ten symbols of a text form stand for the timestamp and the
/// last sixteen for the randomness.
pub proof fn lemma_encode_fields(x: Identifier)
    ensures
        encode_spec(x@) == timestamp_text(x.spec_timestamp()) + randomness_text(
            x.spec_randomness(),
        ),
{
    let joined = timestamp_text(x.spec_timestamp()) + randomness_text(x.spec_randomness());
    assert forall|i: int| 0 <= i < 26 implies encode_spec(x@)[i] == joined[i] by {
        if i < 10 {
            lemma_timestamp_digit(x@, i);
        } else {
            lemma_randomness_digit(x@, i);
            assert(joined[i] == randomness_text(x.spec_randomness())[i - 10]);
        }
    }
    assert(encode_spec(x@) =~= joined);
}

} // verus!
