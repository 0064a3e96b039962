//! The Crockford Base32 alphabet: thirty-two symbols, one for each five-bit
//! digit. The letters I, L, O and U are left out; lower-case letters are read
//! as their upper-case forms.
use vstd::prelude::*;
use vstd::string::*;

verus! {

/// The symbols in digit order: `alphabet()[d]` is the symbol of digit `d`.
pub open spec fn alphabet() -> Seq<char> {
    "0123456789ABCDEFGHJKMNPQRSTVWXYZ"@
}

/// The symbol that stands for digit `d`, for `0 <= d < 32`.
pub open spec fn digit_char(d: int) -> char
    recommends
        0 <= d < 32,
{
    alphabet()[d]
}

/// `c` with an ASCII lower-case letter replaced by its upper-case form.
pub open spec fn upper(c: char) -> char {
    if 'a' <= c && c <= 'z' {
        ((c as u32) - 32) as char
    } else {
        c
    }
}

/// Whether `c`, read without regard to case, is the symbol of digit `d`.
pub open spec fn is_symbol_of(c: char, d: int) -> bool {
    0 <= d < 32 && alphabet()[d] == upper(c)
}

/// Whether `c` belongs to the alphabet, in either case.
pub open spec fn in_alphabet(c: char) -> bool {
    exists|d: int| is_symbol_of(c, d)
}

/// The digit that `c` stands for, or `None` when `c` is outside the alphabet.
pub open spec fn char_digit(c: char) -> Option<int> {
    if in_alphabet(c) {
        Some(choose|d: int| is_symbol_of(c, d))
    } else {
        None
    }
}

/// The alphabet written out: its length and the symbol at each position.
pub proof fn lemma_alphabet_symbols()
    ensures
        alphabet().len() == 32,
        forall|d: int| 0 <= d < 10 ==> #[trigger] alphabet()[d] == (('0' as u32) + d) as char,
        forall|d: int| 10 <= d < 18 ==> #[trigger] alphabet()[d] == (('A' as u32) + d - 10) as char,
        forall|d: int| 18 <= d < 20 ==> #[trigger] alphabet()[d] == (('J' as u32) + d - 18) as char,
        forall|d: int| 20 <= d < 22 ==> #[trigger] alphabet()[d] == (('M' as u32) + d - 20) as char,
        forall|d: int| 22 <= d < 27 ==> #[trigger] alphabet()[d] == (('P' as u32) + d - 22) as char,
        forall|d: int| 27 <= d < 32 ==> #[trigger] alphabet()[d] == (('V' as u32) + d - 27) as char,
{
    reveal_strlit("0123456789ABCDEFGHJKMNPQRSTVWXYZ");
}

/// Symbols grow with their digits, so comparing two symbols compares the
/// digits they stand for.
pub proof fn lemma_digit_char_increasing(d1: int, d2: int)
    requires
        0 <= d1 < d2 < 32,
    ensures
        digit_char(d1) < digit_char(d2),
{
    lemma_alphabet_symbols();
}

/// Reading the symbol of a digit gives the digit back.
pub proof fn lemma_char_digit_of_digit_char(d: int)
    requires
        0 <= d < 32,
    ensures
        in_alphabet(digit_char(d)),
        upper(digit_char(d)) == digit_char(d),
        char_digit(digit_char(d)) == Some(d),
{
    lemma_alphabet_symbols();
    let c = digit_char(d);
    assert(is_symbol_of(c, d));
    let e = choose|e: int| is_symbol_of(c, e);
    if e < d {
        lemma_digit_char_increasing(e, d);
    } else if d < e {
        lemma_digit_char_increasing(d, e);
    }
}

/// The symbol of digit `d`, as a text of one character.
pub fn digit_to_str(d: u8) -> (s: &'static str)
    requires
        d < 32,
    ensures
        s@ == seq![digit_char(d as int)],
{
    proof {
        reveal_strlit("0123456789ABCDEFGHJKMNPQRSTVWXYZ");
    }
    let symbols: &'static str = "0123456789ABCDEFGHJKMNPQRSTVWXYZ";
    let from: usize = d as usize;
    let s = symbols.substring_ascii(from, from + 1);
    assert(s@ =~= seq![digit_char(d as int)]);
    s
}

/// The digit that `c` stands for, in either case; `None` for any character
/// outside the alphabet.
pub fn char_to_digit(c: char) -> (r: Option<u8>)
    ensures
        r is Some <==> in_alphabet(c),
        match r {
            Some(d) => char_digit(c) == Some(d as int) && d < 32,
            None => char_digit(c) is None,
        },
{
    let code: u32 = c as u32;
    let u: u32 = if 97 <= code && code <= 122 {
        code - 32
    } else {
        code
    };
    let found: Option<u8> = if 48 <= u && u <= 57 {
        Some((u - 48) as u8)
    } else if 65 <= u && u <= 72 {
        Some((u - 65 + 10) as u8)
    } else if 74 <= u && u <= 75 {
        Some((u - 74 + 18) as u8)
    } else if 77 <= u && u <= 78 {
        Some((u - 77 + 20) as u8)
    } else if 80 <= u && u <= 84 {
        Some((u - 80 + 22) as u8)
    } else if 86 <= u && u <= 90 {
        Some((u - 86 + 27) as u8)
    } else {
        None
    };
    proof {
        lemma_alphabet_symbols();
        assert(u == upper(c) as u32);
        match found {
            Some(d) => {
                assert(is_symbol_of(c, d as int));
                let e = choose|e: int| is_symbol_of(c, e);
                if e < d {
                    lemma_digit_char_increasing(e, d as int);
                } else if d < e {
                    lemma_digit_char_increasing(d as int, e);
                }
            },
            None => {
                assert forall|e: int| !is_symbol_of(c, e) by {
                    if 0 <= e < 32 {
                        assert(alphabet()[e] != upper(c));
                    }
                }
            },
        }
    }
    found
}

} // verus!
