use ulidgen::{decode, encode, Error, Identifier, MAX_RANDOMNESS, MAX_TIMESTAMP};

const ALPHABET: &str = "0123456789ABCDEFGHJKMNPQRSTVWXYZ";

fn samples() -> Vec<u128> {
    let mut values: Vec<u128> = vec![
        0,
        1,
        31,
        32,
        1 << 80,
        (1 << 80) - 1,
        u128::MAX,
        u128::MAX - 1,
        0x0169_4F1E_0C0F_8665_9AED_C9A1_6CD3_1E3F,
        0x4141_4141_4141_4141_4141_4141_4141_4141,
    ];
    let mut x: u128 = 0x9E37_79B9_7F4A_7C15_F39C_C060_5CED_C835;
    for _ in 0..200 {
        x = x.wrapping_mul(0x2360_ED05_1FC6_5DA4_4385_DF64_9FCC_F645).wrapping_add(0x5851_F42D_4C95_7F2D);
        values.push(x);
    }
    for shift in 0..128 {
        values.push(1u128 << shift);
    }
    values
}

#[test]
fn nil_encodes_to_26_zeros() {
    assert_eq!(encode(&Identifier::nil()), "00000000000000000000000000");
    assert_eq!(Identifier::nil().to_string(), "00000000000000000000000000");
}

#[test]
fn greatest_identifier_encodes_to_7_and_25_z() {
    assert_eq!(
        encode(&Identifier::from_value(u128::MAX)),
        "7ZZZZZZZZZZZZZZZZZZZZZZZZZ"
    );
}

#[test]
fn encode_known_values() {
    assert_eq!(
        encode(&Identifier::from_value(0x4141_4141_4141_4141_4141_4141_4141_4141)),
        "21850M2GA1850M2GA1850M2GA1"
    );
    assert_eq!(
        encode(&Identifier::from_value(0x4d4e_3850_5144_4a59_4542_3433_5a41_3756)),
        "2D9RW50MA499CMAGHM6DD42DTP"
    );
    assert_eq!(encode(&Identifier::from_value(1)), "00000000000000000000000001");
    assert_eq!(encode(&Identifier::from_value(31)), "0000000000000000000000000Z");
    assert_eq!(encode(&Identifier::from_value(32)), "00000000000000000000000010");
}

#[test]
fn encode_uses_each_symbol_for_its_digit() {
    for (d, symbol) in ALPHABET.chars().enumerate() {
        let text = encode(&Identifier::from_value(d as u128));
        assert_eq!(text.len(), 26);
        assert_eq!(text.chars().last(), Some(symbol));
        assert!(text.chars().take(25).all(|c| c == '0'));
    }
}

#[test]
fn encode_gives_26_symbols_of_the_alphabet() {
    for v in samples() {
        let text = encode(&Identifier::from_value(v));
        assert_eq!(text.chars().count(), 26);
        assert!(text.chars().all(|c| ALPHABET.contains(c)));
    }
}

#[test]
fn timestamp_fills_the_first_ten_symbols() {
    let id = Identifier::from_parts(MAX_TIMESTAMP, 0).unwrap();
    assert_eq!(encode(&id), "7ZZZZZZZZZ0000000000000000");
    let id = Identifier::from_parts(0, MAX_RANDOMNESS).unwrap();
    assert_eq!(encode(&id), "0000000000ZZZZZZZZZZZZZZZZ");
    let id = Identifier::from_parts(1, 0).unwrap();
    assert_eq!(encode(&id), "00000000010000000000000000");
    let a = encode(&Identifier::from_parts(1_469_918_176_385, 11).unwrap());
    let b = encode(&Identifier::from_parts(1_469_918_176_385, 99_999_999).unwrap());
    assert_eq!(&a[..10], "01ARYZ6S41");
    assert_eq!(&a[..10], &b[..10]);
}

#[test]
fn decode_undoes_encode() {
    for v in samples() {
        let id = Identifier::from_value(v);
        assert_eq!(decode(&encode(&id)), Ok(id));
        assert_eq!(Identifier::from_string(&id.to_string()), Ok(id));
    }
}

#[test]
fn encode_undoes_decode_up_to_case() {
    for text in [
        "01D39ZY06FGSCTVN4T2V9PKHFZ",
        "01d39zy06fgsctvn4t2v9pkhfz",
        "7zzzzzzzzzzzzzzzzzzzzzzzzz",
        "0123456789ABCDEFGHJKMNPQRS",
        "0TVWXYZtvwxyzabcdefghjkmnp",
    ] {
        let id = decode(text).unwrap();
        assert_eq!(encode(&id), text.to_uppercase());
    }
}

#[test]
fn decode_known_values() {
    assert_eq!(
        decode("21850M2GA1850M2GA1850M2GA1"),
        Ok(Identifier::from_value(0x4141_4141_4141_4141_4141_4141_4141_4141))
    );
    assert_eq!(decode("00000000000000000000000000"), Ok(Identifier::nil()));
    assert_eq!(
        decode("7ZZZZZZZZZZZZZZZZZZZZZZZZZ"),
        Ok(Identifier::from_value(u128::MAX))
    );
    assert_eq!(
        decode("00000000010000000000000000"),
        Ok(Identifier::from_parts(1, 0).unwrap())
    );
    let id = decode("01ARYZ6S41TSV4RRFFQ69G5FAV").unwrap();
    assert_eq!(id.timestamp(), 1_469_918_176_385);
}

#[test]
fn decode_reads_lower_case_as_upper_case() {
    assert_eq!(
        decode("01d39zy06fgsctvn4t2v9pkhfz"),
        decode("01D39ZY06FGSCTVN4T2V9PKHFZ")
    );
    assert!(decode("01d39zy06fgsctvn4t2v9pkhfz").is_ok());
}

#[test]
fn decode_agrees_with_the_ulid_crate() {
    for v in samples() {
        let text = ulid::Ulid(v).to_string();
        assert_eq!(encode(&Identifier::from_value(v)), text);
        assert_eq!(decode(&text).unwrap().value(), ulid::Ulid::from_string(&text).unwrap().0);
        let lower = text.to_lowercase();
        assert_eq!(decode(&lower).unwrap().value(), ulid::Ulid::from_string(&lower).unwrap().0);
    }
}

#[test]
fn decode_empty_is_invalid_length() {
    assert_eq!(Identifier::from_string(""), Err(Error::InvalidLength));
    assert_eq!(decode(""), Err(Error::InvalidLength));
}

#[test]
fn decode_wrong_length_is_invalid_length() {
    assert_eq!(decode("0000000000000000000000000"), Err(Error::InvalidLength));
    assert_eq!(decode("000000000000000000000000000"), Err(Error::InvalidLength));
    assert_eq!(decode("I"), Err(Error::InvalidLength));
    assert_eq!(decode("Z0000000000000000000000000000"), Err(Error::InvalidLength));
    assert_eq!(decode("01D39ZY06FGSCTVN4T2V9PKHFZ "), Err(Error::InvalidLength));
}

#[test]
fn decode_counts_characters_not_bytes() {
    let thirteen = "\u{e9}".repeat(13);
    assert_eq!(thirteen.len(), 26);
    assert_eq!(decode(&thirteen), Err(Error::InvalidLength));
    let twenty_six = "\u{e9}".repeat(26);
    assert_eq!(decode(&twenty_six), Err(Error::InvalidCharacter));
    let mixed = format!("{}\u{20ac}", "0".repeat(25));
    assert_eq!(decode(&mixed), Err(Error::InvalidCharacter));
}

#[test]
fn decode_letter_i_is_invalid_character() {
    assert_eq!(
        Identifier::from_string("0000000000000000000000000I"),
        Err(Error::InvalidCharacter)
    );
    assert_eq!(
        Identifier::from_string("01D39ZY06FGSCTVN4T2V9PKHFI"),
        Err(Error::InvalidCharacter)
    );
}

#[test]
fn decode_refuses_every_character_outside_the_alphabet() {
    for code in 0u32..=0x2FF {
        let c = match char::from_u32(code) {
            Some(c) => c,
            None => unreachable!(),
        };
        let text = format!("{}{}", "0".repeat(25), c);
        let expected_ok = ALPHABET.contains(c.to_ascii_uppercase()) && c.is_ascii();
        match decode(&text) {
            Ok(id) => {
                assert!(expected_ok, "accepted {:?}", c);
                let d = ALPHABET.find(c.to_ascii_uppercase()).unwrap();
                assert_eq!(id.value(), d as u128);
            }
            Err(e) => {
                assert!(!expected_ok, "refused {:?}", c);
                assert_eq!(e, Error::InvalidCharacter);
            }
        }
    }
    for c in ['I', 'L', 'O', 'U', 'i', 'l', 'o', 'u', '-', ' ', '@', '[', '`', '{', '/', ':'] {
        let text = format!("{}{}", c, "0".repeat(25));
        assert_eq!(decode(&text), Err(Error::InvalidCharacter));
    }
}

#[test]
fn decode_top_bits_set_is_overflow() {
    assert_eq!(
        Identifier::from_string("80000000000000000000000000"),
        Err(Error::Overflow)
    );
    assert_eq!(
        Identifier::from_string("ZZZZZZZZZZZZZZZZZZZZZZZZZZ"),
        Err(Error::Overflow)
    );
    assert_eq!(decode("G0000000000000000000000000"), Err(Error::Overflow));
    assert_eq!(decode("z0000000000000000000000000"), Err(Error::Overflow));
    assert!(decode("7ZZZZZZZZZZZZZZZZZZZZZZZZZ").is_ok());
}

#[test]
fn decode_judges_characters_before_size() {
    assert_eq!(
        decode("Z000000000000000000000000I"),
        Err(Error::InvalidCharacter)
    );
    assert_eq!(decode("ZI"), Err(Error::InvalidLength));
}

#[test]
fn accepted_texts_have_26_symbols_of_the_alphabet() {
    let candidates = [
        "01D39ZY06FGSCTVN4T2V9PKHFZ",
        "01d39zy06fgsctvn4t2v9pkhfz",
        "01D39ZY06FGSCTVN4T2V9PKHF",
        "01D39ZY06FGSCTVN4T2V9PKHFU",
        "91D39ZY06FGSCTVN4T2V9PKHFZ",
        "",
        "00000000000000000000000000",
    ];
    for text in candidates {
        if decode(text).is_ok() {
            assert_eq!(text.chars().count(), 26);
            assert!(text.chars().all(|c| ALPHABET.contains(c.to_ascii_uppercase())));
        }
    }
}

#[test]
fn earlier_timestamp_gives_earlier_text() {
    let a = Identifier::from_parts(1, MAX_RANDOMNESS).unwrap();
    let b = Identifier::from_parts(2, 0).unwrap();
    assert!(encode(&a) < encode(&b));
    let a = Identifier::from_parts(1_700_000_000_000, 0xFFFF_0000_FFFF).unwrap();
    let b = Identifier::from_parts(1_700_000_000_001, 3).unwrap();
    assert!(encode(&a) < encode(&b));
    let a = Identifier::from_parts(0, MAX_RANDOMNESS).unwrap();
    let b = Identifier::from_parts(MAX_TIMESTAMP, 0).unwrap();
    assert!(encode(&a) < encode(&b));
}

#[test]
fn text_order_is_numeric_order() {
    let values = samples();
    for pair in values.windows(2) {
        let (a, b) = (Identifier::from_value(pair[0]), Identifier::from_value(pair[1]));
        assert_eq!(a.cmp(&b), encode(&a).cmp(&encode(&b)));
    }
}
