use zkvm_host::error::ParseError;
use zkvm_host::hash::parse_hash;
use zkvm_host::manifest::{BootInfoWithoutRollupConfig, SP1KonaCliArgs};
use zkvm_host::number::parse_number;

fn repeat(digits: &str, times: usize) -> String {
    digits.repeat(times)
}

fn args(l1_head: &str, l2_output_root: &str, l2_claim: &str, block: &str, chain: &str) -> SP1KonaCliArgs {
    SP1KonaCliArgs {
        l1_head: l1_head.to_string(),
        l2_output_root: l2_output_root.to_string(),
        l2_claim: l2_claim.to_string(),
        l2_claim_block: block.to_string(),
        chain_id: chain.to_string(),
    }
}

#[test]
fn hash_of_sixty_four_digits_is_the_bytes_they_spell() {
    let text = "000102030405060708090a0b0c0d0e0f101112131415161718191A1B1C1D1E1F";
    let mut expected = [0u8; 32];
    for (i, byte) in expected.iter_mut().enumerate() {
        *byte = i as u8;
    }
    assert_eq!(parse_hash(text), Ok(expected));
}

#[test]
fn hash_accepts_mixed_case() {
    assert_eq!(parse_hash(&repeat("aB", 32)), Ok([0xab; 32]));
    assert_eq!(parse_hash(&repeat("Ff", 32)), Ok([0xff; 32]));
}

#[test]
fn hash_of_wrong_length_is_rejected() {
    assert_eq!(parse_hash(""), Err(ParseError::InvalidHash));
    assert_eq!(parse_hash(&repeat("a", 63)), Err(ParseError::InvalidHash));
    assert_eq!(parse_hash(&repeat("a", 65)), Err(ParseError::InvalidHash));
    assert_eq!(parse_hash(&repeat("a", 62)), Err(ParseError::InvalidHash));
    assert_eq!(parse_hash(&repeat("a", 66)), Err(ParseError::InvalidHash));
}

#[test]
fn hash_with_a_character_that_is_no_digit_is_rejected() {
    let mut text = repeat("a", 63);
    text.push('g');
    assert_eq!(parse_hash(&text), Err(ParseError::InvalidHash));
    let mut text = repeat("0", 63);
    text.push(' ');
    assert_eq!(parse_hash(&text), Err(ParseError::InvalidHash));
    let mut text = repeat("0", 63);
    text.push('é');
    assert_eq!(parse_hash(&text), Err(ParseError::InvalidHash));
}

#[test]
fn hash_with_a_prefix_is_rejected() {
    let mut short = String::from("0x");
    short.push_str(&repeat("a", 62));
    assert_eq!(parse_hash(&short), Err(ParseError::InvalidHash));
    let mut long = String::from("0x");
    long.push_str(&repeat("a", 64));
    assert_eq!(parse_hash(&long), Err(ParseError::InvalidHash));
    let mut upper = String::from("0X");
    upper.push_str(&repeat("a", 64));
    assert_eq!(parse_hash(&upper), Err(ParseError::InvalidHash));
}

#[test]
fn number_is_read_in_decimal() {
    assert_eq!(parse_number("0"), Ok(0));
    assert_eq!(parse_number("100"), Ok(100));
    assert_eq!(parse_number("+10"), Ok(10));
    assert_eq!(parse_number("007"), Ok(7));
    assert_eq!(parse_number("18446744073709551615"), Ok(u64::MAX));
    assert_eq!(parse_number("00018446744073709551615"), Ok(u64::MAX));
}

#[test]
fn number_agrees_with_the_standard_parser() {
    for text in ["", "+", "-", "-1", "+-1", "++1", "1+", "12a", " 1", "1 ", "0x10", "1_000", "٣", "18446744073709551616", "99999999999999999999", "184467440737095516150", "42", "+0", "000"] {
        assert_eq!(parse_number(text).ok(), text.parse::<u64>().ok(), "{:?}", text);
    }
}

#[test]
fn number_that_is_malformed_is_rejected() {
    assert_eq!(parse_number(""), Err(ParseError::InvalidNumber));
    assert_eq!(parse_number("+"), Err(ParseError::InvalidNumber));
    assert_eq!(parse_number("-5"), Err(ParseError::InvalidNumber));
    assert_eq!(parse_number("12x"), Err(ParseError::InvalidNumber));
    assert_eq!(parse_number("18446744073709551616"), Err(ParseError::InvalidNumber));
}

#[test]
fn manifest_is_built_from_valid_parameters() {
    let built = BootInfoWithoutRollupConfig::build(&args(
        &repeat("aa", 32),
        &repeat("bb", 32),
        &repeat("cc", 32),
        "100",
        "10",
    ));
    assert_eq!(
        built,
        Ok(BootInfoWithoutRollupConfig {
            l1_head: [0xaa; 32],
            l2_output_root: [0xbb; 32],
            l2_claim: [0xcc; 32],
            l2_claim_block: 100,
            chain_id: 10,
        })
    );
}

#[test]
fn manifest_with_one_bad_hash_is_not_built() {
    let good = repeat("ab", 32);
    let bad = repeat("ab", 31);
    for position in 0..3 {
        let hashes: Vec<&str> = (0..3).map(|i| if i == position { bad.as_str() } else { good.as_str() }).collect();
        let built = BootInfoWithoutRollupConfig::build(&args(hashes[0], hashes[1], hashes[2], "1", "2"));
        assert_eq!(built, Err(ParseError::InvalidHash));
    }
}

#[test]
fn manifest_with_one_bad_number_is_not_built() {
    let good = repeat("ab", 32);
    assert_eq!(
        BootInfoWithoutRollupConfig::build(&args(&good, &good, &good, "x", "2")),
        Err(ParseError::InvalidNumber)
    );
    assert_eq!(
        BootInfoWithoutRollupConfig::build(&args(&good, &good, &good, "1", "")),
        Err(ParseError::InvalidNumber)
    );
}

#[test]
fn manifest_with_a_bad_hash_is_invalid_hash_whatever_the_numbers() {
    let good = repeat("ab", 32);
    for (block, chain) in [("1", "2"), ("one", "2"), ("1", "two"), ("", "")] {
        let built = BootInfoWithoutRollupConfig::build(&args(&good, "zz", &good, block, chain));
        assert_eq!(built, Err(ParseError::InvalidHash));
    }
}

#[test]
fn hash_text_is_sixty_four_lower_case_digits() {
    let mut hash = [0u8; 32];
    for (i, byte) in hash.iter_mut().enumerate() {
        *byte = (i * 8 + 7) as u8;
    }
    assert_eq!(
        zkvm_host::hash::hash_text(&hash),
        "070f171f272f373f474f575f676f777f878f979fa7afb7bfc7cfd7dfe7eff7ff"
    );
}

#[test]
fn hash_text_reads_back_as_the_hash() {
    for seed in 0..=255u8 {
        let mut hash = [0u8; 32];
        for (i, byte) in hash.iter_mut().enumerate() {
            *byte = seed.wrapping_mul(31).wrapping_add((i as u8).wrapping_mul(17));
        }
        assert_eq!(parse_hash(&zkvm_host::hash::hash_text(&hash)), Ok(hash));
    }
}

#[test]
fn number_text_has_no_sign_and_no_leading_zeros() {
    assert_eq!(zkvm_host::number::number_text(0), "0");
    assert_eq!(zkvm_host::number::number_text(9), "9");
    assert_eq!(zkvm_host::number::number_text(10), "10");
    assert_eq!(zkvm_host::number::number_text(1234567890), "1234567890");
    assert_eq!(zkvm_host::number::number_text(u64::MAX), "18446744073709551615");
}

#[test]
fn number_text_reads_back_as_the_number() {
    for number in [0u64, 1, 9, 10, 99, 100, 101, 65535, 1 << 32, u64::MAX - 1, u64::MAX] {
        assert_eq!(parse_number(&zkvm_host::number::number_text(number)), Ok(number));
    }
}

#[test]
fn manifest_written_out_is_built_back() {
    let manifest = BootInfoWithoutRollupConfig {
        l1_head: [0x0f; 32],
        l2_output_root: [0xf0; 32],
        l2_claim: [0x00; 32],
        l2_claim_block: u64::MAX,
        chain_id: 0,
    };
    let args = manifest.to_args();
    assert_eq!(args.l1_head, "0f".repeat(32));
    assert_eq!(args.l2_output_root, "f0".repeat(32));
    assert_eq!(args.l2_claim, "00".repeat(32));
    assert_eq!(args.l2_claim_block, "18446744073709551615");
    assert_eq!(args.chain_id, "0");
    assert_eq!(BootInfoWithoutRollupConfig::build(&args), Ok(manifest));
}
