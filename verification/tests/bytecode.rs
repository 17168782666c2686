use sigmund::bytecode::BytecodeDecodeError;
use sigmund::codec::HexError;
use sigmund::Bytecode;

fn decoded(text: &str) -> Bytecode {
    Bytecode::try_from(text.to_string()).unwrap()
}

fn members(bytecode: &Bytecode, deep: bool) -> Vec<String> {
    let mut found = bytecode.find_function_selectors(deep).to_vec();
    found.sort();
    found
}

#[test]
fn it_creates_bytecode_from_valid_input() {
    let valid_hex = "0x57638063abcd1234".to_string();
    let bytecode = Bytecode::try_from(valid_hex);
    assert!(bytecode.is_ok(), "Failed to create Bytecode from a valid hexadecimal string.");
}

#[test]
fn it_fails_to_create_bytecode_from_invalid_input() {
    let invalid_hex = "0xg1234567".to_string();
    let bytecode = Bytecode::try_from(invalid_hex);
    assert!(bytecode.is_err(), "Bytecode was created from an invalid hexadecimal string.");
}

#[test]
fn it_finds_function_signatures() {
    // The push stands behind no anchor: only a deep scan reads it.
    let hex_with_signatures = "0xe01c63ddc632621461".to_string();
    let bytecode = Bytecode::try_from(hex_with_signatures).unwrap();
    let signatures = bytecode.find_function_selectors(true);
    assert_eq!(signatures.len(), 1);
    assert!(signatures.contains("ddc63262"));
    assert!(bytecode.find_function_selectors(false).is_empty());
}

#[test]
fn it_does_not_find_signatures_when_none_exist() {
    let hex_no_signatures = "0x12345678".to_string();
    let bytecode = Bytecode::try_from(hex_no_signatures).unwrap();
    let signatures = bytecode.find_function_selectors(false);
    assert!(signatures.is_empty());
}

#[test]
fn it_finds_the_selector_behind_an_anchor() {
    let bytecode = decoded("0x578063ddc632621461");
    let signatures = bytecode.find_function_selectors(false);
    assert_eq!(signatures.len(), 1);
    assert!(signatures.contains("ddc63262"));
}

#[test]
fn valid_input_decodes_to_its_bytes_and_scans() {
    let bytecode = decoded("0x57638063abcd1234");
    assert_eq!(bytecode.inner, vec![0x57, 0x63, 0x80, 0x63, 0xab, 0xcd, 0x12, 0x34]);
    assert!(bytecode.find_function_selectors(false).is_empty());
    assert_eq!(members(&bytecode, true), vec!["8063abcd", "abcd1234"]);
}

#[test]
fn an_anchor_anywhere_in_the_code_yields_its_selector() {
    for lead in 0..5usize {
        let mut code = vec![0u8; lead];
        code.extend_from_slice(&[0x57, 0x80, 0x63, 0x01, 0x23, 0xab, 0xff]);
        code.extend_from_slice(&[0x00, 0x00]);
        let bytecode = Bytecode { inner: code };
        assert!(bytecode.find_function_selectors(false).contains("0123abff"));
        assert!(bytecode.find_function_selectors(true).contains("0123abff"));
    }
}

#[test]
fn code_shorter_than_an_anchor_and_selector_yields_nothing() {
    let anchor = [0x57u8, 0x80, 0x63, 0xaa, 0xbb, 0xcc, 0xdd];
    for n in 0..7usize {
        let bytecode = Bytecode { inner: anchor[..n].to_vec() };
        assert!(bytecode.find_function_selectors(false).is_empty());
        assert_eq!(bytecode.find_function_selectors(false).len(), 0);
    }
    let whole = Bytecode { inner: anchor.to_vec() };
    assert_eq!(members(&whole, false), vec!["aabbccdd"]);
}

#[test]
fn a_deep_scan_of_short_code_reads_a_push_that_fits() {
    let bytecode = Bytecode { inner: vec![0x63, 0x01, 0x02, 0x03, 0x04] };
    assert!(bytecode.find_function_selectors(false).is_empty());
    assert_eq!(members(&bytecode, true), vec!["01020304"]);
    let cut = Bytecode { inner: vec![0x63, 0x01, 0x02, 0x03] };
    assert!(cut.find_function_selectors(true).is_empty());
}

#[test]
fn empty_code_yields_nothing() {
    let bytecode = Bytecode { inner: Vec::new() };
    assert!(bytecode.find_function_selectors(false).is_empty());
    assert!(bytecode.find_function_selectors(true).is_empty());
}

#[test]
fn a_pattern_cut_off_by_the_end_of_the_code_is_not_matched() {
    let bytecode = Bytecode { inner: vec![0x00, 0x57, 0x80, 0x63, 0xaa, 0xbb, 0xcc] };
    assert!(bytecode.find_function_selectors(false).is_empty());
    assert!(bytecode.find_function_selectors(true).is_empty());
    let fits = Bytecode { inner: vec![0x00, 0x57, 0x80, 0x63, 0xaa, 0xbb, 0xcc, 0xdd] };
    assert_eq!(members(&fits, false), vec!["aabbccdd"]);
}

#[test]
fn scanning_twice_finds_the_same_set() {
    let bytecode = decoded("0x578063a1b2c3d400630102030457806311223344");
    for deep in [false, true] {
        let first = bytecode.find_function_selectors(deep);
        let second = bytecode.find_function_selectors(deep);
        assert_eq!(first.len(), second.len());
        assert_eq!(first.to_vec(), second.to_vec());
    }
}

#[test]
fn overlapping_anchors_both_yield_their_selector() {
    // The selector of the first anchor starts with the second anchor.
    let bytecode = decoded("0x578063578063aabbccdd");
    assert_eq!(members(&bytecode, false), vec!["578063aa", "aabbccdd"]);
}

#[test]
fn a_selector_found_twice_is_held_once() {
    let bytecode = decoded("0x5780631122334457806311223344");
    let found = bytecode.find_function_selectors(false);
    assert_eq!(found.len(), 1);
    assert!(found.contains("11223344"));
}

#[test]
fn a_deep_scan_finds_all_that_a_plain_scan_finds() {
    let bytecode = decoded("0x578063a1b2c3d4006301020304");
    let plain = bytecode.find_function_selectors(false);
    let deep = bytecode.find_function_selectors(true);
    assert_eq!(members(&bytecode, false), vec!["a1b2c3d4"]);
    assert_eq!(members(&bytecode, true), vec!["01020304", "a1b2c3d4"]);
    for selector in plain.to_vec() {
        assert!(deep.contains(&selector));
    }
}

#[test]
fn a_push_followed_by_a_comparison_is_no_anchor() {
    let bytecode = decoded("0x63ddc6326214");
    assert!(bytecode.find_function_selectors(false).is_empty());
}

#[test]
fn selectors_are_written_in_lower_case_with_leading_zeros() {
    let bytecode = decoded("0x57806300AB0C0D");
    assert_eq!(members(&bytecode, false), vec!["00ab0c0d"]);
}

#[test]
fn invalid_hex_names_the_first_bad_character() {
    match Bytecode::try_from("0xg1234567".to_string()) {
        Err(BytecodeDecodeError::NotHex(HexError::InvalidHexCharacter { c, index })) => {
            assert_eq!(c, 'g');
            assert_eq!(index, 0);
        }
        _ => panic!("the text is not hexadecimal"),
    }
    match Bytecode::try_from("12zy".to_string()) {
        Err(BytecodeDecodeError::NotHex(HexError::InvalidHexCharacter { c, index })) => {
            assert_eq!(c, 'z');
            assert_eq!(index, 2);
        }
        _ => panic!("the text is not hexadecimal"),
    }
}

#[test]
fn an_odd_number_of_digits_is_refused() {
    assert!(matches!(
        Bytecode::try_from("0x123".to_string()),
        Err(BytecodeDecodeError::NotHex(HexError::OddLength))
    ));
    // The length is looked at before the digits.
    assert!(matches!(
        Bytecode::try_from("0xzzz".to_string()),
        Err(BytecodeDecodeError::NotHex(HexError::OddLength))
    ));
}

#[test]
fn the_prefix_is_optional() {
    assert_eq!(decoded("0x0a1b").inner, vec![0x0a, 0x1b]);
    assert_eq!(decoded("0a1b").inner, vec![0x0a, 0x1b]);
}

#[test]
fn only_one_prefix_is_dropped() {
    match Bytecode::try_from("0x0x0a1b".to_string()) {
        Err(BytecodeDecodeError::NotHex(HexError::InvalidHexCharacter { c, index })) => {
            assert_eq!(c, 'x');
            assert_eq!(index, 1);
        }
        _ => panic!("a second prefix is no digit"),
    }
    assert!(Bytecode::try_from("0x0x1234".to_string()).is_err());
    assert!(Bytecode::from_file_text(" 0x0x1234 ").is_err());
}

#[test]
fn a_prefixed_encoding_decodes_to_its_bytes() {
    let all: Vec<u8> = (0..=255u8).collect();
    let mut text = String::from("0x");
    for byte in &all {
        text.push_str(&format!("{:02x}", byte));
    }
    assert_eq!(decoded(&text).inner, all);
    assert_eq!(decoded(&text.to_uppercase().replacen("0X", "0x", 1)).inner, all);
}

#[test]
fn a_prefix_is_only_dropped_at_the_start() {
    assert!(Bytecode::try_from("120x34".to_string()).is_err());
    assert!(Bytecode::try_from("0X1234".to_string()).is_err());
}

#[test]
fn text_without_digits_is_empty_code() {
    assert!(decoded("").inner.is_empty());
    assert!(decoded("0x").inner.is_empty());
}

#[test]
fn digits_of_either_case_decode() {
    assert_eq!(decoded("0xABcdEF09").inner, vec![0xab, 0xcd, 0xef, 0x09]);
}

#[test]
fn bytecode_reads_as_its_bytes() {
    let bytecode = decoded("0x010203");
    assert_eq!(bytecode.len(), 3);
    assert_eq!(bytecode[1], 2);
}

#[test]
fn the_text_of_a_file_is_trimmed_before_it_is_decoded() {
    let bytecode = Bytecode::from_file_text("  0x1234\n").unwrap();
    assert_eq!(bytecode.inner, vec![0x12, 0x34]);
    let tabs = Bytecode::from_file_text("\t\r\n5678 \n\n").unwrap();
    assert_eq!(tabs.inner, vec![0x56, 0x78]);
    assert!(Bytecode::from_file_text("12 34").is_err());
}

#[test]
fn the_two_passes_add_to_what_is_there() {
    let bytecode = decoded("0x578063a1b2c3d4006301020304");
    let mut found = sigmund::selectors::SelectorSet::new();
    found.insert("ffffffff".to_string());
    bytecode.collect_anchored(&mut found);
    assert_eq!(found.to_vec(), vec!["ffffffff", "a1b2c3d4"]);
    bytecode.collect_pushed(&mut found);
    assert_eq!(found.to_vec(), vec!["ffffffff", "a1b2c3d4", "01020304"]);
}
