use std::str::FromStr;

use iron_indexer::config::whitelist::{parse_whitelist, WhitelistConfig, WhitelistError};
use iron_indexer::db::types::Address;

fn addr(id: u8) -> Address {
    Address::repeat_byte(id)
}

#[test]
fn test_preload() {
    let text = "0x0063A660Fb166E9deF01C7B4fd0303B054Ed1B9e (ethui.eth)\n";
    let mut config = WhitelistConfig { file: Some("whitelist.txt".to_owned()), whitelist: None };
    assert_eq!(config.file_to_load(), Some(&"whitelist.txt".to_owned()));

    config.preload(text.as_bytes()).unwrap();

    let expected =
        alloy_primitives::Address::from_str("0x0063A660Fb166E9deF01C7B4fd0303B054Ed1B9e").unwrap();
    let expected_addr = Address(expected.0 .0);
    assert!(config.whitelist.is_some());
    assert_eq!(config.whitelist, Some(vec![expected_addr]));
    assert!(config.is_whitelisted(&expected_addr));
    assert_eq!(config.file_to_load(), None);
}

#[test]
fn hex_digits_are_read_two_a_byte() {
    let text = "0x000102030405060708090a0B0c0D0e0F10fFaAbB";
    assert_eq!(
        parse_whitelist(text.as_bytes()),
        Ok(vec![Address([
            0x00, 0x01, 0x02, 0x03, 0x04, 0x05, 0x06, 0x07, 0x08, 0x09, 0x0a, 0x0b, 0x0c, 0x0d,
            0x0e, 0x0f, 0x10, 0xff, 0xaa, 0xbb
        ])])
    );
}

#[test]
fn lines_with_and_without_prefix_and_comment() {
    let text = format!(
        "{}\n  0X{} first\n\t{}\r\n{} # last",
        "01".repeat(20),
        "02".repeat(20),
        "03".repeat(20),
        "04".repeat(20)
    );
    assert_eq!(parse_whitelist(text.as_bytes()), Ok(vec![addr(1), addr(2), addr(3), addr(4)]));
}

#[test]
fn empty_text_lists_nothing() {
    assert_eq!(parse_whitelist(b""), Ok(Vec::new()));
}

#[test]
fn a_blank_line_is_an_error() {
    let text = format!("{}\n\n{}\n", "01".repeat(20), "02".repeat(20));
    assert_eq!(parse_whitelist(text.as_bytes()), Err(WhitelistError::EmptyLine(1)));
    assert_eq!(parse_whitelist(b"\n"), Err(WhitelistError::EmptyLine(0)));
    assert_eq!(parse_whitelist(b"   \t"), Err(WhitelistError::EmptyLine(0)));
}

#[test]
fn a_word_that_is_no_address_is_an_error() {
    let short = format!("{}\n0x{}\n", "01".repeat(20), "02".repeat(19));
    assert_eq!(parse_whitelist(short.as_bytes()), Err(WhitelistError::InvalidAddress(1)));
    let long = format!("0x{}", "02".repeat(21));
    assert_eq!(parse_whitelist(long.as_bytes()), Err(WhitelistError::InvalidAddress(0)));
    let odd = format!("0x{}0", "02".repeat(20));
    assert_eq!(parse_whitelist(odd.as_bytes()), Err(WhitelistError::InvalidAddress(0)));
    let letter = format!("0x{}0g", "02".repeat(19));
    assert_eq!(parse_whitelist(letter.as_bytes()), Err(WhitelistError::InvalidAddress(0)));
    assert_eq!(parse_whitelist(b"ethui.eth"), Err(WhitelistError::InvalidAddress(0)));
    assert_eq!(parse_whitelist(&[0xff, 0xfe]), Err(WhitelistError::InvalidAddress(0)));
}

#[test]
fn the_first_error_counts() {
    let text = format!("{}\nnothing\n\n", "01".repeat(20));
    assert_eq!(parse_whitelist(text.as_bytes()), Err(WhitelistError::InvalidAddress(1)));
}

#[test]
fn preload_keeps_what_is_loaded() {
    let mut config = WhitelistConfig::for_test(vec![addr(7)]);
    assert_eq!(config.file_to_load(), None);
    assert_eq!(config.preload(b"not an address"), Ok(()));
    assert_eq!(config.whitelist, Some(vec![addr(7)]));
}

#[test]
fn preload_changes_nothing_on_an_error() {
    let mut config = WhitelistConfig { file: Some("list".to_owned()), whitelist: None };
    assert_eq!(config.preload(b"not an address"), Err(WhitelistError::InvalidAddress(0)));
    assert_eq!(config.whitelist, None);
    assert!(!config.is_whitelisted(&addr(1)));
}
