use astro::text::{same_text, split_numbers, trim};

#[test]
fn trim_drops_unicode_white_space() {
    assert_eq!(trim("  M31\t"), "M31");
    assert_eq!(trim("\u{3000}x\u{a0}"), "x");
    assert_eq!(trim("   "), "");
}

#[test]
fn numbers_are_read_as_str_parse_reads_them() {
    assert_eq!(split_numbers("1-+2-x-4294967296-0004", '-'), vec![1, 2, 4]);
    assert_eq!(split_numbers("", '-'), Vec::<u32>::new());
    assert_eq!(split_numbers("-", '-'), Vec::<u32>::new());
}

#[test]
fn same_text_compares_characters() {
    assert!(same_text("Oslo", "Oslo"));
    assert!(!same_text("Oslo", "oslo"));
    assert!(!same_text("Oslo", "Osl"));
}
