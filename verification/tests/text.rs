use vault::file::File;
use vault::text::{decimal_string, pluralize};

#[test]
fn pluralize_one_has_no_ending() {
    assert_eq!(pluralize(1), "");
}

#[test]
fn pluralize_zero_and_many_end_in_s() {
    assert_eq!(pluralize(0), "s");
    assert_eq!(pluralize(2), "s");
    assert_eq!(pluralize(11), "s");
    assert_eq!(pluralize(usize::MAX), "s");
}

#[test]
fn decimal_of_single_digits() {
    for n in 0..10usize {
        assert_eq!(decimal_string(n), n.to_string());
    }
}

#[test]
fn decimal_of_larger_numbers() {
    assert_eq!(decimal_string(10), "10");
    assert_eq!(decimal_string(42), "42");
    assert_eq!(decimal_string(100), "100");
    assert_eq!(decimal_string(9_876_543_210), "9876543210");
    assert_eq!(decimal_string(usize::MAX), usize::MAX.to_string());
}

#[test]
fn display_names_the_file_and_its_size() {
    let file = File::new("report".to_string(), "pdf".to_string(), vec![1, 2, 3]);
    assert_eq!(file.display(), "report.pdf [3 bytes]");
}

#[test]
fn display_of_an_empty_file() {
    let file = File::new("empty".to_string(), "txt".to_string(), Vec::new());
    assert_eq!(file.display(), "empty.txt [0 bytes]");
}

#[test]
fn display_of_one_byte_still_says_bytes() {
    let file = File::new("a".to_string(), "b".to_string(), vec![0]);
    assert_eq!(file.display(), "a.b [1 bytes]");
}

#[test]
fn display_of_a_longer_file() {
    let file = File::new("big".to_string(), "bin".to_string(), vec![7; 1234]);
    assert_eq!(file.display(), "big.bin [1234 bytes]");
}

#[test]
fn display_keeps_characters_outside_ascii() {
    let file = File::new("grüße".to_string(), "tëxt".to_string(), "ä".as_bytes().to_vec());
    assert_eq!(file.display(), "grüße.tëxt [2 bytes]");
}

#[test]
fn export_name_has_the_vault_prefix() {
    let file = File::new("report".to_string(), "pdf".to_string(), vec![1, 2, 3]);
    assert_eq!(file.export_name(), "vault-report.pdf");
}

#[test]
fn new_file_holds_what_it_was_given() {
    let file = File::new("n".to_string(), "e".to_string(), vec![9, 8]);
    assert_eq!(file.name, "n");
    assert_eq!(file.extension, "e");
    assert_eq!(file.content, vec![9, 8]);
}
