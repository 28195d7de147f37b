use spawn::text::{check_nul, integer_text, join, same_text, split};

fn strings(list: &[&str]) -> Vec<String> {
    list.iter().map(|s| (*s).to_owned()).collect()
}

#[test]
fn joining_undoes_splitting() {
    for text in ["", " ", "a", "a b", " a  b "] {
        assert_eq!(join(&split(text, ' '), ' '), text);
    }
}

#[test]
fn splitting_undoes_joining() {
    for list in [&["a"][..], &["", "b"][..], &["a", "", "\u{e9}"][..]] {
        assert_eq!(split(&join(&strings(list), ':'), ':'), list);
    }
    assert_eq!(split(&join(&[], ':'), ':'), [""]);
}

#[test]
fn nul_is_found_by_its_byte() {
    assert!(check_nul("fine").is_ok());
    assert_eq!(check_nul("\u{1f980}\0").unwrap_err().position, 4);
}

#[test]
fn integers_are_written_in_decimal() {
    assert_eq!(integer_text(0), "0");
    assert_eq!(integer_text(10), "10");
    assert_eq!(integer_text(i32::MAX), "2147483647");
    assert_eq!(integer_text(-7), "-7");
}

#[test]
fn texts_are_compared_whole() {
    assert!(same_text("abc", "abc"));
    assert!(!same_text("abc", "ab"));
}
