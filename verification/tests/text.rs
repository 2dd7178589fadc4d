use jikyuu::text::{enclose, find_char, same_text, same_text_ignoring_ascii_case, starts_with, to_ascii_lower};

#[test]
fn same_texts() {
    assert!(same_text("", ""));
    assert!(same_text("abc", "abc"));
    assert!(!same_text("abc", "abd"));
    assert!(!same_text("abc", "ab"));
    assert!(!same_text("abc", "ABC"));
}

#[test]
fn texts_one_after_the_other() {
    assert_eq!(enclose("<", "x", ">"), "<x>");
    assert_eq!(enclose("", "", ""), "");
    assert_eq!(enclose("ä", "ö", "ü"), "äöü");
}

#[test]
fn beginnings() {
    assert!(starts_with("Merge branch", "Merge "));
    assert!(starts_with("Merge ", "Merge "));
    assert!(!starts_with("Merge", "Merge "));
    assert!(!starts_with("merge branch", "Merge "));
    assert!(!starts_with(" Merge branch", "Merge "));
    assert!(starts_with("anything", ""));
    assert!(starts_with("", ""));
    assert!(!starts_with("", "x"));
    assert!(starts_with("éa", "é"));
    assert!(!starts_with("ea", "é"));
}

#[test]
fn first_place_of_a_character() {
    assert_eq!(find_char("a=b=c", '='), Some(1));
    assert_eq!(find_char("=", '='), Some(0));
    assert_eq!(find_char("abc", '='), None);
    assert_eq!(find_char("", '='), None);
    assert_eq!(find_char("éé=", '='), Some(2));
}

#[test]
fn lower_case_of_ascii_letters() {
    assert_eq!(to_ascii_lower('A'), 'a');
    assert_eq!(to_ascii_lower('Z'), 'z');
    assert_eq!(to_ascii_lower('a'), 'a');
    assert_eq!(to_ascii_lower('@'), '@');
    assert_eq!(to_ascii_lower('['), '[');
    assert_eq!(to_ascii_lower('É'), 'É');
    for c in ['A', 'm', 'Z', '0', 'É', '\u{212A}'] {
        assert_eq!(to_ascii_lower(c), c.to_ascii_lowercase());
    }
}

#[test]
fn same_texts_but_for_the_case() {
    assert!(same_text_ignoring_ascii_case("Stdout", "sTDOUT"));
    assert!(same_text_ignoring_ascii_case("", ""));
    assert!(!same_text_ignoring_ascii_case("json", "jso"));
    assert!(!same_text_ignoring_ascii_case("json", "jsom"));
    assert!(!same_text_ignoring_ascii_case("É", "é"));
    assert!(!same_text_ignoring_ascii_case("k", "\u{212A}"));
}
