use wheelc::text::{int_to_text, TextList};

#[test]
fn numerals() {
    assert_eq!(int_to_text(0), "0");
    assert_eq!(int_to_text(5), "5");
    assert_eq!(int_to_text(-42), "-42");
    assert_eq!(int_to_text(i64::MAX), "9223372036854775807");
    assert_eq!(int_to_text(i64::MIN), "-9223372036854775808");
}

#[test]
fn text_list_keeps_first_occurrence() {
    let mut l = TextList::new();
    l.add(&"a".to_string());
    l.add(&"b".to_string());
    l.add(&"a".to_string());
    assert_eq!(l.len(), 2);
    assert_eq!(l.position(&"b".to_string()), Some(1));
    assert!(l.contains(&"a".to_string()));
    assert!(!l.contains(&"c".to_string()));
}
