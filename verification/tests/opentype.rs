use rarog::opentype::scalar_byte_boundaries;

#[test]
fn scalar_byte_boundaries_mark_where_each_scalar_starts() {
    assert_eq!(scalar_byte_boundaries("a\u{e9}\u{20ac}\u{1f600}"), vec![0, 1, 3, 6, 10]);
    assert_eq!(scalar_byte_boundaries("abc"), vec![0, 1, 2, 3]);
}

#[test]
fn scalar_byte_boundaries_of_empty_text_hold_only_the_end() {
    assert_eq!(scalar_byte_boundaries(""), vec![0]);
}
