use infix_calc::text::chars_of;

#[test]
fn chars_of_keeps_every_character_in_order() {
    assert_eq!(chars_of("exit"), vec!['e', 'x', 'i', 't']);
    assert_eq!(chars_of(""), Vec::<char>::new());
    assert_eq!(chars_of("a \u{e9}\u{4e2d}+"), vec!['a', ' ', '\u{e9}', '\u{4e2d}', '+']);
}
