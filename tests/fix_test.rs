use rumk::diagnostic::{Diagnostic, Edit, Fix, Severity};
use rumk::fix::apply_fixes;

fn fixing(line: usize, column: usize, edit: Edit) -> Diagnostic {
    Diagnostic::new("T", Severity::Info, String::from("m"), line, column)
        .with_fix(Fix::new("f").add_edit(edit))
}

#[test]
fn non_overlapping_edits_any_order() {
    let text = "abc\ndef\nghi";
    let a = fixing(1, 1, Edit::new(1, 1, 1, 2, String::from("XX")));
    let b = fixing(1, 3, Edit::new(1, 3, 1, 4, String::from("Y")));
    let c = fixing(3, 2, Edit::new(3, 2, 3, 3, String::new()));
    let one = apply_fixes(text, &[a.clone(), b.clone(), c.clone()]);
    let two = apply_fixes(text, &[c, b, a]);
    assert_eq!(one, "XXbY\ndef\ngi");
    assert_eq!(one, two);
}

#[test]
fn unfixable_diagnostics_are_ignored() {
    let d = Diagnostic::new("T", Severity::Warning, String::from("m"), 1, 1);
    assert_eq!(apply_fixes("abc\n", &[d]), "abc\n");
}

#[test]
fn invalid_edits_are_skipped() {
    let text = "abc";
    let inverted = fixing(1, 3, Edit::new(1, 3, 1, 2, String::from("Z")));
    let off = fixing(5, 1, Edit::new(5, 1, 5, 2, String::from("Z")));
    let past = fixing(1, 9, Edit::new(1, 9, 1, 12, String::from("Z")));
    assert_eq!(apply_fixes(text, &[inverted, off, past]), "abc");
}

#[test]
fn end_column_is_clamped() {
    let d = fixing(1, 2, Edit::new(1, 2, 1, 99, String::from("!")));
    assert_eq!(apply_fixes("abc", &[d]), "a!");
}

#[test]
fn multi_line_edit_joins_lines() {
    let d = fixing(1, 2, Edit::new(1, 2, 3, 2, String::from("-")));
    assert_eq!(apply_fixes("abc\ndef\nghi\njkl", &[d]), "a-hi\njkl");
}

#[test]
fn overlapping_edits_do_not_panic() {
    let a = fixing(1, 1, Edit::new(1, 1, 1, 3, String::from("12345")));
    let b = fixing(1, 2, Edit::new(1, 2, 1, 4, String::from("")));
    let r = apply_fixes("abcd\nkeep", &[a, b]);
    assert_eq!(r, "ad\nkeep");
}

#[test]
fn edits_ordered_by_their_own_start() {
    let a = fixing(1, 1, Edit::new(1, 1, 1, 2, String::from("XX")));
    let b = fixing(1, 1, Edit::new(1, 2, 1, 3, String::new()));
    assert_eq!(apply_fixes("ab", &[a.clone(), b.clone()]), "XX");
    assert_eq!(apply_fixes("ab", &[b, a]), "XX");
}

#[test]
fn edits_of_one_fix_in_ascending_order() {
    let fix = Fix::new("f")
        .add_edit(Edit::new(1, 1, 1, 2, String::from("XX")))
        .add_edit(Edit::new(1, 3, 1, 4, String::from("Y")));
    let d = Diagnostic::new("T", Severity::Info, String::from("m"), 1, 1).with_fix(fix);
    assert_eq!(apply_fixes("abcd", &[d]), "XXbYd");
}

#[test]
fn text_without_fixes_is_kept_byte_for_byte() {
    assert_eq!(apply_fixes("a\n", &[]), "a\n");
    assert_eq!(apply_fixes("a\n\n", &[]), "a\n\n");
    assert_eq!(apply_fixes("a\r\nb\r\n", &[]), "a\r\nb\r\n");
}

#[test]
fn line_terminators_survive_an_edit() {
    let d = fixing(2, 1, Edit::new(2, 1, 2, 2, String::from("B")));
    assert_eq!(apply_fixes("a\r\nb\r\nc\n", &[d]), "a\r\nB\r\nc\n");
    let end = fixing(1, 1, Edit::new(1, 2, 1, 9, String::from("!")));
    assert_eq!(apply_fixes("ab\r\n", &[end]), "a!\r\n");
}

#[test]
fn byte_columns_and_split_characters() {
    let inside = fixing(1, 2, Edit::new(1, 2, 1, 3, String::from("x")));
    assert_eq!(apply_fixes("éa", &[inside]), "éa");
    let after = fixing(1, 3, Edit::new(1, 3, 1, 4, String::from("b")));
    assert_eq!(apply_fixes("éa", &[after]), "éb");
    let whole = fixing(1, 1, Edit::new(1, 1, 1, 3, String::from("e")));
    assert_eq!(apply_fixes("éa", &[whole]), "ea");
}
