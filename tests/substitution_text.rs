use substitution_schedule::Substitution;

fn strings(v: &[&str]) -> Vec<String> {
    v.iter().map(|s| s.to_string()).collect()
}

#[test]
fn from_text_splits_at_each_newline() {
    let sub = Substitution::from_text("a\nb\nc");
    assert_eq!(sub.lines, strings(&["a", "b", "c"]));
}

#[test]
fn from_text_without_newline_is_one_line() {
    let sub = Substitution::from_text("Room 5");
    assert_eq!(sub.lines, strings(&["Room 5"]));
}

#[test]
fn from_text_of_empty_text_is_one_empty_line() {
    let sub = Substitution::from_text("");
    assert_eq!(sub.lines, strings(&[""]));
}

#[test]
fn from_text_keeps_empty_lines_and_inner_spaces() {
    let sub = Substitution::from_text("\n  x y \n\n");
    assert_eq!(sub.lines, strings(&["", "  x y ", "", ""]));
}

#[test]
fn from_text_handles_non_ascii() {
    let sub = Substitution::from_text("Vertretung für\nHerr Müller");
    assert_eq!(sub.lines, strings(&["Vertretung für", "Herr Müller"]));
}

#[test]
fn to_text_ends_every_line_with_newline() {
    let sub = Substitution::from_text("a\nb");
    assert_eq!(sub.to_text(), "a\nb\n");
}

#[test]
fn to_text_after_from_text_adds_one_newline() {
    for text in ["", "a", "a\nb\nc", "a\n", "\n\n"] {
        let sub = Substitution::from_text(text);
        assert_eq!(sub.to_text(), format!("{}\n", text));
    }
}

#[test]
fn to_text_of_no_lines_is_empty() {
    let sub = Substitution::from_lines(Vec::new());
    assert_eq!(sub.to_text(), "");
}

#[test]
fn from_lines_keeps_lines() {
    let sub = Substitution::from_lines(strings(&["x", "", "y\nz"]));
    assert_eq!(sub.lines, strings(&["x", "", "y\nz"]));
}
