use substitution_schedule::column::BLOCK_COUNT;
use substitution_schedule::{PDFJsonError, Substitution, SubstitutionColumn};

fn strings(v: &[&str]) -> Vec<String> {
    v.iter().map(|s| s.to_string()).collect()
}

fn sub(text: &str) -> Option<Substitution> {
    Some(Substitution::from_text(text))
}

#[test]
fn new_column_is_all_absent() {
    let col = SubstitutionColumn::new();
    assert_eq!(col.blocks.len(), BLOCK_COUNT);
    assert!(col.blocks.iter().all(|b| b.is_none()));
    assert_eq!(SubstitutionColumn::default(), col);
}

#[test]
fn from_vec_scenario_mixed_cells() {
    let cells = strings(&["Mon", "", "  \n", "Room 5", "Teacher X", "\n"]);
    let col = SubstitutionColumn::from_vec(cells).unwrap();
    assert_eq!(col.blocks[0], sub("Mon"));
    assert_eq!(col.blocks[1], None);
    assert_eq!(col.blocks[2], None);
    assert_eq!(col.blocks[3], sub("Room 5"));
    assert_eq!(col.blocks[4], sub("Teacher X"));
    assert_eq!(col.blocks[5], None);
}

#[test]
fn from_vec_blank_cells_are_absent() {
    let cells = strings(&["", " ", "\n", " \n \n", "\n\n", "   "]);
    let col = SubstitutionColumn::from_vec(cells).unwrap();
    assert_eq!(col, SubstitutionColumn::new());
}

#[test]
fn from_vec_other_whitespace_is_not_blank() {
    let cells = strings(&["\t", "\r\n", " . ", "x", "\u{a0}", " \n-"]);
    let col = SubstitutionColumn::from_vec(cells.clone()).unwrap();
    for (i, cell) in cells.iter().enumerate() {
        assert_eq!(col.blocks[i], sub(cell));
    }
}

#[test]
fn from_vec_keeps_slot_order() {
    let cells = strings(&["p0", "p1", "p2\nq2", "p3", "p4", "p5"]);
    let col = SubstitutionColumn::from_vec(cells.clone()).unwrap();
    for (i, cell) in cells.iter().enumerate() {
        assert_eq!(col.blocks[i], sub(cell));
    }
    assert_eq!(col.blocks[2].as_ref().unwrap().lines, strings(&["p2", "q2"]));
}

#[test]
fn from_vec_too_few_cells() {
    assert_eq!(SubstitutionColumn::from_vec(Vec::new()), Err(PDFJsonError::TooFewCells));
    let cells = strings(&["a", "b", "c", "d", "e"]);
    assert_eq!(SubstitutionColumn::from_vec(cells), Err(PDFJsonError::TooFewCells));
}

#[test]
fn from_vec_too_many_cells() {
    let cells = strings(&["a", "b", "c", "d", "e", "f", "g"]);
    assert_eq!(SubstitutionColumn::from_vec(cells), Err(PDFJsonError::TooManyCells));
}

#[test]
fn from_multi_line_cells_keeps_lines() {
    let cells = vec![
        strings(&["Mon", "Room 5"]),
        strings(&[]),
        strings(&["", " ", "\n"]),
        strings(&["", "x"]),
        strings(&["a\nb"]),
        strings(&[" "]),
    ];
    let col = SubstitutionColumn::from_multi_line_cells(cells).unwrap();
    assert_eq!(col.blocks[0], Some(Substitution::from_lines(strings(&["Mon", "Room 5"]))));
    assert_eq!(col.blocks[1], None);
    assert_eq!(col.blocks[2], None);
    assert_eq!(col.blocks[3], Some(Substitution::from_lines(strings(&["", "x"]))));
    assert_eq!(col.blocks[4].as_ref().unwrap().lines, strings(&["a\nb"]));
    assert_eq!(col.blocks[5], None);
}

#[test]
fn from_multi_line_cells_wrong_count() {
    let five = vec![strings(&["a"]); 5];
    let seven = vec![strings(&["a"]); 7];
    assert_eq!(
        SubstitutionColumn::from_multi_line_cells(five),
        Err(PDFJsonError::TooFewCells)
    );
    assert_eq!(
        SubstitutionColumn::from_multi_line_cells(seven),
        Err(PDFJsonError::TooManyCells)
    );
}
