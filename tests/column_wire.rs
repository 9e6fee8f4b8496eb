use substitution_schedule::wire::{block_index, block_key};
use substitution_schedule::{PDFJsonError, Substitution, SubstitutionColumn};

fn strings(v: &[&str]) -> Vec<String> {
    v.iter().map(|s| s.to_string()).collect()
}

fn scenario_column() -> SubstitutionColumn {
    let cells = strings(&["Mon", "", "  \n", "Room 5", "Teacher X", "\n"]);
    SubstitutionColumn::from_vec(cells).unwrap()
}

#[test]
fn to_wire_leaves_out_absent_slots() {
    let wire = scenario_column().to_wire();
    let keys: Vec<&str> = wire.iter().map(|(k, _)| k.as_str()).collect();
    assert_eq!(keys, vec!["0", "3", "4"]);
    assert_eq!(wire[0].1, strings(&["Mon"]));
    assert_eq!(wire[1].1, strings(&["Room 5"]));
    assert_eq!(wire[2].1, strings(&["Teacher X"]));
}

#[test]
fn to_wire_of_empty_column_is_empty() {
    assert!(SubstitutionColumn::new().to_wire().is_empty());
}

#[test]
fn wire_round_trip() {
    let full = SubstitutionColumn::from_vec(strings(&["a\nb", "c", "d", "e", "f\n", "g"])).unwrap();
    for col in [scenario_column(), SubstitutionColumn::new(), full] {
        let back = SubstitutionColumn::from_wire(col.to_wire()).unwrap();
        assert_eq!(back, col);
    }
}

#[test]
fn from_wire_ignores_unknown_keys_and_order() {
    let fields = vec![
        ("5".to_string(), strings(&["late"])),
        ("x".to_string(), strings(&["ignored"])),
        ("05".to_string(), strings(&["ignored"])),
        ("1".to_string(), strings(&["first", "second"])),
    ];
    let col = SubstitutionColumn::from_wire(fields).unwrap();
    assert_eq!(col.blocks[0], None);
    assert_eq!(col.blocks[1], Some(Substitution::from_lines(strings(&["first", "second"]))));
    assert_eq!(col.blocks[2], None);
    assert_eq!(col.blocks[3], None);
    assert_eq!(col.blocks[4], None);
    assert_eq!(col.blocks[5], Some(Substitution::from_lines(strings(&["late"]))));
}

#[test]
fn from_wire_rejects_repeated_slot() {
    let fields = vec![
        ("2".to_string(), strings(&["a"])),
        ("3".to_string(), strings(&["b"])),
        ("2".to_string(), strings(&["c"])),
    ];
    assert_eq!(SubstitutionColumn::from_wire(fields), Err(PDFJsonError::DuplicateBlock));
}

#[test]
fn block_keys_and_indices() {
    for i in 0..6 {
        let key = block_key(i);
        assert_eq!(key, i.to_string());
        assert_eq!(block_index(&key), Some(i));
    }
    assert_eq!(block_index("6"), None);
    assert_eq!(block_index(""), None);
    assert_eq!(block_index("10"), None);
}

#[test]
fn wire_round_trip_of_multi_line_cells() {
    let cells = vec![
        strings(&["x", ""]),
        strings(&[]),
        strings(&["", "y"]),
        strings(&[" "]),
        strings(&["z"]),
        strings(&["1", "2", "3"]),
    ];
    let col = SubstitutionColumn::from_multi_line_cells(cells).unwrap();
    assert_eq!(SubstitutionColumn::from_wire(col.to_wire()), Ok(col));
}
