use vstd::prelude::*;

use crate::error::PDFJsonError;
use crate::substitution::{split_lines, Substitution};

verus! {

/// The number of time slots (blocks) in the column of one class.
pub const BLOCK_COUNT: usize = 6;

/// Whether a text holds nothing but spaces and newline characters.
pub open spec fn is_blank(s: Seq<char>) -> bool {
    forall|i: int| 0 <= i < s.len() ==> (#[trigger] s[i] == ' ' || s[i] == '\n')
}

/// Whether every line of a cell is blank (a cell without lines is blank).
pub open spec fn all_blank(lines: Seq<Seq<char>>) -> bool {
    forall|j: int| 0 <= j < lines.len() ==> is_blank(#[trigger] lines[j])
}

/// The slot that a single-text cell gives: absent when the text is blank,
/// else the text's lines.
pub open spec fn slot_of_text(s: Seq<char>) -> Option<Seq<Seq<char>>> {
    if is_blank(s) {
        None
    } else {
        Some(split_lines(s))
    }
}

/// The slot that an already split cell gives: absent when every line is
/// blank, else those lines as they are.
pub open spec fn slot_of_lines(lines: Seq<Seq<char>>) -> Option<Seq<Seq<char>>> {
    if all_blank(lines) {
        None
    } else {
        Some(lines)
    }
}

/// The lines that a slot holds, if it holds a substitution.
pub open spec fn slot_view(o: Option<Substitution>) -> Option<Seq<Seq<char>>> {
    match o {
        Some(sub) => Some(sub@),
        None => None,
    }
}

/// Whether `s` holds only spaces and newline characters.
pub fn is_blank_text(s: &str) -> (r: bool)
    ensures
        r == is_blank(s@),
{
    let n = s.unicode_len();
    let mut i: usize = 0;
    while i < n
        invariant
            n == s@.len(),
            i <= n,
            forall|k: int| 0 <= k < i ==> (#[trigger] s@[k] == ' ' || s@[k] == '\n'),
        decreases n - i,
    {
        let c = s.get_char(i);
        if c != ' ' && c != '\n' {
            assert(!(s@[i as int] == ' ' || s@[i as int] == '\n'));
            return false;
        }
        i = i + 1;
    }
    true
}

/// Whether every line of `lines` holds only spaces and newline characters.
pub fn all_blank_lines(lines: &Vec<String>) -> (r: bool)
    ensures
        r == all_blank(lines@.map_values(|l: String| l@)),
{
    let ghost v = lines@.map_values(|l: String| l@);
    let mut j: usize = 0;
    while j < lines.len()
        invariant
            j <= lines@.len(),
            v == lines@.map_values(|l: String| l@),
            forall|k: int| 0 <= k < j ==> is_blank(#[trigger] v[k]),
        decreases lines@.len() - j,
    {
        if !is_blank_text(lines[j].as_str()) {
            assert(!is_blank(v[j as int]));
            return false;
        }
        j = j + 1;
    }
    true
}

/// The slot for one single-text cell.
fn slot_from_text(cell: &String) -> (r: Option<Substitution>)
    ensures
        slot_view(r) == slot_of_text(cell@),
{
    if is_blank_text(cell.as_str()) {
        None
    } else {
        Some(Substitution::from_text(cell.as_str()))
    }
}

/// The slot for one cell whose lines are already split.
fn slot_from_lines(cell: &Vec<String>) -> (r: Option<Substitution>)
    ensures
        slot_view(r) == slot_of_lines(cell@.map_values(|l: String| l@)),
{
    if all_blank_lines(cell) {
        None
    } else {
        Some(Substitution::from_lines(cell.clone()))
    }
}

/// The substitutions of one class: one optional entry per time slot, slot
/// `i` standing for the `i`-th period. The class name is not part of it.
#[derive(Clone, Debug, PartialEq, Eq)]
pub struct SubstitutionColumn {
    pub blocks: [Option<Substitution>; 6],
}

impl View for SubstitutionColumn {
    type V = Seq<Option<Seq<Seq<char>>>>;

    open spec fn view(&self) -> Seq<Option<Seq<Seq<char>>>> {
        self.blocks@.map_values(|o: Option<Substitution>| slot_view(o))
    }
}

impl SubstitutionColumn {
    /// A column with every slot absent.
    pub fn new() -> (r: SubstitutionColumn)
        ensures
            r@.len() == BLOCK_COUNT,
            forall|i: int| 0 <= i < BLOCK_COUNT ==> (#[trigger] r@[i]).is_none(),
    {
        SubstitutionColumn { blocks: [None, None, None, None, None, None] }
    }

    /// Builds a column from the six cells of one class, one text per cell,
    /// in slot order. A cell that holds only spaces and newlines gives an
    /// absent slot; any other cell gives its lines.
    pub fn from_vec(col: Vec<String>) -> (r: Result<SubstitutionColumn, PDFJsonError>)
        ensures
            col@.len() < BLOCK_COUNT <==> r == Err::<SubstitutionColumn, PDFJsonError>(
                PDFJsonError::TooFewCells,
            ),
            col@.len() > BLOCK_COUNT <==> r == Err::<SubstitutionColumn, PDFJsonError>(
                PDFJsonError::TooManyCells,
            ),
            col@.len() == BLOCK_COUNT <==> r.is_ok(),
            r.is_ok() ==> r.unwrap()@ == col@.map_values(|c: String| slot_of_text(c@)),
            r.is_ok() ==> forall|i: int|
                0 <= i < BLOCK_COUNT ==> ((#[trigger] r.unwrap()@[i]).is_none() <==> is_blank(
                    col@[i]@,
                )),
            r.is_ok() ==> forall|i: int|
                0 <= i < BLOCK_COUNT && !is_blank(col@[i]@) ==> #[trigger] r.unwrap()@[i]
                    == Some(split_lines(col@[i]@)),
    {
        if col.len() < BLOCK_COUNT {
            return Err(PDFJsonError::TooFewCells);
        }
        if col.len() > BLOCK_COUNT {
            return Err(PDFJsonError::TooManyCells);
        }
        let r = SubstitutionColumn {
            blocks: [
                slot_from_text(&col[0]),
                slot_from_text(&col[1]),
                slot_from_text(&col[2]),
                slot_from_text(&col[3]),
                slot_from_text(&col[4]),
                slot_from_text(&col[5]),
            ],
        };
        assert(r@ =~= col@.map_values(|c: String| slot_of_text(c@)));
        Ok(r)
    }

    /// Builds a column from the six cells of one class, each cell given as
    /// its lines, in slot order. A cell whose lines all hold only spaces and
    /// newlines gives an absent slot; any other cell keeps its lines as they
    /// are.
    pub fn from_multi_line_cells(cells: Vec<Vec<String>>) -> (r: Result<
        SubstitutionColumn,
        PDFJsonError,
    >)
        ensures
            cells@.len() < BLOCK_COUNT <==> r == Err::<SubstitutionColumn, PDFJsonError>(
                PDFJsonError::TooFewCells,
            ),
            cells@.len() > BLOCK_COUNT <==> r == Err::<SubstitutionColumn, PDFJsonError>(
                PDFJsonError::TooManyCells,
            ),
            cells@.len() == BLOCK_COUNT <==> r.is_ok(),
            r.is_ok() ==> r.unwrap()@ == cells@.map_values(
                |c: Vec<String>| slot_of_lines(c@.map_values(|l: String| l@)),
            ),
    {
        if cells.len() < BLOCK_COUNT {
            return Err(PDFJsonError::TooFewCells);
        }
        if cells.len() > BLOCK_COUNT {
            return Err(PDFJsonError::TooManyCells);
        }
        let r = SubstitutionColumn {
            blocks: [
                slot_from_lines(&cells[0]),
                slot_from_lines(&cells[1]),
                slot_from_lines(&cells[2]),
                slot_from_lines(&cells[3]),
                slot_from_lines(&cells[4]),
                slot_from_lines(&cells[5]),
            ],
        };
        assert(r@ =~= cells@.map_values(
            |c: Vec<String>| slot_of_lines(c@.map_values(|l: String| l@)),
        ));
        Ok(r)
    }
}

impl Default for SubstitutionColumn {
    fn default() -> (r: SubstitutionColumn)
        ensures
            r@.len() == BLOCK_COUNT,
            forall|i: int| 0 <= i < BLOCK_COUNT ==> (#[trigger] r@[i]).is_none(),
    {
        SubstitutionColumn::new()
    }
}

} // verus!
