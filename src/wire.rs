use vstd::prelude::*;

use crate::column::{slot_view, SubstitutionColumn, BLOCK_COUNT};
use crate::error::PDFJsonError;
use crate::substitution::Substitution;

verus! {

/// The digit that names slot `i`.
pub open spec fn digit_of(i: int) -> char {
    if i == 0 {
        '0'
    } else if i == 1 {
        '1'
    } else if i == 2 {
        '2'
    } else if i == 3 {
        '3'
    } else if i == 4 {
        '4'
    } else {
        '5'
    }
}

/// The key under which slot `i` is written: its index as one decimal digit.
pub open spec fn key_of(i: int) -> Seq<char> {
    seq![digit_of(i)]
}

/// One written field: a key and the lines of a slot.
pub open spec fn field_view(f: (String, Vec<String>)) -> (Seq<char>, Seq<Seq<char>>) {
    (f.0@, f.1@.map_values(|l: String| l@))
}

/// The written fields, each as its key and its lines.
pub open spec fn fields_view(fs: Seq<(String, Vec<String>)>) -> Seq<(Seq<char>, Seq<Seq<char>>)> {
    fs.map_values(|f: (String, Vec<String>)| field_view(f))
}

/// The written fields of the first `n` slots of a column, in slot order,
/// absent slots left out.
pub open spec fn wire_upto(v: Seq<Option<Seq<Seq<char>>>>, n: int) -> Seq<
    (Seq<char>, Seq<Seq<char>>),
>
    decreases n,
{
    if n <= 0 {
        Seq::empty()
    } else {
        let w = wire_upto(v, n - 1);
        match v[n - 1] {
            Some(lines) => w.push((key_of(n - 1), lines)),
            None => w,
        }
    }
}

/// The written form of a column: one field per present slot, in slot order.
pub open spec fn wire_of(v: Seq<Option<Seq<Seq<char>>>>) -> Seq<(Seq<char>, Seq<Seq<char>>)> {
    wire_upto(v, BLOCK_COUNT as int)
}

/// The lines of the first field named `key`, if there is one.
pub open spec fn field_for(fs: Seq<(Seq<char>, Seq<Seq<char>>)>, key: Seq<char>) -> Option<
    Seq<Seq<char>>,
>
    decreases fs.len(),
{
    if fs.len() == 0 {
        None
    } else {
        let f = field_for(fs.drop_last(), key);
        if f.is_some() {
            f
        } else if fs.last().0 == key {
            Some(fs.last().1)
        } else {
            None
        }
    }
}

/// Whether two fields are named `key`.
pub open spec fn repeats(fs: Seq<(Seq<char>, Seq<Seq<char>>)>, key: Seq<char>) -> bool
    decreases fs.len(),
{
    if fs.len() == 0 {
        false
    } else {
        repeats(fs.drop_last(), key) || (fs.last().0 == key && field_for(
            fs.drop_last(),
            key,
        ).is_some())
    }
}

/// The column that written fields describe: none where a slot is named
/// twice; else slot `i` holds the lines of the field named `key_of(i)`, and
/// is absent where no field has that name. Fields with other names are
/// ignored.
pub open spec fn column_of_wire(fs: Seq<(Seq<char>, Seq<Seq<char>>)>) -> Option<
    Seq<Option<Seq<Seq<char>>>>,
> {
    if exists|k: int| 0 <= k < BLOCK_COUNT && #[trigger] repeats(fs, key_of(k)) {
        None
    } else {
        Some(Seq::new(BLOCK_COUNT as nat, |k: int| field_for(fs, key_of(k))))
    }
}

proof fn lemma_key_of_injective(a: int, b: int)
    requires
        0 <= a < BLOCK_COUNT,
        0 <= b < BLOCK_COUNT,
        key_of(a) == key_of(b),
    ensures
        a == b,
{
    assert(key_of(a)[0] == digit_of(a));
    assert(key_of(b)[0] == digit_of(b));
}

proof fn lemma_push_field(
    fs: Seq<(Seq<char>, Seq<Seq<char>>)>,
    f: (Seq<char>, Seq<Seq<char>>),
    key: Seq<char>,
)
    ensures
        field_for(fs.push(f), key) == if field_for(fs, key).is_some() {
            field_for(fs, key)
        } else if f.0 == key {
            Some(f.1)
        } else {
            None
        },
        repeats(fs.push(f), key) == (repeats(fs, key) || (f.0 == key && field_for(
            fs,
            key,
        ).is_some())),
{
    assert(fs.push(f).drop_last() =~= fs);
}

proof fn lemma_repeats_grows(fs: Seq<(Seq<char>, Seq<Seq<char>>)>, key: Seq<char>, a: int, b: int)
    requires
        0 <= a <= b <= fs.len(),
        repeats(fs.take(a), key),
    ensures
        repeats(fs.take(b), key),
    decreases b - a,
{
    if a < b {
        lemma_repeats_grows(fs, key, a, b - 1);
        assert(fs.take(b).drop_last() =~= fs.take(b - 1));
    }
}

proof fn lemma_wire_upto(v: Seq<Option<Seq<Seq<char>>>>, n: int)
    requires
        v.len() == BLOCK_COUNT,
        0 <= n <= BLOCK_COUNT,
    ensures
        forall|k: int|
            0 <= k < BLOCK_COUNT ==> #[trigger] field_for(wire_upto(v, n), key_of(k)) == if k
                < n {
                v[k]
            } else {
                None
            },
        forall|k: int| 0 <= k < BLOCK_COUNT ==> !#[trigger] repeats(wire_upto(v, n), key_of(k)),
    decreases n,
{
    if n > 0 {
        lemma_wire_upto(v, n - 1);
        let w = wire_upto(v, n - 1);
        if v[n - 1].is_some() {
            let x = w.push((key_of(n - 1), v[n - 1].unwrap()));
            assert(x.drop_last() =~= w);
            assert forall|k: int|
                #![trigger key_of(k)]
                0 <= k < BLOCK_COUNT implies field_for(x, key_of(k)) == if k < n {
                v[k]
            } else {
                None
            } && !repeats(x, key_of(k)) by {
                lemma_push_field(w, (key_of(n - 1), v[n - 1].unwrap()), key_of(k));
                if key_of(k) == key_of(n - 1) {
                    lemma_key_of_injective(k, n - 1);
                }
            }
        }
    }
}

/// Reading back the written form of a column gives the column again.
pub proof fn lemma_wire_round_trip(c: SubstitutionColumn)
    ensures
        column_of_wire(wire_of(c@)) == Some(c@),
{
    lemma_wire_upto(c@, BLOCK_COUNT as int);
    let fs = wire_of(c@);
    assert(!exists|k: int| 0 <= k < BLOCK_COUNT && #[trigger] repeats(fs, key_of(k)));
    assert(Seq::new(BLOCK_COUNT as nat, |k: int| field_for(fs, key_of(k))) =~= c@);
}

/// The key of slot `i`.
pub fn block_key(i: usize) -> (r: String)
    requires
        i < BLOCK_COUNT,
    ensures
        r@ == key_of(i as int),
{
    proof {
        reveal_strlit("0");
        reveal_strlit("1");
        reveal_strlit("2");
        reveal_strlit("3");
        reveal_strlit("4");
        reveal_strlit("5");
    }
    if i == 0 {
        String::from_str("0")
    } else if i == 1 {
        String::from_str("1")
    } else if i == 2 {
        String::from_str("2")
    } else if i == 3 {
        String::from_str("3")
    } else if i == 4 {
        String::from_str("4")
    } else {
        String::from_str("5")
    }
}

/// The slot that `key` names, if it names one.
pub fn block_index(key: &str) -> (r: Option<usize>)
    ensures
        match r {
            Some(i) => i < BLOCK_COUNT && key@ == key_of(i as int),
            None => forall|k: int| 0 <= k < BLOCK_COUNT ==> key@ != #[trigger] key_of(k),
        },
{
    if key.unicode_len() != 1 {
        assert forall|k: int| 0 <= k < BLOCK_COUNT implies key@ != #[trigger] key_of(k) by {
            assert(key_of(k).len() == 1);
        }
        return None;
    }
    let c = key.get_char(0);
    assert(key@ =~= seq![c]);
    if c == '0' {
        Some(0)
    } else if c == '1' {
        Some(1)
    } else if c == '2' {
        Some(2)
    } else if c == '3' {
        Some(3)
    } else if c == '4' {
        Some(4)
    } else if c == '5' {
        Some(5)
    } else {
        assert forall|k: int| 0 <= k < BLOCK_COUNT implies key@ != #[trigger] key_of(k) by {
            assert(key_of(k)[0] == digit_of(k));
        }
        None
    }
}

/// The lines held for one slot while fields are read, if any.
pub open spec fn found_view(o: Option<Vec<String>>) -> Option<Seq<Seq<char>>> {
    match o {
        Some(lines) => Some(lines@.map_values(|l: String| l@)),
        None => None,
    }
}

/// The slot made from the lines found for it.
fn slot_of_found(found: &Option<Vec<String>>) -> (r: Option<Substitution>)
    ensures
        slot_view(r) == found_view(*found),
{
    match found {
        Some(lines) => Some(Substitution::from_lines(lines.clone())),
        None => None,
    }
}

impl SubstitutionColumn {
    /// The written form of the column: for each present slot in slot order,
    /// its key and its lines. Absent slots are left out.
    pub fn to_wire(&self) -> (r: Vec<(String, Vec<String>)>)
        ensures
            fields_view(r@) == wire_of(self@),
    {
        let mut r: Vec<(String, Vec<String>)> = Vec::new();
        let mut i: usize = 0;
        while i < BLOCK_COUNT
            invariant
                i <= BLOCK_COUNT,
                fields_view(r@) == wire_upto(self@, i as int),
            decreases BLOCK_COUNT - i,
        {
            match &self.blocks[i] {
                Some(sub) => {
                    let ghost before = fields_view(r@);
                    let f = (block_key(i), sub.lines.clone());
                    r.push(f);
                    assert(fields_view(r@) =~= before.push(field_view(f)));
                },
                None => {},
            }
            i = i + 1;
        }
        r
    }

    /// Reads a column back from its written form. Fields whose key names no
    /// slot are ignored; a slot named by no field is absent; a slot named
    /// twice gives `DuplicateBlock`.
    pub fn from_wire(fields: Vec<(String, Vec<String>)>) -> (r: Result<
        SubstitutionColumn,
        PDFJsonError,
    >)
        ensures
            column_of_wire(fields_view(fields@)) is None <==> r == Err::<
                SubstitutionColumn,
                PDFJsonError,
            >(PDFJsonError::DuplicateBlock),
            column_of_wire(fields_view(fields@)) is Some <==> r.is_ok(),
            r.is_ok() ==> column_of_wire(fields_view(fields@)) == Some(r.unwrap()@),
    {
        let ghost fs = fields_view(fields@);
        let mut found: Vec<Option<Vec<String>>> = vec![None, None, None, None, None, None];
        let mut j: usize = 0;
        while j < fields.len()
            invariant
                j <= fields@.len(),
                fs == fields_view(fields@),
                found@.len() == BLOCK_COUNT,
                forall|k: int|
                    0 <= k < BLOCK_COUNT ==> found_view(#[trigger] found@[k]) == field_for(
                        fs.take(j as int),
                        key_of(k),
                    ),
                forall|k: int|
                    0 <= k < BLOCK_COUNT ==> !#[trigger] repeats(fs.take(j as int), key_of(k)),
            decreases fields@.len() - j,
        {
            let ghost t = fs.take(j + 1);
            assert(t.drop_last() =~= fs.take(j as int));
            assert(t.last() == field_view(fields@[j as int]));
            assert(t =~= fs.take(j as int).push(t.last()));
            match block_index(fields[j].0.as_str()) {
                Some(k) => {
                    if found[k].is_some() {
                        proof {
                            lemma_push_field(fs.take(j as int), t.last(), key_of(k as int));
                        }
                        assert(repeats(t, key_of(k as int)));
                        proof {
                            lemma_repeats_grows(fs, key_of(k as int), j + 1, fs.len() as int);
                            assert(fs.take(fs.len() as int) =~= fs);
                        }
                        return Err(PDFJsonError::DuplicateBlock);
                    }
                    let ghost old_found = found@;
                    found.set(k, Some(fields[j].1.clone()));
                    assert forall|m: int|
                        #![trigger key_of(m)]
                        0 <= m < BLOCK_COUNT implies found_view(found@[m]) == field_for(
                        t,
                        key_of(m),
                    ) && !repeats(t, key_of(m)) by {
                        lemma_push_field(fs.take(j as int), t.last(), key_of(m));
                        assert(found_view(old_found[m]) == field_for(fs.take(j as int), key_of(m)));
                        if key_of(m) == key_of(k as int) {
                            lemma_key_of_injective(m, k as int);
                        }
                    }
                },
                None => {
                    assert forall|m: int|
                        #![trigger key_of(m)]
                        0 <= m < BLOCK_COUNT implies found_view(found@[m]) == field_for(
                        t,
                        key_of(m),
                    ) && !repeats(t, key_of(m)) by {
                        lemma_push_field(fs.take(j as int), t.last(), key_of(m));
                        assert(found_view(found@[m]) == field_for(fs.take(j as int), key_of(m)));
                    }
                },
            }
            j = j + 1;
        }
        assert(fs.take(j as int) =~= fs);
        let r = SubstitutionColumn {
            blocks: [
                slot_of_found(&found[0]),
                slot_of_found(&found[1]),
                slot_of_found(&found[2]),
                slot_of_found(&found[3]),
                slot_of_found(&found[4]),
                slot_of_found(&found[5]),
            ],
        };
        assert(r@ =~= Seq::new(BLOCK_COUNT as nat, |k: int| field_for(fs, key_of(k))));
        Ok(r)
    }
}

} // verus!
