use vstd::prelude::*;
use crate::matcher::{names_view, row_wf, rows_view, rows_wf};
use crate::text::{decimal_of, push_decimal, sub_bytes};

verus! {

/// The label of capture column `j`: the group's name when it is named,
/// else its positional index rendered in decimal.
pub open spec fn label_model(names: Seq<Option<Seq<u8>>>, j: int) -> Seq<u8> {
    match names[j] {
        Some(n) => n,
        None => decimal_of(j as nat),
    }
}

/// One capture cell: the matched substring for group `j` of a row, or
/// empty when the group did not participate in the match or does not
/// exist.
pub open spec fn cell_model(body: Seq<u8>, row: Seq<Option<(usize, usize)>>, j: int) -> Seq<u8> {
    if 0 <= j < row.len() {
        match row[j] {
            Some(s) => body.subrange(s.0 as int, s.1 as int),
            None => Seq::empty(),
        }
    } else {
        Seq::empty()
    }
}

/// One column label per capture group, group 0 first: the group name if
/// named, else the positional index as text.
pub fn column_labels(names: &Vec<Option<Vec<u8>>>) -> (labels: Vec<Vec<u8>>)
    ensures
        labels@.len() == names@.len(),
        forall|j: int|
            0 <= j < labels@.len() ==> (#[trigger] labels@[j])@ == label_model(
                names_view(names@),
                j,
            ),
{
    let mut labels: Vec<Vec<u8>> = Vec::new();
    let mut j: usize = 0;
    while j < names.len()
        invariant
            j <= names@.len(),
            labels@.len() == j,
            forall|k: int|
                0 <= k < j ==> (#[trigger] labels@[k])@ == label_model(names_view(names@), k),
        decreases names@.len() - j,
    {
        match &names[j] {
            Some(n) => {
                let owned = sub_bytes(n, 0, n.len());
                assert(owned@ =~= n@);
                labels.push(owned);
            },
            None => {
                let mut digits: Vec<u8> = Vec::new();
                push_decimal(j, &mut digits);
                labels.push(digits);
            },
        }
        assert(names_view(names@)[j as int] == match names@[j as int] {
            Some(v) => Some(v@),
            None => None::<Seq<u8>>,
        });
        j = j + 1;
    }
    labels
}

/// One row of matched substrings per match, in match order: cell `j`
/// holds the text of group `j`, or is empty when the group did not
/// participate.
pub fn capture_cells(body: &Vec<u8>, rows: &Vec<Vec<Option<(usize, usize)>>>) -> (table: Vec<
    Vec<Vec<u8>>,
>)
    requires
        rows_wf(rows_view(rows@), body@.len()),
    ensures
        table@.len() == rows@.len(),
        forall|i: int| 0 <= i < table@.len() ==> (#[trigger] table@[i])@.len() == rows@[i]@.len(),
        forall|i: int, j: int|
            0 <= i < table@.len() && 0 <= j < table@[i]@.len() ==> (#[trigger] table@[i]@[j])@
                == cell_model(body@, rows@[i]@, j),
{
    let mut table: Vec<Vec<Vec<u8>>> = Vec::new();
    let mut i: usize = 0;
    while i < rows.len()
        invariant
            rows_wf(rows_view(rows@), body@.len()),
            i <= rows@.len(),
            table@.len() == i,
            forall|k: int| 0 <= k < i ==> (#[trigger] table@[k])@.len() == rows@[k]@.len(),
            forall|k: int, j: int|
                0 <= k < i && 0 <= j < table@[k]@.len() ==> (#[trigger] table@[k]@[j])@
                    == cell_model(body@, rows@[k]@, j),
        decreases rows@.len() - i,
    {
        let row = &rows[i];
        assert(row_wf(rows_view(rows@)[i as int], body@.len()));
        let mut cells: Vec<Vec<u8>> = Vec::new();
        let mut j: usize = 0;
        while j < row.len()
            invariant
                row_wf(rows_view(rows@)[i as int], body@.len()),
                i < rows@.len(),
                row@ == rows@[i as int]@,
                j <= row@.len(),
                cells@.len() == j,
                forall|k: int|
                    0 <= k < j ==> (#[trigger] cells@[k])@ == cell_model(body@, rows@[i as int]@, k),
            decreases row@.len() - j,
        {
            assert(rows_view(rows@)[i as int] == rows@[i as int]@);
            match row[j] {
                Some(s) => {
                    assert(rows_view(rows@)[i as int][j as int] matches Some(sp) && sp.0 <= sp.1
                        <= body@.len());
                    let cell = sub_bytes(body, s.0, s.1);
                    cells.push(cell);
                },
                None => {
                    cells.push(Vec::new());
                },
            }
            j = j + 1;
        }
        table.push(cells);
        i = i + 1;
    }
    table
}

} // verus!
