//! The shape a spreadsheet import takes: naming the dataset after the file,
//! reading the column names off the first sheet's first row, and gathering
//! the data rows of every sheet. Reading the workbook's cells is the
//! shell's work; this module gets the cells as plain text.

use vstd::prelude::*;

use crate::mask::{spec_digits, u128_digits};
use crate::text::{chars_to_string, spec_rfind, str_to_chars};

verus! {

/// What an import reports.
#[derive(Debug, Clone)]
pub struct ImportExcelResult {
    pub success: bool,
    pub dataset_id: i64,
    pub name: String,
    pub columns: Vec<String>,
    pub row_count: i64,
    pub message: String,
}

/// The dataset name a file name yields: everything before the last dot, or
/// the whole name when there is no dot or nothing before it.
pub open spec fn spec_dataset_name(file_name: Seq<char>) -> Seq<char> {
    match spec_rfind(file_name, "."@, file_name.len() as int) {
        None => file_name,
        Some(d) => if d == 0 {
            file_name
        } else {
            file_name.subrange(0, d)
        },
    }
}

/// Names a dataset after its file: the extension is dropped, and a name
/// that would come out empty stands whole.
pub fn dataset_name_from_filename(file_name: &str) -> (r: String)
    ensures
        r@ == spec_dataset_name(file_name@),
{
    let fc = str_to_chars(file_name);
    let dot = str_to_chars(".");
    match crate::text::rfind_in(fc.as_slice(), dot.as_slice()) {
        None => chars_to_string(fc.as_slice()),
        Some(d) => {
            proof {
                crate::extract::lemma_rfind_bounds(fc@, "."@, fc@.len() as int);
            }
            if d == 0 {
                chars_to_string(fc.as_slice())
            } else {
                chars_to_string(&fc.as_slice()[0..d])
            }
        },
    }
}

/// The column name an imported header cell yields: the cell's text, or a
/// numbered stand-in where the cell is empty.
pub open spec fn spec_column_name(cell: Seq<char>, i: int) -> Seq<char> {
    if cell.len() == 0 {
        "Column"@ + spec_digits((i + 1) as nat)
    } else {
        cell
    }
}

/// Names the imported columns after the first sheet's first row; an empty
/// header cell becomes a numbered stand-in.
pub fn column_names(header: &Vec<String>) -> (r: Vec<String>)
    requires
        header@.len() < 0x1_0000_0000,
    ensures
        r@.len() == header@.len(),
        forall|k: int|
            0 <= k < r@.len() ==> (#[trigger] r@[k])@ == spec_column_name(header@[k]@, k),
{
    let mut out: Vec<String> = Vec::new();
    let mut i: usize = 0;
    while i < header.len()
        invariant
            i <= header@.len(),
            header@.len() < 0x1_0000_0000,
            out@.len() == i,
            forall|k: int|
                0 <= k < i ==> (#[trigger] out@[k])@ == spec_column_name(header@[k]@, k),
        decreases header@.len() - i,
    {
        let cell = &header[i];
        if cell.as_str().is_empty() {
            let digits = u128_digits(i as u128 + 1);
            let mut name = str_to_chars("Column");
            name.extend_from_slice(digits.as_slice());
            out.push(chars_to_string(name.as_slice()));
        } else {
            out.push(cell.clone());
        }
        i += 1;
    }
    out
}

/// The data rows of a list of sheets: every sheet's rows after its first,
/// sheet by sheet, as the import gathers them.
pub open spec fn spec_data_rows(sheets: Seq<Vec<Vec<String>>>) -> Seq<Vec<String>>
    decreases sheets.len(),
{
    if sheets.len() == 0 {
        Seq::<Vec<String>>::empty()
    } else {
        spec_data_rows(sheets.drop_last()) + if sheets.last()@.len() > 0 {
            sheets.last()@.drop_first()
        } else {
            Seq::<Vec<String>>::empty()
        }
    }
}

/// Gathers the data rows of every sheet, skipping each sheet's header row.
pub fn gather_data_rows(sheets: Vec<Vec<Vec<String>>>) -> (r: Vec<Vec<String>>)
    ensures
        r@ == spec_data_rows(sheets@),
{
    let ghost orig = sheets@;
    let mut sheets = sheets;
    let mut out: Vec<Vec<String>> = Vec::new();
    let mut k: usize = 0;
    let total = sheets.len();
    proof {
        assert(orig.subrange(0, 0) =~= Seq::<Vec<Vec<String>>>::empty());
    }
    while k < total
        invariant
            k <= total,
            total == orig.len(),
            sheets@.len() == orig.len() - k,
            forall|m: int| 0 <= m < sheets@.len() ==> sheets@[m] == orig[k + m],
            out@ == spec_data_rows(orig.subrange(0, k as int)),
        decreases total - k,
    {
        let ghost prefix = orig.subrange(0, k as int);
        let mut sheet = sheets.remove(0);
        proof {
            assert(sheet == orig[k as int]);
        }
        let ghost sheet_view = sheet@;
        if sheet.len() > 0 {
            sheet.remove(0);
            proof {
                assert(sheet@ =~= sheet_view.drop_first());
            }
            out.append(&mut sheet);
        }
        proof {
            let next = orig.subrange(0, k as int + 1);
            assert(next.drop_last() =~= prefix);
            assert(next.last() == orig[k as int]);
            assert(out@ =~= spec_data_rows(next));
            assert forall|m: int| 0 <= m < sheets@.len() implies sheets@[m] == orig[k + 1 + m] by {}
        }
        k += 1;
    }
    proof {
        assert(orig.subrange(0, orig.len() as int) =~= orig);
    }
    out
}

} // verus!
