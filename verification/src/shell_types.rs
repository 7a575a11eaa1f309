//! The plain result and request shapes the command layer passes to the
//! screen: what submitting an input reports, what a search answers, the
//! file-organizer plans, the collected web data, and the detected
//! credentials. Costs are exact, in pico-dollars.

use vstd::prelude::*;

verus! {

/// What submitting an input reports.
#[derive(Debug, Clone)]
pub struct InputResult {
    pub success: bool,
    pub message: String,
    pub memo_id: Option<i64>,
    pub merged: bool,
    pub title: String,
    pub input_tokens: i64,
    pub output_tokens: i64,
    pub cost_pico_usd: u128,
    pub schedules_added: i32,
    pub todos_added: i32,
}

/// What asking over the memos answers.
#[derive(Debug, Clone)]
pub struct SearchResult {
    pub answer: String,
    pub input_tokens: i64,
    pub output_tokens: i64,
    pub cost_pico_usd: u128,
}

/// Today's usage totals for the screen.
#[derive(Debug, Clone)]
pub struct UsageStats {
    pub today_input_tokens: i128,
    pub today_output_tokens: i128,
    pub today_cost_pico_usd: u128,
}

/// One entry a folder listing shows.
#[derive(Debug, Clone)]
pub struct FileInfo {
    pub name: String,
    pub path: String,
    pub size: u64,
    pub extension: String,
    pub modified: String,
    pub is_dir: bool,
}

/// One suggested file move.
#[derive(Debug, Clone)]
pub struct OrganizePlan {
    pub file_path: String,
    pub file_name: String,
    pub suggested_folder: String,
    pub reason: String,
    pub selected: bool,
}

/// One executed file move.
#[derive(Debug, Clone)]
pub struct MovedFileInfo {
    pub file_name: String,
    pub from_path: String,
    pub to_path: String,
    pub to_folder: String,
}

/// What executing the selected moves reports.
#[derive(Debug, Clone)]
pub struct OrganizeResult {
    pub success: bool,
    pub moved_count: i32,
    pub failed_count: i32,
    pub message: String,
    pub moved_files: Vec<MovedFileInfo>,
}

/// One labelled figure of a dataset analysis.
#[derive(Debug, Clone)]
pub struct StatItem {
    pub label: String,
    pub value: String,
}

/// What asking over a dataset answers.
#[derive(Debug, Clone)]
pub struct DatasetQAResult {
    pub answer: String,
    pub relevant_rows: Vec<Vec<String>>,
    pub input_tokens: i64,
    pub output_tokens: i64,
    pub cost_pico_usd: u128,
}

/// One alarm, with its weekday numbers unpacked for the screen.
#[derive(Debug, Clone)]
pub struct AlarmData {
    pub id: i64,
    pub time: String,
    pub message: String,
    pub enabled: bool,
    pub days: Vec<i32>,
}

/// What one collected page yielded.
#[derive(Debug, Clone)]
pub struct CollectedData {
    pub url: String,
    pub title: String,
    pub tables: Vec<TableData>,
    pub numbers: Vec<NumberData>,
    pub lists: Vec<Vec<String>>,
    pub raw_text: String,
}

/// One table a page carried.
#[derive(Debug, Clone)]
pub struct TableData {
    pub headers: Vec<String>,
    pub rows: Vec<Vec<String>>,
}

/// One labelled figure a page carried.
#[derive(Debug, Clone)]
pub struct NumberData {
    pub label: String,
    pub value: String,
    pub unit: Option<String>,
}

/// One suggested folder rename.
#[derive(Debug, Clone)]
pub struct FolderRenameSuggestion {
    pub original_path: String,
    pub original_name: String,
    pub suggested_name: String,
    pub reason: String,
}

/// One credential the detector read out of pasted text.
#[derive(Debug, Clone)]
pub struct DetectedSecretKey {
    pub key_name: String,
    pub key_value: String,
    pub key_type: String,
    pub provider: String,
    pub provider_url: Option<String>,
    pub description: Option<String>,
    pub issued_date: String,
    pub expires_at: Option<String>,
}

/// True when a collected page carried any data worth keeping: a table, a
/// figure or a list.
pub fn collected_has_data(data: &CollectedData) -> (r: bool)
    ensures
        r == (data.tables@.len() > 0 || data.numbers@.len() > 0 || data.lists@.len() > 0),
{
    data.tables.len() > 0 || data.numbers.len() > 0 || data.lists.len() > 0
}

/// What one scraped row does to a table being assembled: the first
/// header-cell row becomes the headers; failing that, a plain first row
/// does; every other plain row is data.
pub open spec fn spec_table_step(
    headers: Seq<String>,
    data: Seq<Vec<String>>,
    row: (Vec<String>, Vec<String>),
    idx: int,
) -> (Seq<String>, Seq<Vec<String>>) {
    if row.0@.len() > 0 && headers.len() == 0 {
        (row.0@, data)
    } else if row.1@.len() > 0 {
        if headers.len() == 0 && idx == 0 {
            (row.1@, data)
        } else {
            (headers, data.push(row.1))
        }
    } else {
        (headers, data)
    }
}

/// The headers and data rows the scraped rows assemble to.
pub open spec fn spec_table_fold(rows: Seq<(Vec<String>, Vec<String>)>) -> (
    Seq<String>,
    Seq<Vec<String>>,
)
    decreases rows.len(),
{
    if rows.len() == 0 {
        (Seq::<String>::empty(), Seq::<Vec<String>>::empty())
    } else {
        let prior = spec_table_fold(rows.drop_last());
        spec_table_step(prior.0, prior.1, rows.last(), rows.len() - 1)
    }
}

/// Assembles one scraped table as the collector keeps it: the first
/// header-cell row becomes the headers; failing that, the first plain row
/// does; every later plain row is data. A table with neither is dropped.
pub fn assemble_table(rows: Vec<(Vec<String>, Vec<String>)>) -> (r: Option<TableData>)
    ensures
        ({
            let folded = spec_table_fold(rows@);
            match r {
                Some(t) => (folded.0.len() > 0 || folded.1.len() > 0) && t.headers@ == folded.0
                    && t.rows@ == folded.1,
                None => folded.0.len() == 0 && folded.1.len() == 0,
            }
        }),
{
    let ghost orig = rows@;
    let mut headers: Vec<String> = Vec::new();
    let mut data: Vec<Vec<String>> = Vec::new();
    let mut rows = rows;
    let mut idx: usize = 0;
    let total = rows.len();
    while rows.len() > 0
        invariant
            idx + rows@.len() == total,
            total == orig.len(),
            rows@ =~= orig.subrange(idx as int, orig.len() as int),
            (headers@, data@) == spec_table_fold(orig.subrange(0, idx as int)),
        decreases rows@.len(),
    {
        let ghost prefix = orig.subrange(0, idx as int);
        let (ths, tds) = rows.remove(0);
        proof {
            assert((ths, tds) == orig[idx as int]);
        }
        if ths.len() > 0 && headers.len() == 0 {
            headers = ths;
        } else if tds.len() > 0 {
            if headers.len() == 0 && idx == 0 {
                headers = tds;
            } else {
                data.push(tds);
            }
        }
        proof {
            let next = orig.subrange(0, idx as int + 1);
            assert(next.drop_last() =~= prefix);
            assert(next.last() == orig[idx as int]);
        }
        idx += 1;
        proof {
            assert(rows@ =~= orig.subrange(idx as int, orig.len() as int));
        }
    }
    proof {
        assert(orig.subrange(0, orig.len() as int) =~= orig);
    }
    if headers.len() > 0 || data.len() > 0 {
        Some(TableData { headers, rows: data })
    } else {
        None
    }
}

/// True of a scraped list worth keeping: between two and fifty entries.
pub fn keep_list(items: &Vec<String>) -> (r: bool)
    ensures
        r == (2 <= items@.len() <= 50),
{
    items.len() >= 2 && items.len() <= 50
}

/// True of a scraped figure worth keeping: a label under fifty characters
/// and a non-empty value.
pub fn keep_number(label: &str, value: &str) -> (r: bool)
    ensures
        r == (label@.len() > 0 && label@.len() < 50 && value@.len() > 0),
{
    let lc = crate::text::str_to_chars(label);
    let vc = crate::text::str_to_chars(value);
    lc.len() > 0 && lc.len() < 50 && vc.len() > 0
}

} // verus!
