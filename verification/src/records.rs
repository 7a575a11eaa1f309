//! The persisted record types: plain rows with an auto-assigned key, as the
//! relational schema holds them.

use vstd::prelude::*;

use crate::table::{Linked, Owned, RowKey};

verus! {

/// A note with its AI-derived metadata.
#[derive(Debug, Clone)]
pub struct Memo {
    pub id: i64,
    pub title: String,
    pub content: String,
    pub formatted_content: String,
    pub summary: String,
    pub category: String,
    pub tags: String,
    pub embedding: Option<Vec<u8>>,
    pub created_at: String,
    pub updated_at: String,
}

/// One logged call to the hosted model; the cost is exact, in pico-dollars.
#[derive(Debug, Clone)]
pub struct ApiUsage {
    pub id: i64,
    pub operation: String,
    pub model: String,
    pub input_tokens: i64,
    pub output_tokens: i64,
    pub cost_pico_usd: u128,
    pub timestamp: String,
}

/// The two settings the settings screen edits.
#[derive(Debug, Clone)]
pub struct Settings {
    pub gemini_api_key: String,
    pub language: String,
}

/// A calendar entry, optionally linked to the memo it was extracted from.
#[derive(Debug, Clone)]
pub struct Schedule {
    pub id: i64,
    pub memo_id: Option<i64>,
    pub title: String,
    pub start_time: Option<String>,
    pub end_time: Option<String>,
    pub location: Option<String>,
    pub description: Option<String>,
    pub google_event_id: Option<String>,
    pub created_at: String,
}

/// A task, optionally linked to the memo it was extracted from.
#[derive(Debug, Clone)]
pub struct Todo {
    pub id: i64,
    pub memo_id: Option<i64>,
    pub title: String,
    pub completed: bool,
    pub priority: Option<String>,
    pub due_date: Option<String>,
    pub created_at: String,
}

/// A ledger entry, optionally linked to the memo it was extracted from.
#[derive(Debug, Clone)]
pub struct Transaction {
    pub id: i64,
    pub memo_id: Option<i64>,
    pub tx_type: String,
    pub amount: i64,
    pub description: String,
    pub category: Option<String>,
    pub tx_date: Option<String>,
    pub created_at: String,
}

/// A file reference attached to exactly one memo.
#[derive(Debug, Clone)]
pub struct Attachment {
    pub id: i64,
    pub memo_id: i64,
    pub file_name: String,
    pub file_path: String,
    pub original_path: String,
    pub is_copy: bool,
    pub file_size: i64,
    pub created_at: String,
}

/// An imported spreadsheet's shape.
#[derive(Debug, Clone)]
pub struct Dataset {
    pub id: i64,
    pub name: String,
    pub description: String,
    pub columns: Vec<String>,
    pub row_count: i64,
    pub created_at: String,
}

/// One row of an imported spreadsheet.
#[derive(Debug, Clone)]
pub struct DatasetRow {
    pub id: i64,
    pub dataset_id: i64,
    pub row_index: i64,
    pub data: Vec<String>,
}

/// A stored credential; `key_value` is kept encrypted at rest.
#[derive(Debug, Clone)]
pub struct SecretKey {
    pub id: i64,
    pub key_name: String,
    pub key_value: String,
    pub key_type: String,
    pub provider: String,
    pub provider_url: Option<String>,
    pub description: Option<String>,
    pub issued_date: String,
    pub expires_at: Option<String>,
    pub created_at: String,
}

/// A sticky-note widget's state, keyed by a caller-chosen text id.
#[derive(Debug, Clone)]
pub struct Postit {
    pub id: String,
    pub content: String,
    pub color: String,
    pub position_x: i32,
    pub position_y: i32,
    pub width: i32,
    pub height: i32,
    pub created_at: String,
    pub updated_at: String,
}

/// A daily alarm; `days` holds a JSON array of weekday numbers.
#[derive(Debug, Clone)]
pub struct Alarm {
    pub id: i64,
    pub time: String,
    pub message: String,
    pub enabled: bool,
    pub days: String,
    pub created_at: String,
}

impl RowKey for Memo {
    open spec fn rid(&self) -> i64 {
        self.id
    }

    fn rid_eq(&self, id: i64) -> bool {
        self.id == id
    }
}

impl RowKey for Schedule {
    open spec fn rid(&self) -> i64 {
        self.id
    }

    fn rid_eq(&self, id: i64) -> bool {
        self.id == id
    }
}

impl RowKey for Todo {
    open spec fn rid(&self) -> i64 {
        self.id
    }

    fn rid_eq(&self, id: i64) -> bool {
        self.id == id
    }
}

impl RowKey for Transaction {
    open spec fn rid(&self) -> i64 {
        self.id
    }

    fn rid_eq(&self, id: i64) -> bool {
        self.id == id
    }
}

impl RowKey for Attachment {
    open spec fn rid(&self) -> i64 {
        self.id
    }

    fn rid_eq(&self, id: i64) -> bool {
        self.id == id
    }
}

impl RowKey for Dataset {
    open spec fn rid(&self) -> i64 {
        self.id
    }

    fn rid_eq(&self, id: i64) -> bool {
        self.id == id
    }
}

impl RowKey for SecretKey {
    open spec fn rid(&self) -> i64 {
        self.id
    }

    fn rid_eq(&self, id: i64) -> bool {
        self.id == id
    }
}

impl RowKey for DatasetRow {
    open spec fn rid(&self) -> i64 {
        self.id
    }

    fn rid_eq(&self, id: i64) -> bool {
        self.id == id
    }
}

impl RowKey for ApiUsage {
    open spec fn rid(&self) -> i64 {
        self.id
    }

    fn rid_eq(&self, id: i64) -> bool {
        self.id == id
    }
}

impl RowKey for Alarm {
    open spec fn rid(&self) -> i64 {
        self.id
    }

    fn rid_eq(&self, id: i64) -> bool {
        self.id == id
    }
}

impl Owned for Schedule {
    open spec fn owner(&self) -> Option<i64> {
        self.memo_id
    }

    fn owned_by(&self, id: i64) -> bool {
        match self.memo_id {
            Some(m) => m == id,
            None => false,
        }
    }

    fn is_linked(&self) -> bool {
        self.memo_id.is_some()
    }
}

impl Owned for Todo {
    open spec fn owner(&self) -> Option<i64> {
        self.memo_id
    }

    fn owned_by(&self, id: i64) -> bool {
        match self.memo_id {
            Some(m) => m == id,
            None => false,
        }
    }

    fn is_linked(&self) -> bool {
        self.memo_id.is_some()
    }
}

impl Owned for Transaction {
    open spec fn owner(&self) -> Option<i64> {
        self.memo_id
    }

    fn owned_by(&self, id: i64) -> bool {
        match self.memo_id {
            Some(m) => m == id,
            None => false,
        }
    }

    fn is_linked(&self) -> bool {
        self.memo_id.is_some()
    }
}

impl Owned for Attachment {
    open spec fn owner(&self) -> Option<i64> {
        Some(self.memo_id)
    }

    fn owned_by(&self, id: i64) -> bool {
        self.memo_id == id
    }

    fn is_linked(&self) -> bool {
        true
    }
}

impl Owned for DatasetRow {
    open spec fn owner(&self) -> Option<i64> {
        Some(self.dataset_id)
    }

    fn owned_by(&self, id: i64) -> bool {
        self.dataset_id == id
    }

    fn is_linked(&self) -> bool {
        true
    }
}

impl Linked for Schedule {
    open spec fn same_except_link(&self, other: &Self) -> bool {
        self.id == other.id && self.title == other.title && self.start_time == other.start_time
            && self.end_time == other.end_time && self.location == other.location
            && self.description == other.description && self.google_event_id
            == other.google_event_id && self.created_at == other.created_at
    }

    fn unlink(&mut self) {
        self.memo_id = None;
    }
}

impl Linked for Todo {
    open spec fn same_except_link(&self, other: &Self) -> bool {
        self.id == other.id && self.title == other.title && self.completed == other.completed
            && self.priority == other.priority && self.due_date == other.due_date
            && self.created_at == other.created_at
    }

    fn unlink(&mut self) {
        self.memo_id = None;
    }
}

impl Linked for Transaction {
    open spec fn same_except_link(&self, other: &Self) -> bool {
        self.id == other.id && self.tx_type == other.tx_type && self.amount == other.amount
            && self.description == other.description && self.category == other.category
            && self.tx_date == other.tx_date && self.created_at == other.created_at
    }

    fn unlink(&mut self) {
        self.memo_id = None;
    }
}

} // verus!
