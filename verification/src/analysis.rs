//! What the model's analysis of an input hands back, and how it is applied
//! to the store: each analysed item either merges into the existing memo it
//! names or becomes a new memo, and its extracted schedules, todos and
//! ledger entries are saved linked to that memo.

use vstd::prelude::*;

use crate::mask::{map_views, spec_unmask, unmask_text};
use crate::records::{Memo, Schedule, Todo, Transaction};
use crate::store::{clone_opt_string, same_beyond_memo_group, Store};
use crate::table::{lemma_find_row_first, spec_find_row, RowKey};
use crate::text::{concat3, join_strings, spec_join};

verus! {

/// A schedule the analysis extracted.
#[derive(Debug, Clone)]
pub struct ScheduleInfo {
    pub title: String,
    pub start_time: Option<String>,
    pub end_time: Option<String>,
    pub location: Option<String>,
    pub description: Option<String>,
}

/// A todo the analysis extracted.
#[derive(Debug, Clone)]
pub struct TodoInfo {
    pub title: String,
    pub priority: Option<String>,
    pub due_date: Option<String>,
}

/// A ledger entry the analysis extracted.
#[derive(Debug, Clone)]
pub struct TransactionInfo {
    pub tx_type: String,
    pub amount: i64,
    pub description: String,
    pub category: Option<String>,
    pub tx_date: Option<String>,
}

/// One analysed item: the memo the input becomes, the memo it should merge
/// into if any, and what was extracted from it.
#[derive(Debug)]
pub struct AnalysisResult {
    pub title: String,
    pub formatted_content: String,
    pub summary: String,
    pub category: String,
    pub tags: Vec<String>,
    pub should_merge_with: Option<i64>,
    pub schedules: Vec<ScheduleInfo>,
    pub todos: Vec<TodoInfo>,
    pub transactions: Vec<TransactionInfo>,
}

/// The items one reply splits an input into.
#[derive(Debug)]
pub struct MultiAnalysisResult {
    pub items: Vec<AnalysisResult>,
}

/// The tokens one call consumed and its exact cost in pico-dollars.
#[derive(Debug, Clone)]
pub struct TokenUsage {
    pub input_tokens: i64,
    pub output_tokens: i64,
    pub cost_pico_usd: u128,
}

/// What applying one analysed item did.
#[derive(Debug, Clone)]
pub struct AppliedItem {
    pub memo_id: i64,
    pub merged: bool,
    pub schedules_added: usize,
    pub todos_added: usize,
    pub transactions_added: usize,
}

/// The separator put between an existing memo's text and merged-in text.
pub open spec fn spec_merge_sep() -> Seq<char> {
    "\n\n---\n\n"@
}

/// The tag list of an item, joined as stored.
pub open spec fn spec_tags_str(tags: Seq<String>) -> Seq<char> {
    spec_join(tags.map_values(|s: String| s@), ", "@)
}

/// How a merge rewrites the target memo: raw and formatted content are
/// appended after a separator, the summary is replaced, and the new tags
/// are appended to non-empty existing tags.
pub open spec fn spec_merged_memo(
    o: Memo,
    m: Memo,
    content: Seq<char>,
    item_formatted: Seq<char>,
    item_summary: Seq<char>,
    item_tags: Seq<char>,
    now: Seq<char>,
) -> bool {
    &&& m.id == o.id
    &&& m.title == o.title
    &&& m.category == o.category
    &&& m.created_at == o.created_at
    &&& m.content@ == o.content@ + spec_merge_sep() + content
    &&& m.formatted_content@ == o.formatted_content@ + spec_merge_sep() + item_formatted
    &&& m.summary@ == item_summary
    &&& m.tags@ == if o.tags@.len() == 0 {
        item_tags
    } else {
        o.tags@ + ", "@ + item_tags
    }
    &&& m.embedding is None
    &&& m.updated_at@ == now
}

/// How an insert stores a new memo for an item: the raw input becomes the
/// content, and the item supplies the rest.
pub open spec fn spec_inserted_memo(
    m: Memo,
    id: i64,
    content: Seq<char>,
    item_title: String,
    item_formatted: String,
    item_summary: String,
    item_category: String,
    item_tags: Seq<char>,
    now: Seq<char>,
) -> bool {
    &&& m.id == id
    &&& m.title == item_title
    &&& m.content@ == content
    &&& m.formatted_content == item_formatted
    &&& m.summary == item_summary
    &&& m.category == item_category
    &&& m.tags@ == item_tags
    &&& m.embedding is None
    &&& m.created_at@ == now
    &&& m.updated_at@ == now
}

/// Applies one analysed item to the store. When the item names a memo that
/// exists, that one memo is rewritten by the merge rules and no memo is
/// inserted; otherwise exactly one new memo is inserted and no memo is
/// rewritten. Either way the item's schedules, todos and ledger entries are
/// saved linked to the touched memo.
pub fn apply_analysis(store: &mut Store, content: &str, item: AnalysisResult, now: &str) -> (r:
    AppliedItem)
    requires
        old(store).wf(),
        old(store).next_memo_id < i64::MAX,
        old(store).next_schedule_id + item.schedules@.len() < i64::MAX,
        old(store).next_todo_id + item.todos@.len() < i64::MAX,
        old(store).next_transaction_id + item.transactions@.len() < i64::MAX,
    ensures
        final(store).wf(),
        same_beyond_memo_group(old(store), final(store)),
        final(store).attachments == old(store).attachments,
        final(store).next_attachment_id == old(store).next_attachment_id,
        r.schedules_added == item.schedules@.len(),
        r.todos_added == item.todos@.len(),
        r.transactions_added == item.transactions@.len(),
        // the merge path: exactly one row update, zero inserts
        (match item.should_merge_with {
            Some(target) => spec_find_row(old(store).memos@, target, 0) is Some,
            None => false,
        }) ==> {
            &&& r.merged
            &&& r.memo_id == item.should_merge_with.unwrap()
            &&& final(store).memos@.len() == old(store).memos@.len()
            &&& final(store).next_memo_id == old(store).next_memo_id
            &&& ({
                let i = spec_find_row(old(store).memos@, item.should_merge_with.unwrap(), 0).unwrap();
                &&& forall|j: int|
                    0 <= j < old(store).memos@.len() && j != i ==> final(store).memos@[j] == old(store).memos@[j]
                &&& spec_merged_memo(
                    old(store).memos@[i],
                    final(store).memos@[i],
                    content@,
                    item.formatted_content@,
                    item.summary@,
                    spec_tags_str(item.tags@),
                    now@,
                )
            })
        },
        // the insert path: exactly one new row, zero updates
        !(match item.should_merge_with {
            Some(target) => spec_find_row(old(store).memos@, target, 0) is Some,
            None => false,
        }) ==> {
            &&& !r.merged
            &&& r.memo_id == old(store).next_memo_id
            &&& final(store).memos@.len() == old(store).memos@.len() + 1
            &&& final(store).next_memo_id == old(store).next_memo_id + 1
            &&& forall|j: int|
                0 <= j < old(store).memos@.len() ==> final(store).memos@[j] == old(store).memos@[j]
            &&& spec_inserted_memo(
                final(store).memos@.last(),
                r.memo_id,
                content@,
                item.title,
                item.formatted_content,
                item.summary,
                item.category,
                spec_tags_str(item.tags@),
                now@,
            )
        },
        // the extracted rows, linked to the touched memo
        final(store).schedules@.len() == old(store).schedules@.len() + item.schedules@.len(),
        forall|j: int|
            0 <= j < old(store).schedules@.len() ==> final(store).schedules@[j] == old(store).schedules@[j],
        forall|k: int|
            0 <= k < item.schedules@.len() ==> ({
                let s = #[trigger] final(store).schedules@[old(store).schedules@.len() + k];
                s.memo_id == Some(r.memo_id) && s.title == item.schedules@[k].title && s.start_time
                    == item.schedules@[k].start_time && s.end_time == item.schedules@[k].end_time
                    && s.location == item.schedules@[k].location && s.description
                    == item.schedules@[k].description && s.google_event_id is None
            }),
        final(store).todos@.len() == old(store).todos@.len() + item.todos@.len(),
        forall|j: int|
            0 <= j < old(store).todos@.len() ==> final(store).todos@[j] == old(store).todos@[j],
        forall|k: int|
            0 <= k < item.todos@.len() ==> ({
                let t = #[trigger] final(store).todos@[old(store).todos@.len() + k];
                t.memo_id == Some(r.memo_id) && t.title == item.todos@[k].title && !t.completed
                    && t.priority == item.todos@[k].priority && t.due_date
                    == item.todos@[k].due_date
            }),
        final(store).transactions@.len() == old(store).transactions@.len()
            + item.transactions@.len(),
        forall|j: int|
            0 <= j < old(store).transactions@.len() ==> final(store).transactions@[j] == old(store).transactions@[j],
        forall|k: int|
            0 <= k < item.transactions@.len() ==> ({
                let t = #[trigger] final(store).transactions@[old(store).transactions@.len() + k];
                t.memo_id == Some(r.memo_id) && t.tx_type == item.transactions@[k].tx_type
                    && t.amount == item.transactions@[k].amount && t.description
                    == item.transactions@[k].description && t.category
                    == item.transactions@[k].category && t.tx_date == item.transactions@[k].tx_date
            }),
{
    let tags_str = join_strings(&item.tags, ", ");
    let mut merged = false;
    let mut memo_id: i64 = 0;
    let merge_target: Option<usize> = match item.should_merge_with {
        None => None,
        Some(target) => crate::table::find_row(&store.memos, target),
    };
    match merge_target {
        Some(i) => {
            let target = match item.should_merge_with {
                Some(t) => t,
                None => 0,  // unreachable: a found row implies a named target
            };
            proof {
                lemma_find_row_first(store.memos@, target, 0, i as int);
            }
            let existing = &store.memos[i];
            let merged_content = concat3(existing.content.as_str(), "\n\n---\n\n", content);
            let merged_formatted = concat3(
                existing.formatted_content.as_str(),
                "\n\n---\n\n",
                item.formatted_content.as_str(),
            );
            let merged_tags = if existing.tags.as_str().is_empty() {
                tags_str.clone()
            } else {
                concat3(existing.tags.as_str(), ", ", tags_str.as_str())
            };
            store.update_memo(
                target,
                merged_content.as_str(),
                merged_formatted.as_str(),
                item.summary.as_str(),
                merged_tags.as_str(),
                None,
                now,
            );
            merged = true;
            memo_id = target;
        },
        None => {
            let new_memo = Memo {
                id: 0,
                title: item.title,
                content: content.to_owned(),
                formatted_content: item.formatted_content,
                summary: item.summary,
                category: item.category,
                tags: tags_str,
                embedding: None,
                created_at: String::new(),
                updated_at: String::new(),
            };
            memo_id = store.save_memo(new_memo, now);
        },
    }
    let schedules_added = save_schedules(store, memo_id, item.schedules, now);
    let todos_added = save_todos(store, memo_id, item.todos, now);
    let transactions_added = save_transactions(store, memo_id, item.transactions, now);
    AppliedItem { memo_id, merged, schedules_added, todos_added, transactions_added }
}

fn save_schedules(store: &mut Store, memo_id: i64, infos: Vec<ScheduleInfo>, now: &str) -> (count:
    usize)
    requires
        old(store).wf(),
        old(store).next_schedule_id + infos@.len() < i64::MAX,
    ensures
        final(store).wf(),
        count == infos@.len(),
        final(store).schedules@.len() == old(store).schedules@.len() + infos@.len(),
        forall|j: int|
            0 <= j < old(store).schedules@.len() ==> final(store).schedules@[j] == old(store).schedules@[j],
        forall|k: int|
            0 <= k < infos@.len() ==> ({
                let s = #[trigger] final(store).schedules@[old(store).schedules@.len() + k];
                s.memo_id == Some(memo_id) && s.title == infos@[k].title && s.start_time
                    == infos@[k].start_time && s.end_time == infos@[k].end_time && s.location
                    == infos@[k].location && s.description == infos@[k].description
                    && s.google_event_id is None
            }),
        final(store).next_schedule_id == old(store).next_schedule_id + infos@.len(),
        crate::store::same_memos(old(store), final(store)),
        crate::store::same_todos(old(store), final(store)),
        crate::store::same_transactions(old(store), final(store)),
        crate::store::same_attachments(old(store), final(store)),
        same_beyond_memo_group(old(store), final(store)),
{
    let ghost orig = infos@;
    let ghost pre = store.schedules@;
    let ghost pre_next = store.next_schedule_id;
    let total = infos.len();
    let mut infos = infos;
    let mut k: usize = 0;
    proof {
        assert(orig.subrange(0, orig.len() as int) =~= orig);
    }
    while infos.len() > 0
        invariant
            store.wf(),
            k + infos@.len() == total,
            total == orig.len(),
            infos@ =~= orig.subrange(k as int, orig.len() as int),
            pre == old(store).schedules@,
            pre_next == old(store).next_schedule_id,
            pre_next + total < i64::MAX,
            store.schedules@.len() == pre.len() + k,
            store.next_schedule_id == pre_next + k,
            forall|j: int| 0 <= j < pre.len() ==> store.schedules@[j] == pre[j],
            forall|m: int|
                0 <= m < k ==> ({
                    let s = #[trigger] store.schedules@[pre.len() + m];
                    s.memo_id == Some(memo_id) && s.title == orig[m].title && s.start_time
                        == orig[m].start_time && s.end_time == orig[m].end_time && s.location
                        == orig[m].location && s.description == orig[m].description
                        && s.google_event_id is None
                }),
            crate::store::same_memos(old(store), store),
            crate::store::same_todos(old(store), store),
            crate::store::same_transactions(old(store), store),
            crate::store::same_attachments(old(store), store),
            same_beyond_memo_group(old(store), store),
        decreases infos@.len(),
    {
        let info = infos.remove(0);
        proof {
            assert(info == orig[k as int]);
        }
        store.save_schedule(
            Schedule {
                id: 0,
                memo_id: Some(memo_id),
                title: info.title,
                start_time: info.start_time,
                end_time: info.end_time,
                location: info.location,
                description: info.description,
                google_event_id: None,
                created_at: String::new(),
            },
            now,
        );
        k += 1;
        proof {
            assert(infos@ =~= orig.subrange(k as int, orig.len() as int));
        }
    }
    total
}

fn save_todos(store: &mut Store, memo_id: i64, infos: Vec<TodoInfo>, now: &str) -> (count: usize)
    requires
        old(store).wf(),
        old(store).next_todo_id + infos@.len() < i64::MAX,
    ensures
        final(store).wf(),
        count == infos@.len(),
        final(store).todos@.len() == old(store).todos@.len() + infos@.len(),
        forall|j: int|
            0 <= j < old(store).todos@.len() ==> final(store).todos@[j] == old(store).todos@[j],
        forall|k: int|
            0 <= k < infos@.len() ==> ({
                let t = #[trigger] final(store).todos@[old(store).todos@.len() + k];
                t.memo_id == Some(memo_id) && t.title == infos@[k].title && !t.completed
                    && t.priority == infos@[k].priority && t.due_date == infos@[k].due_date
            }),
        final(store).next_todo_id == old(store).next_todo_id + infos@.len(),
        crate::store::same_memos(old(store), final(store)),
        crate::store::same_schedules(old(store), final(store)),
        crate::store::same_transactions(old(store), final(store)),
        crate::store::same_attachments(old(store), final(store)),
        same_beyond_memo_group(old(store), final(store)),
{
    let ghost orig = infos@;
    let ghost pre = store.todos@;
    let ghost pre_next = store.next_todo_id;
    let total = infos.len();
    let mut infos = infos;
    let mut k: usize = 0;
    proof {
        assert(orig.subrange(0, orig.len() as int) =~= orig);
    }
    while infos.len() > 0
        invariant
            store.wf(),
            k + infos@.len() == total,
            total == orig.len(),
            infos@ =~= orig.subrange(k as int, orig.len() as int),
            pre == old(store).todos@,
            pre_next == old(store).next_todo_id,
            pre_next + total < i64::MAX,
            store.todos@.len() == pre.len() + k,
            store.next_todo_id == pre_next + k,
            forall|j: int| 0 <= j < pre.len() ==> store.todos@[j] == pre[j],
            forall|m: int|
                0 <= m < k ==> ({
                    let t = #[trigger] store.todos@[pre.len() + m];
                    t.memo_id == Some(memo_id) && t.title == orig[m].title && !t.completed
                        && t.priority == orig[m].priority && t.due_date == orig[m].due_date
                }),
            crate::store::same_memos(old(store), store),
            crate::store::same_schedules(old(store), store),
            crate::store::same_transactions(old(store), store),
            crate::store::same_attachments(old(store), store),
            same_beyond_memo_group(old(store), store),
        decreases infos@.len(),
    {
        let info = infos.remove(0);
        proof {
            assert(info == orig[k as int]);
        }
        store.save_todo(
            Todo {
                id: 0,
                memo_id: Some(memo_id),
                title: info.title,
                completed: false,
                priority: info.priority,
                due_date: info.due_date,
                created_at: String::new(),
            },
            now,
        );
        k += 1;
        proof {
            assert(infos@ =~= orig.subrange(k as int, orig.len() as int));
        }
    }
    total
}

fn save_transactions(store: &mut Store, memo_id: i64, infos: Vec<TransactionInfo>, now: &str) -> (count:
    usize)
    requires
        old(store).wf(),
        old(store).next_transaction_id + infos@.len() < i64::MAX,
    ensures
        final(store).wf(),
        count == infos@.len(),
        final(store).transactions@.len() == old(store).transactions@.len() + infos@.len(),
        forall|j: int|
            0 <= j < old(store).transactions@.len() ==> final(store).transactions@[j] == old(store).transactions@[j],
        forall|k: int|
            0 <= k < infos@.len() ==> ({
                let t = #[trigger] final(store).transactions@[old(store).transactions@.len() + k];
                t.memo_id == Some(memo_id) && t.tx_type == infos@[k].tx_type && t.amount
                    == infos@[k].amount && t.description == infos@[k].description && t.category
                    == infos@[k].category && t.tx_date == infos@[k].tx_date
            }),
        final(store).next_transaction_id == old(store).next_transaction_id + infos@.len(),
        crate::store::same_memos(old(store), final(store)),
        crate::store::same_schedules(old(store), final(store)),
        crate::store::same_todos(old(store), final(store)),
        crate::store::same_attachments(old(store), final(store)),
        same_beyond_memo_group(old(store), final(store)),
{
    let ghost orig = infos@;
    let ghost pre = store.transactions@;
    let ghost pre_next = store.next_transaction_id;
    let total = infos.len();
    let mut infos = infos;
    let mut k: usize = 0;
    proof {
        assert(orig.subrange(0, orig.len() as int) =~= orig);
    }
    while infos.len() > 0
        invariant
            store.wf(),
            k + infos@.len() == total,
            total == orig.len(),
            infos@ =~= orig.subrange(k as int, orig.len() as int),
            pre == old(store).transactions@,
            pre_next == old(store).next_transaction_id,
            pre_next + total < i64::MAX,
            store.transactions@.len() == pre.len() + k,
            store.next_transaction_id == pre_next + k,
            forall|j: int| 0 <= j < pre.len() ==> store.transactions@[j] == pre[j],
            forall|m: int|
                0 <= m < k ==> ({
                    let t = #[trigger] store.transactions@[pre.len() + m];
                    t.memo_id == Some(memo_id) && t.tx_type == orig[m].tx_type && t.amount
                        == orig[m].amount && t.description == orig[m].description && t.category
                        == orig[m].category && t.tx_date == orig[m].tx_date
                }),
            crate::store::same_memos(old(store), store),
            crate::store::same_schedules(old(store), store),
            crate::store::same_todos(old(store), store),
            crate::store::same_attachments(old(store), store),
            same_beyond_memo_group(old(store), store),
        decreases infos@.len(),
    {
        let info = infos.remove(0);
        proof {
            assert(info == orig[k as int]);
        }
        store.save_transaction(
            Transaction {
                id: 0,
                memo_id: Some(memo_id),
                tx_type: info.tx_type,
                amount: info.amount,
                description: info.description,
                category: info.category,
                tx_date: info.tx_date,
                created_at: String::new(),
            },
            now,
        );
        k += 1;
        proof {
            assert(infos@ =~= orig.subrange(k as int, orig.len() as int));
        }
    }
    total
}


/// Re-applies a fresh analysis to an existing memo, as re-analysing does:
/// the memo's previously extracted schedules, todos and ledger entries are
/// deleted, the memo's body and head are rewritten from the item, and the
/// item's extractions are saved linked to it. A missing memo still sheds
/// its old linked rows and gains the new ones, and no memo is inserted.
pub fn reapply_analysis(
    store: &mut Store,
    id: i64,
    new_content: &str,
    item: AnalysisResult,
    now: &str,
) -> (r: AppliedItem)
    requires
        old(store).wf(),
        old(store).next_schedule_id + item.schedules@.len() < i64::MAX,
        old(store).next_todo_id + item.todos@.len() < i64::MAX,
        old(store).next_transaction_id + item.transactions@.len() < i64::MAX,
    ensures
        final(store).wf(),
        same_beyond_memo_group(old(store), final(store)),
        final(store).attachments == old(store).attachments,
        r.memo_id == id,
        !r.merged,
        r.schedules_added == item.schedules@.len(),
        r.todos_added == item.todos@.len(),
        r.transactions_added == item.transactions@.len(),
        // no insert, and the named memo rewritten from the item
        final(store).memos@.len() == old(store).memos@.len(),
        final(store).next_memo_id == old(store).next_memo_id,
        match spec_find_row(old(store).memos@, id, 0) {
            None => final(store).memos@ == old(store).memos@,
            Some(i) => {
                &&& forall|j: int|
                    0 <= j < old(store).memos@.len() && j != i ==> final(store).memos@[j] == old(store).memos@[j]
                &&& ({
                    let m = final(store).memos@[i];
                    let o = old(store).memos@[i];
                    m.id == o.id && m.created_at == o.created_at && m.content@ == new_content@
                        && m.title@ == item.title@ && m.formatted_content@
                        == item.formatted_content@ && m.summary@ == item.summary@ && m.category@
                        == item.category@ && m.tags@ == spec_tags_str(item.tags@) && m.updated_at@
                        == now@
                })
            },
        },
        // the old linked rows went, the new ones came, linked to the memo
        final(store).schedules@.len() == crate::table::spec_disown(old(store).schedules@, id).len()
            + item.schedules@.len(),
        forall|j: int|
            0 <= j < crate::table::spec_disown(old(store).schedules@, id).len() ==> final(store).schedules@[j] == crate::table::spec_disown(old(store).schedules@, id)[j],
        forall|k: int|
            0 <= k < item.schedules@.len() ==> ({
                let s = #[trigger] final(store).schedules@[crate::table::spec_disown(
                    old(store).schedules@,
                    id,
                ).len() + k];
                s.memo_id == Some(id) && s.title == item.schedules@[k].title
            }),
        final(store).todos@.len() == crate::table::spec_disown(old(store).todos@, id).len()
            + item.todos@.len(),
        forall|k: int|
            0 <= k < item.todos@.len() ==> ({
                let t = #[trigger] final(store).todos@[crate::table::spec_disown(
                    old(store).todos@,
                    id,
                ).len() + k];
                t.memo_id == Some(id) && t.title == item.todos@[k].title && !t.completed
            }),
        final(store).transactions@.len() == crate::table::spec_disown(
            old(store).transactions@,
            id,
        ).len() + item.transactions@.len(),
        forall|k: int|
            0 <= k < item.transactions@.len() ==> ({
                let t = #[trigger] final(store).transactions@[crate::table::spec_disown(
                    old(store).transactions@,
                    id,
                ).len() + k];
                t.memo_id == Some(id) && t.amount == item.transactions@[k].amount
            }),
{
    store.delete_schedules_by_memo_id(id);
    store.delete_todos_by_memo_id(id);
    store.delete_transactions_by_memo_id(id);

    let tags_str = join_strings(&item.tags, ", ");
    let ghost memos_before = store.memos@;
    store.update_memo(
        id,
        new_content,
        item.formatted_content.as_str(),
        item.summary.as_str(),
        tags_str.as_str(),
        None,
        now,
    );
    proof {
        assert forall|j: int| 0 <= j < memos_before.len() implies (
        #[trigger] store.memos@[j]).rid() == (#[trigger] memos_before[j]).rid() by {
            match spec_find_row(memos_before, id, 0) {
                None => {},
                Some(i) => {
                    if j != i {
                    }
                },
            }
        }
        crate::table::lemma_find_row_same_ids(store.memos@, memos_before, id, 0);
    }
    store.update_memo_full(
        id,
        item.title.as_str(),
        item.formatted_content.as_str(),
        item.category.as_str(),
        tags_str.as_str(),
        Some(new_content),
        now,
    );
    let schedules_added = save_schedules(store, id, item.schedules, now);
    let todos_added = save_todos(store, id, item.todos, now);
    let transactions_added = save_transactions(store, id, item.transactions, now);
    AppliedItem { memo_id: id, merged: false, schedules_added, todos_added, transactions_added }
}

/// Restores the masked values in one analysed item, field by field: titles,
/// formatted content, summary and tags, schedule titles, locations and
/// descriptions, todo titles, and transaction descriptions and categories.
pub fn restore_analysis(item: AnalysisResult, mappings: &[(String, String)]) -> (r: AnalysisResult)
    ensures
        r.title@ == spec_unmask(item.title@, map_views(mappings@)),
        r.formatted_content@ == spec_unmask(item.formatted_content@, map_views(mappings@)),
        r.summary@ == spec_unmask(item.summary@, map_views(mappings@)),
        r.category == item.category,
        r.should_merge_with == item.should_merge_with,
        r.tags@.len() == item.tags@.len(),
        forall|k: int|
            0 <= k < item.tags@.len() ==> (#[trigger] r.tags@[k])@ == spec_unmask(
                item.tags@[k]@,
                map_views(mappings@),
            ),
        r.schedules@.len() == item.schedules@.len(),
        forall|k: int|
            0 <= k < item.schedules@.len() ==> ({
                let s = #[trigger] r.schedules@[k];
                let o = item.schedules@[k];
                s.title@ == spec_unmask(o.title@, map_views(mappings@)) && s.start_time
                    == o.start_time && s.end_time == o.end_time && (match (o.location, s.location) {
                    (None, None) => true,
                    (Some(ol), Some(sl)) => sl@ == spec_unmask(ol@, map_views(mappings@)),
                    _ => false,
                }) && (match (o.description, s.description) {
                    (None, None) => true,
                    (Some(od), Some(sd)) => sd@ == spec_unmask(od@, map_views(mappings@)),
                    _ => false,
                })
            }),
        r.todos@.len() == item.todos@.len(),
        forall|k: int|
            0 <= k < item.todos@.len() ==> ({
                let t = #[trigger] r.todos@[k];
                let o = item.todos@[k];
                t.title@ == spec_unmask(o.title@, map_views(mappings@)) && t.priority == o.priority
                    && t.due_date == o.due_date
            }),
        r.transactions@.len() == item.transactions@.len(),
        forall|k: int|
            0 <= k < item.transactions@.len() ==> ({
                let t = #[trigger] r.transactions@[k];
                let o = item.transactions@[k];
                t.description@ == spec_unmask(o.description@, map_views(mappings@)) && t.tx_type
                    == o.tx_type && t.amount == o.amount && t.tx_date == o.tx_date && (match (
                    o.category,
                    t.category,
                ) {
                    (None, None) => true,
                    (Some(oc), Some(tc)) => tc@ == spec_unmask(oc@, map_views(mappings@)),
                    _ => false,
                })
            }),
{
    let title = unmask_text(item.title.as_str(), mappings);
    let formatted_content = unmask_text(item.formatted_content.as_str(), mappings);
    let summary = unmask_text(item.summary.as_str(), mappings);
    let mut tags: Vec<String> = Vec::new();
    let mut i: usize = 0;
    while i < item.tags.len()
        invariant
            i <= item.tags@.len(),
            tags@.len() == i,
            forall|k: int|
                0 <= k < i ==> (#[trigger] tags@[k])@ == spec_unmask(
                    item.tags@[k]@,
                    map_views(mappings@),
                ),
        decreases item.tags@.len() - i,
    {
        tags.push(unmask_text(item.tags[i].as_str(), mappings));
        i += 1;
    }
    let mut schedules: Vec<ScheduleInfo> = Vec::new();
    let mut i: usize = 0;
    while i < item.schedules.len()
        invariant
            i <= item.schedules@.len(),
            schedules@.len() == i,
            forall|k: int|
                0 <= k < i ==> ({
                    let s = #[trigger] schedules@[k];
                    let o = item.schedules@[k];
                    s.title@ == spec_unmask(o.title@, map_views(mappings@)) && s.start_time
                        == o.start_time && s.end_time == o.end_time && (match (
                        o.location,
                        s.location,
                    ) {
                        (None, None) => true,
                        (Some(ol), Some(sl)) => sl@ == spec_unmask(ol@, map_views(mappings@)),
                        _ => false,
                    }) && (match (o.description, s.description) {
                        (None, None) => true,
                        (Some(od), Some(sd)) => sd@ == spec_unmask(od@, map_views(mappings@)),
                        _ => false,
                    })
                }),
        decreases item.schedules@.len() - i,
    {
        let o = &item.schedules[i];
        schedules.push(
            ScheduleInfo {
                title: unmask_text(o.title.as_str(), mappings),
                start_time: clone_opt_string(&o.start_time),
                end_time: clone_opt_string(&o.end_time),
                location: match &o.location {
                    None => None,
                    Some(l) => Some(unmask_text(l.as_str(), mappings)),
                },
                description: match &o.description {
                    None => None,
                    Some(d) => Some(unmask_text(d.as_str(), mappings)),
                },
            },
        );
        i += 1;
    }
    let mut todos: Vec<TodoInfo> = Vec::new();
    let mut i: usize = 0;
    while i < item.todos.len()
        invariant
            i <= item.todos@.len(),
            todos@.len() == i,
            forall|k: int|
                0 <= k < i ==> ({
                    let t = #[trigger] todos@[k];
                    let o = item.todos@[k];
                    t.title@ == spec_unmask(o.title@, map_views(mappings@)) && t.priority
                        == o.priority && t.due_date == o.due_date
                }),
        decreases item.todos@.len() - i,
    {
        let o = &item.todos[i];
        todos.push(
            TodoInfo {
                title: unmask_text(o.title.as_str(), mappings),
                priority: clone_opt_string(&o.priority),
                due_date: clone_opt_string(&o.due_date),
            },
        );
        i += 1;
    }
    let mut transactions: Vec<TransactionInfo> = Vec::new();
    let mut i: usize = 0;
    while i < item.transactions.len()
        invariant
            i <= item.transactions@.len(),
            transactions@.len() == i,
            forall|k: int|
                0 <= k < i ==> ({
                    let t = #[trigger] transactions@[k];
                    let o = item.transactions@[k];
                    t.description@ == spec_unmask(o.description@, map_views(mappings@)) && t.tx_type
                        == o.tx_type && t.amount == o.amount && t.tx_date == o.tx_date && (match (
                        o.category,
                        t.category,
                    ) {
                        (None, None) => true,
                        (Some(oc), Some(tc)) => tc@ == spec_unmask(oc@, map_views(mappings@)),
                        _ => false,
                    })
                }),
        decreases item.transactions@.len() - i,
    {
        let o = &item.transactions[i];
        transactions.push(
            TransactionInfo {
                tx_type: o.tx_type.clone(),
                amount: o.amount,
                description: unmask_text(o.description.as_str(), mappings),
                category: match &o.category {
                    None => None,
                    Some(c) => Some(unmask_text(c.as_str(), mappings)),
                },
                tx_date: clone_opt_string(&o.tx_date),
            },
        );
        i += 1;
    }
    AnalysisResult {
        title,
        formatted_content,
        summary,
        category: item.category,
        tags,
        should_merge_with: item.should_merge_with,
        schedules,
        todos,
        transactions,
    }
}

} // verus!
