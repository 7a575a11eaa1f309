use jolajoamemo::records::{Attachment, Memo, Schedule, Todo, Transaction};
use jolajoamemo::store::Store;

const NOW: &str = "2026-01-02 10:00:00";

fn memo(title: &str, content: &str, category: &str) -> Memo {
    Memo {
        id: 0,
        title: title.to_string(),
        content: content.to_string(),
        formatted_content: content.to_string(),
        summary: String::new(),
        category: category.to_string(),
        tags: String::new(),
        embedding: None,
        created_at: String::new(),
        updated_at: String::new(),
    }
}

fn schedule_linked(memo_id: Option<i64>) -> Schedule {
    Schedule {
        id: 0,
        memo_id,
        title: "meet".to_string(),
        start_time: Some("2026-01-03T10:00".to_string()),
        end_time: None,
        location: None,
        description: None,
        google_event_id: None,
        created_at: String::new(),
    }
}

fn todo_linked(memo_id: Option<i64>) -> Todo {
    Todo {
        id: 0,
        memo_id,
        title: "do it".to_string(),
        completed: false,
        priority: Some("high".to_string()),
        due_date: None,
        created_at: String::new(),
    }
}

fn tx_linked(memo_id: Option<i64>) -> Transaction {
    Transaction {
        id: 0,
        memo_id,
        tx_type: "expense".to_string(),
        amount: 5000,
        description: "coffee".to_string(),
        category: Some("food".to_string()),
        tx_date: None,
        created_at: String::new(),
    }
}

fn attachment_of(memo_id: i64) -> Attachment {
    Attachment {
        id: 0,
        memo_id,
        file_name: "a.txt".to_string(),
        file_path: "/tmp/a.txt".to_string(),
        original_path: "/tmp/a.txt".to_string(),
        is_copy: false,
        file_size: 10,
        created_at: String::new(),
    }
}

#[test]
fn keys_are_handed_out_in_order() {
    let mut store = Store::new();
    assert_eq!(store.save_memo(memo("a", "x", ""), NOW), 1);
    assert_eq!(store.save_memo(memo("b", "y", ""), NOW), 2);
    assert_eq!(store.get_memo_count(), 2);
    assert_eq!(store.get_all_memos()[0].title, "a");
    assert_eq!(store.get_all_memos()[0].created_at, NOW);
}

#[test]
fn deleting_a_memo_unlinks_but_keeps_its_rows() {
    let mut store = Store::new();
    let m1 = store.save_memo(memo("kept", "k", ""), NOW);
    let m2 = store.save_memo(memo("doomed", "d", ""), NOW);
    store.save_schedule(schedule_linked(Some(m2)), NOW);
    store.save_schedule(schedule_linked(Some(m1)), NOW);
    store.save_todo(todo_linked(Some(m2)), NOW);
    store.save_transaction(tx_linked(Some(m2)), NOW);
    store.save_attachment(attachment_of(m2), NOW);
    store.save_attachment(attachment_of(m1), NOW);

    store.delete_memo(m2);

    // the memo went, the linked rows stayed with their link set to null
    assert_eq!(store.get_memo_count(), 1);
    let schedules = store.get_all_schedules();
    assert_eq!(schedules.len(), 2);
    assert_eq!(schedules[0].memo_id, None);
    assert_eq!(schedules[0].title, "meet");
    assert_eq!(schedules[1].memo_id, Some(m1));
    let todos = store.get_all_todos();
    assert_eq!(todos.len(), 1);
    assert_eq!(todos[0].memo_id, None);
    let txs = store.get_all_transactions();
    assert_eq!(txs.len(), 1);
    assert_eq!(txs[0].memo_id, None);
    // attachments cascade away with their memo
    let atts = store.get_all_attachments();
    assert_eq!(atts.len(), 1);
    assert_eq!(atts[0].memo_id, m1);
}

#[test]
fn update_memo_rewrites_only_the_named_row() {
    let mut store = Store::new();
    let m1 = store.save_memo(memo("one", "body one", ""), NOW);
    let m2 = store.save_memo(memo("two", "body two", ""), NOW);
    store.update_memo(m2, "new body", "new fmt", "sum", "t1, t2", None, "2026-01-03 09:00:00");
    let memos = store.get_all_memos();
    assert_eq!(memos[0].content, "body one");
    assert_eq!(memos[1].content, "new body");
    assert_eq!(memos[1].summary, "sum");
    assert_eq!(memos[1].tags, "t1, t2");
    assert_eq!(memos[1].title, "two");
    assert_eq!(memos[1].updated_at, "2026-01-03 09:00:00");
    let _ = m1;
}

#[test]
fn search_is_case_insensitive_over_the_text_fields() {
    let mut store = Store::new();
    store.save_memo(memo("Hello World", "nothing", ""), NOW);
    store.save_memo(memo("other", "the WORLD is big", ""), NOW);
    store.save_memo(memo("misses", "nope", ""), NOW);
    let hits = store.search_memos("world");
    assert_eq!(hits, vec![0, 1]);
    assert!(store.search_memos("absent").is_empty());
}

#[test]
fn the_question_context_pairs_titles_with_formatted_content() {
    let mut store = Store::new();
    store.save_memo(memo("t1", "c1", ""), NOW);
    store.save_memo(memo("t2", "c2", ""), NOW);
    let ctx = store.memo_context();
    assert_eq!(ctx.len(), 2);
    assert_eq!(ctx[0], ("t1".to_string(), "c1".to_string()));
    assert_eq!(ctx[1], ("t2".to_string(), "c2".to_string()));
}

#[test]
fn settings_replace_under_one_key() {
    let mut store = Store::new();
    store.save_setting("gemini_api_key", "k1");
    store.save_setting("language", "ko");
    store.save_setting("gemini_api_key", "k2");
    assert_eq!(store.get_setting("gemini_api_key"), "k2");
    assert_eq!(store.get_setting("language"), "ko");
    assert_eq!(store.get_setting("missing"), "");
}

#[test]
fn categories_are_distinct_and_renameable() {
    let mut store = Store::new();
    store.save_memo(memo("a", "", "work"), NOW);
    store.save_memo(memo("b", "", "play"), NOW);
    store.save_memo(memo("c", "", "work"), NOW);
    store.save_memo(memo("d", "", ""), NOW);
    assert_eq!(store.get_all_categories(), vec!["work".to_string(), "play".to_string()]);
    assert_eq!(store.rename_category("work", "job"), 2);
    assert_eq!(store.get_all_memos()[0].category, "job");
    assert_eq!(store.delete_category("job"), 2);
    assert_eq!(store.get_all_categories(), vec!["play".to_string()]);
}

#[test]
fn pagination_walks_the_table_in_order() {
    let mut store = Store::new();
    for i in 0..5 {
        store.save_memo(memo(&format!("m{}", i), "", ""), NOW);
    }
    assert_eq!(store.get_memos_paginated(1, 2), vec![1, 2]);
    assert_eq!(store.get_memos_paginated(4, 10), vec![4]);
    assert!(store.get_memos_paginated(9, 3).is_empty());
}

#[test]
fn delete_all_memos_clears_links_and_attachments() {
    let mut store = Store::new();
    let m = store.save_memo(memo("a", "", ""), NOW);
    store.save_schedule(schedule_linked(Some(m)), NOW);
    store.save_attachment(attachment_of(m), NOW);
    assert_eq!(store.delete_all_memos(), 1);
    assert_eq!(store.get_memo_count(), 0);
    assert_eq!(store.get_all_schedules()[0].memo_id, None);
    assert!(store.get_all_attachments().is_empty());
}

#[test]
fn todos_toggle_and_link_lookups_work() {
    let mut store = Store::new();
    let m = store.save_memo(memo("a", "", ""), NOW);
    let t = store.save_todo(todo_linked(Some(m)), NOW);
    assert_eq!(store.get_todo_memo_id(t), Some(m));
    store.toggle_todo(t);
    assert!(store.get_all_todos()[0].completed);
    store.toggle_todo(t);
    assert!(!store.get_all_todos()[0].completed);
    store.delete_todo(t);
    assert!(store.get_all_todos().is_empty());
    assert_eq!(store.get_todo_memo_id(t), None);
}

#[test]
fn bulk_deletion_by_memo_reports_counts() {
    let mut store = Store::new();
    let m = store.save_memo(memo("a", "", ""), NOW);
    store.save_schedule(schedule_linked(Some(m)), NOW);
    store.save_schedule(schedule_linked(None), NOW);
    store.save_schedule(schedule_linked(Some(m)), NOW);
    assert_eq!(store.delete_schedules_by_memo_id(m), 2);
    assert_eq!(store.get_all_schedules().len(), 1);
    assert_eq!(store.delete_todos_by_memo_id(m), 0);
    assert_eq!(store.delete_transactions_by_memo_id(m), 0);
}

#[test]
fn attachments_search_and_cascade_retrieval() {
    let mut store = Store::new();
    let m = store.save_memo(memo("a", "", ""), NOW);
    let mut a1 = attachment_of(m);
    a1.file_name = "Report.PDF".to_string();
    let mut a2 = attachment_of(m);
    a2.file_name = "notes.txt".to_string();
    store.save_attachment(a1, NOW);
    store.save_attachment(a2, NOW);
    assert_eq!(store.search_attachments("report"), vec![0]);
    let taken = store.get_and_delete_attachments_by_memo(m);
    assert_eq!(taken.len(), 2);
    assert!(store.get_all_attachments().is_empty());
}

#[test]
fn transactions_update_in_place() {
    let mut store = Store::new();
    let t = store.save_transaction(tx_linked(None), NOW);
    store.update_transaction(t, "income", 100000, "salary", None, Some("2026-02-01"));
    let txs = store.get_all_transactions();
    assert_eq!(txs[0].tx_type, "income");
    assert_eq!(txs[0].amount, 100000);
    assert_eq!(txs[0].description, "salary");
    assert_eq!(txs[0].category, None);
    assert_eq!(txs[0].tx_date, Some("2026-02-01".to_string()));
}

#[test]
fn usage_totals_cover_exactly_one_day() {
    let mut store = Store::new();
    store.log_api_usage("analyze", "m", 100, 200, 900_000_000, "2026-01-02 10:00:00");
    store.log_api_usage("search", "m", 10, 20, 1_000, "2026-01-02 23:59:59");
    store.log_api_usage("analyze", "m", 999, 999, 999, "2026-01-03 00:00:01");
    let (inp, out, cost) = store.get_today_usage("2026-01-02");
    assert_eq!(inp, 110);
    assert_eq!(out, 220);
    assert_eq!(cost, 900_001_000);
}

#[test]
fn postits_replace_under_their_text_id() {
    let mut store = Store::new();
    let p = jolajoamemo::records::Postit {
        id: "p1".to_string(),
        content: "hi".to_string(),
        color: "yellow".to_string(),
        position_x: 1,
        position_y: 2,
        width: 220,
        height: 200,
        created_at: String::new(),
        updated_at: String::new(),
    };
    store.save_postit(p.clone(), NOW);
    let mut p2 = p.clone();
    p2.content = "replaced".to_string();
    store.save_postit(p2, "2026-01-03 00:00:00");
    assert_eq!(store.get_all_postits().len(), 1);
    let got = store.get_postit("p1").unwrap();
    assert_eq!(got.content, "replaced");
    assert_eq!(got.created_at, "2026-01-03 00:00:00");
    store.delete_postit("p1");
    assert!(store.get_postit("p1").is_none());
}

#[test]
fn alarms_toggle_and_delete() {
    let mut store = Store::new();
    let a = store.save_alarm("07:30", "wake", "[1,2,3]", NOW);
    assert!(store.get_all_alarms()[0].enabled);
    store.toggle_alarm(a);
    assert!(!store.get_all_alarms()[0].enabled);
    store.delete_alarm(a);
    assert!(store.get_all_alarms().is_empty());
}

#[test]
fn datasets_hold_numbered_rows_and_cascade() {
    let mut store = Store::new();
    let d = store.save_dataset(
        "sales",
        "",
        vec!["when".to_string(), "amount".to_string()],
        NOW,
    );
    let n = store.save_dataset_rows(
        d,
        vec![
            vec!["jan".to_string(), "10".to_string()],
            vec!["feb".to_string(), "20".to_string()],
        ],
    );
    assert_eq!(n, 2);
    assert_eq!(store.get_dataset(d).unwrap().row_count, 2);
    let rows = store.get_all_dataset_rows(d);
    assert_eq!(rows.len(), 2);
    let raw = store.get_all_dataset_rows_raw();
    assert_eq!(raw[rows[0]].row_index, 0);
    assert_eq!(raw[rows[1]].data, vec!["feb".to_string(), "20".to_string()]);
    assert_eq!(store.search_dataset_rows(d, "FEB"), vec![1]);
    store.delete_dataset(d);
    assert!(store.get_dataset(d).is_none());
    assert!(store.get_all_dataset_rows_raw().is_empty());
}
