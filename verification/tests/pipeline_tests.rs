use jolajoamemo::analysis::{
    apply_analysis, reapply_analysis, restore_analysis, AnalysisResult, ScheduleInfo, TodoInfo,
    TransactionInfo,
};
use jolajoamemo::extract::extract_json;
use jolajoamemo::mask::{mask_sensitive_info, unmask_text};
use jolajoamemo::records::Memo;
use jolajoamemo::store::Store;

const NOW: &str = "2026-01-02 10:00:00";

fn item(title: &str, merge: Option<i64>) -> AnalysisResult {
    AnalysisResult {
        title: title.to_string(),
        formatted_content: format!("## {}", title),
        summary: format!("{} in short", title),
        category: "notes".to_string(),
        tags: vec!["one".to_string(), "two".to_string()],
        should_merge_with: merge,
        schedules: vec![],
        todos: vec![],
        transactions: vec![],
    }
}

fn seed_memo(store: &mut Store, title: &str, content: &str) -> i64 {
    store.save_memo(
        Memo {
            id: 0,
            title: title.to_string(),
            content: content.to_string(),
            formatted_content: content.to_string(),
            summary: String::new(),
            category: String::new(),
            tags: "old".to_string(),
            embedding: None,
            created_at: String::new(),
            updated_at: String::new(),
        },
        NOW,
    )
}

#[test]
fn a_named_existing_memo_merges_without_an_insert() {
    let mut store = Store::new();
    let target = seed_memo(&mut store, "existing", "old body");
    seed_memo(&mut store, "bystander", "other");
    let before = store.get_memo_count();

    let applied = apply_analysis(&mut store, "new input", item("update", Some(target)), NOW);

    // exactly one row update and zero new inserts
    assert!(applied.merged);
    assert_eq!(applied.memo_id, target);
    assert_eq!(store.get_memo_count(), before);
    let memos = store.get_all_memos();
    assert_eq!(memos[0].content, "old body\n\n---\n\nnew input");
    assert_eq!(memos[0].formatted_content, "old body\n\n---\n\n## update");
    assert_eq!(memos[0].tags, "old, one, two");
    assert_eq!(memos[0].summary, "update in short");
    assert_eq!(memos[0].title, "existing");
    assert_eq!(memos[1].content, "other");
}

#[test]
fn no_merge_target_means_exactly_one_new_insert() {
    let mut store = Store::new();
    seed_memo(&mut store, "existing", "old body");
    let before = store.get_memo_count();

    let applied = apply_analysis(&mut store, "fresh note", item("fresh", None), NOW);

    assert!(!applied.merged);
    assert_eq!(store.get_memo_count(), before + 1);
    let memos = store.get_all_memos();
    assert_eq!(memos[1].id, applied.memo_id);
    assert_eq!(memos[1].content, "fresh note");
    assert_eq!(memos[1].title, "fresh");
    assert_eq!(memos[1].tags, "one, two");
    // the earlier memo stands untouched
    assert_eq!(memos[0].content, "old body");
}

#[test]
fn an_unresolved_merge_id_falls_back_to_an_insert() {
    let mut store = Store::new();
    seed_memo(&mut store, "existing", "old body");
    let applied = apply_analysis(&mut store, "text", item("dangling", Some(999)), NOW);
    assert!(!applied.merged);
    assert_eq!(store.get_memo_count(), 2);
}

#[test]
fn extracted_rows_are_saved_linked_to_the_memo() {
    let mut store = Store::new();
    let mut it = item("note", None);
    it.schedules.push(ScheduleInfo {
        title: "dentist".to_string(),
        start_time: Some("2026-01-05T15:00".to_string()),
        end_time: None,
        location: Some("clinic".to_string()),
        description: None,
    });
    it.todos.push(TodoInfo {
        title: "buy milk".to_string(),
        priority: Some("high".to_string()),
        due_date: None,
    });
    it.transactions.push(TransactionInfo {
        tx_type: "expense".to_string(),
        amount: 5000,
        description: "coffee".to_string(),
        category: Some("food".to_string()),
        tx_date: Some("2026-01-02".to_string()),
    });
    let applied = apply_analysis(&mut store, "busy day", it, NOW);
    assert_eq!(applied.schedules_added, 1);
    assert_eq!(applied.todos_added, 1);
    assert_eq!(applied.transactions_added, 1);
    assert_eq!(store.get_all_schedules()[0].memo_id, Some(applied.memo_id));
    assert_eq!(store.get_all_schedules()[0].title, "dentist");
    assert_eq!(store.get_all_todos()[0].memo_id, Some(applied.memo_id));
    assert!(!store.get_all_todos()[0].completed);
    assert_eq!(store.get_all_transactions()[0].amount, 5000);
}

#[test]
fn masking_numbers_tokens_and_unmasking_restores_them() {
    let text = "mail me at a.b@example.com or call 010-1234-5678";
    let masked = mask_sensitive_info(text);
    assert!(!masked.masked.contains("a.b@example.com"));
    assert!(!masked.masked.contains("010-1234-5678"));
    assert!(masked.masked.contains("[이메일_"));
    assert!(masked.masked.contains("[전화번호_"));
    assert_eq!(masked.mappings.len(), 2);
    let restored = unmask_text(&masked.masked, &masked.mappings);
    assert_eq!(restored, text);
}

#[test]
fn masking_finds_api_keys() {
    // assembled at run time: a whole key must not stand in the source
    let tail = "ABCDEFGHIJKLMNOPQRSTUVWXYZ012345678";
    assert_eq!(tail.len(), 35);
    let fake_key = format!("AIza{}", tail);
    let text = format!("key: {}", fake_key);
    let masked = mask_sensitive_info(&text);
    assert!(masked.masked.contains("[API키_1]"));
    assert!(!masked.masked.contains(&fake_key));
    assert_eq!(masked.mappings.len(), 1);
    assert_eq!(masked.mappings[0].1, fake_key);
}

#[test]
fn restore_analysis_unmasks_every_text_field() {
    // a recorded mapping, as masking would hand it over
    let mappings = vec![("[이메일_1]".to_string(), "x.y@example.org".to_string())];
    let mut it = item("reply to [이메일_1]", None);
    it.todos.push(TodoInfo {
        title: "answer [이메일_1]".to_string(),
        priority: None,
        due_date: None,
    });
    let restored = restore_analysis(it, &mappings);
    assert_eq!(restored.title, "reply to x.y@example.org");
    assert_eq!(restored.todos[0].title, "answer x.y@example.org");
}

#[test]
fn extract_json_prefers_the_json_fence() {
    let reply = "Here you go:\n```json\n{\"a\": 1}\n```\nthanks";
    assert_eq!(extract_json(reply), "{\"a\": 1}");
}

#[test]
fn extract_json_takes_a_plain_fence_with_a_language_tag() {
    let reply = "```rust\n[1, 2]\n```";
    assert_eq!(extract_json(reply), "[1, 2]");
}

#[test]
fn extract_json_falls_back_to_the_outermost_braces() {
    let reply = "The answer is {\"ok\": true} as requested.";
    assert_eq!(extract_json(reply), "{\"ok\": true}");
    let reply2 = "list: [1, 2, 3]!";
    assert_eq!(extract_json(reply2), "[1, 2, 3]");
}

#[test]
fn extract_json_trims_bare_text() {
    assert_eq!(extract_json("  plain answer \n"), "plain answer");
}

#[test]
fn reanalysis_replaces_the_linked_rows_and_rewrites_the_memo() {
    let mut store = Store::new();
    let id = seed_memo(&mut store, "old title", "old content");
    let other = seed_memo(&mut store, "other", "other content");
    // stale extractions hang off both memos
    let mut stale = item("stale", None);
    stale.todos.push(TodoInfo { title: "stale todo".to_string(), priority: None, due_date: None });
    stale.schedules.push(ScheduleInfo {
        title: "stale schedule".to_string(),
        start_time: None,
        end_time: None,
        location: None,
        description: None,
    });
    let applied = apply_analysis(&mut store, "x", stale, NOW);
    assert!(applied.memo_id != id);
    let mut old_rows = item("for target", None);
    old_rows.todos.push(TodoInfo { title: "target todo".to_string(), priority: None, due_date: None });
    // link one stale todo to the target directly
    store.save_todo(
        jolajoamemo::records::Todo {
            id: 0,
            memo_id: Some(id),
            title: "target stale".to_string(),
            completed: false,
            priority: None,
            due_date: None,
            created_at: String::new(),
        },
        NOW,
    );
    let _ = old_rows;

    let mut fresh = item("fresh title", None);
    fresh.todos.push(TodoInfo { title: "fresh todo".to_string(), priority: None, due_date: None });
    let applied = reapply_analysis(&mut store, id, "fresh content", fresh, "2026-02-02 00:00:00");
    assert_eq!(applied.memo_id, id);
    assert!(!applied.merged);
    assert_eq!(applied.todos_added, 1);

    let memos = store.get_all_memos();
    assert_eq!(memos.len(), 3);
    assert_eq!(memos[0].title, "fresh title");
    assert_eq!(memos[0].content, "fresh content");
    assert_eq!(memos[0].updated_at, "2026-02-02 00:00:00");
    assert_eq!(memos[1].title, "other");
    let _ = other;

    // the target's old todo went, the unrelated one stayed, the new one came
    let todo_titles: Vec<&str> = store.get_all_todos().iter().map(|t| t.title.as_str()).collect();
    assert_eq!(todo_titles, vec!["stale todo", "fresh todo"]);
    let schedule_titles: Vec<&str> =
        store.get_all_schedules().iter().map(|s| s.title.as_str()).collect();
    assert_eq!(schedule_titles, vec!["stale schedule"]);
}

#[test]
fn sample_memos_number_and_cycle() {
    let mut store = Store::new();
    assert_eq!(store.insert_test_memos(12, NOW), 12);
    assert_eq!(store.get_memo_count(), 12);
    let memos = store.get_all_memos();
    assert_eq!(memos[0].title, "테스트 메모 #1");
    assert_eq!(memos[0].category, "업무");
    assert_eq!(memos[10].category, "업무");
    assert_eq!(memos[9].category, "기타");
    assert_eq!(memos[11].title, "테스트 메모 #12");
    assert!(memos[2].content.contains("이것은 테스트 메모 3번입니다."));
    assert_eq!(memos[3].summary, "테스트 메모 4 요약");
}
