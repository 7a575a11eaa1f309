//! The in-memory model of the relational store: one table per record type,
//! fresh keys handed out in insertion order, and the declared foreign-key
//! behaviour applied when a memo goes away.

use vstd::prelude::*;

use crate::records::{
    Alarm, ApiUsage, Attachment, Dataset, DatasetRow, Memo, Postit, Schedule, SecretKey, Todo,
    Transaction,
};
use crate::table::{
    find_row, lemma_disown_rows_ok, lemma_find_row_first, lemma_push_rows_ok, lemma_remove_rows_ok,
    remove_first, remove_owned, rows_ok, spec_disown, spec_find_row, unlink_owned, Linked, Owned,
    RowKey,
};
use crate::text::{
    contains_ci, has_prefix, lower_chars, spec_contains_ci, spec_lower, str_eq, str_to_chars,
};
use crate::vault::{is_envelope_for, spec_reveals, Vault, GCM_P_MAX};

verus! {

/// All persisted state: the tables and the next fresh key of each keyed
/// table.
pub struct Store {
    pub memos: Vec<Memo>,
    pub schedules: Vec<Schedule>,
    pub todos: Vec<Todo>,
    pub transactions: Vec<Transaction>,
    pub attachments: Vec<Attachment>,
    pub settings: Vec<(String, String)>,
    pub datasets: Vec<Dataset>,
    pub dataset_rows: Vec<DatasetRow>,
    pub secret_keys: Vec<SecretKey>,
    pub postits: Vec<Postit>,
    pub alarms: Vec<Alarm>,
    pub api_usage: Vec<ApiUsage>,
    pub next_memo_id: i64,
    pub next_schedule_id: i64,
    pub next_todo_id: i64,
    pub next_transaction_id: i64,
    pub next_attachment_id: i64,
    pub next_dataset_id: i64,
    pub next_dataset_row_id: i64,
    pub next_secret_id: i64,
    pub next_alarm_id: i64,
    pub next_usage_id: i64,
}

/// The memo table and its counter agree between two states.
pub open spec fn same_memos(a: &Store, b: &Store) -> bool {
    a.memos == b.memos && a.next_memo_id == b.next_memo_id
}

/// The schedule table and its counter agree between two states.
pub open spec fn same_schedules(a: &Store, b: &Store) -> bool {
    a.schedules == b.schedules && a.next_schedule_id == b.next_schedule_id
}

/// The todo table and its counter agree between two states.
pub open spec fn same_todos(a: &Store, b: &Store) -> bool {
    a.todos == b.todos && a.next_todo_id == b.next_todo_id
}

/// The transaction table and its counter agree between two states.
pub open spec fn same_transactions(a: &Store, b: &Store) -> bool {
    a.transactions == b.transactions && a.next_transaction_id == b.next_transaction_id
}

/// The attachment table and its counter agree between two states.
pub open spec fn same_attachments(a: &Store, b: &Store) -> bool {
    a.attachments == b.attachments && a.next_attachment_id == b.next_attachment_id
}

/// The settings table agrees between two states.
pub open spec fn same_settings(a: &Store, b: &Store) -> bool {
    a.settings == b.settings
}

/// The dataset tables and their counters agree between two states.
pub open spec fn same_datasets(a: &Store, b: &Store) -> bool {
    a.datasets == b.datasets && a.next_dataset_id == b.next_dataset_id && a.dataset_rows
        == b.dataset_rows && a.next_dataset_row_id == b.next_dataset_row_id
}

/// The secret-key table and its counter agree between two states.
pub open spec fn same_secret_keys(a: &Store, b: &Store) -> bool {
    a.secret_keys == b.secret_keys && a.next_secret_id == b.next_secret_id
}

/// The sticky-note table agrees between two states.
pub open spec fn same_postits(a: &Store, b: &Store) -> bool {
    a.postits == b.postits
}

/// The alarm table and its counter agree between two states.
pub open spec fn same_alarms(a: &Store, b: &Store) -> bool {
    a.alarms == b.alarms && a.next_alarm_id == b.next_alarm_id
}

/// The usage log and its counter agree between two states.
pub open spec fn same_api_usage(a: &Store, b: &Store) -> bool {
    a.api_usage == b.api_usage && a.next_usage_id == b.next_usage_id
}

/// Everything around the memo-and-linked-rows group agrees between two
/// states.
pub open spec fn same_beyond_memo_group(a: &Store, b: &Store) -> bool {
    same_settings(a, b) && same_datasets(a, b) && same_secret_keys(a, b) && same_postits(a, b)
        && same_alarms(a, b) && same_api_usage(a, b)
}

/// The index of the first setting with the given key.
pub open spec fn spec_find_setting(s: Seq<(String, String)>, key: Seq<char>, from: int) -> Option<
    int,
>
    decreases s.len() + 1 - from,
    when 0 <= from
{
    if from >= s.len() {
        None
    } else if s[from].0@ == key {
        Some(from)
    } else {
        spec_find_setting(s, key, from + 1)
    }
}

/// What a text search matches: the query occurs, case folded, in the title,
/// content, formatted content, tags or category.
pub open spec fn spec_memo_matches(m: Memo, q: Seq<char>) -> bool {
    spec_contains_ci(m.title@, q) || spec_contains_ci(m.content@, q) || spec_contains_ci(
        m.formatted_content@,
        q,
    ) || spec_contains_ci(m.tags@, q) || spec_contains_ci(m.category@, q)
}

/// The indices of the memos a text search matches, in table order.
pub open spec fn spec_memo_match_indices(s: Seq<Memo>, q: Seq<char>) -> Seq<int>
    decreases s.len(),
{
    if s.len() == 0 {
        Seq::<int>::empty()
    } else if spec_memo_matches(s.last(), q) {
        spec_memo_match_indices(s.drop_last(), q) + seq![s.len() - 1]
    } else {
        spec_memo_match_indices(s.drop_last(), q)
    }
}

/// How many memos carry the given category.
pub open spec fn spec_count_category(s: Seq<Memo>, cat: Seq<char>) -> int
    decreases s.len(),
{
    if s.len() == 0 {
        0
    } else {
        spec_count_category(s.drop_last(), cat) + if s.last().category@ == cat {
            1int
        } else {
            0int
        }
    }
}

/// The distinct non-empty categories of a memo table, in first-appearance
/// order.
pub open spec fn spec_distinct_categories(s: Seq<Memo>) -> Seq<Seq<char>>
    decreases s.len(),
{
    if s.len() == 0 {
        Seq::<Seq<char>>::empty()
    } else {
        let rest = spec_distinct_categories(s.drop_last());
        let c = s.last().category@;
        if c.len() == 0 || rest.contains(c) {
            rest
        } else {
            rest.push(c)
        }
    }
}

/// The indices of the attachments whose file name matches a text search,
/// in table order.
pub open spec fn spec_attachment_match_indices(s: Seq<Attachment>, q: Seq<char>) -> Seq<int>
    decreases s.len(),
{
    if s.len() == 0 {
        Seq::<int>::empty()
    } else if spec_contains_ci(s.last().file_name@, q) {
        spec_attachment_match_indices(s.drop_last(), q) + seq![s.len() - 1]
    } else {
        spec_attachment_match_indices(s.drop_last(), q)
    }
}

/// A shown credential row: every field of the stored row, with the value
/// run through the vault.
pub open spec fn spec_shows(key: Seq<u8>, stored: SecretKey, shown: SecretKey) -> bool {
    shown.id == stored.id && shown.key_name == stored.key_name && shown.key_type
        == stored.key_type && shown.provider == stored.provider && shown.provider_url
        == stored.provider_url && shown.description == stored.description && shown.issued_date
        == stored.issued_date && shown.expires_at == stored.expires_at && shown.created_at
        == stored.created_at && spec_reveals(key, stored.key_value@, shown.key_value@)
}

/// The indices of the credential rows whose provider is `p`, in table order.
pub open spec fn spec_provider_indices(s: Seq<SecretKey>, p: Seq<char>) -> Seq<int>
    decreases s.len(),
{
    if s.len() == 0 {
        Seq::<int>::empty()
    } else if s.last().provider@ == p {
        spec_provider_indices(s.drop_last(), p) + seq![s.len() - 1]
    } else {
        spec_provider_indices(s.drop_last(), p)
    }
}

/// The indices of the credential rows whose type is `t`, in table order.
pub open spec fn spec_type_indices(s: Seq<SecretKey>, t: Seq<char>) -> Seq<int>
    decreases s.len(),
{
    if s.len() == 0 {
        Seq::<int>::empty()
    } else if s.last().key_type@ == t {
        spec_type_indices(s.drop_last(), t) + seq![s.len() - 1]
    } else {
        spec_type_indices(s.drop_last(), t)
    }
}

/// The distinct providers of the credential rows, in first-appearance
/// order.
pub open spec fn spec_distinct_providers(s: Seq<SecretKey>) -> Seq<Seq<char>>
    decreases s.len(),
{
    if s.len() == 0 {
        Seq::<Seq<char>>::empty()
    } else {
        let rest = spec_distinct_providers(s.drop_last());
        let p = s.last().provider@;
        if rest.contains(p) {
            rest
        } else {
            rest.push(p)
        }
    }
}

/// The index of the first sticky note with the given text id.
pub open spec fn spec_find_postit(s: Seq<Postit>, id: Seq<char>, from: int) -> Option<int>
    decreases s.len() + 1 - from,
    when 0 <= from
{
    if from >= s.len() {
        None
    } else if s[from].id@ == id {
        Some(from)
    } else {
        spec_find_postit(s, id, from + 1)
    }
}

/// True when a usage row was logged on the given day: its timestamp starts
/// with the day's ten characters.
pub open spec fn spec_usage_on(u: ApiUsage, day: Seq<char>) -> bool {
    u.timestamp@.len() >= day.len() && u.timestamp@.subrange(0, day.len() as int) == day
}

/// The input tokens logged on a day.
pub open spec fn spec_day_input(s: Seq<ApiUsage>, day: Seq<char>) -> int
    decreases s.len(),
{
    if s.len() == 0 {
        0
    } else {
        spec_day_input(s.drop_last(), day) + if spec_usage_on(s.last(), day) {
            s.last().input_tokens as int
        } else {
            0int
        }
    }
}

/// The output tokens logged on a day.
pub open spec fn spec_day_output(s: Seq<ApiUsage>, day: Seq<char>) -> int
    decreases s.len(),
{
    if s.len() == 0 {
        0
    } else {
        spec_day_output(s.drop_last(), day) + if spec_usage_on(s.last(), day) {
            s.last().output_tokens as int
        } else {
            0int
        }
    }
}

/// The cost, in pico-dollars, logged on a day.
pub open spec fn spec_day_cost(s: Seq<ApiUsage>, day: Seq<char>) -> int
    decreases s.len(),
{
    if s.len() == 0 {
        0
    } else {
        spec_day_cost(s.drop_last(), day) + if spec_usage_on(s.last(), day) {
            s.last().cost_pico_usd as int
        } else {
            0int
        }
    }
}

/// A row of an imported spreadsheet matches a text search when one of its
/// cells holds the query, case folded as SQL's LIKE folds ASCII.
pub open spec fn spec_row_matches(r: DatasetRow, q: Seq<char>) -> bool {
    exists|c: int| 0 <= c < r.data@.len() && spec_contains_ci((#[trigger] r.data@[c])@, q)
}

/// The indices of one dataset's rows that a text search matches, in table
/// order.
pub open spec fn spec_dataset_row_match_indices(
    s: Seq<DatasetRow>,
    dataset_id: i64,
    q: Seq<char>,
) -> Seq<int>
    decreases s.len(),
{
    if s.len() == 0 {
        Seq::<int>::empty()
    } else if s.last().dataset_id == dataset_id && spec_row_matches(s.last(), q) {
        spec_dataset_row_match_indices(s.drop_last(), dataset_id, q) + seq![s.len() - 1]
    } else {
        spec_dataset_row_match_indices(s.drop_last(), dataset_id, q)
    }
}

/// Every field except the category agrees between two memos.
pub open spec fn same_memo_except_category(a: Memo, b: Memo) -> bool {
    a.id == b.id && a.title == b.title && a.content == b.content && a.formatted_content
        == b.formatted_content && a.summary == b.summary && a.tags == b.tags && a.embedding
        == b.embedding && a.created_at == b.created_at && a.updated_at == b.updated_at
}

/// True when one of the strings holds exactly the given text.
fn contains_string(v: &Vec<String>, s: &str) -> (r: bool)
    ensures
        r == v@.map_values(|t: String| t@).contains(s@),
{
    let ghost views = v@.map_values(|t: String| t@);
    let mut i: usize = 0;
    while i < v.len()
        invariant
            i <= v@.len(),
            views == v@.map_values(|t: String| t@),
            forall|k: int| 0 <= k < i ==> views[k] != s@,
        decreases v@.len() - i,
    {
        if str_eq(v[i].as_str(), s) {
            assert(views[i as int] == s@);
            return true;
        }
        i += 1;
    }
    proof {
        assert forall|k: int| 0 <= k < views.len() implies views[k] != s@ by {}
    }
    false
}

/// Copies an option of a string.
pub fn clone_opt_string(o: &Option<String>) -> (r: Option<String>)
    ensures
        r == *o,
{
    match o {
        None => None,
        Some(s) => Some(s.clone()),
    }
}

/// The stored row with its value run through the vault.
fn decrypted_copy(vault: &Vault, row: &SecretKey) -> (r: SecretKey)
    requires
        vault.wf(),
    ensures
        spec_shows(vault.spec_key(), *row, r),
{
    let shown = match vault.decrypt_value(row.key_value.as_str()) {
        Some(s) => s,
        None => row.key_value.clone(),
    };
    SecretKey {
        id: row.id,
        key_name: row.key_name.clone(),
        key_value: shown,
        key_type: row.key_type.clone(),
        provider: row.provider.clone(),
        provider_url: clone_opt_string(&row.provider_url),
        description: clone_opt_string(&row.description),
        issued_date: row.issued_date.clone(),
        expires_at: clone_opt_string(&row.expires_at),
        created_at: row.created_at.clone(),
    }
}

/// What a stored sticky note holds after a save at time `now`.
pub open spec fn spec_postit_saved(stored: Postit, given: Postit, now: Seq<char>) -> bool {
    stored.id == given.id && stored.content == given.content && stored.color == given.color
        && stored.position_x == given.position_x && stored.position_y == given.position_y
        && stored.width == given.width && stored.height == given.height && stored.created_at@
        == now && stored.updated_at@ == now
}

/// A found sticky note is in range, carries the id, and is the first with
/// it.
pub proof fn lemma_find_postit_first(s: Seq<Postit>, id: Seq<char>, from: int, i: int)
    requires
        0 <= from,
        spec_find_postit(s, id, from) == Some(i),
    ensures
        from <= i < s.len(),
        s[i].id@ == id,
        forall|j: int| from <= j < i ==> s[j].id@ != id,
    decreases s.len() + 1 - from,
{
    if from >= s.len() {
    } else if s[from].id@ == id {
    } else {
        lemma_find_postit_first(s, id, from + 1, i);
    }
}

/// When no sticky note is found, no id at or after `from` matches.
pub proof fn lemma_find_postit_none(s: Seq<Postit>, id: Seq<char>, from: int)
    requires
        0 <= from,
        spec_find_postit(s, id, from) is None,
    ensures
        forall|j: int| from <= j < s.len() ==> s[j].id@ != id,
    decreases s.len() + 1 - from,
{
    if from >= s.len() {
    } else if s[from].id@ == id {
    } else {
        lemma_find_postit_none(s, id, from + 1);
    }
}

/// True when some cell of the row holds the lowered query.
fn row_matches(row: &DatasetRow, qlow: &[char], q: Ghost<Seq<char>>) -> (r: bool)
    requires
        qlow@ == spec_lower(q@),
        spec_lower(qlow@) == qlow@,
    ensures
        r == spec_row_matches(*row, q@),
{
    let mut c: usize = 0;
    while c < row.data.len()
        invariant
            c <= row.data@.len(),
            qlow@ == spec_lower(q@),
            spec_lower(qlow@) == qlow@,
            forall|m: int| 0 <= m < c ==> !spec_contains_ci((#[trigger] row.data@[m])@, q@),
        decreases row.data@.len() - c,
    {
        if contains_ci(row.data[c].as_str(), qlow) {
            proof {
                assert(spec_contains_ci(row.data@[c as int]@, q@));
            }
            return true;
        }
        c += 1;
    }
    false
}

impl Store {
    /// Every keyed table is healthy and text-keyed tables have unique keys.
    pub open spec fn wf(&self) -> bool {
        &&& rows_ok(self.memos@, self.next_memo_id)
        &&& rows_ok(self.schedules@, self.next_schedule_id)
        &&& rows_ok(self.todos@, self.next_todo_id)
        &&& rows_ok(self.transactions@, self.next_transaction_id)
        &&& rows_ok(self.attachments@, self.next_attachment_id)
        &&& rows_ok(self.datasets@, self.next_dataset_id)
        &&& rows_ok(self.dataset_rows@, self.next_dataset_row_id)
        &&& rows_ok(self.secret_keys@, self.next_secret_id)
        &&& rows_ok(self.alarms@, self.next_alarm_id)
        &&& rows_ok(self.api_usage@, self.next_usage_id)
        &&& forall|i: int, j: int|
            0 <= i < j < self.settings@.len() ==> (#[trigger] self.settings@[i]).0@ != (
            #[trigger] self.settings@[j]).0@
        &&& forall|i: int, j: int|
            0 <= i < j < self.postits@.len() ==> (#[trigger] self.postits@[i]).id@ != (
            #[trigger] self.postits@[j]).id@
        &&& forall|i: int|
            0 <= i < self.api_usage@.len() ==> (#[trigger] self.api_usage@[i]).cost_pico_usd
                < 0x1_0000_0000_0000_0000
    }

    /// An empty store, ready to hand out keys from 1.
    pub fn new() -> (r: Store)
        ensures
            r.wf(),
            r.memos@.len() == 0,
            r.schedules@.len() == 0,
            r.todos@.len() == 0,
            r.transactions@.len() == 0,
            r.attachments@.len() == 0,
            r.settings@.len() == 0,
            r.datasets@.len() == 0,
            r.dataset_rows@.len() == 0,
            r.secret_keys@.len() == 0,
            r.postits@.len() == 0,
            r.alarms@.len() == 0,
            r.api_usage@.len() == 0,
            r.next_memo_id == 1,
            r.next_schedule_id == 1,
            r.next_todo_id == 1,
            r.next_transaction_id == 1,
            r.next_attachment_id == 1,
            r.next_dataset_id == 1,
            r.next_dataset_row_id == 1,
            r.next_secret_id == 1,
            r.next_alarm_id == 1,
            r.next_usage_id == 1,
    {
        Store {
            memos: Vec::new(),
            schedules: Vec::new(),
            todos: Vec::new(),
            transactions: Vec::new(),
            attachments: Vec::new(),
            settings: Vec::new(),
            datasets: Vec::new(),
            dataset_rows: Vec::new(),
            secret_keys: Vec::new(),
            postits: Vec::new(),
            alarms: Vec::new(),
            api_usage: Vec::new(),
            next_memo_id: 1,
            next_schedule_id: 1,
            next_todo_id: 1,
            next_transaction_id: 1,
            next_attachment_id: 1,
            next_dataset_id: 1,
            next_dataset_row_id: 1,
            next_secret_id: 1,
            next_alarm_id: 1,
            next_usage_id: 1,
        }
    }

    /// Inserts a memo under a fresh key, stamping both timestamps; the
    /// caller's `id`, `created_at` and `updated_at` are ignored, as an
    /// insert ignores them.
    pub fn save_memo(&mut self, memo: Memo, now: &str) -> (id: i64)
        requires
            old(self).wf(),
            old(self).next_memo_id < i64::MAX,
        ensures
            final(self).wf(),
            id == old(self).next_memo_id,
            final(self).next_memo_id == old(self).next_memo_id + 1,
            final(self).memos@ == old(self).memos@.push(final(self).memos@.last()),
            ({
                let m = final(self).memos@.last();
                m.id == id && m.title == memo.title && m.content == memo.content
                    && m.formatted_content == memo.formatted_content && m.summary == memo.summary
                    && m.category == memo.category && m.tags == memo.tags && m.embedding
                    == memo.embedding && m.created_at@ == now@ && m.updated_at@ == now@
            }),
            same_schedules(old(self), final(self)),
            same_todos(old(self), final(self)),
            same_transactions(old(self), final(self)),
            same_attachments(old(self), final(self)),
            same_beyond_memo_group(old(self), final(self)),
    {
        let id = self.next_memo_id;
        let stored = Memo {
            id,
            title: memo.title,
            content: memo.content,
            formatted_content: memo.formatted_content,
            summary: memo.summary,
            category: memo.category,
            tags: memo.tags,
            embedding: memo.embedding,
            created_at: now.to_owned(),
            updated_at: now.to_owned(),
        };
        proof {
            lemma_push_rows_ok(self.memos@, self.next_memo_id, stored);
        }
        self.memos.push(stored);
        self.next_memo_id = id + 1;
        id
    }

    /// Rewrites the body of the memo with the given key — content, formatted
    /// content, summary, tags and embedding — and stamps its update time;
    /// title, category and creation time stand. A missing key changes
    /// nothing.
    pub fn update_memo(
        &mut self,
        id: i64,
        content: &str,
        formatted_content: &str,
        summary: &str,
        tags: &str,
        embedding: Option<&[u8]>,
        now: &str,
    )
        requires
            old(self).wf(),
        ensures
            final(self).wf(),
            final(self).next_memo_id == old(self).next_memo_id,
            final(self).memos@.len() == old(self).memos@.len(),
            match spec_find_row(old(self).memos@, id, 0) {
                None => final(self).memos@ == old(self).memos@,
                Some(i) => {
                    &&& forall|j: int|
                        0 <= j < old(self).memos@.len() && j != i ==> final(self).memos@[j] == old(self).memos@[j]
                    &&& ({
                        let m = final(self).memos@[i];
                        let o = old(self).memos@[i];
                        m.id == o.id && m.title == o.title && m.category == o.category
                            && m.created_at == o.created_at && m.content@ == content@
                            && m.formatted_content@ == formatted_content@ && m.summary@ == summary@
                            && m.tags@ == tags@ && m.updated_at@ == now@ && (match embedding {
                            None => m.embedding is None,
                            Some(b) => m.embedding is Some && m.embedding.unwrap()@ == b@,
                        })
                    })
                },
            },
            same_schedules(old(self), final(self)),
            same_todos(old(self), final(self)),
            same_transactions(old(self), final(self)),
            same_attachments(old(self), final(self)),
            same_beyond_memo_group(old(self), final(self)),
    {
        let ghost pre = self.memos@;
        match find_row(&self.memos, id) {
            None => {},
            Some(i) => {
                proof {
                    lemma_find_row_first(self.memos@, id, 0, i as int);
                }
                self.memos[i].content = content.to_owned();
                self.memos[i].formatted_content = formatted_content.to_owned();
                self.memos[i].summary = summary.to_owned();
                self.memos[i].tags = tags.to_owned();
                self.memos[i].embedding = match embedding {
                    None => None,
                    Some(b) => Some(vstd::slice::slice_to_vec(b)),
                };
                self.memos[i].updated_at = now.to_owned();
                proof {
                    assert forall|a: int, b: int| 0 <= a < b < self.memos@.len() implies #[trigger]
                    self.memos@[a].rid() != #[trigger] self.memos@[b].rid() by {
                        assert(pre[a].rid() == self.memos@[a].rid());
                        assert(pre[b].rid() == self.memos@[b].rid());
                    }
                    assert forall|a: int| 0 <= a < self.memos@.len() implies 0 < #[trigger] self
                        .memos@[a].rid() < self.next_memo_id by {
                        assert(pre[a].rid() == self.memos@[a].rid());
                    }
                }
            },
        }
    }

    /// Rewrites the editable head of the memo with the given key — title,
    /// formatted content, category and tags, and the raw content only when
    /// one is supplied — and stamps its update time. A missing key changes
    /// nothing.
    pub fn update_memo_full(
        &mut self,
        id: i64,
        title: &str,
        formatted_content: &str,
        category: &str,
        tags: &str,
        content: Option<&str>,
        now: &str,
    )
        requires
            old(self).wf(),
        ensures
            final(self).wf(),
            final(self).next_memo_id == old(self).next_memo_id,
            final(self).memos@.len() == old(self).memos@.len(),
            match spec_find_row(old(self).memos@, id, 0) {
                None => final(self).memos@ == old(self).memos@,
                Some(i) => {
                    &&& forall|j: int|
                        0 <= j < old(self).memos@.len() && j != i ==> final(self).memos@[j] == old(self).memos@[j]
                    &&& ({
                        let m = final(self).memos@[i];
                        let o = old(self).memos@[i];
                        m.id == o.id && m.summary == o.summary && m.embedding == o.embedding
                            && m.created_at == o.created_at && m.title@ == title@
                            && m.formatted_content@ == formatted_content@ && m.category@
                            == category@ && m.tags@ == tags@ && m.updated_at@ == now@ && (
                        match content {
                            None => m.content == o.content,
                            Some(c) => m.content@ == c@,
                        })
                    })
                },
            },
            same_schedules(old(self), final(self)),
            same_todos(old(self), final(self)),
            same_transactions(old(self), final(self)),
            same_attachments(old(self), final(self)),
            same_beyond_memo_group(old(self), final(self)),
    {
        let ghost pre = self.memos@;
        match find_row(&self.memos, id) {
            None => {},
            Some(i) => {
                proof {
                    lemma_find_row_first(self.memos@, id, 0, i as int);
                }
                self.memos[i].title = title.to_owned();
                self.memos[i].formatted_content = formatted_content.to_owned();
                self.memos[i].category = category.to_owned();
                self.memos[i].tags = tags.to_owned();
                match content {
                    None => {},
                    Some(c) => {
                        self.memos[i].content = c.to_owned();
                    },
                }
                self.memos[i].updated_at = now.to_owned();
                proof {
                    assert forall|a: int, b: int| 0 <= a < b < self.memos@.len() implies #[trigger]
                    self.memos@[a].rid() != #[trigger] self.memos@[b].rid() by {
                        assert(pre[a].rid() == self.memos@[a].rid());
                        assert(pre[b].rid() == self.memos@[b].rid());
                    }
                    assert forall|a: int| 0 <= a < self.memos@.len() implies 0 < #[trigger] self
                        .memos@[a].rid() < self.next_memo_id by {
                        assert(pre[a].rid() == self.memos@[a].rid());
                    }
                }
            },
        }
    }

    /// Deletes the memo with the given key. As the schema declares, `ON
    /// DELETE SET NULL` clears the link of every schedule, todo and
    /// transaction that pointed at it without deleting the row, and `ON
    /// DELETE CASCADE` removes the memo's attachments.
    pub fn delete_memo(&mut self, id: i64)
        requires
            old(self).wf(),
        ensures
            final(self).wf(),
            match spec_find_row(old(self).memos@, id, 0) {
                None => final(self).memos@ == old(self).memos@,
                Some(i) => final(self).memos@ == old(self).memos@.remove(i),
            },
            final(self).next_memo_id == old(self).next_memo_id,
            final(self).schedules@.len() == old(self).schedules@.len(),
            forall|i: int|
                0 <= i < old(self).schedules@.len() ==> if old(self).schedules@[i].memo_id == Some(
                    id,
                ) {
                    final(self).schedules@[i].memo_id is None && final(self).schedules@[i].same_except_link(&old(self).schedules@[i])
                } else {
                    final(self).schedules@[i] == old(self).schedules@[i]
                },
            final(self).todos@.len() == old(self).todos@.len(),
            forall|i: int|
                0 <= i < old(self).todos@.len() ==> if old(self).todos@[i].memo_id == Some(id) {
                    final(self).todos@[i].memo_id is None && final(self).todos@[i].same_except_link(
                        &old(self).todos@[i],
                    )
                } else {
                    final(self).todos@[i] == old(self).todos@[i]
                },
            final(self).transactions@.len() == old(self).transactions@.len(),
            forall|i: int|
                0 <= i < old(self).transactions@.len() ==> if old(self).transactions@[i].memo_id
                    == Some(id) {
                    final(self).transactions@[i].memo_id is None && final(self).transactions@[i].same_except_link(&old(self).transactions@[i])
                } else {
                    final(self).transactions@[i] == old(self).transactions@[i]
                },
            final(self).attachments@ == spec_disown(old(self).attachments@, id),
            final(self).next_schedule_id == old(self).next_schedule_id,
            final(self).next_todo_id == old(self).next_todo_id,
            final(self).next_transaction_id == old(self).next_transaction_id,
            final(self).next_attachment_id == old(self).next_attachment_id,
            same_beyond_memo_group(old(self), final(self)),
    {
        let ghost pre = *self;
        let _removed = remove_first(&mut self.memos, id);
        unlink_owned(&mut self.schedules, id);
        unlink_owned(&mut self.todos, id);
        unlink_owned(&mut self.transactions, id);
        remove_owned(&mut self.attachments, id);
        proof {
            match spec_find_row(pre.memos@, id, 0) {
                None => {},
                Some(i) => {
                    lemma_find_row_first(pre.memos@, id, 0, i);
                    lemma_remove_rows_ok(pre.memos@, pre.next_memo_id, i);
                },
            }
            assert forall|a: int, b: int| 0 <= a < b < self.schedules@.len() implies #[trigger]
            self.schedules@[a].rid() != #[trigger] self.schedules@[b].rid() by {
                assert(self.schedules@[a].rid() == pre.schedules@[a].rid());
                assert(self.schedules@[b].rid() == pre.schedules@[b].rid());
            }
            assert forall|a: int| 0 <= a < self.schedules@.len() implies 0 < #[trigger] self
                .schedules@[a].rid() < self.next_schedule_id by {
                assert(self.schedules@[a].rid() == pre.schedules@[a].rid());
            }
            assert forall|a: int, b: int| 0 <= a < b < self.todos@.len() implies #[trigger] self
                .todos@[a].rid() != #[trigger] self.todos@[b].rid() by {
                assert(self.todos@[a].rid() == pre.todos@[a].rid());
                assert(self.todos@[b].rid() == pre.todos@[b].rid());
            }
            assert forall|a: int| 0 <= a < self.todos@.len() implies 0 < #[trigger] self
                .todos@[a].rid() < self.next_todo_id by {
                assert(self.todos@[a].rid() == pre.todos@[a].rid());
            }
            assert forall|a: int, b: int| 0 <= a < b < self.transactions@.len() implies #[trigger]
            self.transactions@[a].rid() != #[trigger] self.transactions@[b].rid() by {
                assert(self.transactions@[a].rid() == pre.transactions@[a].rid());
                assert(self.transactions@[b].rid() == pre.transactions@[b].rid());
            }
            assert forall|a: int| 0 <= a < self.transactions@.len() implies 0 < #[trigger] self
                .transactions@[a].rid() < self.next_transaction_id by {
                assert(self.transactions@[a].rid() == pre.transactions@[a].rid());
            }
            lemma_disown_rows_ok(pre.attachments@, id, pre.next_attachment_id);
        }
    }

    /// How many memos the store holds.
    pub fn get_memo_count(&self) -> (r: i64)
        requires
            self.wf(),
        ensures
            r == self.memos@.len(),
    {
        self.memos.len() as i64
    }

    /// Every memo, in table order.
    pub fn get_all_memos(&self) -> (r: &Vec<Memo>)
        ensures
            r@ == self.memos@,
    {
        &self.memos
    }

    /// The raw content of the memo with the given key.
    pub fn get_memo_content(&self, id: i64) -> (r: Option<String>)
        ensures
            match spec_find_row(self.memos@, id, 0) {
                None => r is None,
                Some(i) => r is Some && r.unwrap()@ == self.memos@[i].content@,
            },
    {
        match find_row(&self.memos, id) {
            None => None,
            Some(i) => {
                proof {
                    lemma_find_row_first(self.memos@, id, 0, i as int);
                }
                Some(self.memos[i].content.clone())
            },
        }
    }

    /// The indices of a page of memos, in table order: up to `limit` memos
    /// starting at `offset`.
    pub fn get_memos_paginated(&self, offset: i64, limit: i64) -> (r: Vec<usize>)
        requires
            self.wf(),
            offset >= 0,
            limit >= 0,
        ensures
            forall|k: int| 0 <= k < r@.len() ==> #[trigger] r@[k] == offset + k,
            r@.len() == if offset + limit <= self.memos@.len() {
                limit as int
            } else if offset <= self.memos@.len() {
                self.memos@.len() - offset
            } else {
                0int
            },
    {
        let mut r: Vec<usize> = Vec::new();
        let mut idx: usize = 0;
        while idx < self.memos.len()
            invariant
                self.wf(),
                offset >= 0,
                limit >= 0,
                idx <= self.memos@.len(),
                forall|k: int| 0 <= k < r@.len() ==> #[trigger] r@[k] == offset + k,
                r@.len() == if offset + limit <= idx {
                    limit as int
                } else if offset <= idx {
                    idx - offset
                } else {
                    0int
                },
            decreases self.memos@.len() - idx,
        {
            let idx64 = idx as i64;
            if idx64 >= offset && (idx64 - offset) < limit {
                r.push(idx);
            }
            idx += 1;
        }
        r
    }

    /// The indices of the memos a text search matches: the query must occur,
    /// case folded as SQL's LIKE folds ASCII, in the title, content,
    /// formatted content, tags or category.
    pub fn search_memos(&self, query: &str) -> (r: Vec<usize>)
        ensures
            r@.map_values(|u: usize| u as int) == spec_memo_match_indices(self.memos@, query@),
    {
        let qc = str_to_chars(query);
        let qlow = lower_chars(qc.as_slice());
        proof {
            assert forall|c: char| #[trigger]
                crate::text::spec_lower_char(crate::text::spec_lower_char(c))
                    == crate::text::spec_lower_char(c) by {}
            assert(spec_lower(qlow@) =~= qlow@);
        }
        let mut r: Vec<usize> = Vec::new();
        let mut idx: usize = 0;
        while idx < self.memos.len()
            invariant
                idx <= self.memos@.len(),
                qlow@ == spec_lower(query@),
                spec_lower(qlow@) == qlow@,
                r@.map_values(|u: usize| u as int) == spec_memo_match_indices(
                    self.memos@.subrange(0, idx as int),
                    query@,
                ),
            decreases self.memos@.len() - idx,
        {
            let ghost prefix = self.memos@.subrange(0, idx as int);
            let m = &self.memos[idx];
            let hit = contains_ci(m.title.as_str(), qlow.as_slice()) || contains_ci(
                m.content.as_str(),
                qlow.as_slice(),
            ) || contains_ci(m.formatted_content.as_str(), qlow.as_slice()) || contains_ci(
                m.tags.as_str(),
                qlow.as_slice(),
            ) || contains_ci(m.category.as_str(), qlow.as_slice());
            proof {
                assert(spec_contains_ci(m.title@, qlow@) == spec_contains_ci(m.title@, query@));
                assert(spec_contains_ci(m.content@, qlow@) == spec_contains_ci(
                    m.content@,
                    query@,
                ));
                assert(spec_contains_ci(m.formatted_content@, qlow@) == spec_contains_ci(
                    m.formatted_content@,
                    query@,
                ));
                assert(spec_contains_ci(m.tags@, qlow@) == spec_contains_ci(m.tags@, query@));
                assert(spec_contains_ci(m.category@, qlow@) == spec_contains_ci(
                    m.category@,
                    query@,
                ));
                assert(hit == spec_memo_matches(self.memos@[idx as int], query@));
            }
            if hit {
                r.push(idx);
            }
            proof {
                let next_prefix = self.memos@.subrange(0, idx as int + 1);
                assert(next_prefix.drop_last() =~= prefix);
                assert(next_prefix.last() == self.memos@[idx as int]);
                assert(r@.map_values(|u: usize| u as int) =~= spec_memo_match_indices(
                    next_prefix,
                    query@,
                ));
            }
            idx += 1;
        }
        proof {
            assert(self.memos@.subrange(0, self.memos@.len() as int) =~= self.memos@);
        }
        r
    }

    /// Stores a setting, replacing the value under an existing key, as
    /// `INSERT OR REPLACE` does.
    pub fn save_setting(&mut self, key: &str, value: &str)
        requires
            old(self).wf(),
        ensures
            final(self).wf(),
            match spec_find_setting(old(self).settings@, key@, 0) {
                None => {
                    &&& final(self).settings@.len() == old(self).settings@.len() + 1
                    &&& final(self).settings@.last().0@ == key@
                    &&& final(self).settings@.last().1@ == value@
                    &&& forall|j: int|
                        0 <= j < old(self).settings@.len() ==> final(self).settings@[j] == old(self).settings@[j]
                },
                Some(i) => {
                    &&& final(self).settings@.len() == old(self).settings@.len()
                    &&& final(self).settings@[i].0 == old(self).settings@[i].0
                    &&& final(self).settings@[i].1@ == value@
                    &&& forall|j: int|
                        0 <= j < old(self).settings@.len() && j != i ==> final(self).settings@[j]
                            == old(self).settings@[j]
                },
            },
            same_memos(old(self), final(self)),
            same_schedules(old(self), final(self)),
            same_todos(old(self), final(self)),
            same_transactions(old(self), final(self)),
            same_attachments(old(self), final(self)),
            same_datasets(old(self), final(self)),
            same_secret_keys(old(self), final(self)),
            same_postits(old(self), final(self)),
            same_alarms(old(self), final(self)),
            same_api_usage(old(self), final(self)),
    {
        let ghost pre = self.settings@;
        match self.find_setting(key) {
            None => {
                proof {
                    lemma_find_setting_none(pre, key@, 0);
                }
                self.settings.push((key.to_owned(), value.to_owned()));
                proof {
                    assert forall|i: int, j: int| 0 <= i < j < self.settings@.len() implies (
                    #[trigger] self.settings@[i]).0@ != (#[trigger] self.settings@[j]).0@ by {
                        if j < pre.len() {
                            assert(self.settings@[i] == pre[i]);
                            assert(self.settings@[j] == pre[j]);
                        } else {
                            assert(self.settings@[i] == pre[i]);
                            assert(self.settings@[j].0@ == key@);
                        }
                    }
                }
            },
            Some(i) => {
                proof {
                    lemma_find_setting_first(pre, key@, 0, i as int);
                }
                self.settings[i].1 = value.to_owned();
                proof {
                    assert forall|a: int, b: int| 0 <= a < b < self.settings@.len() implies (
                    #[trigger] self.settings@[a]).0@ != (#[trigger] self.settings@[b]).0@ by {
                        assert(self.settings@[a].0 == pre[a].0);
                        assert(self.settings@[b].0 == pre[b].0);
                    }
                }
            },
        }
    }

    /// The stored value under a key, or the empty string when the key is
    /// absent.
    pub fn get_setting(&self, key: &str) -> (r: String)
        ensures
            match spec_find_setting(self.settings@, key@, 0) {
                None => r@.len() == 0,
                Some(i) => r@ == self.settings@[i].1@,
            },
    {
        match self.find_setting(key) {
            None => String::new(),
            Some(i) => {
                proof {
                    lemma_find_setting_first(self.settings@, key@, 0, i as int);
                }
                self.settings[i].1.clone()
            },
        }
    }

    fn find_setting(&self, key: &str) -> (r: Option<usize>)
        ensures
            match r {
                Some(i) => spec_find_setting(self.settings@, key@, 0) == Some(i as int),
                None => spec_find_setting(self.settings@, key@, 0) is None,
            },
    {
        let mut i: usize = 0;
        while i < self.settings.len()
            invariant
                i <= self.settings@.len(),
                spec_find_setting(self.settings@, key@, 0) == spec_find_setting(
                    self.settings@,
                    key@,
                    i as int,
                ),
            decreases self.settings@.len() - i,
        {
            if str_eq(self.settings[i].0.as_str(), key) {
                return Some(i);
            }
            i += 1;
        }
        None
    }

    /// Deletes every memo and returns how many there were. With no memo
    /// left, the declared foreign-key actions leave no link standing: every
    /// linked schedule, todo and transaction is unlinked, and every
    /// attachment is removed.
    pub fn delete_all_memos(&mut self) -> (count: usize)
        requires
            old(self).wf(),
        ensures
            final(self).wf(),
            count == old(self).memos@.len(),
            final(self).memos@.len() == 0,
            final(self).next_memo_id == old(self).next_memo_id,
            final(self).schedules@.len() == old(self).schedules@.len(),
            forall|i: int|
                0 <= i < old(self).schedules@.len() ==> if old(self).schedules@[i].memo_id
                    is Some {
                    final(self).schedules@[i].memo_id is None && final(self).schedules@[i].same_except_link(&old(self).schedules@[i])
                } else {
                    final(self).schedules@[i] == old(self).schedules@[i]
                },
            final(self).todos@.len() == old(self).todos@.len(),
            forall|i: int|
                0 <= i < old(self).todos@.len() ==> if old(self).todos@[i].memo_id is Some {
                    final(self).todos@[i].memo_id is None && final(self).todos@[i].same_except_link(
                        &old(self).todos@[i],
                    )
                } else {
                    final(self).todos@[i] == old(self).todos@[i]
                },
            final(self).transactions@.len() == old(self).transactions@.len(),
            forall|i: int|
                0 <= i < old(self).transactions@.len() ==> if old(self).transactions@[i].memo_id
                    is Some {
                    final(self).transactions@[i].memo_id is None && final(self).transactions@[i].same_except_link(&old(self).transactions@[i])
                } else {
                    final(self).transactions@[i] == old(self).transactions@[i]
                },
            final(self).attachments@.len() == 0,
            final(self).next_schedule_id == old(self).next_schedule_id,
            final(self).next_todo_id == old(self).next_todo_id,
            final(self).next_transaction_id == old(self).next_transaction_id,
            final(self).next_attachment_id == old(self).next_attachment_id,
            same_beyond_memo_group(old(self), final(self)),
    {
        let ghost pre = *self;
        let count = self.memos.len();
        self.memos.clear();
        crate::table::unlink_every(&mut self.schedules);
        crate::table::unlink_every(&mut self.todos);
        crate::table::unlink_every(&mut self.transactions);
        self.attachments.clear();
        proof {
            assert forall|a: int, b: int| 0 <= a < b < self.schedules@.len() implies #[trigger]
            self.schedules@[a].rid() != #[trigger] self.schedules@[b].rid() by {
                assert(self.schedules@[a].rid() == pre.schedules@[a].rid());
                assert(self.schedules@[b].rid() == pre.schedules@[b].rid());
            }
            assert forall|a: int| 0 <= a < self.schedules@.len() implies 0 < #[trigger] self
                .schedules@[a].rid() < self.next_schedule_id by {
                assert(self.schedules@[a].rid() == pre.schedules@[a].rid());
            }
            assert forall|a: int, b: int| 0 <= a < b < self.todos@.len() implies #[trigger] self
                .todos@[a].rid() != #[trigger] self.todos@[b].rid() by {
                assert(self.todos@[a].rid() == pre.todos@[a].rid());
                assert(self.todos@[b].rid() == pre.todos@[b].rid());
            }
            assert forall|a: int| 0 <= a < self.todos@.len() implies 0 < #[trigger] self
                .todos@[a].rid() < self.next_todo_id by {
                assert(self.todos@[a].rid() == pre.todos@[a].rid());
            }
            assert forall|a: int, b: int| 0 <= a < b < self.transactions@.len() implies #[trigger]
            self.transactions@[a].rid() != #[trigger] self.transactions@[b].rid() by {
                assert(self.transactions@[a].rid() == pre.transactions@[a].rid());
                assert(self.transactions@[b].rid() == pre.transactions@[b].rid());
            }
            assert forall|a: int| 0 <= a < self.transactions@.len() implies 0 < #[trigger] self
                .transactions@[a].rid() < self.next_transaction_id by {
                assert(self.transactions@[a].rid() == pre.transactions@[a].rid());
            }
        }
        count
    }

    /// The distinct non-empty categories, in first-appearance order.
    pub fn get_all_categories(&self) -> (r: Vec<String>)
        ensures
            r@.map_values(|s: String| s@) == spec_distinct_categories(self.memos@),
    {
        let mut r: Vec<String> = Vec::new();
        let mut idx: usize = 0;
        while idx < self.memos.len()
            invariant
                idx <= self.memos@.len(),
                r@.map_values(|s: String| s@) == spec_distinct_categories(
                    self.memos@.subrange(0, idx as int),
                ),
            decreases self.memos@.len() - idx,
        {
            let ghost prefix = self.memos@.subrange(0, idx as int);
            let cat = &self.memos[idx].category;
            if cat.as_str().is_empty() {
            } else if !contains_string(&r, cat.as_str()) {
                r.push(cat.clone());
            }
            proof {
                let next_prefix = self.memos@.subrange(0, idx as int + 1);
                assert(next_prefix.drop_last() =~= prefix);
                assert(next_prefix.last() == self.memos@[idx as int]);
                assert(r@.map_values(|s: String| s@) =~= spec_distinct_categories(next_prefix));
            }
            idx += 1;
        }
        proof {
            assert(self.memos@.subrange(0, self.memos@.len() as int) =~= self.memos@);
        }
        r
    }

    /// Clears the given category from every memo carrying it, returning how
    /// many were touched.
    pub fn delete_category(&mut self, category: &str) -> (count: usize)
        requires
            old(self).wf(),
        ensures
            final(self).wf(),
            count == spec_count_category(old(self).memos@, category@),
            final(self).memos@.len() == old(self).memos@.len(),
            final(self).next_memo_id == old(self).next_memo_id,
            forall|j: int|
                0 <= j < old(self).memos@.len() ==> if old(self).memos@[j].category@ == category@ {
                    final(self).memos@[j].category@.len() == 0 && same_memo_except_category(
                        final(self).memos@[j],
                        old(self).memos@[j],
                    )
                } else {
                    final(self).memos@[j] == old(self).memos@[j]
                },
            same_schedules(old(self), final(self)),
            same_todos(old(self), final(self)),
            same_transactions(old(self), final(self)),
            same_attachments(old(self), final(self)),
            same_beyond_memo_group(old(self), final(self)),
    {
        let ghost pre = self.memos@;
        let mut count: usize = 0;
        let mut idx: usize = 0;
        while idx < self.memos.len()
            invariant
                old(self).wf(),
                idx <= pre.len(),
                self.memos@.len() == pre.len(),
                pre == old(self).memos@,
                same_schedules(old(self), self),
                same_todos(old(self), self),
                same_transactions(old(self), self),
                same_attachments(old(self), self),
                same_beyond_memo_group(old(self), self),
                self.next_memo_id == old(self).next_memo_id,
                count == spec_count_category(pre.subrange(0, idx as int), category@),
                count <= idx,
                forall|j: int|
                    0 <= j < idx ==> if pre[j].category@ == category@ {
                        self.memos@[j].category@.len() == 0 && same_memo_except_category(
                            self.memos@[j],
                            pre[j],
                        )
                    } else {
                        self.memos@[j] == pre[j]
                    },
                forall|j: int| idx <= j < pre.len() ==> self.memos@[j] == pre[j],
            decreases pre.len() - idx,
        {
            let ghost prefix = pre.subrange(0, idx as int);
            if str_eq(self.memos[idx].category.as_str(), category) {
                self.memos[idx].category = String::new();
                count += 1;
            }
            proof {
                let next_prefix = pre.subrange(0, idx as int + 1);
                assert(next_prefix.drop_last() =~= prefix);
                assert(next_prefix.last() == pre[idx as int]);
            }
            idx += 1;
        }
        proof {
            assert(pre.subrange(0, pre.len() as int) =~= pre);
            assert forall|a: int, b: int| 0 <= a < b < self.memos@.len() implies #[trigger] self
                .memos@[a].rid() != #[trigger] self.memos@[b].rid() by {
                assert(pre[a].rid() == self.memos@[a].rid());
                assert(pre[b].rid() == self.memos@[b].rid());
            }
            assert forall|a: int| 0 <= a < self.memos@.len() implies 0 < #[trigger] self
                .memos@[a].rid() < self.next_memo_id by {
                assert(pre[a].rid() == self.memos@[a].rid());
            }
        }
        count
    }

    /// Renames the given category on every memo carrying it, returning how
    /// many were touched.
    pub fn rename_category(&mut self, old_name: &str, new_name: &str) -> (count: usize)
        requires
            old(self).wf(),
        ensures
            final(self).wf(),
            count == spec_count_category(old(self).memos@, old_name@),
            final(self).memos@.len() == old(self).memos@.len(),
            final(self).next_memo_id == old(self).next_memo_id,
            forall|j: int|
                0 <= j < old(self).memos@.len() ==> if old(self).memos@[j].category@ == old_name@ {
                    final(self).memos@[j].category@ == new_name@ && same_memo_except_category(
                        final(self).memos@[j],
                        old(self).memos@[j],
                    )
                } else {
                    final(self).memos@[j] == old(self).memos@[j]
                },
            same_schedules(old(self), final(self)),
            same_todos(old(self), final(self)),
            same_transactions(old(self), final(self)),
            same_attachments(old(self), final(self)),
            same_beyond_memo_group(old(self), final(self)),
    {
        let ghost pre = self.memos@;
        let mut count: usize = 0;
        let mut idx: usize = 0;
        while idx < self.memos.len()
            invariant
                old(self).wf(),
                idx <= pre.len(),
                self.memos@.len() == pre.len(),
                pre == old(self).memos@,
                same_schedules(old(self), self),
                same_todos(old(self), self),
                same_transactions(old(self), self),
                same_attachments(old(self), self),
                same_beyond_memo_group(old(self), self),
                self.next_memo_id == old(self).next_memo_id,
                count == spec_count_category(pre.subrange(0, idx as int), old_name@),
                count <= idx,
                forall|j: int|
                    0 <= j < idx ==> if pre[j].category@ == old_name@ {
                        self.memos@[j].category@ == new_name@ && same_memo_except_category(
                            self.memos@[j],
                            pre[j],
                        )
                    } else {
                        self.memos@[j] == pre[j]
                    },
                forall|j: int| idx <= j < pre.len() ==> self.memos@[j] == pre[j],
            decreases pre.len() - idx,
        {
            let ghost prefix = pre.subrange(0, idx as int);
            if str_eq(self.memos[idx].category.as_str(), old_name) {
                self.memos[idx].category = new_name.to_owned();
                count += 1;
            }
            proof {
                let next_prefix = pre.subrange(0, idx as int + 1);
                assert(next_prefix.drop_last() =~= prefix);
                assert(next_prefix.last() == pre[idx as int]);
            }
            idx += 1;
        }
        proof {
            assert(pre.subrange(0, pre.len() as int) =~= pre);
            assert forall|a: int, b: int| 0 <= a < b < self.memos@.len() implies #[trigger] self
                .memos@[a].rid() != #[trigger] self.memos@[b].rid() by {
                assert(pre[a].rid() == self.memos@[a].rid());
                assert(pre[b].rid() == self.memos@[b].rid());
            }
            assert forall|a: int| 0 <= a < self.memos@.len() implies 0 < #[trigger] self
                .memos@[a].rid() < self.next_memo_id by {
                assert(pre[a].rid() == self.memos@[a].rid());
            }
        }
        count
    }


    /// Inserts `count` numbered sample memos for scroll testing, cycling
    /// through the sample categories and tag lists, and returns the count.
    pub fn insert_test_memos(&mut self, count: i64, now: &str) -> (r: i64)
        requires
            old(self).wf(),
            count >= 0,
            old(self).next_memo_id + count < i64::MAX,
        ensures
            final(self).wf(),
            r == count,
            final(self).memos@.len() == old(self).memos@.len() + count,
            forall|j: int|
                0 <= j < old(self).memos@.len() ==> final(self).memos@[j] == old(self).memos@[j],
            forall|k: int|
                0 <= k < count ==> ({
                    let m = #[trigger] final(self).memos@[old(self).memos@.len() + k];
                    m.title@ == spec_test_title((k + 1) as nat) && m.content@ == spec_test_content(
                        (k + 1) as nat,
                    ) && m.formatted_content@ == spec_test_content((k + 1) as nat) && m.summary@
                        == spec_test_summary((k + 1) as nat) && m.category@ == spec_test_category(
                        k % 10,
                    ) && m.tags@ == spec_test_tags(k % 10) && m.embedding is None
                }),
            final(self).next_memo_id == old(self).next_memo_id + count,
            same_schedules(old(self), final(self)),
            same_todos(old(self), final(self)),
            same_transactions(old(self), final(self)),
            same_attachments(old(self), final(self)),
            same_beyond_memo_group(old(self), final(self)),
    {
        let ghost pre = self.memos@;
        let ghost pre_next = self.next_memo_id;
        let mut i: i64 = 0;
        while i < count
            invariant
                self.wf(),
                0 <= i <= count,
                pre == old(self).memos@,
                pre_next == old(self).next_memo_id,
                pre_next + count < i64::MAX,
                self.memos@.len() == pre.len() + i,
                self.next_memo_id == pre_next + i,
                forall|j: int| 0 <= j < pre.len() ==> self.memos@[j] == pre[j],
                forall|k: int|
                    0 <= k < i ==> ({
                        let m = #[trigger] self.memos@[pre.len() + k];
                        m.title@ == spec_test_title((k + 1) as nat) && m.content@
                            == spec_test_content((k + 1) as nat) && m.formatted_content@
                            == spec_test_content((k + 1) as nat) && m.summary@
                            == spec_test_summary((k + 1) as nat) && m.category@
                            == spec_test_category(k % 10) && m.tags@ == spec_test_tags(k % 10)
                            && m.embedding is None
                    }),
                same_schedules(old(self), self),
                same_todos(old(self), self),
                same_transactions(old(self), self),
                same_attachments(old(self), self),
                same_beyond_memo_group(old(self), self),
            decreases count - i,
        {
            let cat_idx = (i % 10) as usize;
            let n: u128 = i as u128 + 1;
            let digits = crate::mask::u128_digits(n);

            let mut title = crate::text::str_to_chars("테스트 메모 #");
            title.extend_from_slice(digits.as_slice());

            let mut content = crate::text::str_to_chars("이것은 테스트 메모 ");
            content.extend_from_slice(digits.as_slice());
            let content_tail = crate::text::str_to_chars(
                "번입니다.\n\n오늘의 할일:\n- 첫 번째 할일\n- 두 번째 할일\n- 세 번째 할일\n\n이 메모는 무한 스크롤 테스트를 위해 생성되었습니다.",
            );
            content.extend_from_slice(content_tail.as_slice());

            let mut summary = crate::text::str_to_chars("테스트 메모 ");
            summary.extend_from_slice(digits.as_slice());
            let summary_tail = crate::text::str_to_chars(" 요약");
            summary.extend_from_slice(summary_tail.as_slice());

            let content_str = crate::text::chars_to_string(content.as_slice());
            let memo = Memo {
                id: 0,
                title: crate::text::chars_to_string(title.as_slice()),
                content: content_str.clone(),
                formatted_content: content_str,
                summary: crate::text::chars_to_string(summary.as_slice()),
                category: test_category(cat_idx).to_owned(),
                tags: test_tags(cat_idx).to_owned(),
                embedding: None,
                created_at: String::new(),
                updated_at: String::new(),
            };
            self.save_memo(memo, now);
            i += 1;
        }
        count
    }


    /// The question-answering context: every memo's title and formatted
    /// content, in table order.
    pub fn memo_context(&self) -> (r: Vec<(String, String)>)
        ensures
            r@.len() == self.memos@.len(),
            forall|k: int|
                0 <= k < r@.len() ==> (#[trigger] r@[k]).0 == self.memos@[k].title && r@[k].1
                    == self.memos@[k].formatted_content,
    {
        let mut r: Vec<(String, String)> = Vec::new();
        let mut i: usize = 0;
        while i < self.memos.len()
            invariant
                i <= self.memos@.len(),
                r@.len() == i,
                forall|k: int|
                    0 <= k < i ==> (#[trigger] r@[k]).0 == self.memos@[k].title && r@[k].1
                        == self.memos@[k].formatted_content,
            decreases self.memos@.len() - i,
        {
            r.push((self.memos[i].title.clone(), self.memos[i].formatted_content.clone()));
            i += 1;
        }
        r
    }

    /// Inserts a schedule under a fresh key; the stored row takes the
    /// caller's link and fields, and the insertion time.
    pub fn save_schedule(&mut self, schedule: Schedule, now: &str) -> (id: i64)
        requires
            old(self).wf(),
            old(self).next_schedule_id < i64::MAX,
        ensures
            final(self).wf(),
            id == old(self).next_schedule_id,
            final(self).next_schedule_id == old(self).next_schedule_id + 1,
            final(self).schedules@ == old(self).schedules@.push(final(self).schedules@.last()),
            ({
                let s = final(self).schedules@.last();
                s.id == id && s.memo_id == schedule.memo_id && s.title == schedule.title
                    && s.start_time == schedule.start_time && s.end_time == schedule.end_time
                    && s.location == schedule.location && s.description == schedule.description
                    && s.google_event_id == schedule.google_event_id && s.created_at@ == now@
            }),
            same_memos(old(self), final(self)),
            same_todos(old(self), final(self)),
            same_transactions(old(self), final(self)),
            same_attachments(old(self), final(self)),
            same_beyond_memo_group(old(self), final(self)),
    {
        let id = self.next_schedule_id;
        let stored = Schedule {
            id,
            memo_id: schedule.memo_id,
            title: schedule.title,
            start_time: schedule.start_time,
            end_time: schedule.end_time,
            location: schedule.location,
            description: schedule.description,
            google_event_id: schedule.google_event_id,
            created_at: now.to_owned(),
        };
        proof {
            lemma_push_rows_ok(self.schedules@, self.next_schedule_id, stored);
        }
        self.schedules.push(stored);
        self.next_schedule_id = id + 1;
        id
    }

    /// Every schedule, in table order.
    pub fn get_all_schedules(&self) -> (r: &Vec<Schedule>)
        ensures
            r@ == self.schedules@,
    {
        &self.schedules
    }

    /// The memo link of the schedule with the given key, when both exist.
    pub fn get_schedule_memo_id(&self, id: i64) -> (r: Option<i64>)
        ensures
            match spec_find_row(self.schedules@, id, 0) {
                None => r is None,
                Some(i) => r == self.schedules@[i].memo_id,
            },
    {
        match find_row(&self.schedules, id) {
            None => None,
            Some(i) => {
                proof {
                    lemma_find_row_first(self.schedules@, id, 0, i as int);
                }
                self.schedules[i].memo_id
            },
        }
    }

    /// Deletes the schedule with the given key.
    pub fn delete_schedule(&mut self, id: i64)
        requires
            old(self).wf(),
        ensures
            final(self).wf(),
            match spec_find_row(old(self).schedules@, id, 0) {
                None => final(self).schedules@ == old(self).schedules@,
                Some(i) => final(self).schedules@ == old(self).schedules@.remove(i),
            },
            final(self).next_schedule_id == old(self).next_schedule_id,
            same_memos(old(self), final(self)),
            same_todos(old(self), final(self)),
            same_transactions(old(self), final(self)),
            same_attachments(old(self), final(self)),
            same_beyond_memo_group(old(self), final(self)),
    {
        let ghost pre = self.schedules@;
        let _removed = remove_first(&mut self.schedules, id);
        proof {
            match spec_find_row(pre, id, 0) {
                None => {},
                Some(i) => {
                    lemma_find_row_first(pre, id, 0, i);
                    lemma_remove_rows_ok(pre, self.next_schedule_id, i);
                },
            }
        }
    }

    /// Stores the calendar-service event id on the schedule with the given
    /// key.
    pub fn update_schedule_google_id(&mut self, id: i64, google_event_id: &str)
        requires
            old(self).wf(),
        ensures
            final(self).wf(),
            final(self).next_schedule_id == old(self).next_schedule_id,
            final(self).schedules@.len() == old(self).schedules@.len(),
            match spec_find_row(old(self).schedules@, id, 0) {
                None => final(self).schedules@ == old(self).schedules@,
                Some(i) => {
                    &&& forall|j: int|
                        0 <= j < old(self).schedules@.len() && j != i ==> final(self).schedules@[j]
                            == old(self).schedules@[j]
                    &&& ({
                        let s = final(self).schedules@[i];
                        let o = old(self).schedules@[i];
                        s.id == o.id && s.memo_id == o.memo_id && s.title == o.title
                            && s.start_time == o.start_time && s.end_time == o.end_time
                            && s.location == o.location && s.description == o.description
                            && s.created_at == o.created_at && s.google_event_id is Some
                            && s.google_event_id.unwrap()@ == google_event_id@
                    })
                },
            },
            same_memos(old(self), final(self)),
            same_todos(old(self), final(self)),
            same_transactions(old(self), final(self)),
            same_attachments(old(self), final(self)),
            same_beyond_memo_group(old(self), final(self)),
    {
        let ghost pre = self.schedules@;
        match find_row(&self.schedules, id) {
            None => {},
            Some(i) => {
                proof {
                    lemma_find_row_first(self.schedules@, id, 0, i as int);
                }
                self.schedules[i].google_event_id = Some(google_event_id.to_owned());
                proof {
                    assert forall|a: int, b: int| 0 <= a < b < self.schedules@.len() implies #[trigger]
                    self.schedules@[a].rid() != #[trigger] self.schedules@[b].rid() by {
                        assert(pre[a].rid() == self.schedules@[a].rid());
                        assert(pre[b].rid() == self.schedules@[b].rid());
                    }
                    assert forall|a: int| 0 <= a < self.schedules@.len() implies 0 < #[trigger] self
                        .schedules@[a].rid() < self.next_schedule_id by {
                        assert(pre[a].rid() == self.schedules@[a].rid());
                    }
                }
            },
        }
    }

    /// Inserts a todo under a fresh key, keeping the caller's completion
    /// flag and fields, and stamping the insertion time.
    pub fn save_todo(&mut self, todo: Todo, now: &str) -> (id: i64)
        requires
            old(self).wf(),
            old(self).next_todo_id < i64::MAX,
        ensures
            final(self).wf(),
            id == old(self).next_todo_id,
            final(self).next_todo_id == old(self).next_todo_id + 1,
            final(self).todos@ == old(self).todos@.push(final(self).todos@.last()),
            ({
                let t = final(self).todos@.last();
                t.id == id && t.memo_id == todo.memo_id && t.title == todo.title && t.completed
                    == todo.completed && t.priority == todo.priority && t.due_date == todo.due_date
                    && t.created_at@ == now@
            }),
            same_memos(old(self), final(self)),
            same_schedules(old(self), final(self)),
            same_transactions(old(self), final(self)),
            same_attachments(old(self), final(self)),
            same_beyond_memo_group(old(self), final(self)),
    {
        let id = self.next_todo_id;
        let stored = Todo {
            id,
            memo_id: todo.memo_id,
            title: todo.title,
            completed: todo.completed,
            priority: todo.priority,
            due_date: todo.due_date,
            created_at: now.to_owned(),
        };
        proof {
            lemma_push_rows_ok(self.todos@, self.next_todo_id, stored);
        }
        self.todos.push(stored);
        self.next_todo_id = id + 1;
        id
    }

    /// Every todo, in table order.
    pub fn get_all_todos(&self) -> (r: &Vec<Todo>)
        ensures
            r@ == self.todos@,
    {
        &self.todos
    }

    /// Flips the completion flag of the todo with the given key.
    pub fn toggle_todo(&mut self, id: i64)
        requires
            old(self).wf(),
        ensures
            final(self).wf(),
            final(self).next_todo_id == old(self).next_todo_id,
            final(self).todos@.len() == old(self).todos@.len(),
            match spec_find_row(old(self).todos@, id, 0) {
                None => final(self).todos@ == old(self).todos@,
                Some(i) => {
                    &&& forall|j: int|
                        0 <= j < old(self).todos@.len() && j != i ==> final(self).todos@[j] == old(self).todos@[j]
                    &&& ({
                        let t = final(self).todos@[i];
                        let o = old(self).todos@[i];
                        t.id == o.id && t.memo_id == o.memo_id && t.title == o.title && t.priority
                            == o.priority && t.due_date == o.due_date && t.created_at == o.created_at
                            && t.completed == !o.completed
                    })
                },
            },
            same_memos(old(self), final(self)),
            same_schedules(old(self), final(self)),
            same_transactions(old(self), final(self)),
            same_attachments(old(self), final(self)),
            same_beyond_memo_group(old(self), final(self)),
    {
        let ghost pre = self.todos@;
        match find_row(&self.todos, id) {
            None => {},
            Some(i) => {
                proof {
                    lemma_find_row_first(self.todos@, id, 0, i as int);
                }
                let c = self.todos[i].completed;
                self.todos[i].completed = !c;
                proof {
                    assert forall|a: int, b: int| 0 <= a < b < self.todos@.len() implies #[trigger]
                    self.todos@[a].rid() != #[trigger] self.todos@[b].rid() by {
                        assert(pre[a].rid() == self.todos@[a].rid());
                        assert(pre[b].rid() == self.todos@[b].rid());
                    }
                    assert forall|a: int| 0 <= a < self.todos@.len() implies 0 < #[trigger] self
                        .todos@[a].rid() < self.next_todo_id by {
                        assert(pre[a].rid() == self.todos@[a].rid());
                    }
                }
            },
        }
    }

    /// The memo link of the todo with the given key, when both exist.
    pub fn get_todo_memo_id(&self, id: i64) -> (r: Option<i64>)
        ensures
            match spec_find_row(self.todos@, id, 0) {
                None => r is None,
                Some(i) => r == self.todos@[i].memo_id,
            },
    {
        match find_row(&self.todos, id) {
            None => None,
            Some(i) => {
                proof {
                    lemma_find_row_first(self.todos@, id, 0, i as int);
                }
                self.todos[i].memo_id
            },
        }
    }

    /// Deletes the todo with the given key.
    pub fn delete_todo(&mut self, id: i64)
        requires
            old(self).wf(),
        ensures
            final(self).wf(),
            match spec_find_row(old(self).todos@, id, 0) {
                None => final(self).todos@ == old(self).todos@,
                Some(i) => final(self).todos@ == old(self).todos@.remove(i),
            },
            final(self).next_todo_id == old(self).next_todo_id,
            same_memos(old(self), final(self)),
            same_schedules(old(self), final(self)),
            same_transactions(old(self), final(self)),
            same_attachments(old(self), final(self)),
            same_beyond_memo_group(old(self), final(self)),
    {
        let ghost pre = self.todos@;
        let _removed = remove_first(&mut self.todos, id);
        proof {
            match spec_find_row(pre, id, 0) {
                None => {},
                Some(i) => {
                    lemma_find_row_first(pre, id, 0, i);
                    lemma_remove_rows_ok(pre, self.next_todo_id, i);
                },
            }
        }
    }

    /// Inserts a ledger entry under a fresh key, stamping the insertion
    /// time.
    pub fn save_transaction(&mut self, transaction: Transaction, now: &str) -> (id: i64)
        requires
            old(self).wf(),
            old(self).next_transaction_id < i64::MAX,
        ensures
            final(self).wf(),
            id == old(self).next_transaction_id,
            final(self).next_transaction_id == old(self).next_transaction_id + 1,
            final(self).transactions@ == old(self).transactions@.push(
                final(self).transactions@.last(),
            ),
            ({
                let t = final(self).transactions@.last();
                t.id == id && t.memo_id == transaction.memo_id && t.tx_type == transaction.tx_type
                    && t.amount == transaction.amount && t.description == transaction.description
                    && t.category == transaction.category && t.tx_date == transaction.tx_date
                    && t.created_at@ == now@
            }),
            same_memos(old(self), final(self)),
            same_schedules(old(self), final(self)),
            same_todos(old(self), final(self)),
            same_attachments(old(self), final(self)),
            same_beyond_memo_group(old(self), final(self)),
    {
        let id = self.next_transaction_id;
        let stored = Transaction {
            id,
            memo_id: transaction.memo_id,
            tx_type: transaction.tx_type,
            amount: transaction.amount,
            description: transaction.description,
            category: transaction.category,
            tx_date: transaction.tx_date,
            created_at: now.to_owned(),
        };
        proof {
            lemma_push_rows_ok(self.transactions@, self.next_transaction_id, stored);
        }
        self.transactions.push(stored);
        self.next_transaction_id = id + 1;
        id
    }

    /// Every ledger entry, in table order.
    pub fn get_all_transactions(&self) -> (r: &Vec<Transaction>)
        ensures
            r@ == self.transactions@,
    {
        &self.transactions
    }

    /// The memo link of the ledger entry with the given key, when both
    /// exist.
    pub fn get_transaction_memo_id(&self, id: i64) -> (r: Option<i64>)
        ensures
            match spec_find_row(self.transactions@, id, 0) {
                None => r is None,
                Some(i) => r == self.transactions@[i].memo_id,
            },
    {
        match find_row(&self.transactions, id) {
            None => None,
            Some(i) => {
                proof {
                    lemma_find_row_first(self.transactions@, id, 0, i as int);
                }
                self.transactions[i].memo_id
            },
        }
    }

    /// Deletes the ledger entry with the given key.
    pub fn delete_transaction(&mut self, id: i64)
        requires
            old(self).wf(),
        ensures
            final(self).wf(),
            match spec_find_row(old(self).transactions@, id, 0) {
                None => final(self).transactions@ == old(self).transactions@,
                Some(i) => final(self).transactions@ == old(self).transactions@.remove(i),
            },
            final(self).next_transaction_id == old(self).next_transaction_id,
            same_memos(old(self), final(self)),
            same_schedules(old(self), final(self)),
            same_todos(old(self), final(self)),
            same_attachments(old(self), final(self)),
            same_beyond_memo_group(old(self), final(self)),
    {
        let ghost pre = self.transactions@;
        let _removed = remove_first(&mut self.transactions, id);
        proof {
            match spec_find_row(pre, id, 0) {
                None => {},
                Some(i) => {
                    lemma_find_row_first(pre, id, 0, i);
                    lemma_remove_rows_ok(pre, self.next_transaction_id, i);
                },
            }
        }
    }

    /// Rewrites the editable fields of the ledger entry with the given key;
    /// the memo link and the insertion time stand.
    pub fn update_transaction(
        &mut self,
        id: i64,
        tx_type: &str,
        amount: i64,
        description: &str,
        category: Option<&str>,
        tx_date: Option<&str>,
    )
        requires
            old(self).wf(),
        ensures
            final(self).wf(),
            final(self).next_transaction_id == old(self).next_transaction_id,
            final(self).transactions@.len() == old(self).transactions@.len(),
            match spec_find_row(old(self).transactions@, id, 0) {
                None => final(self).transactions@ == old(self).transactions@,
                Some(i) => {
                    &&& forall|j: int|
                        0 <= j < old(self).transactions@.len() && j != i ==> final(self).transactions@[j] == old(self).transactions@[j]
                    &&& ({
                        let t = final(self).transactions@[i];
                        let o = old(self).transactions@[i];
                        t.id == o.id && t.memo_id == o.memo_id && t.created_at == o.created_at
                            && t.tx_type@ == tx_type@ && t.amount == amount && t.description@
                            == description@ && (match category {
                            None => t.category is None,
                            Some(c) => t.category is Some && t.category.unwrap()@ == c@,
                        }) && (match tx_date {
                            None => t.tx_date is None,
                            Some(d) => t.tx_date is Some && t.tx_date.unwrap()@ == d@,
                        })
                    })
                },
            },
            same_memos(old(self), final(self)),
            same_schedules(old(self), final(self)),
            same_todos(old(self), final(self)),
            same_attachments(old(self), final(self)),
            same_beyond_memo_group(old(self), final(self)),
    {
        let ghost pre = self.transactions@;
        match find_row(&self.transactions, id) {
            None => {},
            Some(i) => {
                proof {
                    lemma_find_row_first(self.transactions@, id, 0, i as int);
                }
                self.transactions[i].tx_type = tx_type.to_owned();
                self.transactions[i].amount = amount;
                self.transactions[i].description = description.to_owned();
                self.transactions[i].category = match category {
                    None => None,
                    Some(c) => Some(c.to_owned()),
                };
                self.transactions[i].tx_date = match tx_date {
                    None => None,
                    Some(d) => Some(d.to_owned()),
                };
                proof {
                    assert forall|a: int, b: int| 0 <= a < b < self.transactions@.len() implies #[trigger]
                    self.transactions@[a].rid() != #[trigger] self.transactions@[b].rid() by {
                        assert(pre[a].rid() == self.transactions@[a].rid());
                        assert(pre[b].rid() == self.transactions@[b].rid());
                    }
                    assert forall|a: int| 0 <= a < self.transactions@.len() implies 0 < #[trigger] self
                        .transactions@[a].rid() < self.next_transaction_id by {
                        assert(pre[a].rid() == self.transactions@[a].rid());
                    }
                }
            },
        }
    }

    /// Deletes every schedule linked to the given memo, returning how many
    /// went.
    pub fn delete_schedules_by_memo_id(&mut self, memo_id: i64) -> (count: usize)
        requires
            old(self).wf(),
        ensures
            final(self).wf(),
            final(self).schedules@ == spec_disown(old(self).schedules@, memo_id),
            count == old(self).schedules@.len() - final(self).schedules@.len(),
            final(self).next_schedule_id == old(self).next_schedule_id,
            same_memos(old(self), final(self)),
            same_todos(old(self), final(self)),
            same_transactions(old(self), final(self)),
            same_attachments(old(self), final(self)),
            same_beyond_memo_group(old(self), final(self)),
    {
        let before = self.schedules.len();
        proof {
            lemma_disown_rows_ok(self.schedules@, memo_id, self.next_schedule_id);
        }
        remove_owned(&mut self.schedules, memo_id);
        before - self.schedules.len()
    }

    /// Deletes every todo linked to the given memo, returning how many went.
    pub fn delete_todos_by_memo_id(&mut self, memo_id: i64) -> (count: usize)
        requires
            old(self).wf(),
        ensures
            final(self).wf(),
            final(self).todos@ == spec_disown(old(self).todos@, memo_id),
            count == old(self).todos@.len() - final(self).todos@.len(),
            final(self).next_todo_id == old(self).next_todo_id,
            same_memos(old(self), final(self)),
            same_schedules(old(self), final(self)),
            same_transactions(old(self), final(self)),
            same_attachments(old(self), final(self)),
            same_beyond_memo_group(old(self), final(self)),
    {
        let before = self.todos.len();
        proof {
            lemma_disown_rows_ok(self.todos@, memo_id, self.next_todo_id);
        }
        remove_owned(&mut self.todos, memo_id);
        before - self.todos.len()
    }

    /// Deletes every ledger entry linked to the given memo, returning how
    /// many went.
    pub fn delete_transactions_by_memo_id(&mut self, memo_id: i64) -> (count: usize)
        requires
            old(self).wf(),
        ensures
            final(self).wf(),
            final(self).transactions@ == spec_disown(old(self).transactions@, memo_id),
            count == old(self).transactions@.len() - final(self).transactions@.len(),
            final(self).next_transaction_id == old(self).next_transaction_id,
            same_memos(old(self), final(self)),
            same_schedules(old(self), final(self)),
            same_todos(old(self), final(self)),
            same_attachments(old(self), final(self)),
            same_beyond_memo_group(old(self), final(self)),
    {
        let before = self.transactions.len();
        proof {
            lemma_disown_rows_ok(self.transactions@, memo_id, self.next_transaction_id);
        }
        remove_owned(&mut self.transactions, memo_id);
        before - self.transactions.len()
    }

    /// Inserts an attachment under a fresh key, stamping the insertion time.
    pub fn save_attachment(&mut self, attachment: Attachment, now: &str) -> (id: i64)
        requires
            old(self).wf(),
            old(self).next_attachment_id < i64::MAX,
        ensures
            final(self).wf(),
            id == old(self).next_attachment_id,
            final(self).next_attachment_id == old(self).next_attachment_id + 1,
            final(self).attachments@ == old(self).attachments@.push(
                final(self).attachments@.last(),
            ),
            ({
                let a = final(self).attachments@.last();
                a.id == id && a.memo_id == attachment.memo_id && a.file_name
                    == attachment.file_name && a.file_path == attachment.file_path
                    && a.original_path == attachment.original_path && a.is_copy
                    == attachment.is_copy && a.file_size == attachment.file_size && a.created_at@
                    == now@
            }),
            same_memos(old(self), final(self)),
            same_schedules(old(self), final(self)),
            same_todos(old(self), final(self)),
            same_transactions(old(self), final(self)),
            same_beyond_memo_group(old(self), final(self)),
    {
        let id = self.next_attachment_id;
        let stored = Attachment {
            id,
            memo_id: attachment.memo_id,
            file_name: attachment.file_name,
            file_path: attachment.file_path,
            original_path: attachment.original_path,
            is_copy: attachment.is_copy,
            file_size: attachment.file_size,
            created_at: now.to_owned(),
        };
        proof {
            lemma_push_rows_ok(self.attachments@, self.next_attachment_id, stored);
        }
        self.attachments.push(stored);
        self.next_attachment_id = id + 1;
        id
    }

    /// The indices of the attachments of one memo, in table order.
    pub fn get_attachments_by_memo(&self, memo_id: i64) -> (r: Vec<usize>)
        ensures
            r@.map_values(|u: usize| u as int) == crate::table::spec_owned_indices(
                self.attachments@,
                memo_id,
            ),
    {
        crate::table::owned_indices(&self.attachments, memo_id)
    }

    /// Every attachment, in table order.
    pub fn get_all_attachments(&self) -> (r: &Vec<Attachment>)
        ensures
            r@ == self.attachments@,
    {
        &self.attachments
    }

    /// Deletes the attachment with the given key, handing the removed row
    /// back so its file can be removed too.
    pub fn delete_attachment(&mut self, id: i64) -> (removed: Option<Attachment>)
        requires
            old(self).wf(),
        ensures
            final(self).wf(),
            match spec_find_row(old(self).attachments@, id, 0) {
                None => final(self).attachments@ == old(self).attachments@ && removed is None,
                Some(i) => final(self).attachments@ == old(self).attachments@.remove(i) && removed
                    == Some(old(self).attachments@[i]),
            },
            final(self).next_attachment_id == old(self).next_attachment_id,
            same_memos(old(self), final(self)),
            same_schedules(old(self), final(self)),
            same_todos(old(self), final(self)),
            same_transactions(old(self), final(self)),
            same_beyond_memo_group(old(self), final(self)),
    {
        let ghost pre = self.attachments@;
        let removed = remove_first(&mut self.attachments, id);
        proof {
            match spec_find_row(pre, id, 0) {
                None => {},
                Some(i) => {
                    lemma_find_row_first(pre, id, 0, i);
                    lemma_remove_rows_ok(pre, self.next_attachment_id, i);
                },
            }
        }
        removed
    }

    /// The indices of the attachments whose file name holds the query, case
    /// folded as SQL's LIKE folds ASCII, in table order.
    pub fn search_attachments(&self, query: &str) -> (r: Vec<usize>)
        ensures
            r@.map_values(|u: usize| u as int) == spec_attachment_match_indices(
                self.attachments@,
                query@,
            ),
    {
        let qc = str_to_chars(query);
        let qlow = lower_chars(qc.as_slice());
        proof {
            assert forall|c: char| #[trigger]
                crate::text::spec_lower_char(crate::text::spec_lower_char(c))
                    == crate::text::spec_lower_char(c) by {}
            assert(spec_lower(qlow@) =~= qlow@);
        }
        let mut r: Vec<usize> = Vec::new();
        let mut idx: usize = 0;
        while idx < self.attachments.len()
            invariant
                idx <= self.attachments@.len(),
                qlow@ == spec_lower(query@),
                spec_lower(qlow@) == qlow@,
                r@.map_values(|u: usize| u as int) == spec_attachment_match_indices(
                    self.attachments@.subrange(0, idx as int),
                    query@,
                ),
            decreases self.attachments@.len() - idx,
        {
            let ghost prefix = self.attachments@.subrange(0, idx as int);
            let hit = contains_ci(self.attachments[idx].file_name.as_str(), qlow.as_slice());
            proof {
                assert(spec_contains_ci(self.attachments@[idx as int].file_name@, qlow@)
                    == spec_contains_ci(self.attachments@[idx as int].file_name@, query@));
            }
            if hit {
                r.push(idx);
            }
            proof {
                let next_prefix = self.attachments@.subrange(0, idx as int + 1);
                assert(next_prefix.drop_last() =~= prefix);
                assert(next_prefix.last() == self.attachments@[idx as int]);
                assert(r@.map_values(|u: usize| u as int) =~= spec_attachment_match_indices(
                    next_prefix,
                    query@,
                ));
            }
            idx += 1;
        }
        proof {
            assert(self.attachments@.subrange(0, self.attachments@.len() as int)
                =~= self.attachments@);
        }
        r
    }

    /// Deletes every attachment of one memo and hands the removed rows back,
    /// in table order, so their files can be removed too.
    pub fn get_and_delete_attachments_by_memo(&mut self, memo_id: i64) -> (removed: Vec<
        Attachment,
    >)
        requires
            old(self).wf(),
        ensures
            final(self).wf(),
            final(self).attachments@ == spec_disown(old(self).attachments@, memo_id),
            removed@ == crate::table::spec_owned_rows(old(self).attachments@, memo_id),
            final(self).next_attachment_id == old(self).next_attachment_id,
            same_memos(old(self), final(self)),
            same_schedules(old(self), final(self)),
            same_todos(old(self), final(self)),
            same_transactions(old(self), final(self)),
            same_beyond_memo_group(old(self), final(self)),
    {
        proof {
            lemma_disown_rows_ok(self.attachments@, memo_id, self.next_attachment_id);
        }
        crate::table::take_owned(&mut self.attachments, memo_id)
    }

    /// Inserts a dataset under a fresh key with no rows yet.
    pub fn save_dataset(&mut self, name: &str, description: &str, columns: Vec<String>, now: &str) -> (id: i64)
        requires
            old(self).wf(),
            old(self).next_dataset_id < i64::MAX,
        ensures
            final(self).wf(),
            id == old(self).next_dataset_id,
            final(self).next_dataset_id == old(self).next_dataset_id + 1,
            final(self).datasets@ == old(self).datasets@.push(final(self).datasets@.last()),
            ({
                let d = final(self).datasets@.last();
                d.id == id && d.name@ == name@ && d.description@ == description@ && d.columns
                    == columns && d.row_count == 0 && d.created_at@ == now@
            }),
            final(self).dataset_rows == old(self).dataset_rows,
            final(self).next_dataset_row_id == old(self).next_dataset_row_id,
            same_memos(old(self), final(self)),
            same_schedules(old(self), final(self)),
            same_todos(old(self), final(self)),
            same_transactions(old(self), final(self)),
            same_attachments(old(self), final(self)),
            same_settings(old(self), final(self)),
            same_secret_keys(old(self), final(self)),
            same_postits(old(self), final(self)),
            same_alarms(old(self), final(self)),
            same_api_usage(old(self), final(self)),
    {
        let id = self.next_dataset_id;
        let stored = Dataset {
            id,
            name: name.to_owned(),
            description: description.to_owned(),
            columns,
            row_count: 0,
            created_at: now.to_owned(),
        };
        proof {
            lemma_push_rows_ok(self.datasets@, self.next_dataset_id, stored);
        }
        self.datasets.push(stored);
        self.next_dataset_id = id + 1;
        id
    }

    /// Inserts the rows of a dataset, numbering them from 0, and records the
    /// row count on the dataset; the count of inserted rows is returned.
    pub fn save_dataset_rows(&mut self, dataset_id: i64, rows: Vec<Vec<String>>) -> (count: i64)
        requires
            old(self).wf(),
            old(self).next_dataset_row_id + old(self).dataset_rows@.len() < i64::MAX,
            rows@.len() <= old(self).dataset_rows@.len() || old(self).next_dataset_row_id
                + rows@.len() < i64::MAX,
        ensures
            final(self).wf(),
            count == rows@.len(),
            final(self).dataset_rows@.len() == old(self).dataset_rows@.len() + rows@.len(),
            forall|j: int|
                0 <= j < old(self).dataset_rows@.len() ==> final(self).dataset_rows@[j] == old(self).dataset_rows@[j],
            forall|k: int|
                0 <= k < rows@.len() ==> ({
                    let dr = #[trigger] final(self).dataset_rows@[old(self).dataset_rows@.len()
                        + k];
                    dr.id == old(self).next_dataset_row_id + k && dr.dataset_id == dataset_id
                        && dr.row_index == k && dr.data == rows@[k]
                }),
            final(self).next_dataset_row_id == old(self).next_dataset_row_id + rows@.len(),
            final(self).datasets@.len() == old(self).datasets@.len(),
            final(self).next_dataset_id == old(self).next_dataset_id,
            match spec_find_row(old(self).datasets@, dataset_id, 0) {
                None => final(self).datasets@ == old(self).datasets@,
                Some(i) => {
                    &&& forall|j: int|
                        0 <= j < old(self).datasets@.len() && j != i ==> final(self).datasets@[j] == old(self).datasets@[j]
                    &&& ({
                        let d = final(self).datasets@[i];
                        let o = old(self).datasets@[i];
                        d.id == o.id && d.name == o.name && d.description == o.description
                            && d.columns == o.columns && d.created_at == o.created_at
                            && d.row_count == rows@.len()
                    })
                },
            },
            same_memos(old(self), final(self)),
            same_schedules(old(self), final(self)),
            same_todos(old(self), final(self)),
            same_transactions(old(self), final(self)),
            same_attachments(old(self), final(self)),
            same_settings(old(self), final(self)),
            same_secret_keys(old(self), final(self)),
            same_postits(old(self), final(self)),
            same_alarms(old(self), final(self)),
            same_api_usage(old(self), final(self)),
    {
        let ghost orig_rows = rows@;
        let ghost pre_rows = self.dataset_rows@;
        let ghost pre_next = self.next_dataset_row_id;
        let total = rows.len();
        let mut rows = rows;
        let mut k: usize = 0;
        proof {
            assert(orig_rows.subrange(0, orig_rows.len() as int) =~= orig_rows);
        }
        while rows.len() > 0
            invariant
                old(self).wf(),
                k + rows@.len() == total,
                total == orig_rows.len(),
                rows@ =~= orig_rows.subrange(k as int, orig_rows.len() as int),
                pre_rows == old(self).dataset_rows@,
                pre_next == old(self).next_dataset_row_id,
                pre_next + pre_rows.len() < i64::MAX,
                total <= pre_rows.len() || pre_next + total < i64::MAX,
                self.dataset_rows@.len() == pre_rows.len() + k,
                self.next_dataset_row_id == pre_next + k,
                rows_ok(self.dataset_rows@, self.next_dataset_row_id),
                forall|j: int| 0 <= j < pre_rows.len() ==> self.dataset_rows@[j] == pre_rows[j],
                forall|m: int|
                    0 <= m < k ==> ({
                        let dr = #[trigger] self.dataset_rows@[pre_rows.len() + m];
                        dr.id == pre_next + m && dr.dataset_id == dataset_id && dr.row_index == m
                            && dr.data == orig_rows[m]
                    }),
                same_memos(old(self), self),
                same_schedules(old(self), self),
                same_todos(old(self), self),
                same_transactions(old(self), self),
                same_attachments(old(self), self),
                same_settings(old(self), self),
                same_secret_keys(old(self), self),
                same_postits(old(self), self),
                same_alarms(old(self), self),
                same_api_usage(old(self), self),
                self.datasets == old(self).datasets,
                self.next_dataset_id == old(self).next_dataset_id,
            decreases rows@.len(),
    {
            let row = rows.remove(0);
            proof {
                assert(row == orig_rows[k as int]);
            }
            let rid = self.next_dataset_row_id;
            let stored = DatasetRow { id: rid, dataset_id, row_index: k as i64, data: row };
            proof {
                lemma_push_rows_ok(self.dataset_rows@, self.next_dataset_row_id, stored);
            }
            self.dataset_rows.push(stored);
            self.next_dataset_row_id = rid + 1;
            k += 1;
            proof {
                assert(rows@ =~= orig_rows.subrange(k as int, orig_rows.len() as int));
            }
        }
        let ghost pre_ds = self.datasets@;
        match find_row(&self.datasets, dataset_id) {
            None => {},
            Some(i) => {
                proof {
                    lemma_find_row_first(self.datasets@, dataset_id, 0, i as int);
                }
                self.datasets[i].row_count = total as i64;
                proof {
                    assert forall|a: int, b: int| 0 <= a < b < self.datasets@.len() implies #[trigger]
                    self.datasets@[a].rid() != #[trigger] self.datasets@[b].rid() by {
                        assert(pre_ds[a].rid() == self.datasets@[a].rid());
                        assert(pre_ds[b].rid() == self.datasets@[b].rid());
                    }
                    assert forall|a: int| 0 <= a < self.datasets@.len() implies 0 < #[trigger] self
                        .datasets@[a].rid() < self.next_dataset_id by {
                        assert(pre_ds[a].rid() == self.datasets@[a].rid());
                    }
                }
            },
        }
        total as i64
    }

    /// Every dataset, in table order.
    pub fn get_all_datasets(&self) -> (r: &Vec<Dataset>)
        ensures
            r@ == self.datasets@,
    {
        &self.datasets
    }

    /// The dataset with the given key.
    pub fn get_dataset(&self, id: i64) -> (r: Option<&Dataset>)
        ensures
            match spec_find_row(self.datasets@, id, 0) {
                None => r is None,
                Some(i) => r is Some && *r.unwrap() == self.datasets@[i],
            },
    {
        match find_row(&self.datasets, id) {
            None => None,
            Some(i) => {
                proof {
                    lemma_find_row_first(self.datasets@, id, 0, i as int);
                }
                Some(&self.datasets[i])
            },
        }
    }

    /// The indices of every row of one dataset, in table order.
    pub fn get_all_dataset_rows(&self, dataset_id: i64) -> (r: Vec<usize>)
        ensures
            r@.map_values(|u: usize| u as int) == crate::table::spec_owned_indices(
                self.dataset_rows@,
                dataset_id,
            ),
    {
        crate::table::owned_indices(&self.dataset_rows, dataset_id)
    }

    /// Every stored spreadsheet row, in table order.
    pub fn get_all_dataset_rows_raw(&self) -> (r: &Vec<DatasetRow>)
        ensures
            r@ == self.dataset_rows@,
    {
        &self.dataset_rows
    }

    /// The indices of a page of one dataset's rows: up to `limit` rows
    /// starting `offset` into the dataset's rows, in table order.
    pub fn get_dataset_rows(&self, dataset_id: i64, offset: i64, limit: i64) -> (r: Vec<usize>)
        requires
            self.wf(),
            offset >= 0,
            limit >= 0,
        ensures
            ({
                let all = crate::table::spec_owned_indices(self.dataset_rows@, dataset_id);
                r@.map_values(|u: usize| u as int) == if offset >= all.len() {
                    Seq::<int>::empty()
                } else if offset + limit >= all.len() {
                    all.subrange(offset as int, all.len() as int)
                } else {
                    all.subrange(offset as int, offset + limit)
                }
            }),
    {
        let all = crate::table::owned_indices(&self.dataset_rows, dataset_id);
        let ghost allv = all@.map_values(|u: usize| u as int);
        let n = all.len();
        let mut r: Vec<usize> = Vec::new();
        let mut j: usize = 0;
        while j < n
            invariant
                self.wf(),
                n == all@.len(),
                n <= self.dataset_rows@.len(),
                allv == all@.map_values(|u: usize| u as int),
                j <= n,
                offset >= 0,
                limit >= 0,
                r@.map_values(|u: usize| u as int) =~= if offset >= j {
                    Seq::<int>::empty()
                } else if offset + limit >= j {
                    allv.subrange(offset as int, j as int)
                } else {
                    allv.subrange(offset as int, offset + limit)
                },
            decreases n - j,
        {
            let ghost pre_map = r@.map_values(|u: usize| u as int);
            let j64 = j as i64;
            if j64 >= offset && (j64 - offset) < limit {
                r.push(all[j]);
                proof {
                    assert(r@.map_values(|u: usize| u as int) =~= pre_map.push(allv[j as int]));
                }
            }
            proof {
                assert(r@.map_values(|u: usize| u as int) =~= (if offset >= j + 1 {
                    Seq::<int>::empty()
                } else if offset + limit >= j + 1 {
                    allv.subrange(offset as int, j + 1)
                } else {
                    allv.subrange(offset as int, offset + limit)
                }));
            }
            j += 1;
        }
        r
    }

    /// Deletes the dataset with the given key and, as the schema's cascade
    /// declares, every row it owns.
    pub fn delete_dataset(&mut self, id: i64)
        requires
            old(self).wf(),
        ensures
            final(self).wf(),
            match spec_find_row(old(self).datasets@, id, 0) {
                None => final(self).datasets@ == old(self).datasets@,
                Some(i) => final(self).datasets@ == old(self).datasets@.remove(i),
            },
            final(self).dataset_rows@ == spec_disown(old(self).dataset_rows@, id),
            final(self).next_dataset_id == old(self).next_dataset_id,
            final(self).next_dataset_row_id == old(self).next_dataset_row_id,
            same_memos(old(self), final(self)),
            same_schedules(old(self), final(self)),
            same_todos(old(self), final(self)),
            same_transactions(old(self), final(self)),
            same_attachments(old(self), final(self)),
            same_settings(old(self), final(self)),
            same_secret_keys(old(self), final(self)),
            same_postits(old(self), final(self)),
            same_alarms(old(self), final(self)),
            same_api_usage(old(self), final(self)),
    {
        let ghost pre = self.datasets@;
        proof {
            lemma_disown_rows_ok(self.dataset_rows@, id, self.next_dataset_row_id);
        }
        remove_owned(&mut self.dataset_rows, id);
        let _removed = remove_first(&mut self.datasets, id);
        proof {
            match spec_find_row(pre, id, 0) {
                None => {},
                Some(i) => {
                    lemma_find_row_first(pre, id, 0, i);
                    lemma_remove_rows_ok(pre, self.next_dataset_id, i);
                },
            }
        }
    }

    /// The indices of one dataset's rows in which some cell holds the query,
    /// case folded as SQL's LIKE folds ASCII, in table order.
    pub fn search_dataset_rows(&self, dataset_id: i64, search_text: &str) -> (r: Vec<usize>)
        ensures
            r@.map_values(|u: usize| u as int) == spec_dataset_row_match_indices(
                self.dataset_rows@,
                dataset_id,
                search_text@,
            ),
    {
        let qc = str_to_chars(search_text);
        let qlow = lower_chars(qc.as_slice());
        proof {
            assert forall|c: char| #[trigger]
                crate::text::spec_lower_char(crate::text::spec_lower_char(c))
                    == crate::text::spec_lower_char(c) by {}
            assert(spec_lower(qlow@) =~= qlow@);
        }
        let mut r: Vec<usize> = Vec::new();
        let mut idx: usize = 0;
        while idx < self.dataset_rows.len()
            invariant
                idx <= self.dataset_rows@.len(),
                qlow@ == spec_lower(search_text@),
                spec_lower(qlow@) == qlow@,
                r@.map_values(|u: usize| u as int) == spec_dataset_row_match_indices(
                    self.dataset_rows@.subrange(0, idx as int),
                    dataset_id,
                    search_text@,
                ),
            decreases self.dataset_rows@.len() - idx,
        {
            let ghost prefix = self.dataset_rows@.subrange(0, idx as int);
            let row = &self.dataset_rows[idx];
            let hit = row.dataset_id == dataset_id && row_matches(row, qlow.as_slice(), Ghost(search_text@));
            if hit {
                r.push(idx);
            }
            proof {
                let next_prefix = self.dataset_rows@.subrange(0, idx as int + 1);
                assert(next_prefix.drop_last() =~= prefix);
                assert(next_prefix.last() == self.dataset_rows@[idx as int]);
                assert(r@.map_values(|u: usize| u as int) =~= spec_dataset_row_match_indices(
                    next_prefix,
                    dataset_id,
                    search_text@,
                ));
            }
            idx += 1;
        }
        proof {
            assert(self.dataset_rows@.subrange(0, self.dataset_rows@.len() as int)
                =~= self.dataset_rows@);
        }
        r
    }

    /// Inserts a credential under a fresh key; the value is stored
    /// encrypted, as an envelope of the given plaintext.
    pub fn save_secret_key(&mut self, vault: &Vault, key: SecretKey, now: &str) -> (id: i64)
        requires
            old(self).wf(),
            old(self).next_secret_id < i64::MAX,
            vault.wf(),
            vstd::utf8::encode_utf8(key.key_value@).len() <= GCM_P_MAX,
        ensures
            final(self).wf(),
            id == old(self).next_secret_id,
            final(self).next_secret_id == old(self).next_secret_id + 1,
            final(self).secret_keys@ == old(self).secret_keys@.push(
                final(self).secret_keys@.last(),
            ),
            ({
                let k = final(self).secret_keys@.last();
                k.id == id && k.key_name == key.key_name && k.key_type == key.key_type
                    && k.provider == key.provider && k.provider_url == key.provider_url
                    && k.description == key.description && k.issued_date == key.issued_date
                    && k.expires_at == key.expires_at && k.created_at@ == now@ && (exists|
                    nonce: Seq<u8>,
                |
                    is_envelope_for(vault.spec_key(), nonce, key.key_value@, k.key_value@))
            }),
            same_memos(old(self), final(self)),
            same_schedules(old(self), final(self)),
            same_todos(old(self), final(self)),
            same_transactions(old(self), final(self)),
            same_attachments(old(self), final(self)),
            same_settings(old(self), final(self)),
            same_datasets(old(self), final(self)),
            same_postits(old(self), final(self)),
            same_alarms(old(self), final(self)),
            same_api_usage(old(self), final(self)),
    {
        let id = self.next_secret_id;
        let encrypted = vault.encrypt_value(key.key_value.as_str());
        let ghost env = encrypted@;
        let ghost pt = key.key_value@;
        let stored = SecretKey {
            id,
            key_name: key.key_name,
            key_value: encrypted,
            key_type: key.key_type,
            provider: key.provider,
            provider_url: key.provider_url,
            description: key.description,
            issued_date: key.issued_date,
            expires_at: key.expires_at,
            created_at: now.to_owned(),
        };
        proof {
            lemma_push_rows_ok(self.secret_keys@, self.next_secret_id, stored);
            let nonce = choose|nonce: Seq<u8>| is_envelope_for(vault.spec_key(), nonce, pt, env);
            assert(is_envelope_for(vault.spec_key(), nonce, pt, stored.key_value@));
        }
        self.secret_keys.push(stored);
        self.next_secret_id = id + 1;
        id
    }

    /// Every credential, in table order, with each value run through the
    /// vault; a value the cipher refuses is shown as stored, unchanged.
    pub fn get_all_secret_keys(&self, vault: &Vault) -> (r: Vec<SecretKey>)
        requires
            vault.wf(),
        ensures
            r@.len() == self.secret_keys@.len(),
            forall|i: int|
                0 <= i < r@.len() ==> spec_shows(
                    vault.spec_key(),
                    self.secret_keys@[i],
                    #[trigger] r@[i],
                ),
    {
        let mut r: Vec<SecretKey> = Vec::new();
        let mut idx: usize = 0;
        while idx < self.secret_keys.len()
            invariant
                vault.wf(),
                idx <= self.secret_keys@.len(),
                r@.len() == idx,
                forall|i: int|
                    0 <= i < idx ==> spec_shows(
                        vault.spec_key(),
                        self.secret_keys@[i],
                        #[trigger] r@[i],
                    ),
            decreases self.secret_keys@.len() - idx,
        {
            r.push(decrypted_copy(vault, &self.secret_keys[idx]));
            idx += 1;
        }
        r
    }

    /// Rewrites the credential with the given key; the value is stored
    /// encrypted, as an envelope of the given plaintext.
    pub fn update_secret_key(
        &mut self,
        vault: &Vault,
        id: i64,
        key_name: &str,
        key_value: &str,
        key_type: &str,
        provider: &str,
        provider_url: Option<&str>,
        description: Option<&str>,
        issued_date: &str,
        expires_at: Option<&str>,
    )
        requires
            old(self).wf(),
            vault.wf(),
            vstd::utf8::encode_utf8(key_value@).len() <= GCM_P_MAX,
        ensures
            final(self).wf(),
            final(self).next_secret_id == old(self).next_secret_id,
            final(self).secret_keys@.len() == old(self).secret_keys@.len(),
            match spec_find_row(old(self).secret_keys@, id, 0) {
                None => final(self).secret_keys@ == old(self).secret_keys@,
                Some(i) => {
                    &&& forall|j: int|
                        0 <= j < old(self).secret_keys@.len() && j != i ==> final(self).secret_keys@[j] == old(self).secret_keys@[j]
                    &&& ({
                        let k = final(self).secret_keys@[i];
                        let o = old(self).secret_keys@[i];
                        k.id == o.id && k.created_at == o.created_at && k.key_name@ == key_name@
                            && k.key_type@ == key_type@ && k.provider@ == provider@
                            && k.issued_date@ == issued_date@ && (match provider_url {
                            None => k.provider_url is None,
                            Some(u) => k.provider_url is Some && k.provider_url.unwrap()@ == u@,
                        }) && (match description {
                            None => k.description is None,
                            Some(d) => k.description is Some && k.description.unwrap()@ == d@,
                        }) && (match expires_at {
                            None => k.expires_at is None,
                            Some(e) => k.expires_at is Some && k.expires_at.unwrap()@ == e@,
                        }) && (exists|nonce: Seq<u8>|
                            is_envelope_for(vault.spec_key(), nonce, key_value@, k.key_value@))
                    })
                },
            },
            same_memos(old(self), final(self)),
            same_schedules(old(self), final(self)),
            same_todos(old(self), final(self)),
            same_transactions(old(self), final(self)),
            same_attachments(old(self), final(self)),
            same_settings(old(self), final(self)),
            same_datasets(old(self), final(self)),
            same_postits(old(self), final(self)),
            same_alarms(old(self), final(self)),
            same_api_usage(old(self), final(self)),
    {
        let ghost pre = self.secret_keys@;
        match find_row(&self.secret_keys, id) {
            None => {},
            Some(i) => {
                proof {
                    lemma_find_row_first(self.secret_keys@, id, 0, i as int);
                }
                let encrypted = vault.encrypt_value(key_value);
                let ghost env = encrypted@;
                self.secret_keys[i].key_name = key_name.to_owned();
                self.secret_keys[i].key_value = encrypted;
                self.secret_keys[i].key_type = key_type.to_owned();
                self.secret_keys[i].provider = provider.to_owned();
                self.secret_keys[i].provider_url = match provider_url {
                    None => None,
                    Some(u) => Some(u.to_owned()),
                };
                self.secret_keys[i].description = match description {
                    None => None,
                    Some(d) => Some(d.to_owned()),
                };
                self.secret_keys[i].issued_date = issued_date.to_owned();
                self.secret_keys[i].expires_at = match expires_at {
                    None => None,
                    Some(e) => Some(e.to_owned()),
                };
                proof {
                    assert(self.secret_keys@[i as int].key_value@ == env);
                    let nonce = choose|nonce: Seq<u8>|
                        is_envelope_for(vault.spec_key(), nonce, key_value@, env);
                    assert(is_envelope_for(
                        vault.spec_key(),
                        nonce,
                        key_value@,
                        self.secret_keys@[i as int].key_value@,
                    ));
                    assert forall|a: int, b: int| 0 <= a < b < self.secret_keys@.len() implies #[trigger]
                    self.secret_keys@[a].rid() != #[trigger] self.secret_keys@[b].rid() by {
                        assert(pre[a].rid() == self.secret_keys@[a].rid());
                        assert(pre[b].rid() == self.secret_keys@[b].rid());
                    }
                    assert forall|a: int| 0 <= a < self.secret_keys@.len() implies 0 < #[trigger] self
                        .secret_keys@[a].rid() < self.next_secret_id by {
                        assert(pre[a].rid() == self.secret_keys@[a].rid());
                    }
                }
            },
        }
    }

    /// Deletes the credential with the given key.
    pub fn delete_secret_key(&mut self, id: i64)
        requires
            old(self).wf(),
        ensures
            final(self).wf(),
            match spec_find_row(old(self).secret_keys@, id, 0) {
                None => final(self).secret_keys@ == old(self).secret_keys@,
                Some(i) => final(self).secret_keys@ == old(self).secret_keys@.remove(i),
            },
            final(self).next_secret_id == old(self).next_secret_id,
            same_memos(old(self), final(self)),
            same_schedules(old(self), final(self)),
            same_todos(old(self), final(self)),
            same_transactions(old(self), final(self)),
            same_attachments(old(self), final(self)),
            same_settings(old(self), final(self)),
            same_datasets(old(self), final(self)),
            same_postits(old(self), final(self)),
            same_alarms(old(self), final(self)),
            same_api_usage(old(self), final(self)),
    {
        let ghost pre = self.secret_keys@;
        let _removed = remove_first(&mut self.secret_keys, id);
        proof {
            match spec_find_row(pre, id, 0) {
                None => {},
                Some(i) => {
                    lemma_find_row_first(pre, id, 0, i);
                    lemma_remove_rows_ok(pre, self.next_secret_id, i);
                },
            }
        }
    }

    /// The credentials of one provider, in table order, with each value run
    /// through the vault.
    pub fn get_secret_keys_by_provider(&self, vault: &Vault, provider: &str) -> (r: Vec<SecretKey>)
        requires
            vault.wf(),
        ensures
            ({
                let idxs = spec_provider_indices(self.secret_keys@, provider@);
                r@.len() == idxs.len() && forall|k: int|
                    0 <= k < r@.len() ==> spec_shows(
                        vault.spec_key(),
                        self.secret_keys@[idxs[k]],
                        #[trigger] r@[k],
                    )
            }),
    {
        let mut r: Vec<SecretKey> = Vec::new();
        let mut idx: usize = 0;
        while idx < self.secret_keys.len()
            invariant
                vault.wf(),
                idx <= self.secret_keys@.len(),
                ({
                    let idxs = spec_provider_indices(
                        self.secret_keys@.subrange(0, idx as int),
                        provider@,
                    );
                    r@.len() == idxs.len() && forall|k: int|
                        0 <= k < r@.len() ==> spec_shows(
                            vault.spec_key(),
                            self.secret_keys@[idxs[k]],
                            #[trigger] r@[k],
                        )
                }),
            decreases self.secret_keys@.len() - idx,
        {
            let ghost prefix = self.secret_keys@.subrange(0, idx as int);
            if str_eq(self.secret_keys[idx].provider.as_str(), provider) {
                r.push(decrypted_copy(vault, &self.secret_keys[idx]));
            }
            proof {
                let next_prefix = self.secret_keys@.subrange(0, idx as int + 1);
                assert(next_prefix.drop_last() =~= prefix);
                assert(next_prefix.last() == self.secret_keys@[idx as int]);
                let idxs2 = spec_provider_indices(next_prefix, provider@);
                assert forall|k: int| 0 <= k < r@.len() implies spec_shows(
                    vault.spec_key(),
                    self.secret_keys@[idxs2[k]],
                    #[trigger] r@[k],
                ) by {
                    let idxs = spec_provider_indices(prefix, provider@);
                    if k < idxs.len() {
                        assert(idxs2[k] == idxs[k]);
                    }
                }
            }
            idx += 1;
        }
        proof {
            assert(self.secret_keys@.subrange(0, self.secret_keys@.len() as int)
                =~= self.secret_keys@);
        }
        r
    }

    /// The credentials of one type, in table order, with each value run
    /// through the vault.
    pub fn get_secret_keys_by_type(&self, vault: &Vault, key_type: &str) -> (r: Vec<SecretKey>)
        requires
            vault.wf(),
        ensures
            ({
                let idxs = spec_type_indices(self.secret_keys@, key_type@);
                r@.len() == idxs.len() && forall|k: int|
                    0 <= k < r@.len() ==> spec_shows(
                        vault.spec_key(),
                        self.secret_keys@[idxs[k]],
                        #[trigger] r@[k],
                    )
            }),
    {
        let mut r: Vec<SecretKey> = Vec::new();
        let mut idx: usize = 0;
        while idx < self.secret_keys.len()
            invariant
                vault.wf(),
                idx <= self.secret_keys@.len(),
                ({
                    let idxs = spec_type_indices(
                        self.secret_keys@.subrange(0, idx as int),
                        key_type@,
                    );
                    r@.len() == idxs.len() && forall|k: int|
                        0 <= k < r@.len() ==> spec_shows(
                            vault.spec_key(),
                            self.secret_keys@[idxs[k]],
                            #[trigger] r@[k],
                        )
                }),
            decreases self.secret_keys@.len() - idx,
        {
            let ghost prefix = self.secret_keys@.subrange(0, idx as int);
            if str_eq(self.secret_keys[idx].key_type.as_str(), key_type) {
                r.push(decrypted_copy(vault, &self.secret_keys[idx]));
            }
            proof {
                let next_prefix = self.secret_keys@.subrange(0, idx as int + 1);
                assert(next_prefix.drop_last() =~= prefix);
                assert(next_prefix.last() == self.secret_keys@[idx as int]);
                let idxs2 = spec_type_indices(next_prefix, key_type@);
                assert forall|k: int| 0 <= k < r@.len() implies spec_shows(
                    vault.spec_key(),
                    self.secret_keys@[idxs2[k]],
                    #[trigger] r@[k],
                ) by {
                    let idxs = spec_type_indices(prefix, key_type@);
                    if k < idxs.len() {
                        assert(idxs2[k] == idxs[k]);
                    }
                }
            }
            idx += 1;
        }
        proof {
            assert(self.secret_keys@.subrange(0, self.secret_keys@.len() as int)
                =~= self.secret_keys@);
        }
        r
    }

    /// The distinct providers of the stored credentials, in first-appearance
    /// order.
    pub fn get_all_secret_providers(&self) -> (r: Vec<String>)
        ensures
            r@.map_values(|s: String| s@) == spec_distinct_providers(self.secret_keys@),
    {
        let mut r: Vec<String> = Vec::new();
        let mut idx: usize = 0;
        while idx < self.secret_keys.len()
            invariant
                idx <= self.secret_keys@.len(),
                r@.map_values(|s: String| s@) == spec_distinct_providers(
                    self.secret_keys@.subrange(0, idx as int),
                ),
            decreases self.secret_keys@.len() - idx,
        {
            let ghost prefix = self.secret_keys@.subrange(0, idx as int);
            let p = &self.secret_keys[idx].provider;
            if !contains_string(&r, p.as_str()) {
                r.push(p.clone());
            }
            proof {
                let next_prefix = self.secret_keys@.subrange(0, idx as int + 1);
                assert(next_prefix.drop_last() =~= prefix);
                assert(next_prefix.last() == self.secret_keys@[idx as int]);
                assert(r@.map_values(|s: String| s@) =~= spec_distinct_providers(next_prefix));
            }
            idx += 1;
        }
        proof {
            assert(self.secret_keys@.subrange(0, self.secret_keys@.len() as int)
                =~= self.secret_keys@);
        }
        r
    }

    /// Stores a sticky note under its text id, replacing an existing note
    /// with that id, as `INSERT OR REPLACE` does; both timestamps take the
    /// replacement time.
    pub fn save_postit(&mut self, postit: Postit, now: &str)
        requires
            old(self).wf(),
        ensures
            final(self).wf(),
            match spec_find_postit(old(self).postits@, postit.id@, 0) {
                None => {
                    &&& final(self).postits@.len() == old(self).postits@.len() + 1
                    &&& forall|j: int|
                        0 <= j < old(self).postits@.len() ==> final(self).postits@[j] == old(self).postits@[j]
                    &&& spec_postit_saved(final(self).postits@.last(), postit, now@)
                },
                Some(i) => {
                    &&& final(self).postits@.len() == old(self).postits@.len()
                    &&& forall|j: int|
                        0 <= j < old(self).postits@.len() && j != i ==> final(self).postits@[j] == old(self).postits@[j]
                    &&& spec_postit_saved(final(self).postits@[i], postit, now@)
                },
            },
            same_memos(old(self), final(self)),
            same_schedules(old(self), final(self)),
            same_todos(old(self), final(self)),
            same_transactions(old(self), final(self)),
            same_attachments(old(self), final(self)),
            same_settings(old(self), final(self)),
            same_datasets(old(self), final(self)),
            same_secret_keys(old(self), final(self)),
            same_alarms(old(self), final(self)),
            same_api_usage(old(self), final(self)),
    {
        let ghost pre = self.postits@;
        let found = self.find_postit(postit.id.as_str());
        let stored = Postit {
            id: postit.id,
            content: postit.content,
            color: postit.color,
            position_x: postit.position_x,
            position_y: postit.position_y,
            width: postit.width,
            height: postit.height,
            created_at: now.to_owned(),
            updated_at: now.to_owned(),
        };
        match found {
            None => {
                proof {
                    lemma_find_postit_none(pre, stored.id@, 0);
                }
                self.postits.push(stored);
                proof {
                    assert forall|i: int, j: int| 0 <= i < j < self.postits@.len() implies (
                    #[trigger] self.postits@[i]).id@ != (#[trigger] self.postits@[j]).id@ by {
                        if j < pre.len() {
                            assert(self.postits@[i] == pre[i]);
                            assert(self.postits@[j] == pre[j]);
                        } else {
                            assert(self.postits@[i] == pre[i]);
                        }
                    }
                }
            },
            Some(i) => {
                proof {
                    lemma_find_postit_first(pre, stored.id@, 0, i as int);
                }
                self.postits[i] = stored;
                proof {
                    assert forall|a: int, b: int| 0 <= a < b < self.postits@.len() implies (
                    #[trigger] self.postits@[a]).id@ != (#[trigger] self.postits@[b]).id@ by {
                        if a != i && b != i {
                            assert(self.postits@[a] == pre[a]);
                            assert(self.postits@[b] == pre[b]);
                        } else if a == i {
                            assert(self.postits@[b] == pre[b]);
                        } else {
                            assert(self.postits@[a] == pre[a]);
                        }
                    }
                }
            },
        }
    }

    fn find_postit(&self, id: &str) -> (r: Option<usize>)
        ensures
            match r {
                Some(i) => spec_find_postit(self.postits@, id@, 0) == Some(i as int),
                None => spec_find_postit(self.postits@, id@, 0) is None,
            },
    {
        let mut i: usize = 0;
        while i < self.postits.len()
            invariant
                i <= self.postits@.len(),
                spec_find_postit(self.postits@, id@, 0) == spec_find_postit(
                    self.postits@,
                    id@,
                    i as int,
                ),
            decreases self.postits@.len() - i,
        {
            if str_eq(self.postits[i].id.as_str(), id) {
                return Some(i);
            }
            i += 1;
        }
        None
    }

    /// The sticky note with the given text id.
    pub fn get_postit(&self, id: &str) -> (r: Option<Postit>)
        ensures
            match spec_find_postit(self.postits@, id@, 0) {
                None => r is None,
                Some(i) => r == Some(self.postits@[i]),
            },
    {
        match self.find_postit(id) {
            None => None,
            Some(i) => {
                proof {
                    lemma_find_postit_first(self.postits@, id@, 0, i as int);
                }
                let p = &self.postits[i];
                Some(
                    Postit {
                        id: p.id.clone(),
                        content: p.content.clone(),
                        color: p.color.clone(),
                        position_x: p.position_x,
                        position_y: p.position_y,
                        width: p.width,
                        height: p.height,
                        created_at: p.created_at.clone(),
                        updated_at: p.updated_at.clone(),
                    },
                )
            },
        }
    }

    /// Every sticky note, in table order.
    pub fn get_all_postits(&self) -> (r: &Vec<Postit>)
        ensures
            r@ == self.postits@,
    {
        &self.postits
    }

    /// Deletes the sticky note with the given text id.
    pub fn delete_postit(&mut self, id: &str)
        requires
            old(self).wf(),
        ensures
            final(self).wf(),
            match spec_find_postit(old(self).postits@, id@, 0) {
                None => final(self).postits@ == old(self).postits@,
                Some(i) => final(self).postits@ == old(self).postits@.remove(i),
            },
            same_memos(old(self), final(self)),
            same_schedules(old(self), final(self)),
            same_todos(old(self), final(self)),
            same_transactions(old(self), final(self)),
            same_attachments(old(self), final(self)),
            same_settings(old(self), final(self)),
            same_datasets(old(self), final(self)),
            same_secret_keys(old(self), final(self)),
            same_alarms(old(self), final(self)),
            same_api_usage(old(self), final(self)),
    {
        let ghost pre = self.postits@;
        match self.find_postit(id) {
            None => {},
            Some(i) => {
                proof {
                    lemma_find_postit_first(pre, id@, 0, i as int);
                }
                self.postits.remove(i);
                proof {
                    assert forall|a: int, b: int| 0 <= a < b < self.postits@.len() implies (
                    #[trigger] self.postits@[a]).id@ != (#[trigger] self.postits@[b]).id@ by {
                        let a0 = if a < i {
                            a
                        } else {
                            a + 1
                        };
                        let b0 = if b < i {
                            b
                        } else {
                            b + 1
                        };
                        assert(self.postits@[a] == pre[a0]);
                        assert(self.postits@[b] == pre[b0]);
                    }
                }
            },
        }
    }

    /// Inserts an alarm under a fresh key, enabled, stamping the insertion
    /// time.
    pub fn save_alarm(&mut self, time: &str, message: &str, days: &str, now: &str) -> (id: i64)
        requires
            old(self).wf(),
            old(self).next_alarm_id < i64::MAX,
        ensures
            final(self).wf(),
            id == old(self).next_alarm_id,
            final(self).next_alarm_id == old(self).next_alarm_id + 1,
            final(self).alarms@ == old(self).alarms@.push(final(self).alarms@.last()),
            ({
                let a = final(self).alarms@.last();
                a.id == id && a.time@ == time@ && a.message@ == message@ && a.enabled && a.days@
                    == days@ && a.created_at@ == now@
            }),
            same_memos(old(self), final(self)),
            same_schedules(old(self), final(self)),
            same_todos(old(self), final(self)),
            same_transactions(old(self), final(self)),
            same_attachments(old(self), final(self)),
            same_settings(old(self), final(self)),
            same_datasets(old(self), final(self)),
            same_secret_keys(old(self), final(self)),
            same_postits(old(self), final(self)),
            same_api_usage(old(self), final(self)),
    {
        let id = self.next_alarm_id;
        let stored = Alarm {
            id,
            time: time.to_owned(),
            message: message.to_owned(),
            enabled: true,
            days: days.to_owned(),
            created_at: now.to_owned(),
        };
        proof {
            lemma_push_rows_ok(self.alarms@, self.next_alarm_id, stored);
        }
        self.alarms.push(stored);
        self.next_alarm_id = id + 1;
        id
    }

    /// Every alarm, in table order.
    pub fn get_all_alarms(&self) -> (r: &Vec<Alarm>)
        ensures
            r@ == self.alarms@,
    {
        &self.alarms
    }

    /// Flips the enabled flag of the alarm with the given key.
    pub fn toggle_alarm(&mut self, id: i64)
        requires
            old(self).wf(),
        ensures
            final(self).wf(),
            final(self).next_alarm_id == old(self).next_alarm_id,
            final(self).alarms@.len() == old(self).alarms@.len(),
            match spec_find_row(old(self).alarms@, id, 0) {
                None => final(self).alarms@ == old(self).alarms@,
                Some(i) => {
                    &&& forall|j: int|
                        0 <= j < old(self).alarms@.len() && j != i ==> final(self).alarms@[j] == old(self).alarms@[j]
                    &&& ({
                        let a = final(self).alarms@[i];
                        let o = old(self).alarms@[i];
                        a.id == o.id && a.time == o.time && a.message == o.message && a.days
                            == o.days && a.created_at == o.created_at && a.enabled == !o.enabled
                    })
                },
            },
            same_memos(old(self), final(self)),
            same_schedules(old(self), final(self)),
            same_todos(old(self), final(self)),
            same_transactions(old(self), final(self)),
            same_attachments(old(self), final(self)),
            same_settings(old(self), final(self)),
            same_datasets(old(self), final(self)),
            same_secret_keys(old(self), final(self)),
            same_postits(old(self), final(self)),
            same_api_usage(old(self), final(self)),
    {
        let ghost pre = self.alarms@;
        match find_row(&self.alarms, id) {
            None => {},
            Some(i) => {
                proof {
                    lemma_find_row_first(self.alarms@, id, 0, i as int);
                }
                let e = self.alarms[i].enabled;
                self.alarms[i].enabled = !e;
                proof {
                    assert forall|a: int, b: int| 0 <= a < b < self.alarms@.len() implies #[trigger]
                    self.alarms@[a].rid() != #[trigger] self.alarms@[b].rid() by {
                        assert(pre[a].rid() == self.alarms@[a].rid());
                        assert(pre[b].rid() == self.alarms@[b].rid());
                    }
                    assert forall|a: int| 0 <= a < self.alarms@.len() implies 0 < #[trigger] self
                        .alarms@[a].rid() < self.next_alarm_id by {
                        assert(pre[a].rid() == self.alarms@[a].rid());
                    }
                }
            },
        }
    }

    /// Deletes the alarm with the given key.
    pub fn delete_alarm(&mut self, id: i64)
        requires
            old(self).wf(),
        ensures
            final(self).wf(),
            match spec_find_row(old(self).alarms@, id, 0) {
                None => final(self).alarms@ == old(self).alarms@,
                Some(i) => final(self).alarms@ == old(self).alarms@.remove(i),
            },
            final(self).next_alarm_id == old(self).next_alarm_id,
            same_memos(old(self), final(self)),
            same_schedules(old(self), final(self)),
            same_todos(old(self), final(self)),
            same_transactions(old(self), final(self)),
            same_attachments(old(self), final(self)),
            same_settings(old(self), final(self)),
            same_datasets(old(self), final(self)),
            same_secret_keys(old(self), final(self)),
            same_postits(old(self), final(self)),
            same_api_usage(old(self), final(self)),
    {
        let ghost pre = self.alarms@;
        let _removed = remove_first(&mut self.alarms, id);
        proof {
            match spec_find_row(pre, id, 0) {
                None => {},
                Some(i) => {
                    lemma_find_row_first(pre, id, 0, i);
                    lemma_remove_rows_ok(pre, self.next_alarm_id, i);
                },
            }
        }
    }

    /// Logs one call to the hosted model.
    pub fn log_api_usage(
        &mut self,
        operation: &str,
        model: &str,
        input_tokens: i64,
        output_tokens: i64,
        cost_pico_usd: u128,
        now: &str,
    ) -> (id: i64)
        requires
            old(self).wf(),
            old(self).next_usage_id < i64::MAX,
            cost_pico_usd < 0x1_0000_0000_0000_0000,
        ensures
            final(self).wf(),
            id == old(self).next_usage_id,
            final(self).next_usage_id == old(self).next_usage_id + 1,
            final(self).api_usage@ == old(self).api_usage@.push(final(self).api_usage@.last()),
            ({
                let u = final(self).api_usage@.last();
                u.id == id && u.operation@ == operation@ && u.model@ == model@ && u.input_tokens
                    == input_tokens && u.output_tokens == output_tokens && u.cost_pico_usd
                    == cost_pico_usd && u.timestamp@ == now@
            }),
            same_memos(old(self), final(self)),
            same_schedules(old(self), final(self)),
            same_todos(old(self), final(self)),
            same_transactions(old(self), final(self)),
            same_attachments(old(self), final(self)),
            same_settings(old(self), final(self)),
            same_datasets(old(self), final(self)),
            same_secret_keys(old(self), final(self)),
            same_postits(old(self), final(self)),
            same_alarms(old(self), final(self)),
    {
        let id = self.next_usage_id;
        let stored = ApiUsage {
            id,
            operation: operation.to_owned(),
            model: model.to_owned(),
            input_tokens,
            output_tokens,
            cost_pico_usd,
            timestamp: now.to_owned(),
        };
        proof {
            lemma_push_rows_ok(self.api_usage@, self.next_usage_id, stored);
        }
        self.api_usage.push(stored);
        self.next_usage_id = id + 1;
        id
    }

    /// The exact totals logged on one day: input tokens, output tokens and
    /// cost in pico-dollars, summed over the rows whose timestamp starts
    /// with that day.
    pub fn get_today_usage(&self, today: &str) -> (r: (i128, i128, u128))
        requires
            self.wf(),
        ensures
            r.0 == spec_day_input(self.api_usage@, today@),
            r.1 == spec_day_output(self.api_usage@, today@),
            r.2 == spec_day_cost(self.api_usage@, today@),
    {
        let day = str_to_chars(today);
        let mut in_sum: i128 = 0;
        let mut out_sum: i128 = 0;
        let mut cost_sum: u128 = 0;
        let mut idx: usize = 0;
        while idx < self.api_usage.len()
            invariant
                self.wf(),
                day@ == today@,
                idx <= self.api_usage@.len(),
                in_sum == spec_day_input(self.api_usage@.subrange(0, idx as int), today@),
                out_sum == spec_day_output(self.api_usage@.subrange(0, idx as int), today@),
                cost_sum == spec_day_cost(self.api_usage@.subrange(0, idx as int), today@),
                -(idx as int) * 0x8000_0000_0000_0000 <= in_sum <= (idx as int)
                    * 0x8000_0000_0000_0000,
                -(idx as int) * 0x8000_0000_0000_0000 <= out_sum <= (idx as int)
                    * 0x8000_0000_0000_0000,
                cost_sum <= (idx as int) * 0x1_0000_0000_0000_0000,
            decreases self.api_usage@.len() - idx,
        {
            let ghost prefix = self.api_usage@.subrange(0, idx as int);
            let u = &self.api_usage[idx];
            let ts = str_to_chars(u.timestamp.as_str());
            if has_prefix(ts.as_slice(), day.as_slice()) {
                in_sum = in_sum + u.input_tokens as i128;
                out_sum = out_sum + u.output_tokens as i128;
                cost_sum = cost_sum + u.cost_pico_usd;
            }
            proof {
                let next_prefix = self.api_usage@.subrange(0, idx as int + 1);
                assert(next_prefix.drop_last() =~= prefix);
                assert(next_prefix.last() == self.api_usage@[idx as int]);
            }
            idx += 1;
        }
        proof {
            assert(self.api_usage@.subrange(0, self.api_usage@.len() as int) =~= self.api_usage@);
        }
        (in_sum, out_sum, cost_sum)
    }
}


/// The sample categories test data cycles through.
pub open spec fn spec_test_category(i: int) -> Seq<char> {
    if i == 0 {
        "업무"@
    } else if i == 1 {
        "개인"@
    } else if i == 2 {
        "아이디어"@
    } else if i == 3 {
        "회의록"@
    } else if i == 4 {
        "학습"@
    } else if i == 5 {
        "연락처"@
    } else if i == 6 {
        "쇼핑"@
    } else if i == 7 {
        "여행"@
    } else if i == 8 {
        "건강"@
    } else {
        "기타"@
    }
}

/// The sample tag lists test data cycles through, matching the categories.
pub open spec fn spec_test_tags(i: int) -> Seq<char> {
    if i == 0 {
        "중요, 긴급"@
    } else if i == 1 {
        "나중에, 참고"@
    } else if i == 2 {
        "아이디어, 브레인스토밍"@
    } else if i == 3 {
        "회의, 팀"@
    } else if i == 4 {
        "공부, 기술"@
    } else if i == 5 {
        "연락처, 사람"@
    } else if i == 6 {
        "쇼핑, 구매"@
    } else if i == 7 {
        "여행, 휴가"@
    } else if i == 8 {
        "운동, 건강"@
    } else {
        "기타, 메모"@
    }
}

/// The title of the `n`-th sample memo.
pub open spec fn spec_test_title(n: nat) -> Seq<char> {
    "테스트 메모 #"@ + crate::mask::spec_digits(n)
}

/// The body of the `n`-th sample memo.
pub open spec fn spec_test_content(n: nat) -> Seq<char> {
    "이것은 테스트 메모 "@ + crate::mask::spec_digits(n)
        + "번입니다.\n\n오늘의 할일:\n- 첫 번째 할일\n- 두 번째 할일\n- 세 번째 할일\n\n이 메모는 무한 스크롤 테스트를 위해 생성되었습니다."@
}

/// The summary of the `n`-th sample memo.
pub open spec fn spec_test_summary(n: nat) -> Seq<char> {
    "테스트 메모 "@ + crate::mask::spec_digits(n) + " 요약"@
}

fn test_category(i: usize) -> (r: &'static str)
    requires
        i < 10,
    ensures
        r@ == spec_test_category(i as int),
{
    if i == 0 {
        "업무"
    } else if i == 1 {
        "개인"
    } else if i == 2 {
        "아이디어"
    } else if i == 3 {
        "회의록"
    } else if i == 4 {
        "학습"
    } else if i == 5 {
        "연락처"
    } else if i == 6 {
        "쇼핑"
    } else if i == 7 {
        "여행"
    } else if i == 8 {
        "건강"
    } else {
        "기타"
    }
}

fn test_tags(i: usize) -> (r: &'static str)
    requires
        i < 10,
    ensures
        r@ == spec_test_tags(i as int),
{
    if i == 0 {
        "중요, 긴급"
    } else if i == 1 {
        "나중에, 참고"
    } else if i == 2 {
        "아이디어, 브레인스토밍"
    } else if i == 3 {
        "회의, 팀"
    } else if i == 4 {
        "공부, 기술"
    } else if i == 5 {
        "연락처, 사람"
    } else if i == 6 {
        "쇼핑, 구매"
    } else if i == 7 {
        "여행, 휴가"
    } else if i == 8 {
        "운동, 건강"
    } else {
        "기타, 메모"
    }
}

/// A found setting is in range, carries the key, and is the first with it.
pub proof fn lemma_find_setting_first(
    s: Seq<(String, String)>,
    key: Seq<char>,
    from: int,
    i: int,
)
    requires
        0 <= from,
        spec_find_setting(s, key, from) == Some(i),
    ensures
        from <= i < s.len(),
        s[i].0@ == key,
        forall|j: int| from <= j < i ==> s[j].0@ != key,
    decreases s.len() + 1 - from,
{
    if from >= s.len() {
    } else if s[from].0@ == key {
    } else {
        lemma_find_setting_first(s, key, from + 1, i);
    }
}

/// When no setting is found, no key at or after `from` matches.
pub proof fn lemma_find_setting_none(s: Seq<(String, String)>, key: Seq<char>, from: int)
    requires
        0 <= from,
        spec_find_setting(s, key, from) is None,
    ensures
        forall|j: int| from <= j < s.len() ==> s[j].0@ != key,
    decreases s.len() + 1 - from,
{
    if from >= s.len() {
    } else if s[from].0@ == key {
    } else {
        lemma_find_setting_none(s, key, from + 1);
    }
}

} // verus!
