//! Table operations shared by the record types: lookup by row id, deletion,
//! and the two foreign-key behaviours the schema declares (`ON DELETE SET
//! NULL` and `ON DELETE CASCADE`).

use vstd::prelude::*;

verus! {

/// A row with an integer primary key.
pub trait RowKey: Sized {
    /// The row's key.
    spec fn rid(&self) -> i64;

    /// Compares the row's key with `id`.
    fn rid_eq(&self, id: i64) -> (r: bool)
        ensures
            r == (self.rid() == id),
    ;
}

/// A row holding a foreign key to an owning row.
pub trait Owned: Sized {
    /// The owning row's key, where the row is linked.
    spec fn owner(&self) -> Option<i64>;

    /// True when the row is linked to owner `id`.
    fn owned_by(&self, id: i64) -> (r: bool)
        ensures
            r == (self.owner() == Some(id)),
    ;

    /// True when the row is linked to any owner.
    fn is_linked(&self) -> (r: bool)
        ensures
            r == (self.owner() is Some),
    ;
}

/// A row whose foreign key the schema nulls when the owner goes away.
pub trait Linked: Owned {
    /// Every field except the owner link agrees with `other`.
    spec fn same_except_link(&self, other: &Self) -> bool;

    /// Clears the owner link and touches nothing else.
    fn unlink(&mut self)
        ensures
            final(self).owner() is None,
            final(self).same_except_link(old(self)),
    ;
}

/// A healthy keyed table: keys are unique, positive, and below the next
/// fresh key, so the table holds fewer rows than `next`.
pub open spec fn rows_ok<T: RowKey>(s: Seq<T>, next: i64) -> bool {
    &&& forall|i: int, j: int|
        0 <= i < j < s.len() ==> #[trigger] s[i].rid() != #[trigger] s[j].rid()
    &&& forall|i: int| 0 <= i < s.len() ==> 0 < #[trigger] s[i].rid() < next
    &&& s.len() < next
}

/// Appending a row with the next fresh key keeps a table healthy.
pub proof fn lemma_push_rows_ok<T: RowKey>(s: Seq<T>, next: i64, row: T)
    requires
        rows_ok(s, next),
        row.rid() == next,
        next < i64::MAX,
    ensures
        rows_ok(s.push(row), (next + 1) as i64),
{
    let s2 = s.push(row);
    assert forall|i: int, j: int| 0 <= i < j < s2.len() implies #[trigger] s2[i].rid() != #[trigger] s2[j].rid() by {
        if j < s.len() {
        } else {
            assert(s2[j] == row);
            assert(s2[i] == s[i]);
        }
    }
    assert forall|i: int| 0 <= i < s2.len() implies 0 < #[trigger] s2[i].rid() < next + 1 by {
        if i < s.len() {
            assert(s2[i] == s[i]);
        } else {
            assert(s2[i] == row);
        }
    }
}

/// Removing a row keeps a table healthy.
pub proof fn lemma_remove_rows_ok<T: RowKey>(s: Seq<T>, next: i64, at: int)
    requires
        rows_ok(s, next),
        0 <= at < s.len(),
    ensures
        rows_ok(s.remove(at), next),
{
    let s2 = s.remove(at);
    assert forall|i: int, j: int| 0 <= i < j < s2.len() implies #[trigger] s2[i].rid() != #[trigger] s2[j].rid() by {
        let i0 = if i < at {
            i
        } else {
            i + 1
        };
        let j0 = if j < at {
            j
        } else {
            j + 1
        };
        assert(s2[i] == s[i0]);
        assert(s2[j] == s[j0]);
    }
    assert forall|i: int| 0 <= i < s2.len() implies 0 < #[trigger] s2[i].rid() < next by {
        let i0 = if i < at {
            i
        } else {
            i + 1
        };
        assert(s2[i] == s[i0]);
    }
}

/// Dropping every row owned by `id` keeps a table healthy.
pub proof fn lemma_disown_rows_ok<T: RowKey + Owned>(s: Seq<T>, id: i64, next: i64)
    requires
        rows_ok(s, next),
    ensures
        rows_ok(spec_disown(s, id), next),
        spec_disown(s, id).len() <= s.len(),
        forall|k: int|
            0 <= k < spec_disown(s, id).len() ==> exists|j: int|
                0 <= j < s.len() && #[trigger] spec_disown(s, id)[k] == s[j],
    decreases s.len(),
{
    if s.len() == 0 {
    } else {
        let rest = s.drop_first();
        assert(rows_ok(rest, next)) by {
            assert forall|i: int, j: int| 0 <= i < j < rest.len() implies #[trigger] rest[i].rid()
                != #[trigger] rest[j].rid() by {
                assert(rest[i] == s[i + 1]);
                assert(rest[j] == s[j + 1]);
            }
            assert forall|i: int| 0 <= i < rest.len() implies 0 < #[trigger] rest[i].rid() < next by {
                assert(rest[i] == s[i + 1]);
            }
        }
        lemma_disown_rows_ok(rest, id, next);
        let d = spec_disown(s, id);
        let dr = spec_disown(rest, id);
        if s[0].owner() == Some(id) {
            assert(d == dr);
            assert forall|k: int| 0 <= k < d.len() implies exists|j: int|
                0 <= j < s.len() && #[trigger] d[k] == s[j] by {
                let j0 = choose|j0: int| 0 <= j0 < rest.len() && dr[k] == rest[j0];
                assert(d[k] == s[j0 + 1]);
            }
        } else {
            assert(d == seq![s[0]] + dr);
            assert forall|k: int| 0 <= k < d.len() implies exists|j: int|
                0 <= j < s.len() && #[trigger] d[k] == s[j] by {
                if k == 0 {
                    assert(d[0] == s[0]);
                } else {
                    let j0 = choose|j0: int| 0 <= j0 < rest.len() && dr[k - 1] == rest[j0];
                    assert(d[k] == s[j0 + 1]);
                }
            }
            assert forall|i: int, j: int| 0 <= i < j < d.len() implies #[trigger] d[i].rid()
                != #[trigger] d[j].rid() by {
                if i == 0 {
                    let j0 = choose|j0: int| 0 <= j0 < rest.len() && dr[j - 1] == rest[j0];
                    assert(d[j] == s[j0 + 1]);
                    assert(d[0] == s[0]);
                } else {
                }
            }
            assert forall|i: int| 0 <= i < d.len() implies 0 < #[trigger] d[i].rid() < next by {
                if i == 0 {
                } else {
                }
            }
            assert(d.len() == 1 + dr.len());
        }
    }
}

/// Two tables with the same keys row for row agree on every lookup.
pub proof fn lemma_find_row_same_ids<T: RowKey>(a: Seq<T>, b: Seq<T>, id: i64, from: int)
    requires
        0 <= from,
        a.len() == b.len(),
        forall|i: int| 0 <= i < a.len() ==> (#[trigger] a[i]).rid() == (#[trigger] b[i]).rid(),
    ensures
        spec_find_row(a, id, from) == spec_find_row(b, id, from),
    decreases a.len() + 1 - from,
{
    if from >= a.len() {
    } else {
        lemma_find_row_same_ids(a, b, id, from + 1);
    }
}

/// The index of the first row with key `id`, at or after `from`.
pub open spec fn spec_find_row<T: RowKey>(s: Seq<T>, id: i64, from: int) -> Option<int>
    decreases s.len() + 1 - from,
    when 0 <= from
{
    if from >= s.len() {
        None
    } else if s[from].rid() == id {
        Some(from)
    } else {
        spec_find_row(s, id, from + 1)
    }
}

/// A found row is in range, carries the key, and is the first such row.
pub proof fn lemma_find_row_first<T: RowKey>(s: Seq<T>, id: i64, from: int, i: int)
    requires
        0 <= from,
        spec_find_row(s, id, from) == Some(i),
    ensures
        from <= i < s.len(),
        s[i].rid() == id,
        forall|j: int| from <= j < i ==> s[j].rid() != id,
    decreases s.len() + 1 - from,
{
    if from >= s.len() {
    } else if s[from].rid() == id {
    } else {
        lemma_find_row_first(s, id, from + 1, i);
    }
}

/// Finds the first row with key `id`.
pub fn find_row<T: RowKey>(v: &Vec<T>, id: i64) -> (r: Option<usize>)
    ensures
        match r {
            Some(i) => spec_find_row(v@, id, 0) == Some(i as int),
            None => spec_find_row(v@, id, 0) is None,
        },
{
    let mut i: usize = 0;
    while i < v.len()
        invariant
            i <= v@.len(),
            spec_find_row(v@, id, 0) == spec_find_row(v@, id, i as int),
        decreases v@.len() - i,
    {
        if v[i].rid_eq(id) {
            return Some(i);
        }
        i += 1;
    }
    None
}

/// Deletes the first row with key `id`, handing it back, as `DELETE ... WHERE
/// id = ?` does on a keyed table.
pub fn remove_first<T: RowKey>(v: &mut Vec<T>, id: i64) -> (removed: Option<T>)
    ensures
        match spec_find_row(old(v)@, id, 0) {
            None => final(v)@ == old(v)@ && removed is None,
            Some(i) => final(v)@ == old(v)@.remove(i) && removed == Some(old(v)@[i]),
        },
{
    match find_row(v, id) {
        None => None,
        Some(i) => {
            proof {
                lemma_find_row_first(v@, id, 0, i as int);
            }
            Some(v.remove(i))
        },
    }
}

/// The rows not owned by `id`, in their original order.
pub open spec fn spec_disown<T: Owned>(s: Seq<T>, id: i64) -> Seq<T>
    decreases s.len(),
{
    if s.len() == 0 {
        s
    } else if s[0].owner() == Some(id) {
        spec_disown(s.drop_first(), id)
    } else {
        seq![s[0]] + spec_disown(s.drop_first(), id)
    }
}

/// Deletes every row owned by `id`, as `ON DELETE CASCADE` (or `DELETE ...
/// WHERE memo_id = ?`) does.
#[verifier::loop_isolation(false)]
pub fn remove_owned<T: Owned>(v: &mut Vec<T>, id: i64)
    ensures
        final(v)@ == spec_disown(old(v)@, id),
{
    let ghost target = spec_disown(v@, id);
    proof {
        assert(v@.subrange(0, 0) =~= Seq::<T>::empty());
        assert(v@.subrange(0, v@.len() as int) =~= v@);
        assert(Seq::<T>::empty() + spec_disown(v@, id) =~= spec_disown(v@, id));
    }
    let mut idx: usize = 0;
    loop
        invariant
            idx <= v@.len(),
            target == v@.subrange(0, idx as int) + spec_disown(
                v@.subrange(idx as int, v@.len() as int),
                id,
            ),
        decreases v@.len() - idx,
    {
        let ghost pre = v@;
        if idx == v.len() {
            proof {
                assert(pre.subrange(0, idx as int) =~= pre);
                assert(pre.subrange(idx as int, pre.len() as int) =~= Seq::<T>::empty());
                assert(spec_disown(Seq::<T>::empty(), id) =~= Seq::<T>::empty());
                assert(pre + Seq::<T>::empty() =~= pre);
                assert(target == pre);
            }
            return ;
        }
        let ghost tail = pre.subrange(idx as int, pre.len() as int);
        proof {
            assert(tail[0] == pre[idx as int]);
        }
        if v[idx].owned_by(id) {
            v.remove(idx);
            proof {
                assert(v@ =~= pre.remove(idx as int));
                assert(v@.subrange(0, idx as int) =~= pre.subrange(0, idx as int));
                assert(v@.subrange(idx as int, v@.len() as int) =~= tail.drop_first());
            }
        } else {
            proof {
                assert(pre.subrange(0, idx as int) + seq![pre[idx as int]] =~= pre.subrange(
                    0,
                    idx as int + 1,
                ));
                assert(pre.subrange(idx as int + 1, pre.len() as int) =~= tail.drop_first());
                assert(pre.subrange(0, idx as int) + (seq![tail[0]] + spec_disown(
                    tail.drop_first(),
                    id,
                )) =~= pre.subrange(0, idx as int + 1) + spec_disown(
                    pre.subrange(idx as int + 1, pre.len() as int),
                    id,
                ));
            }
            idx += 1;
        }
    }
}

/// The rows owned by `id`, in their original order.
pub open spec fn spec_owned_rows<T: Owned>(s: Seq<T>, id: i64) -> Seq<T>
    decreases s.len(),
{
    if s.len() == 0 {
        s
    } else if s[0].owner() == Some(id) {
        seq![s[0]] + spec_owned_rows(s.drop_first(), id)
    } else {
        spec_owned_rows(s.drop_first(), id)
    }
}

/// Deletes every row owned by `id` and hands the deleted rows back, in
/// order.
#[verifier::loop_isolation(false)]
pub fn take_owned<T: Owned>(v: &mut Vec<T>, id: i64) -> (taken: Vec<T>)
    ensures
        final(v)@ == spec_disown(old(v)@, id),
        taken@ == spec_owned_rows(old(v)@, id),
{
    let ghost keep_target = spec_disown(v@, id);
    let ghost take_target = spec_owned_rows(v@, id);
    let mut taken: Vec<T> = Vec::new();
    proof {
        assert(v@.subrange(0, 0) =~= Seq::<T>::empty());
        assert(v@.subrange(0, v@.len() as int) =~= v@);
        assert(Seq::<T>::empty() + spec_disown(v@, id) =~= spec_disown(v@, id));
        assert(taken@ + spec_owned_rows(v@, id) =~= spec_owned_rows(v@, id));
    }
    let mut idx: usize = 0;
    loop
        invariant
            idx <= v@.len(),
            keep_target == v@.subrange(0, idx as int) + spec_disown(
                v@.subrange(idx as int, v@.len() as int),
                id,
            ),
            take_target == taken@ + spec_owned_rows(
                v@.subrange(idx as int, v@.len() as int),
                id,
            ),
        decreases v@.len() - idx,
    {
        let ghost pre = v@;
        if idx == v.len() {
            proof {
                assert(pre.subrange(0, idx as int) =~= pre);
                assert(pre.subrange(idx as int, pre.len() as int) =~= Seq::<T>::empty());
                assert(spec_disown(Seq::<T>::empty(), id) =~= Seq::<T>::empty());
                assert(spec_owned_rows(Seq::<T>::empty(), id) =~= Seq::<T>::empty());
                assert(pre + Seq::<T>::empty() =~= pre);
                assert(taken@ + Seq::<T>::empty() =~= taken@);
                assert(keep_target == pre);
                assert(take_target == taken@);
            }
            return taken;
        }
        let ghost tail = pre.subrange(idx as int, pre.len() as int);
        proof {
            assert(tail[0] == pre[idx as int]);
        }
        if v[idx].owned_by(id) {
            let row = v.remove(idx);
            taken.push(row);
            proof {
                assert(v@ =~= pre.remove(idx as int));
                assert(v@.subrange(0, idx as int) =~= pre.subrange(0, idx as int));
                assert(v@.subrange(idx as int, v@.len() as int) =~= tail.drop_first());
                assert(spec_owned_rows(tail, id) == seq![tail[0]] + spec_owned_rows(
                    tail.drop_first(),
                    id,
                ));
                assert(taken@.drop_last() + (seq![tail[0]] + spec_owned_rows(
                    tail.drop_first(),
                    id,
                )) =~= taken@ + spec_owned_rows(tail.drop_first(), id));
            }
        } else {
            proof {
                assert(pre.subrange(0, idx as int) + seq![pre[idx as int]] =~= pre.subrange(
                    0,
                    idx as int + 1,
                ));
                assert(pre.subrange(idx as int + 1, pre.len() as int) =~= tail.drop_first());
                assert(pre.subrange(0, idx as int) + (seq![tail[0]] + spec_disown(
                    tail.drop_first(),
                    id,
                )) =~= pre.subrange(0, idx as int + 1) + spec_disown(
                    pre.subrange(idx as int + 1, pre.len() as int),
                    id,
                ));
            }
            idx += 1;
        }
    }
}

/// The indices of the rows owned by `id`, in table order.
pub open spec fn spec_owned_indices<T: Owned>(s: Seq<T>, id: i64) -> Seq<int>
    decreases s.len(),
{
    if s.len() == 0 {
        Seq::<int>::empty()
    } else if s.last().owner() == Some(id) {
        spec_owned_indices(s.drop_last(), id) + seq![s.len() - 1]
    } else {
        spec_owned_indices(s.drop_last(), id)
    }
}

/// Finds the indices of the rows owned by `id`, in table order.
pub fn owned_indices<T: Owned>(v: &Vec<T>, id: i64) -> (r: Vec<usize>)
    ensures
        r@.map_values(|u: usize| u as int) == spec_owned_indices(v@, id),
        r@.len() <= v@.len(),
{
    let mut r: Vec<usize> = Vec::new();
    let mut idx: usize = 0;
    while idx < v.len()
        invariant
            idx <= v@.len(),
            r@.len() <= idx,
            r@.map_values(|u: usize| u as int) == spec_owned_indices(
                v@.subrange(0, idx as int),
                id,
            ),
        decreases v@.len() - idx,
    {
        let ghost prefix = v@.subrange(0, idx as int);
        if v[idx].owned_by(id) {
            r.push(idx);
        }
        proof {
            let next_prefix = v@.subrange(0, idx as int + 1);
            assert(next_prefix.drop_last() =~= prefix);
            assert(next_prefix.last() == v@[idx as int]);
            assert(r@.map_values(|u: usize| u as int) =~= spec_owned_indices(next_prefix, id));
        }
        idx += 1;
    }
    proof {
        assert(v@.subrange(0, v@.len() as int) =~= v@);
    }
    r
}

/// Nulls the owner link of every linked row and keeps every row: what the
/// declared `ON DELETE SET NULL` leaves behind once every owner is gone.
pub fn unlink_every<T: Linked>(v: &mut Vec<T>)
    ensures
        final(v)@.len() == old(v)@.len(),
        forall|i: int|
            0 <= i < old(v)@.len() ==> if old(v)@[i].owner() is Some {
                final(v)@[i].owner() is None && final(v)@[i].same_except_link(&old(v)@[i])
            } else {
                final(v)@[i] == old(v)@[i]
            },
{
    let ghost orig = v@;
    let mut i: usize = 0;
    while i < v.len()
        invariant
            i <= orig.len(),
            v@.len() == orig.len(),
            forall|k: int|
                0 <= k < i ==> if orig[k].owner() is Some {
                    v@[k].owner() is None && v@[k].same_except_link(&orig[k])
                } else {
                    v@[k] == orig[k]
                },
            forall|k: int| i <= k < orig.len() ==> v@[k] == orig[k],
        decreases orig.len() - i,
    {
        if v[i].is_linked() {
            v[i].unlink();
        }
        i += 1;
    }
}

/// Nulls the owner link of every row owned by `id` and keeps every row, as
/// `ON DELETE SET NULL` does.
pub fn unlink_owned<T: Linked>(v: &mut Vec<T>, id: i64)
    ensures
        final(v)@.len() == old(v)@.len(),
        forall|i: int|
            0 <= i < old(v)@.len() ==> if old(v)@[i].owner() == Some(id) {
                final(v)@[i].owner() is None && final(v)@[i].same_except_link(&old(v)@[i])
            } else {
                final(v)@[i] == old(v)@[i]
            },
{
    let ghost orig = v@;
    let mut i: usize = 0;
    while i < v.len()
        invariant
            i <= orig.len(),
            v@.len() == orig.len(),
            forall|k: int|
                0 <= k < i ==> if orig[k].owner() == Some(id) {
                    v@[k].owner() is None && v@[k].same_except_link(&orig[k])
                } else {
                    v@[k] == orig[k]
                },
            forall|k: int| i <= k < orig.len() ==> v@[k] == orig[k],
        decreases orig.len() - i,
    {
        if v[i].owned_by(id) {
            v[i].unlink();
        }
        i += 1;
    }
}

} // verus!
