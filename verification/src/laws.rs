//! Laws of the store's operations, stated over the mathematical views that
//! the operations' own contracts use.

use vstd::prelude::*;
use crate::models::{TaskView, UpdateTaskRequestView, applies_update};
use crate::storage::{contains_id, ids_unique, lemma_contains_id_step, remove_id};

verus! {

/// Appending a task whose id is not yet in the collection keeps the ids
/// unique. This is the inductive step behind id uniqueness after any number
/// of consecutive creations; it asks that the freshly drawn id misses the
/// collection, which the random draw makes overwhelmingly likely but cannot
/// guarantee.
pub proof fn lemma_fresh_id_stays_unique(s: Seq<TaskView>, t: TaskView)
    requires
        ids_unique(s),
        !contains_id(s, t.id),
    ensures
        ids_unique(s.push(t)),
{
    let p = s.push(t);
    assert forall|i: int, j: int| #![trigger p[i], p[j]] 0 <= i < j < p.len() implies p[i].id
        != p[j].id by {
        if j < s.len() {
            assert(p[i] == s[i] && p[j] == s[j]);
        } else {
            assert(p[j] == t);
            assert(p[i] == s[i]);
            assert(s[i].id != t.id);
        }
    }
}

/// Serialized creations: appending any number of tasks whose ids are
/// pairwise distinct and absent from the collection grows the collection by
/// exactly that number and keeps the ids unique. Under the store's exclusive
/// lock, concurrent creations are exactly such a serialized sequence of
/// appends.
pub proof fn lemma_serialized_creates(s: Seq<TaskView>, ts: Seq<TaskView>)
    requires
        ids_unique(s),
        forall|i: int, j: int| #![trigger ts[i], ts[j]] 0 <= i < j < ts.len() ==> ts[i].id
            != ts[j].id,
        forall|i: int| 0 <= i < ts.len() ==> !contains_id(s, (#[trigger] ts[i]).id),
    ensures
        ids_unique(s + ts),
        (s + ts).len() == s.len() + ts.len(),
    decreases ts.len(),
{
    if ts.len() == 0 {
        assert(s + ts =~= s);
    } else {
        let front = ts.drop_last();
        let t = ts.last();
        assert(forall|i: int| 0 <= i < front.len() ==> front[i] == ts[i]);
        lemma_serialized_creates(s, front);
        assert(!contains_id(s + front, t.id)) by {
            if contains_id(s + front, t.id) {
                let k = choose|k: int| 0 <= k < (s + front).len() && #[trigger] (s + front)[k].id
                    == t.id;
                if k < s.len() {
                    assert((s + front)[k] == s[k]);
                    assert(contains_id(s, ts[ts.len() - 1].id));
                } else {
                    assert((s + front)[k] == front[k - s.len()]);
                    assert(ts[k - s.len()].id == ts[ts.len() - 1].id);
                }
            }
        }
        lemma_fresh_id_stays_unique(s + front, t);
        assert(s + ts =~= (s + front).push(t));
    }
}

/// A partial update that carries only `completed` changes only `completed`
/// (and the freshness timestamp `updated_at`, which every mutation
/// refreshes): every other field of the task is exactly what it was.
pub proof fn lemma_update_changes_only_completed(
    before: TaskView,
    u: UpdateTaskRequestView,
    after: TaskView,
)
    requires
        applies_update(before, u, after),
        u.title is None,
        u.description is None,
        u.priority is None,
        u.due_date is None,
        u.attachments is None,
    ensures
        after.id == before.id,
        after.title == before.title,
        after.description == before.description,
        after.priority == before.priority,
        after.due_date == before.due_date,
        after.attachments == before.attachments,
        after.created_at == before.created_at,
        (match u.completed {
            Some(c) => after.completed == c,
            None => after.completed == before.completed,
        }),
{
}

/// Deleting an id that no task carries leaves the collection exactly as it
/// was.
pub proof fn lemma_remove_id_absent(s: Seq<TaskView>, id: Seq<char>)
    requires
        !contains_id(s, id),
    ensures
        remove_id(s, id) == s,
    decreases s.len(),
{
    if s.len() > 0 {
        lemma_contains_id_step(s, id);
        lemma_remove_id_absent(s.drop_last(), id);
        assert(remove_id(s.drop_last(), id).push(s.last()) =~= s);
    }
}

/// Delete is idempotent: after a deletion no task carries the id, so a
/// second deletion removes nothing and reports no removal; and when the ids
/// are unique and the id is present, the first deletion shrinks the
/// collection by exactly one.
pub proof fn lemma_delete_idempotent(s: Seq<TaskView>, id: Seq<char>)
    ensures
        !contains_id(remove_id(s, id), id),
        remove_id(remove_id(s, id), id) == remove_id(s, id),
        ids_unique(s) && contains_id(s, id) ==> remove_id(s, id).len() == s.len() - 1,
    decreases s.len(),
{
    if s.len() == 0 {
        assert(!contains_id(remove_id(s, id), id));
        lemma_remove_id_absent(remove_id(s, id), id);
    } else {
        let front = s.drop_last();
        let l = s.last();
        lemma_delete_idempotent(front, id);
        lemma_contains_id_step(s, id);
        if l.id == id {
            assert(remove_id(s, id) == remove_id(front, id));
        } else {
            let r = remove_id(front, id);
            assert(remove_id(s, id) == r.push(l));
            assert(!contains_id(r.push(l), id)) by {
                assert(r.push(l).drop_last() =~= r);
                lemma_contains_id_step(r.push(l), id);
            }
        }
        lemma_remove_id_absent(remove_id(s, id), id);
        if ids_unique(s) && contains_id(s, id) {
            assert(ids_unique(front)) by {
                assert(forall|i: int| 0 <= i < front.len() ==> front[i] == s[i]);
            }
            if l.id == id {
                assert(!contains_id(front, id)) by {
                    if contains_id(front, id) {
                        let k = choose|k: int|
                            0 <= k < front.len() && #[trigger] front[k].id == id;
                        assert(s[k].id == s[s.len() - 1].id);
                    }
                }
                lemma_remove_id_absent(front, id);
            } else {
                assert(contains_id(front, id)) by {
                    let k = choose|k: int| 0 <= k < s.len() && #[trigger] s[k].id == id;
                    assert(front[k] == s[k]);
                }
            }
        }
    }
}

} // verus!
