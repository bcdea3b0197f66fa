//! Laws of the store, stated over the values that its operations' contracts
//! speak of: `set` inserts, `remove` removes, `get` looks up.
use vstd::prelude::*;
use crate::codec::{record_at, CommandModel};
use crate::engine::{apply, entry_live, replay, KvStore};

verus! {

/// The values after a run of commands, from the first to the last.
pub open spec fn apply_all(m: Map<Seq<char>, Seq<char>>, ops: Seq<CommandModel>) -> Map<Seq<char>, Seq<char>>
    decreases ops.len(),
{
    if ops.len() == 0 {
        m
    } else {
        apply(apply_all(m, ops.drop_last()), ops.last())
    }
}

/// A key set to `v` holds `v` through any run of commands that do not mention it.
pub proof fn lemma_get_after_set(m: Map<Seq<char>, Seq<char>>, k: Seq<char>, v: Seq<char>, ops: Seq<CommandModel>)
    requires
        forall|i: int| 0 <= i < ops.len() ==> (#[trigger] ops[i]).key() != k,
    ensures
        apply_all(m.insert(k, v), ops).contains_key(k),
        apply_all(m.insert(k, v), ops)[k] == v,
    decreases ops.len(),
{
    if ops.len() > 0 {
        lemma_get_after_set(m, k, v, ops.drop_last());
        assert(ops.last() == ops[ops.len() - 1]);
    }
}

/// A key that was never set on a fresh store, or was removed and not set
/// since, holds no value.
pub proof fn lemma_absent_unless_set(m: Map<Seq<char>, Seq<char>>, k: Seq<char>, ops: Seq<CommandModel>)
    requires
        !m.contains_key(k),
        forall|i: int| 0 <= i < ops.len() ==> !(#[trigger] ops[i] matches CommandModel::Put { key, .. } && key == k),
    ensures
        !apply_all(m, ops).contains_key(k),
    decreases ops.len(),
{
    if ops.len() > 0 {
        lemma_absent_unless_set(m, k, ops.drop_last());
        assert(ops.last() == ops[ops.len() - 1]);
    }
}

/// A fresh store holds no value, so a key that no command sets holds none.
pub proof fn lemma_fresh_absent(k: Seq<char>, ops: Seq<CommandModel>)
    requires
        forall|i: int| 0 <= i < ops.len() ==> !(#[trigger] ops[i] matches CommandModel::Put { key, .. } && key == k),
    ensures
        !apply_all(Map::empty(), ops).contains_key(k),
{
    lemma_absent_unless_set(Map::empty(), k, ops);
}

/// Setting a key twice to one value leaves the values as setting it once.
pub proof fn lemma_set_idempotent(m: Map<Seq<char>, Seq<char>>, k: Seq<char>, v: Seq<char>)
    ensures
        m.insert(k, v).insert(k, v) == m.insert(k, v),
{
    assert(m.insert(k, v).insert(k, v) =~= m.insert(k, v));
}

/// After a removal the key holds no value, so a second removal is refused.
pub proof fn lemma_remove_then_absent(m: Map<Seq<char>, Seq<char>>, k: Seq<char>)
    ensures
        !m.remove(k).contains_key(k),
{
}

/// Every key in the index points at a record of the log that mentions it.
pub proof fn lemma_index_points_at_key(s: &KvStore)
    requires
        s.wf(),
    ensures
        forall|i: int| 0 <= i < s.index_view().len() ==> (match #[trigger] record_at(s.log_view(), s.index_view()[i].1 as int) {
            Some((c, _)) => c.key() == s.index_view()[i].0@,
            None => false,
        }),
{
    s.lemma_wf_entries();
}

/// Replaying a store's own log gives its values and reads the whole log, so
/// a store reopened from its log answers every `get` as the store did.
pub proof fn lemma_reopen_keeps_values(s: &KvStore)
    requires
        s.wf(),
    ensures
        replay(s.log_view()).0 == s.view(),
        s.log_view().subrange(0, replay(s.log_view()).1) == s.log_view(),
{
    s.lemma_wf_replay();
    assert(s.log_view().subrange(0, s.log_view().len() as int) =~= s.log_view());
}

/// A compacted store's index names exactly the keys that hold a value, each at
/// a record that sets it, and its log replays to its values.
pub proof fn lemma_compacted_log(s: &KvStore)
    requires
        s.wf(),
        forall|j: int| 0 <= j < s.index_view().len() ==> entry_live(s.log_view(), #[trigger] s.index_view()[j]),
    ensures
        forall|j: int| 0 <= j < s.index_view().len() ==> s.view().contains_key((#[trigger] s.index_view()[j]).0@),
        forall|k: Seq<char>| #[trigger] s.view().contains_key(k) ==> exists|j: int| 0 <= j < s.index_view().len() && (#[trigger] s.index_view()[j]).0@ == k,
        replay(s.log_view()).0 == s.view(),
{
    s.lemma_wf_entries();
    s.lemma_wf_replay();
    s.lemma_wf_covers();
    assert forall|j: int| 0 <= j < s.index_view().len() implies s.view().contains_key((#[trigger] s.index_view()[j]).0@) by {
        assert(entry_live(s.log_view(), s.index_view()[j]));
        assert(crate::engine::entry_ok(s.log_view(), s.view(), s.index_view()[j]));
    }
}

/// Two writes to one key, in whichever order the lock admits them, leave the
/// key holding one of the two values.
pub proof fn lemma_one_writer_wins(m: Map<Seq<char>, Seq<char>>, k: Seq<char>, v1: Seq<char>, v2: Seq<char>)
    ensures
        m.insert(k, v1).insert(k, v2)[k] == v2,
        m.insert(k, v2).insert(k, v1)[k] == v1,
{
}

} // verus!
