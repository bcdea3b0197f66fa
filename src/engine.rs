//! The log-structured engine: an append-only log of command records, an
//! index from each key to the offset of its latest record, and compaction
//! once the log outgrows a threshold.
use vstd::prelude::*;
use crate::codec::{
    be_value, record_at, record_of, encode_record, read_command_from, extend_bytes, lemma_record_at_extend,
    lemma_record_at_append, Command, CommandModel,
};
use crate::err::KvsError;

verus! {

/// The threshold that a fresh or small log starts with: 128 KiB.
pub const DEFAULT_THRESHOLD: usize = 131072;

/// What an index entry promises: the record at its offset mentions its key,
/// and tells whether the key holds a value, and which.
pub open spec fn entry_ok(log: Seq<u8>, model: Map<Seq<char>, Seq<char>>, e: (String, usize)) -> bool {
    match record_at(log, e.1 as int) {
        Some((c, n)) => {
            &&& c.key() == e.0@
            &&& match c {
                CommandModel::Put { key, value } => model.contains_key(key) && model[key] == value,
                CommandModel::Remove { key } => !model.contains_key(key),
            }
        },
        None => false,
    }
}

/// The values after a command is applied.
pub open spec fn apply(m: Map<Seq<char>, Seq<char>>, c: CommandModel) -> Map<Seq<char>, Seq<char>> {
    match c {
        CommandModel::Put { key, value } => m.insert(key, value),
        CommandModel::Remove { key } => m.remove(key),
    }
}

/// The record at the entry's offset sets a value.
pub open spec fn entry_live(log: Seq<u8>, e: (String, usize)) -> bool {
    match record_at(log, e.1 as int) {
        Some((CommandModel::Put { .. }, _)) => true,
        _ => false,
    }
}

/// Replays the records of a log from byte `off` onto the values `m`: the
/// values after the last record that decodes, and the byte where replay stopped.
pub open spec fn replay_from(log: Seq<u8>, off: int, m: Map<Seq<char>, Seq<char>>) -> (Map<Seq<char>, Seq<char>>, int)
    decreases log.len() - off,
{
    if 0 <= off < log.len() {
        match record_at(log, off) {
            Some((c, n)) => if n > 0 {
                replay_from(log, off + n, apply(m, c))
            } else {
                (m, off)
            },
            None => (m, off),
        }
    } else {
        (m, off)
    }
}

/// The values that replaying a whole log gives, and where its last good record ends.
pub open spec fn replay(log: Seq<u8>) -> (Map<Seq<char>, Seq<char>>, int) {
    replay_from(log, 0, Map::empty())
}

/// Replays the records of a log from byte `off` onto the index `iv`: each
/// record points its key at its own offset, so each key ends at the offset
/// of the last record that mentions it.
pub open spec fn index_replay_from(log: Seq<u8>, off: int, iv: Seq<(Seq<char>, usize)>) -> Seq<(Seq<char>, usize)>
    decreases log.len() - off,
{
    if 0 <= off < log.len() {
        match record_at(log, off) {
            Some((c, n)) => if n > 0 {
                index_replay_from(log, off + n, upsert_view(iv, c.key(), off as usize))
            } else {
                iv
            },
            None => iv,
        }
    } else {
        iv
    }
}

/// The threshold after recovering a log of `len` bytes.
pub open spec fn recovered_threshold(len: nat) -> nat {
    if 2 * len <= DEFAULT_THRESHOLD {
        DEFAULT_THRESHOLD as nat
    } else if len <= usize::MAX / 2 {
        2 * len
    } else {
        usize::MAX as nat
    }
}

/// The threshold after a compaction to `len` bytes: doubled where the
/// compacted log fills 90% of it or more.
pub open spec fn threshold_after_compaction(threshold: nat, len: nat) -> nat {
    if len * 10 >= threshold * 9 {
        if threshold <= usize::MAX / 2 {
            2 * threshold
        } else {
            usize::MAX as nat
        }
    } else {
        threshold
    }
}

/// A record that reads in a log reads the same in any prefix that holds it.
pub proof fn lemma_record_at_prefix(log: Seq<u8>, end: int, off: int)
    requires
        record_at(log, off) is Some,
        off + record_at(log, off).unwrap().1 <= end <= log.len(),
    ensures
        record_at(log.subrange(0, end), off) == record_at(log, off),
{
    let n = be_value(log.subrange(off, off + 8)) as int;
    assert(log.subrange(0, end).subrange(off, off + 8) =~= log.subrange(off, off + 8));
    assert(log.subrange(0, end).subrange(off + 8, off + 8 + n) =~= log.subrange(off + 8, off + 8 + n));
}

/// Replay never moves backwards.
pub proof fn lemma_replay_ge(log: Seq<u8>, off: int, m: Map<Seq<char>, Seq<char>>)
    ensures
        replay_from(log, off, m).1 >= off,
    decreases log.len() - off,
{
    if 0 <= off < log.len() {
        match record_at(log, off) {
            Some((c, n)) => if n > 0 {
                lemma_replay_ge(log, off + n, apply(m, c));
            },
            None => {},
        }
    }
}

/// A log that replays to its end replays one appended record after it.
pub proof fn lemma_replay_append(log: Seq<u8>, rec: Seq<u8>, off: int, m: Map<Seq<char>, Seq<char>>)
    requires
        0 <= off <= log.len(),
        replay_from(log, off, m).1 == log.len(),
        record_at(rec, 0) is Some,
        record_at(rec, 0).unwrap().1 == rec.len(),
    ensures
        replay_from(log + rec, off, m) == (
            apply(replay_from(log, off, m).0, record_at(rec, 0).unwrap().0),
            (log.len() + rec.len()) as int,
        ),
    decreases log.len() - off,
{
    let full = log + rec;
    if off == log.len() {
        lemma_record_at_append(log, rec);
        let (c, n) = record_at(rec, 0).unwrap();
        assert(record_at(full, off) == Some((c, n)));
        assert(replay_from(full, off + n, apply(m, c)) == (apply(m, c), off + n));
    } else {
        let (c, n) = record_at(log, off).unwrap();
        assert(n > 0);
        lemma_record_at_extend(log, rec, off);
        lemma_replay_ge(log, off + n, apply(m, c));
        lemma_replay_append(log, rec, off + n, apply(m, c));
    }
}

/// Replay that ends at `end` reads the same in the log cut at `end`.
pub proof fn lemma_replay_prefix(log: Seq<u8>, end: int, off: int, m: Map<Seq<char>, Seq<char>>)
    requires
        0 <= off <= end <= log.len(),
        replay_from(log, off, m).1 == end,
    ensures
        replay_from(log.subrange(0, end), off, m) == replay_from(log, off, m),
    decreases log.len() - off,
{
    let cut = log.subrange(0, end);
    if off < end {
        assert(record_at(log, off) is Some);
        let (c, n) = record_at(log, off).unwrap();
        assert(n >= 8);
        lemma_replay_ge(log, off + n, apply(m, c));
        lemma_record_at_prefix(log, end, off);
        lemma_replay_prefix(log, end, off + n, apply(m, c));
        assert(replay_from(cut, off, m) == replay_from(cut, off + n, apply(m, c)));
    } else {
        if off < log.len() {
            match record_at(log, off) {
                Some((c, n)) => {
                    lemma_replay_ge(log, off + n, apply(m, c));
                },
                None => {},
            }
        }
        assert(replay_from(cut, off, m) == (m, off));
    }
}

fn index_upsert(idx: &mut Vec<(String, usize)>, key: String, off: usize) -> (p: usize)
    requires
        keys_unique(old(idx)@),
    ensures
        keys_unique(final(idx)@),
        p <= old(idx)@.len(),
        final(idx)@.len() == if p < old(idx)@.len() { old(idx)@.len() } else { old(idx)@.len() + 1 },
        final(idx)@[p as int].0@ == key@,
        final(idx)@[p as int].1 == off,
        p < old(idx)@.len() ==> old(idx)@[p as int].0@ == key@,
        offsets_view(final(idx)@) == upsert_view(offsets_view(old(idx)@), key@, off),
        forall|j: int| 0 <= j < final(idx)@.len() && j != p ==> #[trigger] final(idx)@[j] == old(idx)@[j] && old(idx)@[j].0@ != key@,
{
    let mut i: usize = 0;
    while i < idx.len()
        invariant
            i <= idx@.len(),
            idx@ == old(idx)@,
            keys_unique(old(idx)@),
            forall|j: int| 0 <= j < i ==> (#[trigger] idx@[j]).0@ != key@,
        decreases idx@.len() - i,
    {
        if idx[i].0 == key {
            idx.set(i, (key, off));
            proof {
                assert forall|a: int, b: int| 0 <= a < b < idx@.len() implies (#[trigger] idx@[a]).0@ != (#[trigger] idx@[b]).0@ by {
                    if a != i && b != i {
                        assert(idx@[a] == old(idx)@[a] && idx@[b] == old(idx)@[b]);
                    } else if a == i {
                        assert(idx@[b] == old(idx)@[b] && old(idx)@[a].0@ == key@);
                    } else {
                        assert(idx@[a] == old(idx)@[a] && old(idx)@[b].0@ == key@);
                    }
                }
                assert forall|j: int| 0 <= j < idx@.len() && j != i implies #[trigger] idx@[j] == old(idx)@[j] && old(idx)@[j].0@ != key@ by {
                    assert(old(idx)@[i as int].0@ == key@);
                    assert(old(idx)@[j].0@ != old(idx)@[i as int].0@);
                }
                let ov = offsets_view(old(idx)@);
                assert(ov[i as int].0 == key@);
                let c = choose|c: int| 0 <= c < ov.len() && (#[trigger] ov[c]).0 == key@;
                if c != i {
                    assert(old(idx)@[c].0@ == old(idx)@[i as int].0@);
                    if c < i {
                        assert(old(idx)@[c].0@ != old(idx)@[i as int].0@);
                    } else {
                        assert(old(idx)@[i as int].0@ != old(idx)@[c].0@);
                    }
                }
                assert(offsets_view(idx@) =~= upsert_view(ov, key@, off));
            }
            return i;
        }
        i = i + 1;
    }
    let p = idx.len();
    idx.push((key, off));
    proof {
        let ov = offsets_view(old(idx)@);
        assert(!exists|c: int| 0 <= c < ov.len() && (#[trigger] ov[c]).0 == key@) by {
            assert forall|c: int| 0 <= c < ov.len() implies (#[trigger] ov[c]).0 != key@ by {
                assert(old(idx)@[c].0@ != key@);
            }
        }
        assert(offsets_view(idx@) =~= upsert_view(ov, key@, off));
        assert forall|a: int, b: int| 0 <= a < b < idx@.len() implies (#[trigger] idx@[a]).0@ != (#[trigger] idx@[b]).0@ by {
            if b != p {
                assert(idx@[a] == old(idx)@[a] && idx@[b] == old(idx)@[b]);
            } else {
                assert(idx@[a] == old(idx)@[a]);
            }
        }
    }
    p
}

/// The index as keys and offsets.
pub open spec fn offsets_view(idx: Seq<(String, usize)>) -> Seq<(Seq<char>, usize)> {
    idx.map_values(|e: (String, usize)| (e.0@, e.1))
}

/// The index with `k` pointed at `off`: its entry overwritten in place where
/// it has one, else a new entry at the end.
pub open spec fn upsert_view(iv: Seq<(Seq<char>, usize)>, k: Seq<char>, off: usize) -> Seq<(Seq<char>, usize)> {
    if exists|i: int| 0 <= i < iv.len() && (#[trigger] iv[i]).0 == k {
        iv.update(choose|i: int| 0 <= i < iv.len() && (#[trigger] iv[i]).0 == k, (k, off))
    } else {
        iv.push((k, off))
    }
}

/// The compacted log: in index order, the record of each entry whose record
/// sets a value, written anew.
pub open spec fn live_log(log: Seq<u8>, iv: Seq<(Seq<char>, usize)>) -> Seq<u8>
    decreases iv.len(),
{
    if iv.len() == 0 {
        Seq::empty()
    } else {
        let prev = live_log(log, iv.drop_last());
        match record_at(log, iv.last().1 as int) {
            Some((CommandModel::Put { key, value }, _)) => prev + record_of(CommandModel::Put { key, value }),
            _ => prev,
        }
    }
}

/// The index of the compacted log: each entry whose record sets a value, at
/// the offset of its record in `live_log`; the others dropped.
pub open spec fn live_index(log: Seq<u8>, iv: Seq<(Seq<char>, usize)>) -> Seq<(Seq<char>, usize)>
    decreases iv.len(),
{
    if iv.len() == 0 {
        Seq::empty()
    } else {
        let prev = live_index(log, iv.drop_last());
        match record_at(log, iv.last().1 as int) {
            Some((CommandModel::Put { .. }, _)) => prev.push((iv.last().0, live_log(log, iv.drop_last()).len() as usize)),
            _ => prev,
        }
    }
}

/// A compaction counter after one more compaction.
pub open spec fn next_count(c: nat) -> nat {
    if c < u64::MAX { c + 1 } else { c }
}

/// `new` is the compaction of a store with log `log`, index `iv`, threshold
/// `thr` and `count` compactions behind it.
pub open spec fn compacted(log: Seq<u8>, iv: Seq<(Seq<char>, usize)>, thr: nat, count: nat, new: KvStore) -> bool {
    &&& new.log_view() == live_log(log, iv)
    &&& offsets_view(new.index_view()) == live_index(log, iv)
    &&& new.threshold_view() == threshold_after_compaction(thr, live_log(log, iv).len())
    &&& new.compactions_view() == next_count(count)
}

/// The log can take the record of `c`.
pub open spec fn fits(s: KvStore, c: CommandModel) -> bool {
    s.log_view().len() + record_of(c).len() <= usize::MAX
}

/// `new` is `old` after appending the record of `c` at the old cursor and
/// pointing its key there; then, where the log reached the threshold, after
/// compacting, unless the compacted log would outgrow the address space.
pub open spec fn appended(old: KvStore, new: KvStore, c: CommandModel) -> bool {
    let l1 = old.log_view() + record_of(c);
    let iv1 = upsert_view(offsets_view(old.index_view()), c.key(), old.log_view().len() as usize);
    if l1.len() < old.threshold_view() || live_log(l1, iv1).len() > usize::MAX {
        &&& new.log_view() == l1
        &&& offsets_view(new.index_view()) == iv1
        &&& new.threshold_view() == old.threshold_view()
        &&& new.compactions_view() == old.compactions_view()
    } else {
        compacted(l1, iv1, old.threshold_view(), old.compactions_view(), new)
    }
}

/// A prefix of the index compacts to no more bytes than the whole.
pub proof fn lemma_live_log_prefix(log: Seq<u8>, iv: Seq<(Seq<char>, usize)>, j: int)
    requires
        0 <= j <= iv.len(),
    ensures
        live_log(log, iv.subrange(0, j)).len() <= live_log(log, iv).len(),
    decreases iv.len(),
{
    if j == iv.len() {
        assert(iv.subrange(0, j) =~= iv);
    } else {
        assert(iv.drop_last().subrange(0, j) =~= iv.subrange(0, j));
        lemma_live_log_prefix(log, iv.drop_last(), j);
    }
}

pub open spec fn keys_unique(idx: Seq<(String, usize)>) -> bool {
    forall|i: int, j: int| 0 <= i < j < idx.len() ==> (#[trigger] idx[i]).0@ != (#[trigger] idx[j]).0@
}

pub open spec fn index_ok(log: Seq<u8>, model: Map<Seq<char>, Seq<char>>, idx: Seq<(String, usize)>) -> bool {
    &&& keys_unique(idx)
    &&& forall|i: int| 0 <= i < idx.len() ==> entry_ok(log, model, #[trigger] idx[i])
    &&& forall|k: Seq<char>| #[trigger] model.contains_key(k) ==> exists|i: int| 0 <= i < idx.len() && (#[trigger] idx[i]).0@ == k
}

/// The store. Its log is the content of the log file; the owner of the file
/// writes to it what the store appends, and rewrites it after a compaction.
pub struct KvStore {
    log: Vec<u8>,
    index: Vec<(String, usize)>,
    threshold: usize,
    compactions: u64,
    model: Ghost<Map<Seq<char>, Seq<char>>>,
}

impl KvStore {
    /// The value that each key holds.
    pub closed spec fn view(&self) -> Map<Seq<char>, Seq<char>> {
        self.model@
    }

    pub closed spec fn log_view(&self) -> Seq<u8> {
        self.log@
    }

    pub closed spec fn index_view(&self) -> Seq<(String, usize)> {
        self.index@
    }

    pub closed spec fn threshold_view(&self) -> nat {
        self.threshold as nat
    }

    pub closed spec fn compactions_view(&self) -> nat {
        self.compactions as nat
    }

    pub closed spec fn wf(&self) -> bool {
        &&& index_ok(self.log@, self.model@, self.index@)
        &&& replay(self.log@) == (self.model@, self.log@.len() as int)
        &&& self.threshold >= DEFAULT_THRESHOLD
    }

    pub proof fn lemma_wf_entries(&self)
        requires
            self.wf(),
        ensures
            forall|i: int| 0 <= i < self.index_view().len() ==> entry_ok(self.log_view(), self.view(), #[trigger] self.index_view()[i]),
    {
    }

    pub proof fn lemma_wf_covers(&self)
        requires
            self.wf(),
        ensures
            forall|k: Seq<char>| #[trigger] self.view().contains_key(k) ==> exists|j: int| 0 <= j < self.index_view().len() && (#[trigger] self.index_view()[j]).0@ == k,
    {
        assert forall|k: Seq<char>| #[trigger] self.view().contains_key(k) implies exists|j: int| 0 <= j < self.index_view().len() && (#[trigger] self.index_view()[j]).0@ == k by {
            assert(self.model@.contains_key(k));
            let j = choose|j: int| 0 <= j < self.index@.len() && (#[trigger] self.index@[j]).0@ == k;
            assert(self.index_view()[j].0@ == k);
        }
    }

    pub proof fn lemma_wf_replay(&self)
        requires
            self.wf(),
        ensures
            replay(self.log_view()) == (self.view(), self.log_view().len() as int),
    {
    }

    /// The length of the log, which is where the next record goes.
    pub fn cursor(&self) -> (r: usize)
        ensures
            r == self.log_view().len(),
    {
        self.log.len()
    }

    /// The bytes of the log.
    pub fn log_bytes(&self) -> (r: &Vec<u8>)
        ensures
            r@ == self.log_view(),
    {
        &self.log
    }

    /// The size at which the log is next compacted.
    pub fn threshold(&self) -> (r: usize)
        ensures
            r == self.threshold_view(),
    {
        self.threshold
    }

    /// How many compactions have run since the store was opened.
    pub fn compactions(&self) -> (r: u64)
        ensures
            r == self.compactions_view(),
    {
        self.compactions
    }

    /// Recovers a store from the bytes of its log file: replays every record
    /// that decodes, and stops at the first that does not, where the log is
    /// cut. The threshold is twice the recovered length, and at least 128 KiB.
    pub fn open(bytes: Vec<u8>) -> (r: KvStore)
        ensures
            r.wf(),
            r.view() == replay(bytes@).0,
            r.log_view() == bytes@.subrange(0, replay(bytes@).1),
            r.threshold_view() == recovered_threshold(replay(bytes@).1 as nat),
            offsets_view(r.index_view()) == index_replay_from(bytes@, 0, Seq::empty()),
            r.compactions_view() == 0,
    {
        let mut log = bytes;
        let total = log.len();
        let mut idx: Vec<(String, usize)> = Vec::new();
        proof {
            assert(offsets_view(idx@) =~= Seq::empty());
        }
        let ghost mut m: Map<Seq<char>, Seq<char>> = Map::empty();
        let mut off: usize = 0;
        loop
            invariant
                off <= log@.len(),
                total == log@.len(),
                log@ == bytes@,
                index_ok(log@, m, idx@),
                forall|j: int| 0 <= j < idx@.len() ==> #[trigger] idx@[j].1 + record_at(log@, idx@[j].1 as int).unwrap().1 <= off,
                replay(log@) == replay_from(log@, off as int, m),
                index_replay_from(bytes@, 0, Seq::empty()) == index_replay_from(log@, off as int, offsets_view(idx@)),
            ensures
                index_replay_from(bytes@, 0, Seq::empty()) == offsets_view(idx@),
                log@ == bytes@,
                off <= log@.len(),
                index_ok(log@, m, idx@),
                forall|j: int| 0 <= j < idx@.len() ==> #[trigger] idx@[j].1 + record_at(log@, idx@[j].1 as int).unwrap().1 <= off,
                replay(bytes@) == (m, off as int),
            decreases log@.len() - off,
        {
            match read_command_from(log.as_slice(), off) {
                None => {
                    proof {
                        assert(replay_from(log@, off as int, m) == (m, off as int));
                        assert(index_replay_from(log@, off as int, offsets_view(idx@)) == offsets_view(idx@));
                    }
                    break;
                },
                Some((c, n)) => {
                    proof {
                        assert(off + n <= log@.len());
                        assert(n >= 8);
                        assert(replay_from(log@, off as int, m) == replay_from(log@, off + n, apply(m, c@)));
                        assert(index_replay_from(log@, off as int, offsets_view(idx@)) == index_replay_from(
                            log@, off + n, upsert_view(offsets_view(idx@), c@.key(), off)));
                    }
                    let ghost old_idx = idx@;
                    let ghost old_m = m;
                    let key = c.get_key();
                    let p = index_upsert(&mut idx, key, off);
                    proof {
                        m = apply(m, c@);
                        assert forall|j: int| 0 <= j < idx@.len() implies entry_ok(log@, m, #[trigger] idx@[j]) by {
                            if j != p {
                                assert(entry_ok(log@, old_m, old_idx[j]));
                            }
                        }
                        assert forall|kk: Seq<char>| #[trigger] m.contains_key(kk) implies exists|i: int| 0 <= i < idx@.len() && (#[trigger] idx@[i]).0@ == kk by {
                            if kk == c@.key() {
                                assert(idx@[p as int].0@ == kk);
                            } else {
                                assert(old_m.contains_key(kk));
                                let i = choose|i: int| 0 <= i < old_idx.len() && (#[trigger] old_idx[i]).0@ == kk;
                                assert(i != p);
                                assert(idx@[i] == old_idx[i]);
                            }
                        }
                    }
                    off = off + n;
                    proof {
                        assert forall|j: int| 0 <= j < idx@.len() implies #[trigger] idx@[j].1 + record_at(log@, idx@[j].1 as int).unwrap().1 <= off by {
                            if j != p {
                                assert(idx@[j] == old_idx[j]);
                            }
                        }
                    }
                },
            }
        }
        let ghost full = log@;
        log.truncate(off);
        proof {
            assert(log@ =~= full.subrange(0, off as int));
            assert forall|j: int| 0 <= j < idx@.len() implies entry_ok(log@, m, #[trigger] idx@[j]) by {
                assert(entry_ok(full, m, idx@[j]));
                lemma_record_at_prefix(full, off as int, idx@[j].1 as int);
            }
            lemma_replay_prefix(full, off as int, 0, Map::empty());
        }
        let threshold = if off <= DEFAULT_THRESHOLD / 2 {
            DEFAULT_THRESHOLD
        } else if off <= usize::MAX / 2 {
            off * 2
        } else {
            usize::MAX
        };
        KvStore { log, index: idx, threshold, compactions: 0, model: Ghost(m) }
    }

    fn find(&self, key: &String) -> (r: Option<usize>)
        ensures
            match r {
                Some(i) => i < self.index@.len() && self.index@[i as int].0@ == key@,
                None => forall|i: int| 0 <= i < self.index@.len() ==> (#[trigger] self.index@[i]).0@ != key@,
            },
    {
        let mut i: usize = 0;
        while i < self.index.len()
            invariant
                i <= self.index@.len(),
                forall|j: int| 0 <= j < i ==> (#[trigger] self.index@[j]).0@ != key@,
            decreases self.index@.len() - i,
        {
            if self.index[i].0 == *key {
                return Some(i);
            }
            i = i + 1;
        }
        None
    }

    /// The value that `key` holds, if any.
    pub fn get(&self, key: String) -> (r: Result<Option<String>, KvsError>)
        requires
            self.wf(),
        ensures
            match r {
                Ok(Some(v)) => self.view().contains_key(key@) && self.view()[key@] == v@,
                Ok(None) => !self.view().contains_key(key@),
                Err(_) => false,
            },
    {
        match self.find(&key) {
            None => Ok(None),
            Some(i) => {
                let off = self.index[i].1;
                proof { assert(entry_ok(self.log@, self.model@, self.index@[i as int])); }
                match read_command_from(self.log.as_slice(), off) {
                    Some((Command::Put { value, .. }, _)) => Ok(Some(value)),
                    Some((Command::Remove { .. }, _)) => Ok(None),
                    None => Err(KvsError::Corrupt),
                }
            },
        }
    }
}


impl KvStore {
    fn append_command(&mut self, cmd: Command) -> (r: Result<(), KvsError>)
        requires
            old(self).wf(),
        ensures
            final(self).wf(),
            r is Err <==> !fits(*old(self), cmd@),
            match r {
                Ok(()) => {
                    &&& final(self).view() == apply(old(self).view(), cmd@)
                    &&& appended(*old(self), *final(self), cmd@)
                },
                Err(e) => e == KvsError::LogFull && *final(self) == *old(self),
            },
            final(self).compactions_view() != old(self).compactions_view() ==> forall|j: int|
                0 <= j < final(self).index_view().len() ==> entry_live(
                    final(self).log_view(),
                    #[trigger] final(self).index_view()[j],
                ),
    {
        let rec = encode_record(&cmd);
        if self.log.len() > usize::MAX - rec.len() {
            return Err(KvsError::LogFull);
        }
        let off = self.log.len();
        let ghost old_log = self.log@;
        let ghost old_idx = self.index@;
        let ghost old_model = self.model@;
        extend_bytes(&mut self.log, rec.as_slice());
        proof {
            lemma_record_at_append(old_log, rec@);
            lemma_replay_append(old_log, rec@, 0, Map::empty());
        }
        let key = cmd.get_key();
        let ghost k = key@;
        self.model = Ghost(apply(self.model@, cmd@));
        let p = index_upsert(&mut self.index, key, off);
        proof {
            let new_log = self.log@;
            let new_idx = self.index@;
            let new_model = self.model@;
            assert(new_log == old_log + rec@);
            assert forall|j: int| 0 <= j < new_idx.len() implies entry_ok(new_log, new_model, #[trigger] new_idx[j]) by {
                if j != p as int {
                    assert(self.index@[j] == old_idx[j] && old_idx[j].0@ != k);
                    assert(entry_ok(old_log, old_model, old_idx[j]));
                    lemma_record_at_extend(old_log, rec@, old_idx[j].1 as int);
                }
            }
            assert forall|kk: Seq<char>| #[trigger] new_model.contains_key(kk) implies exists|i: int| 0 <= i < new_idx.len() && (#[trigger] new_idx[i]).0@ == kk by {
                if kk == k {
                    assert(new_idx[p as int].0@ == kk);
                } else {
                    assert(old_model.contains_key(kk));
                    let i = choose|i: int| 0 <= i < old_idx.len() && (#[trigger] old_idx[i]).0@ == kk;
                    assert(i != p);
                    assert(new_idx[i] == old_idx[i]);
                }
            }
        }
        if self.log.len() >= self.threshold {
            self.compact();
        }
        Ok(())
    }

    /// Rewrites the log so that it holds one record for each key that holds a
    /// value, and drops the index entries of removed keys. Where the new log
    /// would outgrow the address space, the store is left as it was.
    #[verifier::rlimit(40)]
    fn compact(&mut self)
        requires
            old(self).wf(),
        ensures
            final(self).wf(),
            final(self).view() == old(self).view(),
            if live_log(old(self).log_view(), offsets_view(old(self).index_view())).len() <= usize::MAX {
                &&& compacted(
                    old(self).log_view(),
                    offsets_view(old(self).index_view()),
                    old(self).threshold_view(),
                    old(self).compactions_view(),
                    *final(self),
                )
                &&& forall|j: int|
                    0 <= j < final(self).index_view().len() ==> entry_live(
                        final(self).log_view(),
                        #[trigger] final(self).index_view()[j],
                    )
            } else {
                *final(self) == *old(self)
            },
    {
        let ghost model = self.model@;
        let ghost old_log = self.log@;
        let ghost old_idx = self.index@;
        let ghost oiv = offsets_view(old_idx);
        let mut new_log: Vec<u8> = Vec::new();
        let mut new_idx: Vec<(String, usize)> = Vec::new();
        let ghost mut src: Seq<int> = Seq::empty();
        let ghost mut acc: Map<Seq<char>, Seq<char>> = Map::empty();
        let mut i: usize = 0;
        while i < self.index.len()
            invariant
                self.wf(),
                self.model@ == model,
                self.log@ == old_log,
                self.index@ == old_idx,
                i <= old_idx.len(),
                src.len() == new_idx@.len(),
                forall|j: int| 0 <= j < src.len() ==> 0 <= #[trigger] src[j] < i,
                forall|a: int, b: int| 0 <= a < b < src.len() ==> #[trigger] src[a] < #[trigger] src[b],
                forall|j: int| 0 <= j < src.len() ==> (#[trigger] new_idx@[j]).0@ == old_idx[src[j]].0@,
                forall|j: int| 0 <= j < new_idx@.len() ==> entry_ok(new_log@, model, #[trigger] new_idx@[j]),
                forall|j: int| 0 <= j < new_idx@.len() ==> entry_live(new_log@, #[trigger] new_idx@[j]),
                replay(new_log@) == (acc, new_log@.len() as int),
                oiv == offsets_view(old_idx),
                new_log@ == live_log(old_log, oiv.subrange(0, i as int)),
                offsets_view(new_idx@) == live_index(old_log, oiv.subrange(0, i as int)),
                forall|k: Seq<char>| #[trigger] acc.contains_key(k) ==> model.contains_key(k) && acc[k] == model[k],
                forall|j: int| 0 <= j < new_idx@.len() ==> acc.contains_key((#[trigger] new_idx@[j]).0@),
                forall|m: int| 0 <= m < i && entry_live(old_log, #[trigger] old_idx[m]) ==> exists|j: int|
                    0 <= j < new_idx@.len() && (#[trigger] new_idx@[j]).0@ == old_idx[m].0@,
            decreases old_idx.len() - i,
        {
            proof {
                assert(entry_ok(old_log, model, old_idx[i as int]));
                let nxt = oiv.subrange(0, i + 1);
                assert(nxt.drop_last() =~= oiv.subrange(0, i as int));
                assert(nxt.last() == oiv[i as int]);
            }
            let ghost idx_before = new_idx@;
            let ghost log_before = new_log@;
            match read_command_from(self.log.as_slice(), self.index[i].1) {
                Some((c, _)) => {
                    if let Command::Put { .. } = c {
                        let rec = encode_record(&c);
                        if new_log.len() > usize::MAX - rec.len() {
                            proof {
                                lemma_live_log_prefix(old_log, oiv, i + 1);
                            }
                            return;
                        }
                        let off = new_log.len();
                        let ghost before = new_log@;
                        extend_bytes(&mut new_log, rec.as_slice());
                        proof {
                            lemma_record_at_append(before, rec@);
                            lemma_replay_append(before, rec@, 0, Map::empty());
                            acc = apply(acc, c@);
                            assert forall|j: int| 0 <= j < new_idx@.len() implies entry_ok(new_log@, model, #[trigger] new_idx@[j]) && entry_live(new_log@, new_idx@[j]) by {
                                assert(entry_ok(before, model, new_idx@[j]));
                                assert(entry_live(before, new_idx@[j]));
                                lemma_record_at_extend(before, rec@, new_idx@[j].1 as int);
                            }
                        }
                        new_idx.push((c.get_key(), off));
                        proof {
                            src = src.push(i as int);
                            assert(offsets_view(new_idx@) =~= offsets_view(idx_before).push((old_idx[i as int].0@, log_before.len() as usize)));
                            assert(new_idx@[idx_before.len() as int].0@ == old_idx[i as int].0@);
                            assert forall|j: int| 0 <= j < idx_before.len() implies #[trigger] new_idx@[j] == idx_before[j] by {}
                        }
                    } else {
                        proof { assert(!entry_live(old_log, old_idx[i as int])); }
                    }
                },
                None => {
                    return;
                },
            }
            proof {
                assert forall|m: int| 0 <= m < i + 1 && entry_live(old_log, #[trigger] old_idx[m]) implies exists|j: int|
                    0 <= j < new_idx@.len() && (#[trigger] new_idx@[j]).0@ == old_idx[m].0@ by {
                    if m == i {
                        assert(new_idx@[idx_before.len() as int].0@ == old_idx[m].0@);
                    } else {
                        let j = choose|j: int| 0 <= j < idx_before.len() && (#[trigger] idx_before[j]).0@ == old_idx[m].0@;
                        assert(new_idx@[j] == idx_before[j]);
                    }
                }
            }
            i = i + 1;
        }
        proof {
            assert forall|a: int, b: int| 0 <= a < b < new_idx@.len() implies (#[trigger] new_idx@[a]).0@ != (#[trigger] new_idx@[b]).0@ by {
                assert(src[a] < src[b]);
                assert(old_idx[src[a]].0@ != old_idx[src[b]].0@);
            }
            assert forall|kk: Seq<char>| #[trigger] model.contains_key(kk) implies exists|j: int| 0 <= j < new_idx@.len() && (#[trigger] new_idx@[j]).0@ == kk by {
                let m = choose|m: int| 0 <= m < old_idx.len() && (#[trigger] old_idx[m]).0@ == kk;
                assert(entry_ok(old_log, model, old_idx[m]));
                assert(entry_live(old_log, old_idx[m]));
            }
            assert forall|kk: Seq<char>| #[trigger] model.contains_key(kk) implies acc.contains_key(kk) by {
                let j = choose|j: int| 0 <= j < new_idx@.len() && (#[trigger] new_idx@[j]).0@ == kk;
                assert(acc.contains_key(new_idx@[j].0@));
            }
            assert(acc =~= model);
        }
        proof {
            assert(oiv.subrange(0, old_idx.len() as int) =~= oiv);
        }
        let new_len = new_log.len();
        self.log = new_log;
        self.index = new_idx;
        if (new_len as u128) * 10 >= (self.threshold as u128) * 9 {
            self.threshold = if self.threshold <= usize::MAX / 2 {
                self.threshold * 2
            } else {
                usize::MAX
            };
        }
        if self.compactions < u64::MAX {
            self.compactions = self.compactions + 1;
        }
    }

    /// Sets `key` to `value`. The only failure is a log that cannot grow,
    /// and it leaves the store as it was. Where the log reached the
    /// threshold, it is compacted: afterwards each index entry points at a
    /// record that sets its key.
    pub fn set(&mut self, key: String, value: String) -> (r: Result<(), KvsError>)
        requires
            old(self).wf(),
        ensures
            final(self).wf(),
            r is Err <==> !fits(*old(self), CommandModel::Put { key: key@, value: value@ }),
            r is Ok ==> appended(*old(self), *final(self), CommandModel::Put { key: key@, value: value@ }),
            final(self).compactions_view() != old(self).compactions_view() ==> forall|j: int|
                0 <= j < final(self).index_view().len() ==> entry_live(
                    final(self).log_view(),
                    #[trigger] final(self).index_view()[j],
                ),
            match r {
                Ok(()) => final(self).view() == old(self).view().insert(key@, value@),
                Err(e) => e == KvsError::LogFull && *final(self) == *old(self),
            },
    {
        self.append_command(Command::Put { key, value })
    }

    /// Removes `key`, which must hold a value. It may compact the log, as `set` does.
    pub fn remove(&mut self, key: String) -> (r: Result<(), KvsError>)
        requires
            old(self).wf(),
        ensures
            final(self).wf(),
            r is Ok ==> appended(*old(self), *final(self), CommandModel::Remove { key: key@ }),
            r == Err::<(), KvsError>(KvsError::LogFull) <==> old(self).view().contains_key(key@) && !fits(
                *old(self),
                CommandModel::Remove { key: key@ },
            ),
            final(self).compactions_view() != old(self).compactions_view() ==> forall|j: int|
                0 <= j < final(self).index_view().len() ==> entry_live(
                    final(self).log_view(),
                    #[trigger] final(self).index_view()[j],
                ),
            match r {
                Ok(()) => old(self).view().contains_key(key@) && final(self).view() == old(self).view().remove(key@),
                Err(KvsError::KeyNotFound) => !old(self).view().contains_key(key@) && *final(self) == *old(self),
                Err(KvsError::LogFull) => old(self).view().contains_key(key@) && *final(self) == *old(self),
                Err(_) => false,
            },
    {
        match self.get(key.clone()) {
            Ok(Some(_)) => self.append_command(Command::Remove { key }),
            _ => Err(KvsError::KeyNotFound),
        }
    }
}

} // verus!
