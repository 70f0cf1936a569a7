//! The state machine store: a transactional key-value layer partitioned into
//! typed column families.
//!
//! Each family maps string keys to canonical record texts.  A transaction
//! takes a snapshot of the store when it begins; its reads see that snapshot,
//! its writes buffer until `commit`.  Commits use optimistic concurrency: a
//! commit succeeds only if no other commit has landed since the transaction
//! began (detected by a version counter), otherwise it fails with a
//! `TransactionError` and the caller may retry.

use vstd::prelude::*;

use crate::codec::{enc_list, enc_task_v, enc_executor_v, enc_content_v, encode_id_list,
    encode_task, encode_executor, encode_content};
use crate::errors::StateMachineError;
use crate::records::{ContentMetadata, ExecutorMetadata, Task};

verus! {

/// The five column families of the state machine.
#[derive(Clone, Copy, PartialEq, Eq, Structural, Debug)]
pub enum StateMachineColumn {
    Tasks,
    Executors,
    ContentTable,
    TaskAssignments,
    AttributesIndex,
}

/// The bindings of one column family, most recent last; a `None` value is a
/// deletion of the key.
pub struct KvFamily {
    pub entries: Vec<(String, Option<String>)>,
}

/// The map described by a binding sequence: later bindings win, a `None`
/// binding removes the key.
pub open spec fn assoc_map(es: Seq<(String, Option<String>)>) -> Map<Seq<char>, Seq<char>>
    decreases es.len(),
{
    if es.len() == 0 {
        Map::empty()
    } else {
        let prev = assoc_map(es.drop_last());
        match es.last().1 {
            Some(v) => prev.insert(es.last().0@, v@),
            None => prev.remove(es.last().0@),
        }
    }
}

impl View for KvFamily {
    type V = Map<Seq<char>, Seq<char>>;

    open spec fn view(&self) -> Map<Seq<char>, Seq<char>> {
        assoc_map(self.entries@)
    }
}

impl KvFamily {
    pub fn new() -> (r: Self)
        ensures
            r@ == Map::<Seq<char>, Seq<char>>::empty(),
    {
        KvFamily { entries: Vec::new() }
    }

    /// Look the key up in the family's map.
    pub fn get(&self, key: &String) -> (r: Option<&String>)
        ensures
            (match r {
                Some(v) => self@.contains_key(key@) && self@[key@] == v@,
                None => !self@.contains_key(key@),
            }),
    {
        let mut j: usize = self.entries.len();
        proof {
            assert(self.entries@.take(j as int) =~= self.entries@);
        }
        while j > 0
            invariant
                0 <= j <= self.entries.len(),
                self@.contains_key(key@) <==> assoc_map(self.entries@.take(j as int)).contains_key(
                    key@,
                ),
                self@.contains_key(key@) ==> self@[key@] == assoc_map(
                    self.entries@.take(j as int),
                )[key@],
            decreases j,
        {
            proof {
                assert(self.entries@.take(j as int).drop_last() =~= self.entries@.take(
                    j - 1 as int,
                ));
                assert(self.entries@.take(j as int).last() == self.entries@[j - 1 as int]);
            }
            let e = &self.entries[j - 1];
            if e.0 == *key {
                match &e.1 {
                    Some(v) => {
                        return Some(v);
                    },
                    None => {
                        return None;
                    },
                }
            }
            j = j - 1;
        }
        proof {
            assert(self.entries@.take(0) =~= Seq::<(String, Option<String>)>::empty());
        }
        None
    }

    /// Bind the key to the value.
    pub fn put(&mut self, key: String, val: String)
        ensures
            final(self)@ == old(self)@.insert(key@, val@),
    {
        self.entries.push((key, Some(val)));
        proof {
            assert(self.entries@.drop_last() =~= old(self).entries@);
            assert(self.entries@.last() == (self.entries@.last().0, self.entries@.last().1));
        }
    }

    /// Remove the key.
    pub fn delete(&mut self, key: String)
        ensures
            final(self)@ == old(self)@.remove(key@),
    {
        self.entries.push((key, None));
        proof {
            assert(self.entries@.drop_last() =~= old(self).entries@);
        }
    }

    /// A copy with the same map.
    pub fn duplicate(&self) -> (r: Self)
        ensures
            r@ == self@,
    {
        let mut out: Vec<(String, Option<String>)> = Vec::new();
        let mut i: usize = 0;
        while i < self.entries.len()
            invariant
                0 <= i <= self.entries.len(),
                out@ == self.entries@.take(i as int),
            decreases self.entries.len() - i,
        {
            let e = &self.entries[i];
            let val = match &e.1 {
                Some(v) => Some(v.clone()),
                None => None,
            };
            out.push((e.0.clone(), val));
            proof {
                assert(self.entries@.take(i + 1 as int) =~= self.entries@.take(i as int).push(
                    self.entries@[i as int],
                ));
            }
            i = i + 1;
        }
        proof {
            assert(self.entries@.take(self.entries@.len() as int) =~= self.entries@);
        }
        KvFamily { entries: out }
    }
}

/// Mathematical value of the store: one map per column family, and the
/// commit counter.
pub ghost struct StoreV {
    pub tasks: Map<Seq<char>, Seq<char>>,
    pub executors: Map<Seq<char>, Seq<char>>,
    pub content: Map<Seq<char>, Seq<char>>,
    pub assignments: Map<Seq<char>, Seq<char>>,
    pub attributes: Map<Seq<char>, Seq<char>>,
    pub version: u64,
}

impl StoreV {
    /// The map of one column family.
    pub open spec fn family(self, c: StateMachineColumn) -> Map<Seq<char>, Seq<char>> {
        match c {
            StateMachineColumn::Tasks => self.tasks,
            StateMachineColumn::Executors => self.executors,
            StateMachineColumn::ContentTable => self.content,
            StateMachineColumn::TaskAssignments => self.assignments,
            StateMachineColumn::AttributesIndex => self.attributes,
        }
    }

    /// The store with one column family replaced.
    pub open spec fn with_family(self, c: StateMachineColumn, m: Map<Seq<char>, Seq<char>>) -> StoreV {
        match c {
            StateMachineColumn::Tasks => StoreV { tasks: m, ..self },
            StateMachineColumn::Executors => StoreV { executors: m, ..self },
            StateMachineColumn::ContentTable => StoreV { content: m, ..self },
            StateMachineColumn::TaskAssignments => StoreV { assignments: m, ..self },
            StateMachineColumn::AttributesIndex => StoreV { attributes: m, ..self },
        }
    }
}

/// The store itself.
pub struct StateMachineStore {
    pub tasks: KvFamily,
    pub executors: KvFamily,
    pub content: KvFamily,
    pub assignments: KvFamily,
    pub attributes: KvFamily,
    pub version: u64,
}

impl View for StateMachineStore {
    type V = StoreV;

    open spec fn view(&self) -> StoreV {
        StoreV {
            tasks: self.tasks@,
            executors: self.executors@,
            content: self.content@,
            assignments: self.assignments@,
            attributes: self.attributes@,
            version: self.version,
        }
    }
}

/// One buffered write: a binding (`Some`) or a deletion (`None`) of a key in
/// one column family.
pub struct WriteOp {
    pub col: StateMachineColumn,
    pub key: String,
    pub val: Option<String>,
}

/// Mathematical value of a buffered write.
pub ghost struct WriteOpV {
    pub col: StateMachineColumn,
    pub key: Seq<char>,
    pub val: Option<Seq<char>>,
}

impl View for WriteOp {
    type V = WriteOpV;

    open spec fn view(&self) -> WriteOpV {
        WriteOpV {
            col: self.col,
            key: self.key@,
            val: match self.val {
                Some(v) => Some(v@),
                None => None,
            },
        }
    }
}

/// One write applied to a store value.
pub open spec fn apply_write(sv: StoreV, w: WriteOpV) -> StoreV {
    match w.val {
        Some(v) => sv.with_family(w.col, sv.family(w.col).insert(w.key, v)),
        None => sv.with_family(w.col, sv.family(w.col).remove(w.key)),
    }
}

/// A write sequence applied to a store value, in order.
pub open spec fn apply_writes(sv: StoreV, ws: Seq<WriteOpV>) -> StoreV
    decreases ws.len(),
{
    if ws.len() == 0 {
        sv
    } else {
        apply_write(apply_writes(sv, ws.drop_last()), ws.last())
    }
}

/// A transaction: a snapshot of the store at `begin_transaction` time plus a
/// buffer of writes, applied atomically by `commit`.
pub struct Transaction {
    pub base_version: u64,
    pub snapshot: StateMachineStore,
    pub writes: Vec<WriteOp>,
}

impl StateMachineStore {
    /// An empty store.
    pub fn new() -> (r: Self)
        ensures
            r@.tasks == Map::<Seq<char>, Seq<char>>::empty(),
            r@.executors == Map::<Seq<char>, Seq<char>>::empty(),
            r@.content == Map::<Seq<char>, Seq<char>>::empty(),
            r@.assignments == Map::<Seq<char>, Seq<char>>::empty(),
            r@.attributes == Map::<Seq<char>, Seq<char>>::empty(),
            r@.version == 0,
    {
        StateMachineStore {
            tasks: KvFamily::new(),
            executors: KvFamily::new(),
            content: KvFamily::new(),
            assignments: KvFamily::new(),
            attributes: KvFamily::new(),
            version: 0,
        }
    }

    /// Begin a transaction: snapshot the store's current state.
    pub fn begin_transaction(&self) -> (t: Transaction)
        ensures
            t.base_version == self@.version,
            t.snapshot@ == self@,
            t.writes@ == Seq::<WriteOp>::empty(),
    {
        Transaction {
            base_version: self.version,
            snapshot: StateMachineStore {
                tasks: self.tasks.duplicate(),
                executors: self.executors.duplicate(),
                content: self.content.duplicate(),
                assignments: self.assignments.duplicate(),
                attributes: self.attributes.duplicate(),
                version: self.version,
            },
            writes: Vec::new(),
        }
    }
}

impl Transaction {
    /// The writes buffered so far, as mathematical values.
    pub open spec fn writes_view(self) -> Seq<WriteOpV> {
        self.writes@.map_values(|w: WriteOp| w@)
    }

    /// Read a key from the transaction's snapshot of one column family.
    pub fn get(&self, col: StateMachineColumn, key: &String) -> (r: Option<String>)
        ensures
            (match r {
                Some(v) => self.snapshot@.family(col).contains_key(key@) && self.snapshot@.family(
                    col,
                )[key@] == v@,
                None => !self.snapshot@.family(col).contains_key(key@),
            }),
    {
        let fam = match col {
            StateMachineColumn::Tasks => &self.snapshot.tasks,
            StateMachineColumn::Executors => &self.snapshot.executors,
            StateMachineColumn::ContentTable => &self.snapshot.content,
            StateMachineColumn::TaskAssignments => &self.snapshot.assignments,
            StateMachineColumn::AttributesIndex => &self.snapshot.attributes,
        };
        match fam.get(key) {
            Some(v) => Some(v.clone()),
            None => None,
        }
    }

    /// Buffer a binding, visible only after a successful commit.
    pub fn put(&mut self, col: StateMachineColumn, key: String, val: String)
        ensures
            final(self).writes_view() == old(self).writes_view().push(
                WriteOpV { col, key: key@, val: Some(val@) },
            ),
            final(self).base_version == old(self).base_version,
            final(self).snapshot@ == old(self).snapshot@,
    {
        self.writes.push(WriteOp { col, key, val: Some(val) });
        proof {
            assert(final(self).writes_view() =~= old(self).writes_view().push(
                self.writes@.last()@,
            ));
        }
    }

    /// Buffer a deletion, visible only after a successful commit.
    pub fn delete(&mut self, col: StateMachineColumn, key: String)
        ensures
            final(self).writes_view() == old(self).writes_view().push(
                WriteOpV { col, key: key@, val: None },
            ),
            final(self).base_version == old(self).base_version,
            final(self).snapshot@ == old(self).snapshot@,
    {
        self.writes.push(WriteOp { col, key, val: None });
        proof {
            assert(final(self).writes_view() =~= old(self).writes_view().push(
                self.writes@.last()@,
            ));
        }
    }

    /// Commit the buffered writes.  The commit succeeds exactly when no other
    /// commit landed since this transaction began; on a conflict the store is
    /// untouched and the caller may retry with a fresh transaction.
    pub fn commit(self, store: &mut StateMachineStore) -> (r: Result<(), StateMachineError>)
        ensures
            r is Ok <==> old(store)@.version == self.base_version,
            (match r {
                Ok(()) => {
                    &&& final(store)@ == (StoreV {
                        version: old(store)@.version.wrapping_add(1),
                        ..apply_writes(old(store)@, self.writes_view())
                    })
                },
                Err(e) => {
                    &&& final(store)@ == old(store)@
                    &&& e@ is TransactionError
                },
            }),
    {
        if store.version != self.base_version {
            return Err(
                StateMachineError::TransactionError(
                    String::from_str("transaction conflict: store changed since snapshot"),
                ),
            );
        }
        let mut i: usize = 0;
        let writes = self.writes;
        let ghost base = old(store)@;
        while i < writes.len()
            invariant
                0 <= i <= writes.len(),
                store@ == (StoreV {
                    version: base.version,
                    ..apply_writes(base, writes@.map_values(|w: WriteOp| w@).take(i as int))
                }),
                base.version == store@.version,
            decreases writes.len() - i,
        {
            proof {
                let ghost ws = writes@.map_values(|w: WriteOp| w@);
                assert(ws.take(i + 1 as int).drop_last() =~= ws.take(i as int));
                assert(ws.take(i + 1 as int).last() == ws[i as int]);
            }
            let w = &writes[i];
            let key = w.key.clone();
            let fam = match w.col {
                StateMachineColumn::Tasks => &mut store.tasks,
                StateMachineColumn::Executors => &mut store.executors,
                StateMachineColumn::ContentTable => &mut store.content,
                StateMachineColumn::TaskAssignments => &mut store.assignments,
                StateMachineColumn::AttributesIndex => &mut store.attributes,
            };
            match &w.val {
                Some(v) => {
                    fam.put(key, v.clone());
                },
                None => {
                    fam.delete(key);
                },
            }
            i = i + 1;
        }
        proof {
            assert(writes@.map_values(|w: WriteOp| w@).take(writes@.len() as int)
                =~= writes@.map_values(|w: WriteOp| w@));
        }
        store.version = store.version.wrapping_add(1);
        Ok(())
    }

    /// Buffer a task record under its id in the `Tasks` family.
    pub fn put_task(&mut self, t: &Task)
        ensures
            final(self).writes_view() == old(self).writes_view().push(
                WriteOpV {
                    col: StateMachineColumn::Tasks,
                    key: t.id@,
                    val: Some(enc_task_v(t@)),
                },
            ),
            final(self).base_version == old(self).base_version,
            final(self).snapshot@ == old(self).snapshot@,
    {
        let enc = encode_task(t);
        self.put(StateMachineColumn::Tasks, t.id.clone(), enc);
    }

    /// Buffer an executor record under its id in the `Executors` family.
    pub fn put_executor(&mut self, e: &ExecutorMetadata)
        ensures
            final(self).writes_view() == old(self).writes_view().push(
                WriteOpV {
                    col: StateMachineColumn::Executors,
                    key: e.id@,
                    val: Some(enc_executor_v(e@)),
                },
            ),
            final(self).base_version == old(self).base_version,
            final(self).snapshot@ == old(self).snapshot@,
    {
        let enc = encode_executor(e);
        self.put(StateMachineColumn::Executors, e.id.clone(), enc);
    }

    /// Buffer a content record under its id in the `ContentTable` family.
    pub fn put_content(&mut self, c: &ContentMetadata)
        ensures
            final(self).writes_view() == old(self).writes_view().push(
                WriteOpV {
                    col: StateMachineColumn::ContentTable,
                    key: c.id@,
                    val: Some(enc_content_v(c@)),
                },
            ),
            final(self).base_version == old(self).base_version,
            final(self).snapshot@ == old(self).snapshot@,
    {
        let enc = encode_content(c);
        self.put(StateMachineColumn::ContentTable, c.id.clone(), enc);
    }

    /// Buffer an executor's ordered task-id list in the `TaskAssignments`
    /// family.
    pub fn put_assignments(&mut self, executor_id: &String, ids: &Vec<String>)
        ensures
            final(self).writes_view() == old(self).writes_view().push(
                WriteOpV {
                    col: StateMachineColumn::TaskAssignments,
                    key: executor_id@,
                    val: Some(enc_list(ids.deep_view())),
                },
            ),
            final(self).base_version == old(self).base_version,
            final(self).snapshot@ == old(self).snapshot@,
    {
        let enc = encode_id_list(ids);
        self.put(StateMachineColumn::TaskAssignments, executor_id.clone(), enc);
    }
}

} // verus!
