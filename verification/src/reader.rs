//! Read-only query facade over the state machine store.
//!
//! Every read follows the same two-phase pattern: raw values are collected
//! inside a transaction's snapshot, then decoded after the transaction is
//! left behind, so no decoding happens inside the store's critical section.
//! An absent assignment list is an empty result, not an error; a record that
//! an id list or a caller explicitly names must exist (`DatabaseError`
//! otherwise) and must decode (`SerializationError` otherwise).

use vstd::prelude::*;
use vstd::string::StringExecFns;

use crate::codec::{decode_content_spec, decode_executor_spec, decode_id_list_spec,
    decode_task_spec, decode_content, decode_executor, decode_id_list, decode_task};
use crate::errors::{StateMachineError, StateMachineErrorV};
use crate::records::{ContentMetadata, ContentMetadataV, ExecutorMetadata, ExecutorMetadataV,
    Task, TaskV};
use crate::store::{StateMachineColumn, StateMachineStore, StoreV};

verus! {

/// Message of the integrity error for a listed task id with no record.
pub open spec fn task_not_found_msg(id: Seq<char>) -> Seq<char> {
    "Task "@ + id + " not found"@
}

/// Message of the integrity error for a requested executor id with no record.
pub open spec fn executor_not_found_msg(id: Seq<char>) -> Seq<char> {
    "Executor "@ + id + " not found"@
}

/// Message of the integrity error for a requested content id with no record.
pub open spec fn content_not_found_msg(id: Seq<char>) -> Seq<char> {
    "Content "@ + id + " not found"@
}

/// Message of the decode error for a stored assignment list.
pub open spec fn bad_id_list_msg() -> Seq<char> {
    "failed to decode stored task id list"@
}

/// Message of the decode error for a stored task record.
pub open spec fn bad_task_msg() -> Seq<char> {
    "failed to decode stored task"@
}

/// Message of the decode error for a stored executor record.
pub open spec fn bad_executor_msg() -> Seq<char> {
    "failed to decode stored executor"@
}

/// Message of the decode error for a stored content record.
pub open spec fn bad_content_msg() -> Seq<char> {
    "failed to decode stored content"@
}

/// Phase one over `Tasks`: the raw stored texts of `ids[i..]`, or the
/// integrity error of the first id with no record.
pub open spec fn fetch_raw_tasks(fam: Map<Seq<char>, Seq<char>>, ids: Seq<Seq<char>>, i: int) -> Result<
    Seq<Seq<char>>,
    StateMachineErrorV,
>
    decreases ids.len() - i,
{
    if i < 0 || i >= ids.len() {
        Ok(Seq::empty())
    } else if !fam.contains_key(ids[i]) {
        Err(StateMachineErrorV::DatabaseError(task_not_found_msg(ids[i])))
    } else {
        match fetch_raw_tasks(fam, ids, i + 1) {
            Ok(rest) => Ok(seq![fam[ids[i]]] + rest),
            Err(e) => Err(e),
        }
    }
}

/// Phase one over `Executors`.
pub open spec fn fetch_raw_executors(fam: Map<Seq<char>, Seq<char>>, ids: Seq<Seq<char>>, i: int) -> Result<
    Seq<Seq<char>>,
    StateMachineErrorV,
>
    decreases ids.len() - i,
{
    if i < 0 || i >= ids.len() {
        Ok(Seq::empty())
    } else if !fam.contains_key(ids[i]) {
        Err(StateMachineErrorV::DatabaseError(executor_not_found_msg(ids[i])))
    } else {
        match fetch_raw_executors(fam, ids, i + 1) {
            Ok(rest) => Ok(seq![fam[ids[i]]] + rest),
            Err(e) => Err(e),
        }
    }
}

/// Phase one over `ContentTable`.
pub open spec fn fetch_raw_contents(fam: Map<Seq<char>, Seq<char>>, ids: Seq<Seq<char>>, i: int) -> Result<
    Seq<Seq<char>>,
    StateMachineErrorV,
>
    decreases ids.len() - i,
{
    if i < 0 || i >= ids.len() {
        Ok(Seq::empty())
    } else if !fam.contains_key(ids[i]) {
        Err(StateMachineErrorV::DatabaseError(content_not_found_msg(ids[i])))
    } else {
        match fetch_raw_contents(fam, ids, i + 1) {
            Ok(rest) => Ok(seq![fam[ids[i]]] + rest),
            Err(e) => Err(e),
        }
    }
}

/// Phase two: decode raw task texts, or the decode error of the first one
/// that is not canonical.
pub open spec fn decode_tasks_seq(raws: Seq<Seq<char>>, i: int) -> Result<
    Seq<TaskV>,
    StateMachineErrorV,
>
    decreases raws.len() - i,
{
    if i < 0 || i >= raws.len() {
        Ok(Seq::empty())
    } else {
        match decode_task_spec(raws[i]) {
            None => Err(StateMachineErrorV::SerializationError(bad_task_msg())),
            Some(t) => match decode_tasks_seq(raws, i + 1) {
                Ok(rest) => Ok(seq![t] + rest),
                Err(e) => Err(e),
            },
        }
    }
}

/// Phase two for executor records.
pub open spec fn decode_executors_seq(raws: Seq<Seq<char>>, i: int) -> Result<
    Seq<ExecutorMetadataV>,
    StateMachineErrorV,
>
    decreases raws.len() - i,
{
    if i < 0 || i >= raws.len() {
        Ok(Seq::empty())
    } else {
        match decode_executor_spec(raws[i]) {
            None => Err(StateMachineErrorV::SerializationError(bad_executor_msg())),
            Some(t) => match decode_executors_seq(raws, i + 1) {
                Ok(rest) => Ok(seq![t] + rest),
                Err(e) => Err(e),
            },
        }
    }
}

/// Phase two for content records.
pub open spec fn decode_contents_seq(raws: Seq<Seq<char>>, i: int) -> Result<
    Seq<ContentMetadataV>,
    StateMachineErrorV,
>
    decreases raws.len() - i,
{
    if i < 0 || i >= raws.len() {
        Ok(Seq::empty())
    } else {
        match decode_content_spec(raws[i]) {
            None => Err(StateMachineErrorV::SerializationError(bad_content_msg())),
            Some(t) => match decode_contents_seq(raws, i + 1) {
                Ok(rest) => Ok(seq![t] + rest),
                Err(e) => Err(e),
            },
        }
    }
}

/// How many of the `n` assigned tasks a query with `limit` asks for.
pub open spec fn limit_eff(n: nat, limit: Option<u64>) -> int {
    match limit {
        None => n as int,
        Some(l) => if l as int <= n as int {
            l as int
        } else {
            n as int
        },
    }
}

/// The whole outcome of `get_tasks_for_executor` on a store value.
pub open spec fn tasks_for_executor_spec(sv: StoreV, exec: Seq<char>, limit: Option<u64>) -> Result<
    Seq<TaskV>,
    StateMachineErrorV,
> {
    if !sv.assignments.contains_key(exec) {
        Ok(Seq::empty())
    } else {
        match decode_id_list_spec(sv.assignments[exec]) {
            None => Err(StateMachineErrorV::SerializationError(bad_id_list_msg())),
            Some(ids) => {
                let wanted = ids.take(limit_eff(ids.len(), limit));
                match fetch_raw_tasks(sv.tasks, wanted, 0) {
                    Err(e) => Err(e),
                    Ok(raws) => decode_tasks_seq(raws, 0),
                }
            },
        }
    }
}

/// The whole outcome of `get_executors_from_ids` on a store value.
pub open spec fn executors_from_ids_spec(sv: StoreV, ids: Seq<Seq<char>>) -> Result<
    Seq<ExecutorMetadataV>,
    StateMachineErrorV,
> {
    match fetch_raw_executors(sv.executors, ids, 0) {
        Err(e) => Err(e),
        Ok(raws) => decode_executors_seq(raws, 0),
    }
}

/// The whole outcome of `get_content_from_ids` on a store value.
pub open spec fn content_from_ids_spec(sv: StoreV, ids: Seq<Seq<char>>) -> Result<
    Seq<ContentMetadataV>,
    StateMachineErrorV,
> {
    match fetch_raw_contents(sv.content, ids, 0) {
        Err(e) => Err(e),
        Ok(raws) => decode_contents_seq(raws, 0),
    }
}

/// Read-only query facade over a [`StateMachineStore`].
#[derive(Clone, Copy)]
pub struct StateMachineReader {}

impl StateMachineReader {
    /// Resolve an executor's assigned tasks: the first `limit` (all, when
    /// `limit` is `None`) task ids of its assignment list, in assignment
    /// order, hydrated from the `Tasks` family.  An executor without an
    /// assignment entry has no tasks; a listed id without a task record is
    /// an integrity error naming that id.
    #[verifier::loop_isolation(false)]
    pub fn get_tasks_for_executor(
        &self,
        executor_id: &str,
        limit: Option<u64>,
        store: &StateMachineStore,
    ) -> (r: Result<Vec<Task>, StateMachineError>)
        ensures
            (match r {
                Ok(v) => tasks_for_executor_spec(store@, executor_id@, limit) == Ok::<
                    Seq<TaskV>,
                    StateMachineErrorV,
                >(v@.map_values(|t: Task| t@)),
                Err(e) => tasks_for_executor_spec(store@, executor_id@, limit) == Err::<
                    Seq<TaskV>,
                    StateMachineErrorV,
                >(e@),
            }),
    {
        let txn = store.begin_transaction();
        let key = executor_id.to_owned();
        let raw_list = txn.get(StateMachineColumn::TaskAssignments, &key);
        let enc = match raw_list {
            None => {
                let empty: Vec<Task> = Vec::new();
                proof {
                    assert(empty@.map_values(|t: Task| t@) =~= Seq::<TaskV>::empty());
                }
                return Ok(empty);
            },
            Some(enc) => enc,
        };
        let ids = match decode_id_list(enc.as_str()) {
            None => {
                proof {
                    reveal_strlit("failed to decode stored task id list");
                }
                return Err(
                    StateMachineError::SerializationError(
                        String::from_str("failed to decode stored task id list"),
                    ),
                );
            },
            Some(ids) => ids,
        };
        let n = ids.len();
        let take_n: usize = match limit {
            None => n,
            Some(l) => if l < n as u64 {
                l as usize
            } else {
                n
            },
        };
        let ghost wanted = ids.deep_view().take(limit_eff(ids.deep_view().len(), limit));
        proof {
            assert(take_n as int == limit_eff(ids.deep_view().len(), limit));
        }
        // Phase one: collect raw task texts inside the transaction.
        let mut raws: Vec<String> = Vec::new();
        let mut i: usize = 0;
        while i < take_n
            invariant
                0 <= i <= take_n <= ids.len(),
                wanted == ids.deep_view().take(take_n as int),
                txn.snapshot@ == store@,
                fetch_raw_tasks(store@.tasks, wanted, 0) == (match fetch_raw_tasks(
                    store@.tasks,
                    wanted,
                    i as int,
                ) {
                    Ok(rest) => Ok::<Seq<Seq<char>>, StateMachineErrorV>(raws.deep_view() + rest),
                    Err(e) => Err::<Seq<Seq<char>>, StateMachineErrorV>(e),
                }),
            decreases take_n - i,
        {
            proof {
                assert(wanted[i as int] == ids.deep_view()[i as int]);
                assert(ids.deep_view()[i as int] == ids@[i as int]@);
            }
            match txn.get(StateMachineColumn::Tasks, &ids[i]) {
                None => {
                    let msg = String::from_str("Task ").concat(ids[i].as_str()).concat(
                        " not found",
                    );
                    proof {
                        reveal_strlit("Task ");
                        reveal_strlit(" not found");
                        assert(msg@ == task_not_found_msg(wanted[i as int]));
                    }
                    return Err(StateMachineError::DatabaseError(msg));
                },
                Some(bytes) => {
                    let ghost prev = raws.deep_view();
                    let ghost bv = bytes@;
                    raws.push(bytes);
                    proof {
                        assert(raws.deep_view() =~= prev.push(bv));
                        let ghost rest = fetch_raw_tasks(store@.tasks, wanted, i + 1 as int);
                        if rest is Ok {
                            assert(prev + (seq![store@.tasks[wanted[i as int]]] + rest->Ok_0)
                                =~= prev.push(bv) + rest->Ok_0);
                        }
                    }
                },
            }
            i = i + 1;
        }
        proof {
            assert(raws.deep_view() + Seq::<Seq<char>>::empty() =~= raws.deep_view());
        }
        // Phase two: the transaction's part is done; decode outside it.
        let mut out: Vec<Task> = Vec::new();
        let mut k: usize = 0;
        while k < raws.len()
            invariant
                0 <= k <= raws.len(),
                fetch_raw_tasks(store@.tasks, wanted, 0) == Ok::<
                    Seq<Seq<char>>,
                    StateMachineErrorV,
                >(raws.deep_view()),
                tasks_for_executor_spec(store@, executor_id@, limit) == decode_tasks_seq(
                    raws.deep_view(),
                    0,
                ),
                decode_tasks_seq(raws.deep_view(), 0) == (match decode_tasks_seq(
                    raws.deep_view(),
                    k as int,
                ) {
                    Ok(rest) => Ok::<Seq<TaskV>, StateMachineErrorV>(
                        out@.map_values(|t: Task| t@) + rest,
                    ),
                    Err(e) => Err::<Seq<TaskV>, StateMachineErrorV>(e),
                }),
            decreases raws.len() - k,
        {
            proof {
                assert(raws.deep_view()[k as int] == raws@[k as int]@);
            }
            match decode_task(raws[k].as_str()) {
                None => {
                    proof {
                        reveal_strlit("failed to decode stored task");
                    }
                    return Err(
                        StateMachineError::SerializationError(
                            String::from_str("failed to decode stored task"),
                        ),
                    );
                },
                Some(t) => {
                    let ghost prevm = out@.map_values(|x: Task| x@);
                    let ghost tv = t@;
                    out.push(t);
                    proof {
                        assert(out@.map_values(|x: Task| x@) =~= prevm.push(tv));
                        let ghost rest = decode_tasks_seq(raws.deep_view(), k + 1 as int);
                        if rest is Ok {
                            assert(prevm + (seq![tv] + rest->Ok_0) =~= prevm.push(tv)
                                + rest->Ok_0);
                        }
                    }
                },
            }
            k = k + 1;
        }
        proof {
            assert(out@.map_values(|t: Task| t@) + Seq::<TaskV>::empty() =~= out@.map_values(
                |t: Task| t@,
            ));
        }
        Ok(out)
    }

    /// Hydrate executor records for a group of ids.  The ids are a set: the
    /// caller attaches no meaning to their order; every id must have a
    /// record, or the whole call fails naming the first id without one.
    #[verifier::loop_isolation(false)]
    pub fn get_executors_from_ids(
        &self,
        executor_ids: Vec<String>,
        store: &StateMachineStore,
    ) -> (r: Result<Vec<ExecutorMetadata>, StateMachineError>)
        ensures
            (match r {
                Ok(v) => executors_from_ids_spec(store@, executor_ids.deep_view()) == Ok::<
                    Seq<ExecutorMetadataV>,
                    StateMachineErrorV,
                >(v@.map_values(|e: ExecutorMetadata| e@)),
                Err(e) => executors_from_ids_spec(store@, executor_ids.deep_view()) == Err::<
                    Seq<ExecutorMetadataV>,
                    StateMachineErrorV,
                >(e@),
            }),
    {
        let txn = store.begin_transaction();
        let ghost idsv = executor_ids.deep_view();
        let mut raws: Vec<String> = Vec::new();
        let mut i: usize = 0;
        while i < executor_ids.len()
            invariant
                0 <= i <= executor_ids.len(),
                idsv == executor_ids.deep_view(),
                txn.snapshot@ == store@,
                fetch_raw_executors(store@.executors, idsv, 0) == (match fetch_raw_executors(
                    store@.executors,
                    idsv,
                    i as int,
                ) {
                    Ok(rest) => Ok::<Seq<Seq<char>>, StateMachineErrorV>(raws.deep_view() + rest),
                    Err(e) => Err::<Seq<Seq<char>>, StateMachineErrorV>(e),
                }),
            decreases executor_ids.len() - i,
        {
            proof {
                assert(idsv[i as int] == executor_ids@[i as int]@);
            }
            match txn.get(StateMachineColumn::Executors, &executor_ids[i]) {
                None => {
                    let msg = String::from_str("Executor ").concat(
                        executor_ids[i].as_str(),
                    ).concat(" not found");
                    proof {
                        reveal_strlit("Executor ");
                        reveal_strlit(" not found");
                        assert(msg@ == executor_not_found_msg(idsv[i as int]));
                    }
                    return Err(StateMachineError::DatabaseError(msg));
                },
                Some(bytes) => {
                    let ghost prev = raws.deep_view();
                    let ghost bv = bytes@;
                    raws.push(bytes);
                    proof {
                        assert(raws.deep_view() =~= prev.push(bv));
                        let ghost rest = fetch_raw_executors(store@.executors, idsv, i + 1 as int);
                        if rest is Ok {
                            assert(prev + (seq![store@.executors[idsv[i as int]]] + rest->Ok_0)
                                =~= prev.push(bv) + rest->Ok_0);
                        }
                    }
                },
            }
            i = i + 1;
        }
        proof {
            assert(raws.deep_view() + Seq::<Seq<char>>::empty() =~= raws.deep_view());
        }
        let mut out: Vec<ExecutorMetadata> = Vec::new();
        let mut k: usize = 0;
        while k < raws.len()
            invariant
                0 <= k <= raws.len(),
                fetch_raw_executors(store@.executors, idsv, 0) == Ok::<
                    Seq<Seq<char>>,
                    StateMachineErrorV,
                >(raws.deep_view()),
                executors_from_ids_spec(store@, idsv) == decode_executors_seq(raws.deep_view(), 0),
                decode_executors_seq(raws.deep_view(), 0) == (match decode_executors_seq(
                    raws.deep_view(),
                    k as int,
                ) {
                    Ok(rest) => Ok::<Seq<ExecutorMetadataV>, StateMachineErrorV>(
                        out@.map_values(|e: ExecutorMetadata| e@) + rest,
                    ),
                    Err(e) => Err::<Seq<ExecutorMetadataV>, StateMachineErrorV>(e),
                }),
            decreases raws.len() - k,
        {
            proof {
                assert(raws.deep_view()[k as int] == raws@[k as int]@);
            }
            match decode_executor(raws[k].as_str()) {
                None => {
                    proof {
                        reveal_strlit("failed to decode stored executor");
                    }
                    return Err(
                        StateMachineError::SerializationError(
                            String::from_str("failed to decode stored executor"),
                        ),
                    );
                },
                Some(e) => {
                    let ghost prevm = out@.map_values(|x: ExecutorMetadata| x@);
                    let ghost ev = e@;
                    out.push(e);
                    proof {
                        assert(out@.map_values(|x: ExecutorMetadata| x@) =~= prevm.push(ev));
                        let ghost rest = decode_executors_seq(raws.deep_view(), k + 1 as int);
                        if rest is Ok {
                            assert(prevm + (seq![ev] + rest->Ok_0) =~= prevm.push(ev)
                                + rest->Ok_0);
                        }
                    }
                },
            }
            k = k + 1;
        }
        proof {
            assert(out@.map_values(|e: ExecutorMetadata| e@) + Seq::<ExecutorMetadataV>::empty()
                =~= out@.map_values(|e: ExecutorMetadata| e@));
        }
        Ok(out)
    }

    /// Hydrate content records for a group of ids, under the same
    /// all-or-nothing policy as executor records.
    #[verifier::loop_isolation(false)]
    pub fn get_content_from_ids(
        &self,
        content_ids: Vec<String>,
        store: &StateMachineStore,
    ) -> (r: Result<Vec<ContentMetadata>, StateMachineError>)
        ensures
            (match r {
                Ok(v) => content_from_ids_spec(store@, content_ids.deep_view()) == Ok::<
                    Seq<ContentMetadataV>,
                    StateMachineErrorV,
                >(v@.map_values(|c: ContentMetadata| c@)),
                Err(e) => content_from_ids_spec(store@, content_ids.deep_view()) == Err::<
                    Seq<ContentMetadataV>,
                    StateMachineErrorV,
                >(e@),
            }),
    {
        let txn = store.begin_transaction();
        let ghost idsv = content_ids.deep_view();
        let mut raws: Vec<String> = Vec::new();
        let mut i: usize = 0;
        while i < content_ids.len()
            invariant
                0 <= i <= content_ids.len(),
                idsv == content_ids.deep_view(),
                txn.snapshot@ == store@,
                fetch_raw_contents(store@.content, idsv, 0) == (match fetch_raw_contents(
                    store@.content,
                    idsv,
                    i as int,
                ) {
                    Ok(rest) => Ok::<Seq<Seq<char>>, StateMachineErrorV>(raws.deep_view() + rest),
                    Err(e) => Err::<Seq<Seq<char>>, StateMachineErrorV>(e),
                }),
            decreases content_ids.len() - i,
        {
            proof {
                assert(idsv[i as int] == content_ids@[i as int]@);
            }
            match txn.get(StateMachineColumn::ContentTable, &content_ids[i]) {
                None => {
                    let msg = String::from_str("Content ").concat(
                        content_ids[i].as_str(),
                    ).concat(" not found");
                    proof {
                        reveal_strlit("Content ");
                        reveal_strlit(" not found");
                        assert(msg@ == content_not_found_msg(idsv[i as int]));
                    }
                    return Err(StateMachineError::DatabaseError(msg));
                },
                Some(bytes) => {
                    let ghost prev = raws.deep_view();
                    let ghost bv = bytes@;
                    raws.push(bytes);
                    proof {
                        assert(raws.deep_view() =~= prev.push(bv));
                        let ghost rest = fetch_raw_contents(store@.content, idsv, i + 1 as int);
                        if rest is Ok {
                            assert(prev + (seq![store@.content[idsv[i as int]]] + rest->Ok_0)
                                =~= prev.push(bv) + rest->Ok_0);
                        }
                    }
                },
            }
            i = i + 1;
        }
        proof {
            assert(raws.deep_view() + Seq::<Seq<char>>::empty() =~= raws.deep_view());
        }
        let mut out: Vec<ContentMetadata> = Vec::new();
        let mut k: usize = 0;
        while k < raws.len()
            invariant
                0 <= k <= raws.len(),
                fetch_raw_contents(store@.content, idsv, 0) == Ok::<
                    Seq<Seq<char>>,
                    StateMachineErrorV,
                >(raws.deep_view()),
                content_from_ids_spec(store@, idsv) == decode_contents_seq(raws.deep_view(), 0),
                decode_contents_seq(raws.deep_view(), 0) == (match decode_contents_seq(
                    raws.deep_view(),
                    k as int,
                ) {
                    Ok(rest) => Ok::<Seq<ContentMetadataV>, StateMachineErrorV>(
                        out@.map_values(|c: ContentMetadata| c@) + rest,
                    ),
                    Err(e) => Err::<Seq<ContentMetadataV>, StateMachineErrorV>(e),
                }),
            decreases raws.len() - k,
        {
            proof {
                assert(raws.deep_view()[k as int] == raws@[k as int]@);
            }
            match decode_content(raws[k].as_str()) {
                None => {
                    proof {
                        reveal_strlit("failed to decode stored content");
                    }
                    return Err(
                        StateMachineError::SerializationError(
                            String::from_str("failed to decode stored content"),
                        ),
                    );
                },
                Some(c) => {
                    let ghost prevm = out@.map_values(|x: ContentMetadata| x@);
                    let ghost cv = c@;
                    out.push(c);
                    proof {
                        assert(out@.map_values(|x: ContentMetadata| x@) =~= prevm.push(cv));
                        let ghost rest = decode_contents_seq(raws.deep_view(), k + 1 as int);
                        if rest is Ok {
                            assert(prevm + (seq![cv] + rest->Ok_0) =~= prevm.push(cv)
                                + rest->Ok_0);
                        }
                    }
                },
            }
            k = k + 1;
        }
        proof {
            assert(out@.map_values(|c: ContentMetadata| c@) + Seq::<ContentMetadataV>::empty()
                =~= out@.map_values(|c: ContentMetadata| c@));
        }
        Ok(out)
    }
}

// ---------------------------------------------------------------------------
// Laws of the read facade
// ---------------------------------------------------------------------------
/// An executor with no assignment entry gets the empty task list, not an
/// error.
pub proof fn lemma_no_assignment_entry_empty(sv: StoreV, exec: Seq<char>, limit: Option<u64>)
    requires
        !sv.assignments.contains_key(exec),
    ensures
        tasks_for_executor_spec(sv, exec, limit) == Ok::<Seq<TaskV>, StateMachineErrorV>(
            Seq::<TaskV>::empty(),
        ),
{
}

proof fn lemma_fetch_raw_tasks_ok(fam: Map<Seq<char>, Seq<char>>, ids: Seq<Seq<char>>, i: int)
    requires
        0 <= i <= ids.len(),
        forall|k: int| i <= k < ids.len() ==> fam.contains_key(ids[k]),
    ensures
        fetch_raw_tasks(fam, ids, i) == Ok::<Seq<Seq<char>>, StateMachineErrorV>(
            Seq::new((ids.len() - i) as nat, |k: int| fam[ids[i + k]]),
        ),
    decreases ids.len() - i,
{
    if i < ids.len() {
        lemma_fetch_raw_tasks_ok(fam, ids, i + 1);
        assert(seq![fam[ids[i]]] + Seq::new((ids.len() - i - 1) as nat, |k: int| fam[ids[i + 1
            + k]]) =~= Seq::new((ids.len() - i) as nat, |k: int| fam[ids[i + k]]));
    } else {
        assert(Seq::new(0, |k: int| fam[ids[i + k]]) =~= Seq::<Seq<char>>::empty());
    }
}

proof fn lemma_decode_tasks_ok(raws: Seq<Seq<char>>, ts: Seq<TaskV>, i: int)
    requires
        0 <= i <= raws.len(),
        ts.len() == raws.len(),
        forall|k: int| i <= k < raws.len() ==> decode_task_spec(raws[k]) == Some(ts[k]),
    ensures
        decode_tasks_seq(raws, i) == Ok::<Seq<TaskV>, StateMachineErrorV>(
            ts.subrange(i, raws.len() as int),
        ),
    decreases raws.len() - i,
{
    if i < raws.len() {
        lemma_decode_tasks_ok(raws, ts, i + 1);
        assert(seq![ts[i]] + ts.subrange(i + 1, raws.len() as int) =~= ts.subrange(
            i,
            raws.len() as int,
        ));
    } else {
        assert(ts.subrange(i, raws.len() as int) =~= Seq::<TaskV>::empty());
    }
}

/// With an assignment list `ids`, a limit at most its length, and every
/// listed task present and canonical, the result is exactly the first
/// `limit` tasks, in assignment order.
pub proof fn lemma_limit_prefix(
    sv: StoreV,
    exec: Seq<char>,
    ids: Seq<Seq<char>>,
    ts: Seq<TaskV>,
    limit: u64,
)
    requires
        sv.assignments.contains_key(exec),
        decode_id_list_spec(sv.assignments[exec]) == Some(ids),
        limit <= ids.len(),
        ts.len() == ids.len(),
        forall|k: int| 0 <= k < ids.len() ==> sv.tasks.contains_key(ids[k]),
        forall|k: int| 0 <= k < ids.len() ==> decode_task_spec(sv.tasks[ids[k]]) == Some(ts[k]),
    ensures
        tasks_for_executor_spec(sv, exec, Some(limit)) == Ok::<Seq<TaskV>, StateMachineErrorV>(
            ts.take(limit as int),
        ),
{
    let wanted = ids.take(limit_eff(ids.len(), Some(limit)));
    assert(limit_eff(ids.len(), Some(limit)) == limit as int);
    assert(wanted.len() == limit as int);
    lemma_fetch_raw_tasks_ok(sv.tasks, wanted, 0);
    let raws = Seq::new(limit as nat, |k: int| sv.tasks[wanted[0 + k]]);
    assert forall|k: int| 0 <= k < raws.len() implies decode_task_spec(raws[k]) == Some(
        ts.take(limit as int)[k],
    ) by {
        assert(raws[k] == sv.tasks[wanted[k]]);
        assert(wanted[k] == ids[k]);
    }
    lemma_decode_tasks_ok(raws, ts.take(limit as int), 0);
    assert(ts.take(limit as int).subrange(0, limit as int) =~= ts.take(limit as int));
}

proof fn lemma_fetch_raw_tasks_err(
    fam: Map<Seq<char>, Seq<char>>,
    ids: Seq<Seq<char>>,
    i: int,
    m: int,
)
    requires
        0 <= i <= m < ids.len(),
        forall|k: int| i <= k < m ==> fam.contains_key(ids[k]),
        !fam.contains_key(ids[m]),
    ensures
        fetch_raw_tasks(fam, ids, i) == Err::<Seq<Seq<char>>, StateMachineErrorV>(
            StateMachineErrorV::DatabaseError(task_not_found_msg(ids[m])),
        ),
    decreases m - i,
{
    if i < m {
        lemma_fetch_raw_tasks_err(fam, ids, i + 1, m);
    }
}

/// An assignment list naming a task id with no record fails with a
/// `DatabaseError` naming the first such id in the queried prefix: an
/// integrity violation is never silently skipped.
pub proof fn lemma_missing_task_fails(
    sv: StoreV,
    exec: Seq<char>,
    ids: Seq<Seq<char>>,
    limit: Option<u64>,
    m: int,
)
    requires
        sv.assignments.contains_key(exec),
        decode_id_list_spec(sv.assignments[exec]) == Some(ids),
        0 <= m < limit_eff(ids.len(), limit),
        forall|k: int| 0 <= k < m ==> sv.tasks.contains_key(ids[k]),
        !sv.tasks.contains_key(ids[m]),
    ensures
        tasks_for_executor_spec(sv, exec, limit) == Err::<Seq<TaskV>, StateMachineErrorV>(
            StateMachineErrorV::DatabaseError(task_not_found_msg(ids[m])),
        ),
{
    let wanted = ids.take(limit_eff(ids.len(), limit));
    assert(wanted[m] == ids[m]);
    lemma_fetch_raw_tasks_err(sv.tasks, wanted, 0, m);
}

proof fn lemma_fetch_raw_executors_ok(fam: Map<Seq<char>, Seq<char>>, ids: Seq<Seq<char>>, i: int)
    requires
        0 <= i <= ids.len(),
        forall|k: int| i <= k < ids.len() ==> fam.contains_key(ids[k]),
    ensures
        fetch_raw_executors(fam, ids, i) == Ok::<Seq<Seq<char>>, StateMachineErrorV>(
            Seq::new((ids.len() - i) as nat, |k: int| fam[ids[i + k]]),
        ),
    decreases ids.len() - i,
{
    if i < ids.len() {
        lemma_fetch_raw_executors_ok(fam, ids, i + 1);
        assert(seq![fam[ids[i]]] + Seq::new((ids.len() - i - 1) as nat, |k: int| fam[ids[i + 1
            + k]]) =~= Seq::new((ids.len() - i) as nat, |k: int| fam[ids[i + k]]));
    } else {
        assert(Seq::new(0, |k: int| fam[ids[i + k]]) =~= Seq::<Seq<char>>::empty());
    }
}

proof fn lemma_decode_executors_ok(raws: Seq<Seq<char>>, es: Seq<ExecutorMetadataV>, i: int)
    requires
        0 <= i <= raws.len(),
        es.len() == raws.len(),
        forall|k: int| i <= k < raws.len() ==> decode_executor_spec(raws[k]) == Some(es[k]),
    ensures
        decode_executors_seq(raws, i) == Ok::<Seq<ExecutorMetadataV>, StateMachineErrorV>(
            es.subrange(i, raws.len() as int),
        ),
    decreases raws.len() - i,
{
    if i < raws.len() {
        lemma_decode_executors_ok(raws, es, i + 1);
        assert(seq![es[i]] + es.subrange(i + 1, raws.len() as int) =~= es.subrange(
            i,
            raws.len() as int,
        ));
    } else {
        assert(es.subrange(i, raws.len() as int) =~= Seq::<ExecutorMetadataV>::empty());
    }
}

/// When every requested executor id has a canonical record, the call
/// returns exactly one record per requested id, in request order; where the
/// store files each record under its own id, the result's ids are the
/// requested ids, so with distinct requested ids each appears exactly once.
pub proof fn lemma_executors_all_present(
    sv: StoreV,
    ids: Seq<Seq<char>>,
    es: Seq<ExecutorMetadataV>,
)
    requires
        es.len() == ids.len(),
        forall|k: int| 0 <= k < ids.len() ==> sv.executors.contains_key(ids[k]),
        forall|k: int|
            0 <= k < ids.len() ==> decode_executor_spec(sv.executors[ids[k]]) == Some(es[k]),
    ensures
        executors_from_ids_spec(sv, ids) == Ok::<Seq<ExecutorMetadataV>, StateMachineErrorV>(es),
        (forall|k: int| 0 <= k < ids.len() ==> es[k].id == ids[k]) ==> es.map_values(
            |e: ExecutorMetadataV| e.id,
        ) == ids,
{
    lemma_fetch_raw_executors_ok(sv.executors, ids, 0);
    let raws = Seq::new(ids.len(), |k: int| sv.executors[ids[0 + k]]);
    assert forall|k: int| 0 <= k < raws.len() implies decode_executor_spec(raws[k]) == Some(
        es[k],
    ) by {
        assert(raws[k] == sv.executors[ids[k]]);
    }
    lemma_decode_executors_ok(raws, es, 0);
    assert(es.subrange(0, raws.len() as int) =~= es);
    if forall|k: int| 0 <= k < ids.len() ==> es[k].id == ids[k] {
        assert(es.map_values(|e: ExecutorMetadataV| e.id) =~= ids);
    }
}

proof fn lemma_fetch_raw_executors_missing(
    fam: Map<Seq<char>, Seq<char>>,
    ids: Seq<Seq<char>>,
    i: int,
)
    requires
        0 <= i <= ids.len(),
        exists|k: int| i <= k < ids.len() && !fam.contains_key(ids[k]),
    ensures
        fetch_raw_executors(fam, ids, i) is Err,
    decreases ids.len() - i,
{
    if fam.contains_key(ids[i]) {
        let k = choose|k: int| i <= k < ids.len() && !fam.contains_key(ids[k]);
        assert(i + 1 <= k < ids.len());
        lemma_fetch_raw_executors_missing(fam, ids, i + 1);
    }
}

/// If any requested executor id has no record, the whole call fails:
/// all-or-nothing hydration.
pub proof fn lemma_executors_any_missing(sv: StoreV, ids: Seq<Seq<char>>)
    requires
        exists|k: int| 0 <= k < ids.len() && !sv.executors.contains_key(ids[k]),
    ensures
        executors_from_ids_spec(sv, ids) is Err,
{
    lemma_fetch_raw_executors_missing(sv.executors, ids, 0);
}

proof fn lemma_fetch_raw_contents_ok(fam: Map<Seq<char>, Seq<char>>, ids: Seq<Seq<char>>, i: int)
    requires
        0 <= i <= ids.len(),
        forall|k: int| i <= k < ids.len() ==> fam.contains_key(ids[k]),
    ensures
        fetch_raw_contents(fam, ids, i) == Ok::<Seq<Seq<char>>, StateMachineErrorV>(
            Seq::new((ids.len() - i) as nat, |k: int| fam[ids[i + k]]),
        ),
    decreases ids.len() - i,
{
    if i < ids.len() {
        lemma_fetch_raw_contents_ok(fam, ids, i + 1);
        assert(seq![fam[ids[i]]] + Seq::new((ids.len() - i - 1) as nat, |k: int| fam[ids[i + 1
            + k]]) =~= Seq::new((ids.len() - i) as nat, |k: int| fam[ids[i + k]]));
    } else {
        assert(Seq::new(0, |k: int| fam[ids[i + k]]) =~= Seq::<Seq<char>>::empty());
    }
}

proof fn lemma_decode_contents_ok(raws: Seq<Seq<char>>, cs: Seq<ContentMetadataV>, i: int)
    requires
        0 <= i <= raws.len(),
        cs.len() == raws.len(),
        forall|k: int| i <= k < raws.len() ==> decode_content_spec(raws[k]) == Some(cs[k]),
    ensures
        decode_contents_seq(raws, i) == Ok::<Seq<ContentMetadataV>, StateMachineErrorV>(
            cs.subrange(i, raws.len() as int),
        ),
    decreases raws.len() - i,
{
    if i < raws.len() {
        lemma_decode_contents_ok(raws, cs, i + 1);
        assert(seq![cs[i]] + cs.subrange(i + 1, raws.len() as int) =~= cs.subrange(
            i,
            raws.len() as int,
        ));
    } else {
        assert(cs.subrange(i, raws.len() as int) =~= Seq::<ContentMetadataV>::empty());
    }
}

/// When every requested content id has a canonical record, the call returns
/// exactly one record per requested id, in request order.
pub proof fn lemma_content_all_present(sv: StoreV, ids: Seq<Seq<char>>, cs: Seq<ContentMetadataV>)
    requires
        cs.len() == ids.len(),
        forall|k: int| 0 <= k < ids.len() ==> sv.content.contains_key(ids[k]),
        forall|k: int|
            0 <= k < ids.len() ==> decode_content_spec(sv.content[ids[k]]) == Some(cs[k]),
    ensures
        content_from_ids_spec(sv, ids) == Ok::<Seq<ContentMetadataV>, StateMachineErrorV>(cs),
        (forall|k: int| 0 <= k < ids.len() ==> cs[k].id == ids[k]) ==> cs.map_values(
            |c: ContentMetadataV| c.id,
        ) == ids,
{
    lemma_fetch_raw_contents_ok(sv.content, ids, 0);
    let raws = Seq::new(ids.len(), |k: int| sv.content[ids[0 + k]]);
    assert forall|k: int| 0 <= k < raws.len() implies decode_content_spec(raws[k]) == Some(
        cs[k],
    ) by {
        assert(raws[k] == sv.content[ids[k]]);
    }
    lemma_decode_contents_ok(raws, cs, 0);
    assert(cs.subrange(0, raws.len() as int) =~= cs);
    if forall|k: int| 0 <= k < ids.len() ==> cs[k].id == ids[k] {
        assert(cs.map_values(|c: ContentMetadataV| c.id) =~= ids);
    }
}

proof fn lemma_fetch_raw_contents_missing(
    fam: Map<Seq<char>, Seq<char>>,
    ids: Seq<Seq<char>>,
    i: int,
)
    requires
        0 <= i <= ids.len(),
        exists|k: int| i <= k < ids.len() && !fam.contains_key(ids[k]),
    ensures
        fetch_raw_contents(fam, ids, i) is Err,
    decreases ids.len() - i,
{
    if fam.contains_key(ids[i]) {
        let k = choose|k: int| i <= k < ids.len() && !fam.contains_key(ids[k]);
        assert(i + 1 <= k < ids.len());
        lemma_fetch_raw_contents_missing(fam, ids, i + 1);
    }
}

/// If any requested content id has no record, the whole call fails:
/// all-or-nothing hydration.
pub proof fn lemma_content_any_missing(sv: StoreV, ids: Seq<Seq<char>>)
    requires
        exists|k: int| 0 <= k < ids.len() && !sv.content.contains_key(ids[k]),
    ensures
        content_from_ids_spec(sv, ids) is Err,
{
    lemma_fetch_raw_contents_missing(sv.content, ids, 0);
}

} // verus!
