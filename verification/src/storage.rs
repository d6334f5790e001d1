use crate::operation::Operation;
use crate::task::{TaskMap, Uuid};
use std::collections::HashMap;
use vstd::prelude::*;

verus! {

broadcast use vstd::std_specs::hash::group_hash_axioms;

/// The views of the operations of `s`, in the same order.
pub open spec fn ops_views(s: Seq<Operation>) -> Seq<Seq<char>> {
    s.map_values(|op: Operation| op@)
}

/// The views of the tasks of `m`, under the same keys.
pub open spec fn tasks_views(m: Map<u128, TaskMap>) -> Map<u128, Map<Seq<char>, Seq<char>>> {
    m.map_values(|t: TaskMap| t@)
}

/// A protocol invariant violation: a caller defect, to be escalated, never
/// retried with the same arguments.
#[derive(Clone, Copy, PartialEq, Eq, Debug, Structural)]
pub enum StorageError {
    /// A version transition was requested for a version other than the
    /// successor of the current base version.
    VersionMismatch,
}

/// The abstract state of the storage: the materialized task table, the last
/// version fully incorporated from the remote authority, and the pending
/// operations recorded since that version, in append order.
pub ghost struct StorageView {
    pub tasks: Map<u128, Map<Seq<char>, Seq<char>>>,
    pub base_version: u64,
    pub operations: Seq<Seq<char>>,
}

/// In-memory replica storage: the current task table with all pending
/// operations applied, plus the append-only log of operations not yet
/// synchronized with the remote authority.
///
/// Storage records and replays opaque operations without interpreting them;
/// the caller keeps the task table consistent with the log by recording an
/// operation for every intended mutation and by driving the two version
/// transitions in order.
pub struct InMemoryStorage {
    tasks: HashMap<u128, TaskMap>,
    // The keys of `tasks`, each exactly once, kept alongside the table so
    // that the identifiers can be listed.
    uuids: Vec<Uuid>,
    base_version: u64,
    operations: Vec<Operation>,
}

impl View for InMemoryStorage {
    type V = StorageView;

    closed spec fn view(&self) -> StorageView {
        StorageView {
            tasks: tasks_views(self.tasks@),
            base_version: self.base_version,
            operations: ops_views(self.operations@),
        }
    }
}

/// The uuid at index `i` of `list` names a key of the table.
spec fn list_covered(list: Seq<Uuid>, m: Map<u128, TaskMap>) -> bool {
    forall|i: int| 0 <= i < list.len() ==> m.contains_key((#[trigger] list[i])@)
}

/// Every key of the table appears somewhere in `list`.
spec fn list_covers(list: Seq<Uuid>, m: Map<u128, TaskMap>) -> bool {
    forall|k: u128|
        #[trigger] m.contains_key(k) ==> exists|i: int|
            0 <= i < list.len() && (#[trigger] list[i])@ == k
}

/// No identifier appears twice in `list`.
spec fn list_distinct(list: Seq<Uuid>) -> bool {
    forall|i: int, j: int|
        0 <= i < j < list.len() ==> (#[trigger] list[i])@ != (#[trigger] list[j])@
}

impl InMemoryStorage {
    /// Well-formed: every stored task is itself well-formed, and the uuid
    /// list holds exactly the keys of the task table, each once.  `new`
    /// establishes this and every method preserves it.
    pub closed spec fn wf(self) -> bool {
        &&& forall|k: u128| #[trigger] self.tasks@.contains_key(k) ==> self.tasks@[k].wf()
        &&& list_distinct(self.uuids@)
        &&& list_covered(self.uuids@, self.tasks@)
        &&& list_covers(self.uuids@, self.tasks@)
    }

    /// Fresh storage: no tasks, base version 0, no pending operations.
    pub fn new() -> (r: InMemoryStorage)
        ensures
            r.wf(),
            r@.tasks == Map::<u128, Map<Seq<char>, Seq<char>>>::empty(),
            r@.base_version == 0,
            r@.operations == Seq::<Seq<char>>::empty(),
    {
        let r = InMemoryStorage {
            tasks: HashMap::new(),
            uuids: Vec::new(),
            base_version: 0,
            operations: Vec::new(),
        };
        proof {
            assert(r@.tasks =~= Map::<u128, Map<Seq<char>, Seq<char>>>::empty());
            assert(r@.operations =~= Seq::<Seq<char>>::empty());
        }
        r
    }

    /// An independent copy of the task stored under `uuid`, or `None` when no
    /// such task exists.  Absence is an ordinary outcome, not a failure.
    pub fn get_task(&self, uuid: &Uuid) -> (r: Option<TaskMap>)
        requires
            self.wf(),
        ensures
            match r {
                Some(t) => {
                    &&& t.wf()
                    &&& self@.tasks.contains_key(uuid@)
                    &&& t@ == self@.tasks[uuid@]
                },
                None => !self@.tasks.contains_key(uuid@),
            },
    {
        match self.tasks.get(&uuid.0) {
            None => None,
            Some(t) => Some(t.duplicate()),
        }
    }

    /// Create a task only if `uuid` is unused; the result says whether the
    /// insertion happened.  When it returns false the storage is unchanged.
    pub fn create_task(&mut self, uuid: Uuid, task: TaskMap) -> (r: bool)
        requires
            old(self).wf(),
            task.wf(),
        ensures
            final(self).wf(),
            r == !old(self)@.tasks.contains_key(uuid@),
            r ==> final(self)@.tasks == old(self)@.tasks.insert(uuid@, task@),
            !r ==> final(self)@ == old(self)@,
            final(self)@.base_version == old(self)@.base_version,
            final(self)@.operations == old(self)@.operations,
    {
        if self.tasks.contains_key(&uuid.0) {
            false
        } else {
            self.tasks.insert(uuid.0, task);
            self.uuids.push(uuid);
            proof {
                lemma_wf_after_fresh_insert(*old(self), *self, uuid, task);
                assert(self@.tasks =~= old(self)@.tasks.insert(uuid@, task@));
            }
            true
        }
    }

    /// Insert or replace the task stored under `uuid`; always succeeds.
    pub fn set_task(&mut self, uuid: Uuid, task: TaskMap)
        requires
            old(self).wf(),
            task.wf(),
        ensures
            final(self).wf(),
            final(self)@.tasks == old(self)@.tasks.insert(uuid@, task@),
            final(self)@.base_version == old(self)@.base_version,
            final(self)@.operations == old(self)@.operations,
    {
        let present = self.tasks.contains_key(&uuid.0);
        self.tasks.insert(uuid.0, task);
        if !present {
            self.uuids.push(uuid);
            proof {
                lemma_wf_after_fresh_insert(*old(self), *self, uuid, task);
            }
        } else {
            proof {
                lemma_wf_after_replacing_insert(*old(self), *self, uuid, task);
            }
        }
        proof {
            assert(self@.tasks =~= old(self)@.tasks.insert(uuid@, task@));
        }
    }

    /// Remove the task stored under `uuid` if present; the result says
    /// whether a removal happened.  When it returns false the storage is
    /// unchanged.
    pub fn delete_task(&mut self, uuid: &Uuid) -> (r: bool)
        requires
            old(self).wf(),
        ensures
            final(self).wf(),
            r == old(self)@.tasks.contains_key(uuid@),
            r ==> final(self)@.tasks == old(self)@.tasks.remove(uuid@),
            !r ==> final(self)@ == old(self)@,
            final(self)@.base_version == old(self)@.base_version,
            final(self)@.operations == old(self)@.operations,
    {
        match self.tasks.remove(&uuid.0) {
            Some(_) => {
                let idx = find_uuid_index(&self.uuids, uuid.0);
                self.uuids.remove(idx);
                proof {
                    lemma_wf_after_remove(*old(self), *self, *uuid, idx as int);
                    assert(self@.tasks =~= old(self)@.tasks.remove(uuid@));
                }
                true
            },
            None => {
                proof {
                    assert(self.tasks@ =~= old(self).tasks@);
                    assert(self@.tasks =~= old(self)@.tasks);
                }
                false
            },
        }
    }

    /// Every identifier with a present task, each exactly once, in no
    /// particular order.
    pub fn get_task_uuids(&self) -> (r: Vec<Uuid>)
        requires
            self.wf(),
        ensures
            r@.no_duplicates(),
            forall|i: int| 0 <= i < r@.len() ==> self@.tasks.contains_key((#[trigger] r@[i])@),
            forall|k: u128|
                self@.tasks.contains_key(k) ==> exists|i: int|
                    0 <= i < r@.len() && (#[trigger] r@[i])@ == k,
    {
        let n = self.uuids.len();
        let mut out: Vec<Uuid> = Vec::new();
        let mut i: usize = 0;
        while i < n
            invariant
                n == self.uuids@.len(),
                i <= n,
                out@ == self.uuids@.subrange(0, i as int),
            decreases n - i,
        {
            out.push(self.uuids[i]);
            proof {
                assert(out@ =~= self.uuids@.subrange(0, i as int + 1));
            }
            i = i + 1;
        }
        proof {
            assert(out@ =~= self.uuids@);
            assert forall|a: int, b: int|
                0 <= a < out@.len() && 0 <= b < out@.len() && a != b implies out@[a]
                != out@[b] by {
                assert(out@[a]@ != out@[b]@);
            }
        }
        out
    }

    /// Append `op` to the pending-operation log.  This merely records the
    /// operation; applying its meaning to the task table is the caller's
    /// responsibility.
    pub fn add_operation(&mut self, op: Operation)
        requires
            old(self).wf(),
        ensures
            final(self).wf(),
            final(self)@.operations == old(self)@.operations.push(op@),
            final(self)@.tasks == old(self)@.tasks,
            final(self)@.base_version == old(self)@.base_version,
    {
        self.operations.push(op);
        proof {
            assert(self@.operations =~= old(self)@.operations.push(op@));
        }
    }

    /// The last version fully incorporated from the remote authority; the
    /// version at which the pending-operation log begins.
    pub fn base_version(&self) -> (r: u64)
        ensures
            r == self@.base_version,
    {
        self.base_version
    }

    /// The pending operations, in the exact order they were appended.
    pub fn operations(&self) -> (r: &Vec<Operation>)
        ensures
            ops_views(r@) == self@.operations,
    {
        &self.operations
    }

    /// Incorporate the next version from the remote authority: advance the
    /// base version to `version` and replace the pending-operation log with
    /// `new_operations`, discarding whatever was pending.  The caller is
    /// responsible for having already brought the task table in line with the
    /// new operations; storage performs no interpretation.
    ///
    /// Legal only for `version == base_version() + 1`.  Any other version is
    /// a protocol defect of the caller: the storage is left unchanged and a
    /// `VersionMismatch` error is returned for the caller to escalate.
    pub fn update_version(&mut self, version: u64, new_operations: Vec<Operation>) -> (r: Result<
        (),
        StorageError,
    >)
        requires
            old(self).wf(),
        ensures
            final(self).wf(),
            version == old(self)@.base_version + 1 ==> {
                &&& r is Ok
                &&& final(self)@.base_version == version
                &&& final(self)@.operations == ops_views(new_operations@)
                &&& final(self)@.tasks == old(self)@.tasks
            },
            version != old(self)@.base_version + 1 ==> {
                &&& r == Err::<(), StorageError>(StorageError::VersionMismatch)
                &&& final(self)@ == old(self)@
            },
    {
        if self.base_version < u64::MAX && version == self.base_version + 1 {
            self.base_version = version;
            self.operations = new_operations;
            Ok(())
        } else {
            Err(StorageError::VersionMismatch)
        }
    }

    /// Record that the pending operations were accepted by the remote
    /// authority as `version`: advance the base version and clear the log —
    /// the operations are folded into the new baseline and need no
    /// retransmission.
    ///
    /// Legal only for `version == base_version() + 1`.  Any other version is
    /// a protocol defect of the caller: the storage is left unchanged and a
    /// `VersionMismatch` error is returned for the caller to escalate.
    pub fn local_operations_synced(&mut self, version: u64) -> (r: Result<(), StorageError>)
        requires
            old(self).wf(),
        ensures
            final(self).wf(),
            version == old(self)@.base_version + 1 ==> {
                &&& r is Ok
                &&& final(self)@.base_version == version
                &&& final(self)@.operations == Seq::<Seq<char>>::empty()
                &&& final(self)@.tasks == old(self)@.tasks
            },
            version != old(self)@.base_version + 1 ==> {
                &&& r == Err::<(), StorageError>(StorageError::VersionMismatch)
                &&& final(self)@ == old(self)@
            },
    {
        if self.base_version < u64::MAX && version == self.base_version + 1 {
            self.base_version = version;
            self.operations = Vec::new();
            proof {
                assert(self@.operations =~= Seq::<Seq<char>>::empty());
            }
            Ok(())
        } else {
            Err(StorageError::VersionMismatch)
        }
    }
}

/// The index in `list` of the uuid whose value is `k`; the caller warrants
/// that it occurs.
fn find_uuid_index(list: &Vec<Uuid>, k: u128) -> (idx: usize)
    requires
        exists|j: int| 0 <= j < list@.len() && (#[trigger] list@[j])@ == k,
    ensures
        idx < list@.len(),
        list@[idx as int]@ == k,
{
    let n = list.len();
    let mut i: usize = 0;
    while i < n
        invariant
            n == list@.len(),
            i <= n,
            exists|j: int| i <= j < list@.len() && (#[trigger] list@[j])@ == k,
        decreases n - i,
    {
        if list[i].0 == k {
            return i;
        }
        proof {
            let j = choose|j: int| i <= j < list@.len() && (#[trigger] list@[j])@ == k;
            assert(i + 1 <= j < list@.len() && list@[j]@ == k);
        }
        i = i + 1;
    }
    proof {
        assert(false);
    }
    0
}

/// After creating a task under a fresh identifier, that identifier maps to
/// exactly the task that was supplied.
pub proof fn lemma_create_then_get(
    pre: StorageView,
    post: StorageView,
    uuid: u128,
    task: Map<Seq<char>, Seq<char>>,
)
    requires
        !pre.tasks.contains_key(uuid),
        post.tasks == pre.tasks.insert(uuid, task),
    ensures
        post.tasks.contains_key(uuid),
        post.tasks[uuid] == task,
{
}

/// Creating a task under an identifier that is already present is refused and
/// changes nothing: the existing task keeps its value.
pub proof fn lemma_create_existing_keeps_task(
    pre: StorageView,
    post: StorageView,
    uuid: u128,
    task: Map<Seq<char>, Seq<char>>,
    r: bool,
)
    requires
        pre.tasks.contains_key(uuid),
        r == !pre.tasks.contains_key(uuid),
        r ==> post.tasks == pre.tasks.insert(uuid, task),
        !r ==> post == pre,
    ensures
        !r,
        post == pre,
        post.tasks[uuid] == pre.tasks[uuid],
{
}

/// Setting a task always takes effect: afterwards the identifier maps to the
/// new value, whether or not a task was present before.
pub proof fn lemma_set_then_get(
    pre: StorageView,
    post: StorageView,
    uuid: u128,
    task: Map<Seq<char>, Seq<char>>,
)
    requires
        post.tasks == pre.tasks.insert(uuid, task),
    ensures
        post.tasks.contains_key(uuid),
        post.tasks[uuid] == task,
{
}

/// After a delete the identifier has no task, whether or not one was present;
/// a delete changes no other entry, and a refused delete changes nothing.
pub proof fn lemma_delete_then_get(pre: StorageView, post: StorageView, uuid: u128, r: bool)
    requires
        r == pre.tasks.contains_key(uuid),
        r ==> post.tasks == pre.tasks.remove(uuid),
        !r ==> post == pre,
    ensures
        !post.tasks.contains_key(uuid),
        forall|k: u128|
            k != uuid && #[trigger] pre.tasks.contains_key(k) ==> post.tasks.contains_key(k)
                && post.tasks[k] == pre.tasks[k],
        !r ==> post == pre,
{
}

/// Appending an operation extends the log by exactly that operation: the
/// prior operations keep their positions and the new one is last.
pub proof fn lemma_add_operation_appends(pre: StorageView, post: StorageView, op: Seq<char>)
    requires
        post.operations == pre.operations.push(op),
    ensures
        post.operations.len() == pre.operations.len() + 1,
        post.operations[pre.operations.len() as int] == op,
        forall|i: int| 0 <= i < pre.operations.len() ==> post.operations[i] == pre.operations[i],
{
}

proof fn lemma_wf_after_fresh_insert(pre: InMemoryStorage, post: InMemoryStorage, uuid: Uuid, task: TaskMap)
    requires
        pre.wf(),
        task.wf(),
        !pre.tasks@.contains_key(uuid@),
        post.tasks@ == pre.tasks@.insert(uuid@, task),
        post.uuids@ == pre.uuids@.push(uuid),
    ensures
        post.wf(),
{
    let n = pre.uuids@.len() as int;
    assert(forall|i: int| 0 <= i < n ==> post.uuids@[i] == pre.uuids@[i]);
    assert(post.uuids@[n] == uuid);
    assert(list_distinct(post.uuids@));
    assert(list_covered(post.uuids@, post.tasks@));
    assert forall|k: u128| #[trigger] post.tasks@.contains_key(k) implies exists|i: int|
        0 <= i < post.uuids@.len() && (#[trigger] post.uuids@[i])@ == k by {
        if k == uuid@ {
            assert(post.uuids@[n]@ == k);
        } else {
            assert(pre.tasks@.contains_key(k));
            let i = choose|i: int| 0 <= i < pre.uuids@.len() && (#[trigger] pre.uuids@[i])@ == k;
            assert(post.uuids@[i]@ == k);
        }
    }
}

proof fn lemma_wf_after_replacing_insert(pre: InMemoryStorage, post: InMemoryStorage, uuid: Uuid, task: TaskMap)
    requires
        pre.wf(),
        task.wf(),
        pre.tasks@.contains_key(uuid@),
        post.tasks@ == pre.tasks@.insert(uuid@, task),
        post.uuids@ == pre.uuids@,
    ensures
        post.wf(),
{
    assert(list_covered(post.uuids@, post.tasks@));
    assert forall|k: u128| #[trigger] post.tasks@.contains_key(k) implies exists|i: int|
        0 <= i < post.uuids@.len() && (#[trigger] post.uuids@[i])@ == k by {
        assert(pre.tasks@.contains_key(k));
        let i = choose|i: int| 0 <= i < pre.uuids@.len() && (#[trigger] pre.uuids@[i])@ == k;
        assert(post.uuids@[i]@ == k);
    }
}

proof fn lemma_wf_after_remove(pre: InMemoryStorage, post: InMemoryStorage, uuid: Uuid, idx: int)
    requires
        pre.wf(),
        pre.tasks@.contains_key(uuid@),
        0 <= idx < pre.uuids@.len(),
        pre.uuids@[idx]@ == uuid@,
        post.tasks@ == pre.tasks@.remove(uuid@),
        post.uuids@ == pre.uuids@.remove(idx),
    ensures
        post.wf(),
{
    let u0 = pre.uuids@;
    let u1 = post.uuids@;
    assert(forall|i: int| 0 <= i < idx ==> u1[i] == u0[i]);
    assert(forall|i: int| idx <= i < u1.len() ==> u1[i] == u0[i + 1]);
    assert(list_distinct(u1));
    assert forall|i: int| 0 <= i < u1.len() implies post.tasks@.contains_key(
        (#[trigger] u1[i])@,
    ) by {
        if i < idx {
            assert(u0[i]@ != u0[idx]@);
        } else {
            assert(u0[i + 1]@ != u0[idx]@);
        }
    }
    assert forall|k: u128| #[trigger] post.tasks@.contains_key(k) implies exists|i: int|
        0 <= i < u1.len() && (#[trigger] u1[i])@ == k by {
        assert(pre.tasks@.contains_key(k));
        assert(k != uuid@);
        let i = choose|i: int| 0 <= i < u0.len() && (#[trigger] u0[i])@ == k;
        if i < idx {
            assert(u1[i]@ == k);
        } else {
            assert(i != idx);
            assert(u1[i - 1]@ == k);
        }
    }
}

} // verus!
