//! Expansion of process ids into every thread id of those processes and of
//! their descendant processes.
//!
//! Reading the process table is left to the caller: the expansion says which
//! process to inspect next, and takes what the inspection found.

use vstd::prelude::*;
use vstd::relations::injective_on;
use vstd::set_lib::{lemma_int_range, lemma_len_subset, lemma_map_size, set_int_range};

verus! {

broadcast use vstd::seq_lib::group_seq_properties;

/// What the process table showed for one thread of an inspected process.
pub struct TaskInfo {
    /// The thread id.
    pub tid: i32,
    /// The child processes of the thread, if they could be read.
    pub children: Option<Vec<u32>>,
}

/// The thread id that one task contributes: its `tid`, where it is positive.
pub open spec fn task_tid(t: Option<TaskInfo>) -> Set<u32> {
    match t {
        Some(t) => if t.tid > 0 {
            set![t.tid as u32]
        } else {
            Set::empty()
        },
        None => Set::empty(),
    }
}

/// The child processes that one task reports.
pub open spec fn task_children(t: Option<TaskInfo>) -> Set<u32> {
    match t {
        Some(t) => match t.children {
            Some(c) => c@.to_set(),
            None => Set::empty(),
        },
        None => Set::empty(),
    }
}

/// The thread ids of the first `n` tasks.
pub open spec fn tids_upto(tasks: Seq<Option<TaskInfo>>, n: nat) -> Set<u32>
    decreases n,
{
    if n == 0 {
        Set::empty()
    } else {
        tids_upto(tasks, (n - 1) as nat) + task_tid(tasks[n - 1])
    }
}

/// The child processes of the first `n` tasks.
pub open spec fn children_upto(tasks: Seq<Option<TaskInfo>>, n: nat) -> Set<u32>
    decreases n,
{
    if n == 0 {
        Set::empty()
    } else {
        children_upto(tasks, (n - 1) as nat) + task_children(tasks[n - 1])
    }
}

/// The thread ids of all the tasks.
pub open spec fn all_tids(tasks: Seq<Option<TaskInfo>>) -> Set<u32> {
    tids_upto(tasks, tasks.len())
}

/// The child processes of all the tasks.
pub open spec fn all_children(tasks: Seq<Option<TaskInfo>>) -> Set<u32> {
    children_upto(tasks, tasks.len())
}

/// Whether `v` holds `x`.
pub fn vec_contains(v: &Vec<u32>, x: u32) -> (r: bool)
    ensures
        r == v@.contains(x),
{
    let mut i: usize = 0;
    while i < v.len()
        invariant
            0 <= i <= v@.len(),
            forall|k: int| 0 <= k < i ==> v@[k] != x,
        decreases v@.len() - i,
    {
        if v[i] == x {
            return true;
        }
        i = i + 1;
    }
    false
}

/// Adds `x` to `v` where it is absent; says whether it was added.
fn insert_absent(v: &mut Vec<u32>, x: u32) -> (r: bool)
    requires
        old(v)@.no_duplicates(),
    ensures
        r == !old(v)@.contains(x),
        final(v)@ == (if r {
            old(v)@.push(x)
        } else {
            old(v)@
        }),
        final(v)@.no_duplicates(),
        final(v)@.to_set() == old(v)@.to_set().insert(x),
{
    if vec_contains(v, x) {
        assert(v@.to_set() =~= v@.to_set().insert(x));
        false
    } else {
        v.push(x);
        proof {
            old(v)@.lemma_push_to_set_commute(x);
            assert forall|i: int, j: int|
                0 <= i < final(v)@.len() && 0 <= j < final(v)@.len() && i != j implies final(v)@[i]
                != final(v)@[j] by {
                if i == old(v)@.len() as int {
                    assert(old(v)@.contains(final(v)@[j]));
                } else if j == old(v)@.len() as int {
                    assert(old(v)@.contains(final(v)@[i]));
                }
            }
        }
        true
    }
}

/// What the inspection of a process showed, as a value.
pub open spec fn tasks_view(tasks: Option<Vec<Option<TaskInfo>>>) -> Option<Seq<Option<TaskInfo>>> {
    match tasks {
        Some(ts) => Some(ts@),
        None => None,
    }
}

/// The thread ids and children that an inspection showed.
pub open spec fn shown(t: Option<Seq<Option<TaskInfo>>>) -> Set<u32> {
    match t {
        Some(ts) => all_tids(ts) + all_children(ts),
        None => Set::empty(),
    }
}

/// The child processes that an inspection showed.
pub open spec fn shown_children(t: Option<Seq<Option<TaskInfo>>>) -> Set<u32> {
    match t {
        Some(ts) => all_children(ts),
        None => Set::empty(),
    }
}

/// A process table: for each process id that can be read, its tasks
/// (`None` for a process that has gone).
pub type ProcessTable = Map<u32, Option<Seq<Option<TaskInfo>>>>;

/// Whether `q` is closed under the table: it holds `start`, and with each
/// live process it holds, that process's children.
pub open spec fn closed_under(q: Set<u32>, start: Set<u32>, table: ProcessTable) -> bool {
    &&& start.subset_of(q)
    &&& forall|p: u32|
        #![trigger q.contains(p), table.contains_key(p)]
        q.contains(p) && p <= 0x7fff_ffff && table.contains_key(p) ==> shown_children(
            table[p],
        ).subset_of(q)
}

/// The state of an expansion: the identities found so far, the processes
/// ever queued for inspection, those still waiting for it, and the one
/// handed out for inspection and not yet recorded.
pub struct ThreadExpansion {
    pub found: Vec<u32>,
    pub queued: Vec<u32>,
    pub pending: Vec<u32>,
    pub current: Option<u32>,
    /// The ids the expansion started from.
    pub start: Ghost<Set<u32>>,
    /// Each inspected process with what its inspection showed.
    pub seen: Ghost<Set<(u32, Option<Seq<Option<TaskInfo>>>)>>,
}

impl ThreadExpansion {
    /// No identity appears twice in `found` or in `queued`, and every
    /// pending process has been queued.
    pub open spec fn wf(&self) -> bool {
        &&& self.found@.no_duplicates()
        &&& self.queued@.no_duplicates()
        &&& self.pending@.to_set().subset_of(self.queued@.to_set())
    }

    /// The history of the expansion: every queued process that can be named
    /// and is neither waiting nor handed out was inspected; what each
    /// inspection showed was found and its children queued; nothing was found
    /// or queued but the start and what inspections showed; and the queue
    /// lies in every set that holds the start and is closed under what the
    /// inspections showed.
    pub open spec fn tracks(&self) -> bool {
        let found = self.found@.to_set();
        let queued = self.queued@.to_set();
        let start = self.start@;
        let seen = self.seen@;
        &&& start.subset_of(found)
        &&& start.subset_of(queued)
        &&& forall|q: u32|
            #![trigger queued.contains(q)]
            queued.contains(q) && q <= 0x7fff_ffff && !self.pending@.to_set().contains(q)
                && self.current != Some(q) ==> exists|t: Option<Seq<Option<TaskInfo>>>|
                seen.contains((q, t))
        &&& forall|e: (u32, Option<Seq<Option<TaskInfo>>>)|
            #![trigger seen.contains(e)]
            seen.contains(e) ==> {
                &&& shown(e.1).subset_of(found)
                &&& shown_children(e.1).subset_of(queued)
                &&& queued.contains(e.0)
                &&& e.0 <= 0x7fff_ffff
            }
        &&& forall|x: u32|
            #![trigger found.contains(x)]
            found.contains(x) ==> start.contains(x) || exists|e: (u32, Option<Seq<Option<TaskInfo>>>)|
                seen.contains(e) && shown(e.1).contains(x)
        &&& forall|q: Set<u32>|
            #![trigger queued.subset_of(q)]
            (start.subset_of(q) && forall|e: (u32, Option<Seq<Option<TaskInfo>>>)|
                #![trigger seen.contains(e)]
                seen.contains(e) && q.contains(e.0) ==> shown_children(e.1).subset_of(q))
                ==> queued.subset_of(q)
        &&& match self.current {
            Some(p) => queued.contains(p) && p <= 0x7fff_ffff,
            None => true,
        }
    }

    /// The work that can still come: ids never queued, plus ids queued and
    /// not yet handed out. `next_pid` lowers it whenever it returns an id,
    /// and `record` leaves it as it was.
    pub open spec fn remaining(&self) -> int {
        0x1_0000_0000 - self.queued@.len() + self.pending@.len()
    }

    /// Starts from `pids`: each is found and queued for inspection.
    pub fn new(pids: &Vec<u32>) -> (r: Self)
        ensures
            r.wf(),
            r.tracks(),
            r.current is None,
            r.start@ == pids@.to_set(),
            r.found@.to_set() == pids@.to_set(),
            r.queued@.to_set() == pids@.to_set(),
            r.pending@.to_set() == pids@.to_set(),
    {
        let mut found: Vec<u32> = Vec::new();
        let mut queued: Vec<u32> = Vec::new();
        let mut pending: Vec<u32> = Vec::new();
        let mut i: usize = 0;
        while i < pids.len()
            invariant
                0 <= i <= pids@.len(),
                found@.no_duplicates(),
                queued@ == found@,
                pending@ == found@,
                found@.to_set() == pids@.subrange(0, i as int).to_set(),
            decreases pids@.len() - i,
        {
            let p = pids[i];
            if insert_absent(&mut found, p) {
                queued.push(p);
                pending.push(p);
            }
            proof {
                assert(pids@.subrange(0, i + 1) =~= pids@.subrange(0, i as int).push(p));
                pids@.subrange(0, i as int).lemma_push_to_set_commute(p);
            }
            i = i + 1;
        }
        assert(pids@.subrange(0, pids@.len() as int) =~= pids@);
        let r = ThreadExpansion {
            found,
            queued,
            pending,
            current: None,
            start: Ghost(pids@.to_set()),
            seen: Ghost(Set::empty()),
        };
        assert forall|q: Set<u32>|
            (r.start@.subset_of(q) && forall|e: (u32, Option<Seq<Option<TaskInfo>>>)|
                #![trigger r.seen@.contains(e)]
                r.seen@.contains(e) && q.contains(e.0) ==> shown_children(e.1).subset_of(q))
                implies r.queued@.to_set().subset_of(q) by {}
        r
    }

    /// The next process to inspect, or `None` when the expansion is complete.
    /// Ids that cannot name a process (above `i32::MAX`) are passed over.
    /// The id returned is the one that the next `record` applies to; one
    /// handed out before and never recorded counts as a process that has gone.
    pub fn next_pid(&mut self) -> (r: Option<i32>)
        requires
            old(self).wf(),
            old(self).tracks(),
        ensures
            final(self).wf(),
            final(self).tracks(),
            final(self).start == old(self).start,
            final(self).found@ == old(self).found@,
            final(self).queued@ == old(self).queued@,
            final(self).current == (match r {
                Some(p) => Some(p as u32),
                None => None::<u32>,
            }),
            final(self).pending@.len() <= old(self).pending@.len(),
            final(self).pending@ == old(self).pending@.subrange(0, final(self).pending@.len() as int),
            r is None ==> final(self).pending@.len() == 0,
            r is None ==> forall|i: int|
                0 <= i < old(self).pending@.len() ==> old(self).pending@[i] > 0x7fff_ffff,
            r matches Some(p) ==> {
                &&& p >= 0
                &&& final(self).pending@.len() < old(self).pending@.len()
                &&& old(self).pending@[final(self).pending@.len() as int] == p as u32
                &&& forall|j: int|
                    final(self).pending@.len() < j < old(self).pending@.len() ==> old(
                        self,
                    ).pending@[j] > 0x7fff_ffff
            },
    {
        let ghost before = *self;
        if let Some(q) = self.current {
            self.seen = Ghost(self.seen@.insert((q, None)));
        }
        self.current = None;
        let ghost mid = *self;
        proof {
            let queued = mid.queued@.to_set();
            assert forall|e: (u32, Option<Seq<Option<TaskInfo>>>)| mid.seen@.contains(e) implies {
                &&& shown(e.1).subset_of(mid.found@.to_set())
                &&& shown_children(e.1).subset_of(queued)
                &&& queued.contains(e.0)
                &&& e.0 <= 0x7fff_ffff
            } by {
                if !before.seen@.contains(e) {
                    assert(shown(e.1) =~= Set::empty());
                    assert(shown_children(e.1) =~= Set::empty());
                }
            }
            assert forall|q: u32|
                queued.contains(q) && q <= 0x7fff_ffff && !mid.pending@.to_set().contains(q)
                    implies exists|t: Option<Seq<Option<TaskInfo>>>| mid.seen@.contains((q, t)) by {
                {
                    if before.current == Some(q) {
                        assert(mid.seen@.contains((q, None)));
                    } else {
                        let t = choose|t: Option<Seq<Option<TaskInfo>>>| before.seen@.contains((q, t));
                        assert(mid.seen@.contains((q, t)));
                    }
                }
            }
            assert forall|x: u32| mid.found@.to_set().contains(x) implies mid.start@.contains(x)
                || exists|e: (u32, Option<Seq<Option<TaskInfo>>>)|
                mid.seen@.contains(e) && shown(e.1).contains(x) by {
                if !mid.start@.contains(x) {
                    let e = choose|e: (u32, Option<Seq<Option<TaskInfo>>>)|
                        before.seen@.contains(e) && shown(e.1).contains(x);
                    assert(mid.seen@.contains(e));
                }
            }
            assert forall|q: Set<u32>|
                (mid.start@.subset_of(q) && forall|e: (u32, Option<Seq<Option<TaskInfo>>>)|
                    #![trigger mid.seen@.contains(e)]
                    mid.seen@.contains(e) && q.contains(e.0) ==> shown_children(e.1).subset_of(q))
                    implies queued.subset_of(q) by {
                assert forall|e: (u32, Option<Seq<Option<TaskInfo>>>)|
                    before.seen@.contains(e) && q.contains(e.0) implies shown_children(e.1).subset_of(q) by {
                    assert(mid.seen@.contains(e));
                }
                assert(queued.subset_of(q));
            }
            assert(mid.tracks());
        }
        let r = self.pop_next();
        if let Some(p) = r {
            self.current = Some(p as u32);
        }
        proof {
            let queued = self.queued@.to_set();
            assert forall|q: u32|
                queued.contains(q) && q <= 0x7fff_ffff && !self.pending@.to_set().contains(q)
                    && self.current != Some(q) implies exists|t: Option<Seq<Option<TaskInfo>>>|
                self.seen@.contains((q, t)) by {
                if mid.pending@.to_set().contains(q) {
                    let k = choose|k: int| 0 <= k < mid.pending@.len() && mid.pending@[k] == q;
                    let n = self.pending@.len() as int;
                    if k < n {
                        assert(self.pending@[k] == q);
                        assert(self.pending@.to_set().contains(q));
                    } else {
                        match r {
                            Some(p) => {
                                if k == n {
                                    assert(q == p as u32);
                                } else {
                                    assert(mid.pending@[k] > 0x7fff_ffff);
                                }
                            },
                            None => {
                                assert(mid.pending@[k] > 0x7fff_ffff);
                            },
                        }
                    }
                } else {
                    assert(mid.queued@.to_set().contains(q));
                    assert(exists|t: Option<Seq<Option<TaskInfo>>>| mid.seen@.contains((q, t)));
                    let t = choose|t: Option<Seq<Option<TaskInfo>>>| mid.seen@.contains((q, t));
                    assert(self.seen@ == mid.seen@);
                    assert(self.seen@.contains((q, t)));
                }
            }
            if let Some(p) = r {
                let n = self.pending@.len() as int;
                assert(mid.pending@[n] == p as u32);
                assert(mid.pending@.to_set().contains(p as u32));
            }
            assert(self.seen@ == mid.seen@);
            assert(self.start@ == mid.start@);
            assert(self.found@ == mid.found@);
            assert(self.queued@ == mid.queued@);
            assert forall|x: u32| self.found@.to_set().contains(x) implies self.start@.contains(x)
                || exists|e: (u32, Option<Seq<Option<TaskInfo>>>)|
                self.seen@.contains(e) && shown(e.1).contains(x) by {
                assert(mid.found@.to_set().contains(x));
            }
            assert(self.tracks());
        }
        r
    }

    /// Takes in what the inspection of the process handed out by `next_pid`
    /// showed: `None` where the process could not be read, else its tasks, each
    /// `None` where that task could not be read. Positive thread ids and child
    /// processes are found; children never queued before are queued for
    /// inspection. With no process handed out, nothing changes.
    pub fn record(&mut self, tasks: Option<Vec<Option<TaskInfo>>>)
        requires
            old(self).wf(),
            old(self).tracks(),
        ensures
            final(self).wf(),
            final(self).tracks(),
            final(self).start == old(self).start,
            final(self).current is None,
            final(self).pending@.len() + old(self).queued@.len() == old(self).pending@.len() + final(self).queued@.len(),
            old(self).current is None || tasks is None ==> final(self).found@ == old(self).found@
                && final(self).queued@ == old(self).queued@ && final(self).pending@ == old(self).pending@,
            old(self).current is Some ==> match tasks {
                None => true,
                Some(ts) => {
                    &&& final(self).found@.to_set() == old(self).found@.to_set() + all_tids(ts@)
                        + all_children(ts@)
                    &&& final(self).queued@.to_set() == old(self).queued@.to_set() + all_children(
                        ts@,
                    )
                    &&& final(self).pending@.to_set() == old(self).pending@.to_set() + (
                    all_children(ts@) - old(self).queued@.to_set())
                },
            },
    {
        let ghost before = *self;
        let ghost tv = tasks_view(tasks);
        if let Some(p) = self.current {
            self.apply(tasks);
            self.seen = Ghost(self.seen@.insert((p, tv)));
            self.current = None;
            proof {
                let found = self.found@.to_set();
                let queued = self.queued@.to_set();
                let oq = before.queued@.to_set();
                assert(found =~= before.found@.to_set() + shown(tv));
                assert(queued =~= oq + shown_children(tv));
                assert(self.pending@.to_set() =~= before.pending@.to_set() + (shown_children(tv) - oq));
                assert forall|e: (u32, Option<Seq<Option<TaskInfo>>>)| self.seen@.contains(e) implies {
                    &&& shown(e.1).subset_of(found)
                    &&& shown_children(e.1).subset_of(queued)
                    &&& queued.contains(e.0)
                    &&& e.0 <= 0x7fff_ffff
                } by {
                    if before.seen@.contains(e) {
                        assert(shown(e.1).subset_of(before.found@.to_set()));
                    }
                }
                assert forall|q: u32|
                    queued.contains(q) && q <= 0x7fff_ffff && !self.pending@.to_set().contains(q)
                        && self.current != Some(q) implies exists|t: Option<Seq<Option<TaskInfo>>>|
                    self.seen@.contains((q, t)) by {
                    if q == p {
                        assert(self.seen@.contains((p, tv)));
                    } else {
                        assert(oq.contains(q));
                        assert(!before.pending@.to_set().contains(q));
                        let t = choose|t: Option<Seq<Option<TaskInfo>>>| before.seen@.contains((q, t));
                        assert(self.seen@.contains((q, t)));
                    }
                }
                assert forall|x: u32| found.contains(x) implies self.start@.contains(x)
                    || exists|e: (u32, Option<Seq<Option<TaskInfo>>>)|
                    self.seen@.contains(e) && shown(e.1).contains(x) by {
                    if before.found@.to_set().contains(x) {
                        if !self.start@.contains(x) {
                            let e = choose|e: (u32, Option<Seq<Option<TaskInfo>>>)|
                                before.seen@.contains(e) && shown(e.1).contains(x);
                            assert(self.seen@.contains(e));
                        }
                    } else {
                        assert(self.seen@.contains((p, tv)));
                    }
                }
                assert forall|q: Set<u32>|
                    (self.start@.subset_of(q) && forall|e: (u32, Option<Seq<Option<TaskInfo>>>)|
                        #![trigger self.seen@.contains(e)]
                        self.seen@.contains(e) && q.contains(e.0) ==> shown_children(e.1).subset_of(q))
                        implies queued.subset_of(q) by {
                    assert forall|e: (u32, Option<Seq<Option<TaskInfo>>>)|
                        before.seen@.contains(e) && q.contains(e.0) implies shown_children(e.1).subset_of(q) by {
                        assert(self.seen@.contains(e));
                    }
                    assert(oq.subset_of(q));
                    assert(self.seen@.contains((p, tv)));
                    assert(shown_children(tv).subset_of(q));
                }
                assert(self.tracks());
            }
        }
    }

    /// Pops the next id that can name a process; passes over the others.
    fn pop_next(&mut self) -> (r: Option<i32>)
        requires
            old(self).wf(),
        ensures
            final(self).wf(),
            final(self).start == old(self).start,
            final(self).seen == old(self).seen,
            final(self).current == old(self).current,
            final(self).found@ == old(self).found@,
            final(self).queued@ == old(self).queued@,
            final(self).pending@.len() <= old(self).pending@.len(),
            final(self).pending@ == old(self).pending@.subrange(0, final(self).pending@.len() as int),
            r is None ==> final(self).pending@.len() == 0,
            r is None ==> forall|i: int|
                0 <= i < old(self).pending@.len() ==> old(self).pending@[i] > 0x7fff_ffff,
            r matches Some(p) ==> {
                &&& p >= 0
                &&& final(self).pending@.len() < old(self).pending@.len()
                &&& old(self).pending@[final(self).pending@.len() as int] == p as u32
                &&& forall|j: int|
                    final(self).pending@.len() < j < old(self).pending@.len() ==> old(
                        self,
                    ).pending@[j] > 0x7fff_ffff
            },
    {
        while self.pending.len() > 0
            invariant
                self.wf(),
                self.start == old(self).start,
                self.seen == old(self).seen,
                self.current == old(self).current,
                self.found@ == old(self).found@,
                self.queued@ == old(self).queued@,
                self.pending@.len() <= old(self).pending@.len(),
                self.pending@ == old(self).pending@.subrange(0, self.pending@.len() as int),
                forall|j: int|
                    self.pending@.len() <= j < old(self).pending@.len() ==> old(self).pending@[j]
                        > 0x7fff_ffff,
            decreases self.pending@.len(),
        {
            let ghost before = self.pending@;
            let p = self.pending.pop().unwrap();
            proof {
                assert(self.pending@ =~= before.subrange(0, before.len() - 1));
                assert(before.to_set().contains(p));
                assert forall|x: u32| self.pending@.to_set().contains(x) implies self.queued@.to_set().contains(x) by {
                    let k = choose|k: int| 0 <= k < self.pending@.len() && self.pending@[k] == x;
                    assert(before[k] == x);
                }
                assert(old(self).pending@[self.pending@.len() as int] == p);
            }
            if p <= 0x7fff_ffff {
                return Some(p as i32);
            }
        }
        None
    }

    /// Applies what the inspection of one process showed.
    fn apply(&mut self, tasks: Option<Vec<Option<TaskInfo>>>)
        requires
            old(self).wf(),
        ensures
            final(self).wf(),
            final(self).start == old(self).start,
            final(self).seen == old(self).seen,
            final(self).current == old(self).current,
            final(self).pending@.len() + old(self).queued@.len() == old(self).pending@.len() + final(self).queued@.len(),
            match tasks {
                None => final(self).found@ == old(self).found@ && final(self).queued@ == old(
                    self,
                ).queued@ && final(self).pending@ == old(self).pending@,
                Some(ts) => {
                    &&& final(self).found@.to_set() == old(self).found@.to_set() + all_tids(ts@)
                        + all_children(ts@)
                    &&& final(self).queued@.to_set() == old(self).queued@.to_set() + all_children(
                        ts@,
                    )
                    &&& final(self).pending@.to_set() == old(self).pending@.to_set() + (
                    all_children(ts@) - old(self).queued@.to_set())
                },
            },
    {
        match tasks {
            None => {},
            Some(ts) => {
                let mut i: usize = 0;
                while i < ts.len()
                    invariant
                        self.start == old(self).start,
                        self.seen == old(self).seen,
                        self.current == old(self).current,
                        0 <= i <= ts@.len(),
                        self.wf(),
                        self.found@.to_set() == old(self).found@.to_set() + tids_upto(ts@, i as nat)
                            + children_upto(ts@, i as nat),
                        self.queued@.to_set() == old(self).queued@.to_set() + children_upto(
                            ts@,
                            i as nat,
                        ),
                        self.pending@.to_set() == old(self).pending@.to_set() + (children_upto(
                            ts@,
                            i as nat,
                        ) - old(self).queued@.to_set()),
                        self.pending@.len() + old(self).queued@.len() == old(self).pending@.len() + self.queued@.len(),
                    decreases ts@.len() - i,
                {
                    match &ts[i] {
                        None => {},
                        Some(t) => {
                            match &t.children {
                                None => {},
                                Some(c) => {
                                    self.add_children(c);
                                },
                            }
                            if t.tid > 0 {
                                insert_absent(&mut self.found, t.tid as u32);
                            }
                        },
                    }
                    proof {
                        let f = old(self).found@.to_set();
                        let q = old(self).queued@.to_set();
                        let p = old(self).pending@.to_set();
                        assert(self.found@.to_set() =~= f + tids_upto(ts@, (i + 1) as nat)
                            + children_upto(ts@, (i + 1) as nat));
                        assert(self.queued@.to_set() =~= q + children_upto(ts@, (i + 1) as nat));
                        assert(self.pending@.to_set() =~= p + (children_upto(ts@, (i + 1) as nat)
                            - q));
                    }
                    i = i + 1;
                }
            },
        }
    }

    /// Finds the children `c`, and queues those never queued before.
    fn add_children(&mut self, c: &Vec<u32>)
        requires
            old(self).wf(),
        ensures
            final(self).wf(),
            final(self).start == old(self).start,
            final(self).seen == old(self).seen,
            final(self).current == old(self).current,
            final(self).found@.to_set() == old(self).found@.to_set() + c@.to_set(),
            final(self).queued@.to_set() == old(self).queued@.to_set() + c@.to_set(),
            final(self).pending@.to_set() == old(self).pending@.to_set() + (c@.to_set() - old(
                self,
            ).queued@.to_set()),
            final(self).pending@.len() + old(self).queued@.len() == old(self).pending@.len() + final(self).queued@.len(),
    {
        let mut j: usize = 0;
        while j < c.len()
            invariant
                self.start == old(self).start,
                self.seen == old(self).seen,
                self.current == old(self).current,
                0 <= j <= c@.len(),
                self.wf(),
                self.found@.to_set() == old(self).found@.to_set() + c@.subrange(0, j as int).to_set(),
                self.queued@.to_set() == old(self).queued@.to_set() + c@.subrange(0, j as int).to_set(),
                self.pending@.to_set() == old(self).pending@.to_set() + (c@.subrange(0, j as int).to_set()
                    - old(self).queued@.to_set()),
                self.pending@.len() + old(self).queued@.len() == old(self).pending@.len() + self.queued@.len(),
            decreases c@.len() - j,
        {
            let x = c[j];
            let ghost q0 = self.queued@;
            let ghost p0 = self.pending@;
            insert_absent(&mut self.found, x);
            let added = insert_absent(&mut self.queued, x);
            if added {
                self.pending.push(x);
            }
            proof {
                assert(c@.subrange(0, j + 1) =~= c@.subrange(0, j as int).push(x));
                c@.subrange(0, j as int).lemma_push_to_set_commute(x);
                let s = c@.subrange(0, j as int).to_set();
                let oq = old(self).queued@.to_set();
                let op = old(self).pending@.to_set();
                assert(self.found@.to_set() =~= old(self).found@.to_set() + s.insert(x));
                assert(self.queued@.to_set() =~= oq + s.insert(x));
                if added {
                    p0.lemma_push_to_set_commute(x);
                    assert(!q0.to_set().contains(x));
                    assert(!oq.contains(x));
                    assert(self.pending@.to_set() =~= op + (s.insert(x) - oq));
                } else {
                    assert(q0.to_set().contains(x));
                    if !oq.contains(x) {
                        assert(s.contains(x));
                        assert(p0.to_set().contains(x));
                    }
                    assert(self.pending@.to_set() =~= op + (s.insert(x) - oq));
                }
            }
            j = j + 1;
        }
        assert(c@.subrange(0, c@.len() as int) =~= c@);
    }
}

/// The work left never falls below zero: no more ids can be queued than
/// there are `u32` values. As every id that `next_pid` hands out lowers it and
/// `record` leaves it unchanged, an alternation of the two comes to an end.
pub proof fn lemma_remaining_nonnegative(e: ThreadExpansion)
    requires
        e.wf(),
    ensures
        e.remaining() >= e.pending@.len() >= 0,
{
    let q = e.queued@.to_set();
    e.queued@.unique_seq_to_set();
    let f = |x: u32| x as int;
    let m = q.map(f);
    assert(injective_on(f, q)) by {
        assert forall|a: u32, b: u32| q.contains(a) && q.contains(b) && f(a) == f(b) implies a
            == b by {}
    }
    lemma_map_size(q, m, f);
    let full = set_int_range(0, 0x1_0000_0000);
    lemma_int_range(0, 0x1_0000_0000);
    assert(m.subset_of(full)) by {
        assert forall|i: int| m.contains(i) implies full.contains(i) by {
            let x = choose|x: u32| q.contains(x) && f(x) == i;
        }
    }
    lemma_len_subset(m, full);
}

/// The result of a finished expansion, against a process table that every
/// inspection agreed with (a process that had gone shows `None`):
/// the queued processes hold the start and are closed under the table's
/// children; each live queued process has its positive thread ids and its
/// children found; and nothing more was queued or found than any set closed
/// under the table forces, so the result is the least such fixed point.
pub proof fn lemma_expansion_result(e: ThreadExpansion, table: ProcessTable)
    requires
        e.wf(),
        e.tracks(),
        e.pending@.len() == 0,
        e.current is None,
        forall|x: (u32, Option<Seq<Option<TaskInfo>>>)|
            #![trigger e.seen@.contains(x)]
            e.seen@.contains(x) ==> table.contains_key(x.0) && table[x.0] == x.1,
    ensures
        closed_under(e.queued@.to_set(), e.start@, table),
        e.start@.subset_of(e.found@.to_set()),
        forall|p: u32|
            #![trigger e.queued@.to_set().contains(p)]
            e.queued@.to_set().contains(p) && p <= 0x7fff_ffff ==> table.contains_key(p) && shown(
                table[p],
            ).subset_of(e.found@.to_set()),
        forall|q: Set<u32>|
            #![trigger closed_under(q, e.start@, table)]
            closed_under(q, e.start@, table) ==> e.queued@.to_set().subset_of(q),
        forall|q: Set<u32>, x: u32|
            #![trigger closed_under(q, e.start@, table), e.found@.to_set().contains(x)]
            closed_under(q, e.start@, table) && e.found@.to_set().contains(x) ==> e.start@.contains(
                x,
            ) || exists|p: u32|
                #![trigger q.contains(p)]
                q.contains(p) && p <= 0x7fff_ffff && table.contains_key(p) && shown(
                    table[p],
                ).contains(x),
{
    let queued = e.queued@.to_set();
    let found = e.found@.to_set();
    assert forall|p: u32| queued.contains(p) && p <= 0x7fff_ffff implies table.contains_key(p)
        && shown(table[p]).subset_of(found) && shown_children(table[p]).subset_of(queued) by {
        assert(!e.pending@.to_set().contains(p));
        let t = choose|t: Option<Seq<Option<TaskInfo>>>| e.seen@.contains((p, t));
        assert(e.seen@.contains((p, t)));
    }
    assert forall|q: Set<u32>| closed_under(q, e.start@, table) implies queued.subset_of(q) by {
        assert forall|x: (u32, Option<Seq<Option<TaskInfo>>>)|
            e.seen@.contains(x) && q.contains(x.0) implies shown_children(x.1).subset_of(q) by {
            assert(table.contains_key(x.0));
        }
    }
    assert forall|q: Set<u32>, x: u32| closed_under(q, e.start@, table) && found.contains(x)
        implies e.start@.contains(x) || exists|p: u32|
        #![trigger q.contains(p)]
        q.contains(p) && p <= 0x7fff_ffff && table.contains_key(p) && shown(table[p]).contains(x) by {
        if !e.start@.contains(x) {
            let w = choose|w: (u32, Option<Seq<Option<TaskInfo>>>)|
                e.seen@.contains(w) && shown(w.1).contains(x);
            assert(queued.subset_of(q));
            assert(queued.contains(w.0));
            assert(q.contains(w.0));
        }
    }
}

} // verus!
