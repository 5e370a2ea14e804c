//! The cooperative executor's schedule.
//!
//! The executor decides which task is polled next; polling itself is up to
//! the owner of the tasks. A task is live from `spawn` until `complete`.
//! Waking a live task puts its id at the end of the ready queue unless it is
//! there already, so however often a task is woken before it is polled, it
//! is polled once. Ids of tasks that have completed may linger in the queue;
//! they are skipped when their turn comes. Ids are never used twice.

use std::collections::BTreeMap;
use std::collections::VecDeque;
use vstd::prelude::*;
use crate::task::TaskId;

verus! {

/// The ready queue after task `id` was woken.
pub open spec fn woken(live: Set<u64>, ready: Seq<u64>, id: u64) -> Seq<u64> {
    if live.contains(id) && !ready.contains(id) {
        ready.push(id)
    } else {
        ready
    }
}

/// Number of ids at the front of the ready queue that belong to no live task.
pub open spec fn stale_prefix(live: Set<u64>, ready: Seq<u64>) -> nat
    decreases ready.len(),
{
    if ready.len() == 0 || live.contains(ready[0]) {
        0
    } else {
        1 + stale_prefix(live, ready.subrange(1, ready.len() as int))
    }
}

/// The task to poll next: the first id in the ready queue that is live.
pub open spec fn next_of(live: Set<u64>, ready: Seq<u64>) -> Option<u64> {
    let k = stale_prefix(live, ready);
    if k < ready.len() {
        Some(ready[k as int])
    } else {
        None
    }
}

/// The ready queue after the task to poll next was taken from it, together
/// with the stale ids before it.
pub open spec fn rest_of(live: Set<u64>, ready: Seq<u64>) -> Seq<u64> {
    let k = stale_prefix(live, ready);
    if k < ready.len() {
        ready.subrange(k as int + 1, ready.len() as int)
    } else {
        Seq::empty()
    }
}

/// Every id in use is below `next_id`, no id is queued twice, and a live
/// task is flagged as queued exactly if its id is in the ready queue.
spec fn consistent(tasks: Map<u64, bool>, ready: Seq<u64>, next_id: u64) -> bool {
    &&& forall|id: u64| #[trigger]
        tasks.contains_key(id) ==> id < next_id && (tasks[id] <==> ready.contains(id))
    &&& forall|i: int| 0 <= i < ready.len() ==> #[trigger] ready[i] < next_id
    &&& ready.no_duplicates()
}

struct Schedule {
    /// The live tasks, each with the flag that says whether it is queued.
    tasks: BTreeMap<u64, bool>,
    ready: VecDeque<u64>,
    next_id: u64,
}

/// The schedule of a single-threaded cooperative executor.
pub struct Executor {
    state: Schedule,
}

impl Executor {
    #[verifier::type_invariant]
    spec fn schedule_consistent(self) -> bool {
        consistent(self.state.tasks@, self.state.ready@, self.state.next_id)
    }

    /// The ids of the tasks that were spawned and have not completed.
    pub closed spec fn live(self) -> Set<u64> {
        self.state.tasks@.dom()
    }

    /// The ids waiting to be polled, next first.
    pub closed spec fn ready(self) -> Seq<u64> {
        self.state.ready@
    }

    /// The id that the next task will get.
    pub closed spec fn next_id(self) -> u64 {
        self.state.next_id
    }

    /// An executor without tasks.
    pub fn new() -> (executor: Executor)
        ensures
            executor.live() == Set::<u64>::empty(),
            executor.ready() == Seq::<u64>::empty(),
            executor.next_id() == 0,
            executor.ready().no_duplicates(),
    {
        let executor = Executor {
            state: Schedule { tasks: BTreeMap::new(), ready: VecDeque::new(), next_id: 0 },
        };
        assert(executor.live() =~= Set::<u64>::empty());
        executor
    }

    /// Admits a new task: it gets an id that no task had before, and is
    /// queued to be polled. `None`, and no change, once the ids have run out.
    pub fn spawn(&mut self) -> (id: Option<TaskId>)
        ensures
            final(self).ready().no_duplicates(),
            match id {
                Some(TaskId(id)) => {
                    &&& id == old(self).next_id()
                    &&& !old(self).live().contains(id)
                    &&& !old(self).ready().contains(id)
                    &&& final(self).next_id() == id + 1
                    &&& final(self).live() == old(self).live().insert(id)
                    &&& final(self).ready() == old(self).ready().push(id)
                },
                None => {
                    &&& old(self).next_id() == u64::MAX
                    &&& final(self).next_id() == old(self).next_id()
                    &&& final(self).live() == old(self).live()
                    &&& final(self).ready() == old(self).ready()
                },
            },
    {
        proof {
            use_type_invariant(&*self);
        }
        if self.state.next_id == u64::MAX {
            return None;
        }
        let id: u64 = self.state.next_id;
        let mut state = Schedule { tasks: BTreeMap::new(), ready: VecDeque::new(), next_id: 0 };
        std::mem::swap(&mut self.state, &mut state);
        let ghost tasks = state.tasks@;
        let ghost ready = state.ready@;
        state.tasks.insert(id, true);
        state.ready.push_back(id);
        state.next_id = id + 1;
        proof {
            assert(!ready.contains(id)) by {
                if ready.contains(id) {
                    let i = choose|i: int| 0 <= i < ready.len() && ready[i] == id;
                    assert(ready[i] < id);
                }
            }
            lemma_push_contains(ready, id);
            assert(state.tasks@.dom() =~= tasks.dom().insert(id));
        }
        std::mem::swap(&mut self.state, &mut state);
        proof {
            use_type_invariant(&*self);
        }
        Some(TaskId(id))
    }

    /// Marks task `id` as ready to be polled again. Waking a task that is
    /// queued already, or one that is not live, changes nothing.
    pub fn wake(&mut self, id: TaskId)
        ensures
            final(self).ready().no_duplicates(),
            final(self).live() == old(self).live(),
            final(self).next_id() == old(self).next_id(),
            final(self).ready() == woken(old(self).live(), old(self).ready(), id.0),
    {
        proof {
            use_type_invariant(&*self);
        }
        let queued = match self.state.tasks.get(&id.0) {
            Some(queued) => *queued,
            None => true,
        };
        if queued {
            return ;
        }
        let mut state = Schedule { tasks: BTreeMap::new(), ready: VecDeque::new(), next_id: 0 };
        std::mem::swap(&mut self.state, &mut state);
        let ghost tasks = state.tasks@;
        let ghost ready = state.ready@;
        state.tasks.insert(id.0, true);
        state.ready.push_back(id.0);
        proof {
            lemma_push_contains(ready, id.0);
            assert(state.tasks@.dom() =~= tasks.dom());
        }
        std::mem::swap(&mut self.state, &mut state);
        proof {
            use_type_invariant(&*self);
        }
    }

    /// Takes the next task to poll from the ready queue, skipping the ids of
    /// tasks that have completed. `None` where no live task is ready: the
    /// executor is idle until the next wake.
    pub fn next_ready(&mut self) -> (id: Option<TaskId>)
        ensures
            final(self).ready().no_duplicates(),
            final(self).live() == old(self).live(),
            final(self).next_id() == old(self).next_id(),
            final(self).ready() == rest_of(old(self).live(), old(self).ready()),
            match id {
                Some(TaskId(id)) => next_of(old(self).live(), old(self).ready()) == Some(id),
                None => next_of(old(self).live(), old(self).ready()) is None,
            },
    {
        proof {
            use_type_invariant(&*self);
        }
        let mut state = Schedule { tasks: BTreeMap::new(), ready: VecDeque::new(), next_id: 0 };
        std::mem::swap(&mut self.state, &mut state);
        let ghost live = state.tasks@.dom();
        let ghost start = state.ready@;
        loop
            invariant
                self.state.tasks@ == Map::<u64, bool>::empty(),
                self.state.ready@ == Seq::<u64>::empty(),
                self.state.next_id == 0,
                state.tasks@.dom() == live,
                live == old(self).live(),
                start == old(self).ready(),
                state.next_id == old(self).next_id(),
                consistent(state.tasks@, state.ready@, state.next_id),
                next_of(live, state.ready@) == next_of(live, start),
                rest_of(live, state.ready@) == rest_of(live, start),
            decreases state.ready@.len(),
        {
            let ghost ready = state.ready@;
            match state.ready.pop_front() {
                None => {
                    std::mem::swap(&mut self.state, &mut state);
                    proof {
                        use_type_invariant(&*self);
                    }
                    return None;
                },
                Some(id) => {
                    let ghost rest = ready.subrange(1, ready.len() as int);
                    proof {
                        lemma_rest_contains(ready);
                    }
                    if state.tasks.contains_key(&id) {
                        state.tasks.insert(id, false);
                        proof {
                            assert(state.tasks@.dom() =~= live);
                            assert(rest =~= rest_of(live, ready));
                        }
                        std::mem::swap(&mut self.state, &mut state);
                        proof {
                            use_type_invariant(&*self);
                        }
                        return Some(TaskId(id));
                    }
                    proof {
                        let k = stale_prefix(live, rest);
                        assert(stale_prefix(live, ready) == k + 1);
                        if k < rest.len() {
                            assert(rest.subrange(k as int + 1, rest.len() as int) =~= ready.subrange(
                                k as int + 2,
                                ready.len() as int,
                            ));
                        }
                    }
                },
            }
        }
    }

    /// Removes a task that has run to completion. Its id may still be in the
    /// ready queue, where it no longer counts.
    pub fn complete(&mut self, id: TaskId)
        ensures
            final(self).ready().no_duplicates(),
            final(self).live() == old(self).live().remove(id.0),
            final(self).next_id() == old(self).next_id(),
            final(self).ready() == old(self).ready(),
    {
        proof {
            use_type_invariant(&*self);
        }
        let mut state = Schedule { tasks: BTreeMap::new(), ready: VecDeque::new(), next_id: 0 };
        std::mem::swap(&mut self.state, &mut state);
        let ghost tasks = state.tasks@;
        state.tasks.remove(&id.0);
        proof {
            assert(state.tasks@.dom() =~= tasks.dom().remove(id.0));
        }
        std::mem::swap(&mut self.state, &mut state);
        proof {
            use_type_invariant(&*self);
        }
    }

    /// Whether task `id` was spawned and has not completed.
    pub fn is_live(&self, id: TaskId) -> (live: bool)
        ensures
            live == self.live().contains(id.0),
    {
        self.state.tasks.contains_key(&id.0)
    }

    /// Whether the ready queue is empty.
    pub fn is_idle(&self) -> (idle: bool)
        ensures
            idle == (self.ready().len() == 0),
    {
        self.state.ready.len() == 0
    }
}

/// What a queue holds after a push, and what it holds without its first id.
proof fn lemma_push_contains(ready: Seq<u64>, id: u64)
    ensures
        forall|x: u64| #[trigger] ready.push(id).contains(x) <==> ready.contains(x) || x == id,
        ready.no_duplicates() && !ready.contains(id) ==> ready.push(id).no_duplicates(),
{
    let grown = ready.push(id);
    assert forall|x: u64| #[trigger] grown.contains(x) <==> ready.contains(x) || x == id by {
        if grown.contains(x) {
            let i = choose|i: int| 0 <= i < grown.len() && grown[i] == x;
            if i < ready.len() {
                assert(ready[i] == x);
            }
        }
        if ready.contains(x) {
            let i = choose|i: int| 0 <= i < ready.len() && ready[i] == x;
            assert(grown[i] == x);
        }
        if x == id {
            assert(grown[ready.len() as int] == x);
        }
    }
}

proof fn lemma_rest_contains(ready: Seq<u64>)
    requires
        ready.len() > 0,
        ready.no_duplicates(),
    ensures
        ({
            let rest = ready.subrange(1, ready.len() as int);
            &&& rest.no_duplicates()
            &&& !rest.contains(ready[0])
            &&& forall|x: u64| x != ready[0] ==> (#[trigger] rest.contains(x) <==> ready.contains(x))
        }),
{
    let rest = ready.subrange(1, ready.len() as int);
    if rest.contains(ready[0]) {
        let i = choose|i: int| 0 <= i < rest.len() && rest[i] == ready[0];
        assert(ready[i + 1] == ready[0]);
    }
    assert forall|x: u64| x != ready[0] implies (#[trigger] rest.contains(x) <==> ready.contains(
        x,
    )) by {
        if rest.contains(x) {
            let i = choose|i: int| 0 <= i < rest.len() && rest[i] == x;
            assert(ready[i + 1] == x);
        }
        if ready.contains(x) {
            let i = choose|i: int| 0 <= i < ready.len() && ready[i] == x;
            assert(rest[i - 1] == x);
        }
    }
}

/// Waking a task twice is the same as waking it once.
pub proof fn lemma_wake_idempotent(live: Set<u64>, ready: Seq<u64>, id: u64)
    ensures
        woken(live, woken(live, ready, id), id) == woken(live, ready, id),
{
    if live.contains(id) && !ready.contains(id) {
        assert(ready.push(id)[ready.len() as int] == id);
    }
}

/// Waking a task that is not live changes nothing.
pub proof fn lemma_stale_wake_ignored(live: Set<u64>, ready: Seq<u64>, id: u64)
    requires
        !live.contains(id),
    ensures
        woken(live, ready, id) == ready,
{
}

/// Where nothing else is ready, a task that is woken once is polled once:
/// it is the next task, and after it there is none.
pub proof fn lemma_woken_once_polled_once(live: Set<u64>, ready: Seq<u64>, id: u64)
    requires
        live.contains(id),
        forall|i: int| 0 <= i < ready.len() ==> !live.contains(#[trigger] ready[i]),
    ensures
        next_of(live, woken(live, ready, id)) == Some(id),
        rest_of(live, woken(live, ready, id)) == Seq::<u64>::empty(),
        next_of(live, rest_of(live, woken(live, ready, id))) is None,
{
    assert(!ready.contains(id)) by {
        if ready.contains(id) {
            let i = choose|i: int| 0 <= i < ready.len() && ready[i] == id;
            assert(!live.contains(ready[i]));
        }
    }
    lemma_stale_then_live(live, ready, id);
    let queue = ready.push(id);
    assert(queue.subrange(ready.len() as int + 1, queue.len() as int) =~= Seq::<u64>::empty());
}

proof fn lemma_stale_then_live(live: Set<u64>, ready: Seq<u64>, id: u64)
    requires
        live.contains(id),
        forall|i: int| 0 <= i < ready.len() ==> !live.contains(#[trigger] ready[i]),
    ensures
        stale_prefix(live, ready.push(id)) == ready.len(),
    decreases ready.len(),
{
    let queue = ready.push(id);
    if ready.len() > 0 {
        let rest = ready.subrange(1, ready.len() as int);
        assert(queue[0] == ready[0]);
        assert forall|i: int| 0 <= i < rest.len() implies !live.contains(#[trigger] rest[i]) by {
            assert(rest[i] == ready[i + 1]);
        }
        lemma_stale_then_live(live, rest, id);
        assert(queue.subrange(1, queue.len() as int) =~= rest.push(id));
    } else {
        assert(queue[0] == id);
    }
}

} // verus!
