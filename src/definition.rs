use vstd::prelude::*;
use vstd::set_lib::*;
use vstd::string::*;

use std::collections::HashMap;

use crate::error::JobsDomainError;
use crate::ids::TaskType;

verus! {

/// Root job definition.
#[derive(Debug, Clone)]
pub struct JobDefinition {
    /// Schema version of the definition format.
    pub v: u32,
    /// Human-readable name.
    pub name: String,
    /// Slug used in subject and key construction.
    pub job_type: String,
    /// Tasks of the job; the DAG is given by `depends_on`.
    pub tasks: Vec<TaskDefinition>,
}

/// One task within a job definition.
#[derive(Debug, Clone)]
pub struct TaskDefinition {
    /// Unique name within the job.
    pub name: String,
    /// Which worker pool handles the task.
    pub task_type: TaskType,
    /// Names of the tasks that must complete before this one starts.
    pub depends_on: Vec<String>,
    /// Static parameters passed to the worker.
    pub params: TaskParams,
    /// Per-task timeout override in seconds.
    pub timeout_secs: Option<u64>,
    /// Per-task retry limit override.
    pub max_retries: Option<u32>,
}

/// Parameter map with string keys and string values.
#[derive(Debug, Clone)]
pub struct TaskParams {
    pub entries: HashMap<String, String>,
}

impl Default for TaskParams {
    fn default() -> (r: Self)
        ensures
            r.entries@ == Map::<String, String>::empty(),
    {
        TaskParams { entries: HashMap::new() }
    }
}

/// Task `t` names task `d` among its dependencies.
pub open spec fn depends(tasks: Seq<TaskDefinition>, t: int, d: int) -> bool {
    exists|k: int|
        0 <= k < tasks[t].depends_on@.len() && (#[trigger] tasks[t].depends_on@[k])@ == tasks[d].name@
}

pub open spec fn names_unique(tasks: Seq<TaskDefinition>) -> bool {
    forall|i: int, j: int|
        0 <= i < tasks.len() && 0 <= j < tasks.len() && i != j ==> (#[trigger] tasks[i]).name@
            != (#[trigger] tasks[j]).name@
}

/// Some task of the job carries this name.
pub open spec fn names_task(tasks: Seq<TaskDefinition>, name: Seq<char>) -> bool {
    exists|j: int| 0 <= j < tasks.len() && (#[trigger] tasks[j]).name@ == name
}

/// Every dependency entry names a task of the job.
pub open spec fn deps_known(tasks: Seq<TaskDefinition>) -> bool {
    forall|t: int, k: int|
        0 <= t < tasks.len() && 0 <= k < tasks[t].depends_on@.len() ==> names_task(
            tasks,
            (#[trigger] tasks[t].depends_on@[k])@,
        )
}

/// Index `i` occurs in `o`.
pub open spec fn lists(o: Seq<usize>, i: int) -> bool {
    exists|a: int| 0 <= a < o.len() && o[a] as int == i
}

/// `o` lists every task index exactly once, each after all of its dependencies.
pub open spec fn is_topological_order(tasks: Seq<TaskDefinition>, o: Seq<usize>) -> bool {
    &&& forall|a: int| 0 <= a < o.len() ==> (#[trigger] o[a] as int) < tasks.len()
    &&& forall|a: int, b: int|
        0 <= a < o.len() && 0 <= b < o.len() && a != b ==> #[trigger] o[a] != #[trigger] o[b]
    &&& forall|i: int| 0 <= i < tasks.len() ==> #[trigger] lists(o, i)
    &&& forall|a: int, b: int|
        0 <= a < o.len() && 0 <= b < o.len() && #[trigger] depends(tasks, o[b] as int, o[a] as int)
            ==> a < b
}

/// The dependency graph has no cycle: some topological order exists.
pub open spec fn acyclic(tasks: Seq<TaskDefinition>) -> bool {
    exists|o: Seq<usize>| is_topological_order(tasks, o)
}

/// A job that validation accepts.
pub open spec fn well_formed(tasks: Seq<TaskDefinition>) -> bool {
    &&& tasks.len() > 0
    &&& names_unique(tasks)
    &&& deps_known(tasks)
    &&& acyclic(tasks)
}

/// Dependency `k` of task `t` names no task of the job.
pub open spec fn dep_unknown(tasks: Seq<TaskDefinition>, t: int, k: int) -> bool {
    !names_task(tasks, tasks[t].depends_on@[k]@)
}

/// Task `t` has an unknown dependency or depends on itself.
pub open spec fn task_bad(tasks: Seq<TaskDefinition>, t: int) -> bool {
    (exists|k: int| 0 <= k < tasks[t].depends_on@.len() && #[trigger] dep_unknown(tasks, t, k)) || depends(tasks, t, t)
}

/// Task `t` is the first task, in insertion order, that is bad.
pub open spec fn first_bad(tasks: Seq<TaskDefinition>, t: int) -> bool {
    &&& 0 <= t < tasks.len()
    &&& task_bad(tasks, t)
    &&& forall|u: int| 0 <= u < t ==> !#[trigger] task_bad(tasks, u)
}

/// What the error of a rejected job says of it.
pub open spec fn validation_error(tasks: Seq<TaskDefinition>, e: JobsDomainError) -> bool {
    &&& (e is ValidationFailed || e is UnknownDependency || e is CyclicDependency)
    &&& (e is ValidationFailed <==> (tasks.len() == 0 || !names_unique(tasks)))
    &&& (e matches JobsDomainError::UnknownDependency { task, dependency } ==> {
        &&& tasks.len() > 0
        &&& names_unique(tasks)
        &&& !names_task(tasks, dependency@)
        &&& exists|t: int, k: int|
            #![trigger tasks[t].depends_on@[k]]
            {
                &&& first_bad(tasks, t)
                &&& 0 <= k < tasks[t].depends_on@.len()
                &&& task@ == tasks[t].name@
                &&& dependency@ == tasks[t].depends_on@[k]@
                &&& forall|j: int| 0 <= j < k ==> !#[trigger] dep_unknown(tasks, t, j)
            }
    })
    &&& (e is CyclicDependency && !deps_known(tasks) ==> exists|t: int|
        {
            &&& #[trigger] first_bad(tasks, t)
            &&& depends(tasks, t, t)
            &&& forall|k: int| 0 <= k < tasks[t].depends_on@.len() ==> !#[trigger] dep_unknown(tasks, t, k)
        })
    &&& (e is CyclicDependency ==> tasks.len() > 0 && names_unique(tasks) && !acyclic(tasks))
    &&& (tasks.len() > 0 && names_unique(tasks) && !deps_known(tasks) && acyclic(tasks)
        ==> e is UnknownDependency)
}

/// Names of the tasks without dependencies, in insertion order.
pub open spec fn root_names(tasks: Seq<TaskDefinition>) -> Seq<Seq<char>>
    decreases tasks.len(),
{
    if tasks.len() == 0 {
        Seq::empty()
    } else {
        let prev = root_names(tasks.drop_last());
        if tasks.last().depends_on@.len() == 0 {
            prev.push(tasks.last().name@)
        } else {
            prev
        }
    }
}

/// A task that depends on itself admits no topological order.
proof fn lemma_self_dependency_cyclic(tasks: Seq<TaskDefinition>, t: int)
    requires
        0 <= t < tasks.len(),
        depends(tasks, t, t),
    ensures
        !acyclic(tasks),
{
    if acyclic(tasks) {
        let o = choose|o: Seq<usize>| is_topological_order(tasks, o);
        assert(lists(o, t));
        let a = choose|a: int| 0 <= a < o.len() && o[a] as int == t;
        assert(depends(tasks, o[a] as int, o[a] as int));
    }
}

proof fn lemma_order_prefix_done(tasks: Seq<TaskDefinition>, done: Seq<bool>, o: Seq<usize>, k: int)
    requires
        done.len() == tasks.len(),
        is_topological_order(tasks, o),
        0 <= k <= o.len(),
        forall|y: int|
            0 <= y < tasks.len() && !done[y] ==> exists|d: int|
                0 <= d < tasks.len() && #[trigger] depends(tasks, y, d) && !done[d],
    ensures
        forall|a: int| 0 <= a < k ==> done[#[trigger] o[a] as int],
    decreases k,
{
    if k > 0 {
        lemma_order_prefix_done(tasks, done, o, k - 1);
        let y = o[k - 1] as int;
        if !done[y] {
            let d = choose|d: int| 0 <= d < tasks.len() && #[trigger] depends(tasks, y, d) && !done[d];
            assert(lists(o, d));
            let b = choose|b: int| 0 <= b < o.len() && o[b] as int == d;
            assert(depends(tasks, o[k - 1] as int, o[b] as int));
            assert(done[o[b] as int]);
        }
    }
}

/// If every unfinished task waits on an unfinished task, and some task is
/// unfinished, the graph has a cycle.
proof fn lemma_blocked_not_acyclic(tasks: Seq<TaskDefinition>, done: Seq<bool>, x: int)
    requires
        done.len() == tasks.len(),
        0 <= x < tasks.len(),
        !done[x],
        forall|y: int|
            0 <= y < tasks.len() && !done[y] ==> exists|d: int|
                0 <= d < tasks.len() && #[trigger] depends(tasks, y, d) && !done[d],
    ensures
        !acyclic(tasks),
{
    if acyclic(tasks) {
        let o = choose|o: Seq<usize>| is_topological_order(tasks, o);
        lemma_order_prefix_done(tasks, done, o, o.len() as int);
        assert(lists(o, x));
        let a = choose|a: int| 0 <= a < o.len() && o[a] as int == x;
        assert(done[o[a] as int]);
    }
}

/// A duplicate-free sequence of indices below `n` that misses `t < n` is shorter than `n`.
proof fn lemma_distinct_below(q: Seq<usize>, n: int, t: usize)
    requires
        forall|a: int| 0 <= a < q.len() ==> (#[trigger] q[a] as int) < n,
        forall|a: int, b: int|
            0 <= a < q.len() && 0 <= b < q.len() && a != b ==> #[trigger] q[a] != #[trigger] q[b],
        (t as int) < n,
        !lists(q, t as int),
    ensures
        q.len() < n,
{
    let qi = q.map_values(|x: usize| x as int);
    assert(qi.no_duplicates()) by {
        assert forall|a: int, b: int| 0 <= a < qi.len() && 0 <= b < qi.len() && a != b implies qi[a]
            != qi[b] by {
            assert(q[a] != q[b]);
        }
    }
    qi.unique_seq_to_set();
    lemma_int_range(0, n);
    let r = set_int_range(0, n).remove(t as int);
    assert(qi.to_set().subset_of(r)) by {
        assert forall|x: int| qi.to_set().contains(x) implies r.contains(x) by {
            let a = choose|a: int| 0 <= a < qi.len() && qi[a] == x;
            assert(q[a] as int == x);
            if x == t as int {
                assert(lists(q, t as int));
            }
        }
    }
    lemma_len_subset(qi.to_set(), r);
}

/// Index of the task with this name.
fn index_of(tasks: &Vec<TaskDefinition>, name: &String) -> (j: usize)
    requires
        names_task(tasks@, name@),
    ensures
        j < tasks@.len(),
        tasks@[j as int].name@ == name@,
{
    let mut j: usize = 0;
    while j < tasks.len()
        invariant
            names_task(tasks@, name@),
            0 <= j <= tasks@.len(),
            forall|i: int| 0 <= i < j ==> (#[trigger] tasks@[i]).name@ != name@,
        decreases tasks@.len() - j,
    {
        if tasks[j].name == *name {
            return j;
        }
        j += 1;
    }
    proof {
        let i = choose|i: int| 0 <= i < tasks@.len() && (#[trigger] tasks@[i]).name@ == name@;
        assert(tasks@[i].name@ != name@);
    }
    0
}

/// Whether some task carries this name.
fn has_task(tasks: &Vec<TaskDefinition>, name: &String) -> (r: bool)
    ensures
        r == names_task(tasks@, name@),
{
    let mut j: usize = 0;
    while j < tasks.len()
        invariant
            0 <= j <= tasks@.len(),
            forall|i: int| 0 <= i < j ==> (#[trigger] tasks@[i]).name@ != name@,
        decreases tasks@.len() - j,
    {
        if tasks[j].name == *name {
            return true;
        }
        j += 1;
    }
    false
}

/// Whether task `t` lists task `d` among its dependencies.
fn has_dep(tasks: &Vec<TaskDefinition>, t: usize, d: usize) -> (r: bool)
    requires
        t < tasks@.len(),
        d < tasks@.len(),
    ensures
        r == depends(tasks@, t as int, d as int),
{
    let deps = &tasks[t].depends_on;
    let mut k: usize = 0;
    while k < deps.len()
        invariant
            deps == tasks@[t as int].depends_on,
            d < tasks@.len(),
            0 <= k <= deps@.len(),
            forall|i: int| 0 <= i < k ==> (#[trigger] deps@[i])@ != tasks@[d as int].name@,
        decreases deps@.len() - k,
    {
        if deps[k] == tasks[d].name {
            return true;
        }
        k += 1;
    }
    false
}

/// Whether every dependency of task `t` is marked done.
fn deps_done(tasks: &Vec<TaskDefinition>, t: usize, done: &Vec<bool>) -> (r: bool)
    requires
        t < tasks@.len(),
        done@.len() == tasks@.len(),
        names_unique(tasks@),
        deps_known(tasks@),
    ensures
        r == (forall|d: int| 0 <= d < tasks@.len() && #[trigger] depends(tasks@, t as int, d) ==> done@[d]),
{
    let deps = &tasks[t].depends_on;
    let mut k: usize = 0;
    while k < deps.len()
        invariant
            deps == tasks@[t as int].depends_on,
            t < tasks@.len(),
            done@.len() == tasks@.len(),
            names_unique(tasks@),
            deps_known(tasks@),
            0 <= k <= deps@.len(),
            forall|i: int, d: int|
                0 <= i < k && 0 <= d < tasks@.len() && (#[trigger] deps@[i])@ == (#[trigger] tasks@[d]).name@
                    ==> done@[d],
        decreases deps@.len() - k,
    {
        assert(names_task(tasks@, deps@[k as int]@));
        let j = index_of(tasks, &deps[k]);
        if !done[j] {
            assert(depends(tasks@, t as int, j as int));
            return false;
        }
        assert forall|i: int, d: int|
            0 <= i < k + 1 && 0 <= d < tasks@.len() && (#[trigger] deps@[i])@ == (#[trigger] tasks@[d]).name@
                implies done@[d] by {
            if i == k as int && d != j as int {
                assert(tasks@[d].name@ != tasks@[j as int].name@);
            }
        }
        k += 1;
    }
    assert forall|d: int| 0 <= d < tasks@.len() && #[trigger] depends(tasks@, t as int, d) implies done@[d] by {
        let i = choose|i: int| 0 <= i < deps@.len() && (#[trigger] deps@[i])@ == tasks@[d].name@;
    }
    true
}

/// The invariant of the traversal: `q` is the queue of released tasks, of
/// which the first `head` are done; each released task comes after its
/// dependencies.
spec fn traversal_inv(
    tasks: Seq<TaskDefinition>,
    q: Seq<usize>,
    queued: Seq<bool>,
    done: Seq<bool>,
    head: int,
) -> bool {
    &&& queued.len() == tasks.len()
    &&& done.len() == tasks.len()
    &&& 0 <= head <= q.len() <= tasks.len()
    &&& forall|a: int| 0 <= a < q.len() ==> (#[trigger] q[a] as int) < tasks.len()
    &&& forall|a: int, b: int|
        0 <= a < q.len() && 0 <= b < q.len() && a != b ==> #[trigger] q[a] != #[trigger] q[b]
    &&& forall|x: int| 0 <= x < tasks.len() ==> (#[trigger] queued[x] <==> lists(q, x))
    &&& forall|x: int|
        0 <= x < tasks.len() ==> (#[trigger] done[x] <==> exists|a: int| 0 <= a < head && q[a] as int == x)
    &&& forall|a: int, d: int|
        0 <= a < q.len() && 0 <= d < tasks.len() && #[trigger] depends(tasks, q[a] as int, d) ==> exists|b: int|
            0 <= b < a && #[trigger] q[b] as int == d
}

/// Kahn's traversal: roots first, ties in insertion order. `Some` holds a
/// topological order; `None` means the graph has a cycle.
fn traverse(tasks: &Vec<TaskDefinition>) -> (r: Option<Vec<usize>>)
    requires
        names_unique(tasks@),
        deps_known(tasks@),
    ensures
        r matches Some(o) ==> is_topological_order(tasks@, o@),
        r is None ==> !acyclic(tasks@),
{
    let n = tasks.len();
    let mut queued: Vec<bool> = Vec::new();
    let mut done: Vec<bool> = Vec::new();
    let mut i: usize = 0;
    while i < n
        invariant
            n == tasks@.len(),
            0 <= i <= n,
            queued@.len() == i,
            done@.len() == i,
            forall|x: int| 0 <= x < i ==> !(#[trigger] queued@[x]),
            forall|x: int| 0 <= x < i ==> !(#[trigger] done@[x]),
        decreases n - i,
    {
        queued.push(false);
        done.push(false);
        i += 1;
    }
    let mut q: Vec<usize> = Vec::new();
    i = 0;
    while i < n
        invariant
            n == tasks@.len(),
            0 <= i <= n,
            queued@.len() == n,
            done@.len() == n,
            q@.len() <= i,
            forall|a: int| 0 <= a < q@.len() ==> (#[trigger] q@[a] as int) < i,
            forall|a: int| 0 <= a < q@.len() ==> tasks@[#[trigger] q@[a] as int].depends_on@.len() == 0,
            forall|a: int, b: int|
                0 <= a < q@.len() && 0 <= b < q@.len() && a != b ==> #[trigger] q@[a] != #[trigger] q@[b],
            forall|x: int| 0 <= x < n ==> (#[trigger] queued@[x] <==> lists(q@, x)),
            forall|x: int| 0 <= x < n ==> !(#[trigger] done@[x]),
            forall|x: int| 0 <= x < i ==> #[trigger] queued@[x] || tasks@[x].depends_on@.len() > 0,
        decreases n - i,
    {
        if tasks[i].depends_on.len() == 0 {
            proof {
                assert(!lists(q@, i as int)) by {
                    if lists(q@, i as int) {
                        let a = choose|a: int| 0 <= a < q@.len() && q@[a] as int == i as int;
                    }
                }
            }
            let ghost old_q = q@;
            q.push(i);
            queued.set(i, true);
            proof {
                assert forall|x: int| 0 <= x < n implies (#[trigger] queued@[x] <==> lists(q@, x)) by {
                    if x != i as int {
                        if lists(q@, x) {
                            let a = choose|a: int| 0 <= a < q@.len() && q@[a] as int == x;
                            assert(old_q[a] as int == x);
                        }
                        if lists(old_q, x) {
                            let a = choose|a: int| 0 <= a < old_q.len() && old_q[a] as int == x;
                            assert(q@[a] as int == x);
                        }
                    } else {
                        assert(q@[q@.len() - 1] == i);
                    }
                }
            }
        }
        i += 1;
    }
    let mut head: usize = 0;
    proof {
        assert forall|a: int, d: int|
            0 <= a < q@.len() && 0 <= d < n && #[trigger] depends(tasks@, q@[a] as int, d) implies exists|b: int|
                0 <= b < a && #[trigger] q@[b] as int == d by {
            let k = choose|k: int|
                0 <= k < tasks@[q@[a] as int].depends_on@.len() && (#[trigger] tasks@[q@[a] as int].depends_on@[k])@
                    == tasks@[d].name@;
        }
        assert forall|x: int| 0 <= x < n && !(#[trigger] queued@[x]) implies exists|d: int|
            0 <= d < n && #[trigger] depends(tasks@, x, d) && !done@[d] by {
            assert(names_task(tasks@, tasks@[x].depends_on@[0]@));
            let d = choose|d: int| 0 <= d < n && (#[trigger] tasks@[d]).name@ == tasks@[x].depends_on@[0]@;
            assert(depends(tasks@, x, d));
        }
    }
    while head < q.len()
        invariant
            n == tasks@.len(),
            names_unique(tasks@),
            deps_known(tasks@),
            traversal_inv(tasks@, q@, queued@, done@, head as int),
            forall|x: int| 0 <= x < n && !(#[trigger] queued@[x]) ==> exists|d: int|
                0 <= d < n && #[trigger] depends(tasks@, x, d) && !done@[d],
        decreases n - head,
    {
        let node = q[head];
        let ghost old_done = done@;
        done.set(node, true);
        head += 1;
        assert(traversal_inv(tasks@, q@, queued@, done@, head as int)) by {
            assert forall|x: int| 0 <= x < n implies (#[trigger] done@[x] <==> exists|a: int|
                0 <= a < head && q@[a] as int == x) by {
                if x == node as int {
                    assert(q@[head - 1] == node);
                } else if exists|a: int| 0 <= a < head && q@[a] as int == x {
                    let a = choose|a: int| 0 <= a < head && q@[a] as int == x;
                    assert(a != head - 1);
                }
            }
        }
        let mut t: usize = 0;
        while t < n
            invariant
                n == tasks@.len(),
                names_unique(tasks@),
                deps_known(tasks@),
                0 <= t <= n,
                (node as int) < n,
                done@[node as int],
                traversal_inv(tasks@, q@, queued@, done@, head as int),
                forall|x: int| 0 <= x < t && !(#[trigger] queued@[x]) ==> exists|d: int|
                    0 <= d < n && #[trigger] depends(tasks@, x, d) && !done@[d],
                forall|x: int| t <= x < n && !(#[trigger] queued@[x]) ==> depends(tasks@, x, node as int)
                    || exists|d: int| 0 <= d < n && #[trigger] depends(tasks@, x, d) && !done@[d],
            decreases n - t,
        {
            if !queued[t] && has_dep(tasks, t, node) && deps_done(tasks, t, &done) {
                proof {
                    assert(!lists(q@, t as int));
                    lemma_distinct_below(q@, n as int, t);
                }
                let ghost old_q = q@;
                q.push(t);
                queued.set(t, true);
                proof {
                    assert forall|x: int| 0 <= x < n implies (#[trigger] queued@[x] <==> lists(q@, x)) by {
                        if x != t as int {
                            if lists(q@, x) {
                                let a = choose|a: int| 0 <= a < q@.len() && q@[a] as int == x;
                                assert(old_q[a] as int == x);
                            }
                            if lists(old_q, x) {
                                let a = choose|a: int| 0 <= a < old_q.len() && old_q[a] as int == x;
                                assert(q@[a] as int == x);
                            }
                        } else {
                            assert(q@[q@.len() - 1] == t);
                        }
                    }
                    assert forall|x: int| 0 <= x < n implies (#[trigger] done@[x] <==> exists|a: int|
                        0 <= a < head && q@[a] as int == x) by {
                        if done@[x] {
                            let a = choose|a: int| 0 <= a < head && old_q[a] as int == x;
                            assert(q@[a] as int == x);
                        }
                        if exists|a: int| 0 <= a < head && q@[a] as int == x {
                            let a = choose|a: int| 0 <= a < head && q@[a] as int == x;
                            assert(old_q[a] as int == x);
                        }
                    }
                    assert forall|a: int, d: int|
                        0 <= a < q@.len() && 0 <= d < n && #[trigger] depends(tasks@, q@[a] as int, d) implies exists|b: int|
                            0 <= b < a && #[trigger] q@[b] as int == d by {
                        if a == q@.len() - 1 {
                            assert(done@[d]);
                            let b = choose|b: int| 0 <= b < head && old_q[b] as int == d;
                            assert(q@[b] as int == d);
                        } else {
                            assert(old_q[a] == q@[a]);
                            let b = choose|b: int| 0 <= b < a && #[trigger] old_q[b] as int == d;
                            assert(q@[b] as int == d);
                        }
                    }
                    assert forall|a: int, b: int|
                        0 <= a < q@.len() && 0 <= b < q@.len() && a != b implies #[trigger] q@[a] != #[trigger] q@[b] by {
                        if a == q@.len() - 1 && b < q@.len() - 1 {
                            assert(old_q[b] as int != t as int);
                        } else if b == q@.len() - 1 && a < q@.len() - 1 {
                            assert(old_q[a] as int != t as int);
                        }
                    }
                }
            }
            t += 1;
        }
    }
    let mut x: usize = 0;
    while x < n
        invariant
            n == tasks@.len(),
            head == q@.len(),
            traversal_inv(tasks@, q@, queued@, done@, head as int),
            forall|y: int| 0 <= y < n && !(#[trigger] queued@[y]) ==> exists|d: int|
                0 <= d < n && #[trigger] depends(tasks@, y, d) && !done@[d],
            0 <= x <= n,
            forall|y: int| 0 <= y < x ==> #[trigger] done@[y],
        decreases n - x,
    {
        if !done[x] {
            proof {
                assert forall|y: int| 0 <= y < n && !done@[y] implies exists|d: int|
                    0 <= d < n && #[trigger] depends(tasks@, y, d) && !done@[d] by {
                    if queued@[y] {
                        let a = choose|a: int| 0 <= a < q@.len() && q@[a] as int == y;
                        assert(done@[y]);
                    }
                }
                lemma_blocked_not_acyclic(tasks@, done@, x as int);
            }
            return None;
        }
        x += 1;
    }
    proof {
        assert forall|i: int| 0 <= i < n implies #[trigger] lists(q@, i) by {
            assert(done@[i]);
            let a = choose|a: int| 0 <= a < head && q@[a] as int == i;
        }
        assert forall|a: int, b: int|
            0 <= a < q@.len() && 0 <= b < q@.len() && #[trigger] depends(tasks@, q@[b] as int, q@[a] as int)
                implies a < b by {
            let c = choose|c: int| 0 <= c < b && #[trigger] q@[c] == q@[a];
        }
    }
    Some(q)
}

impl JobDefinition {
    /// Checks, in this order: at least one task; unique names; then, task by
    /// task, that every dependency is known and that the task does not depend
    /// on itself; finally that the graph has no cycle. On success returns a
    /// topological order of the task indices, roots first.
    fn checked_order(&self) -> (r: Result<Vec<usize>, JobsDomainError>)
        ensures
            r is Ok <==> well_formed(self.tasks@),
            r matches Ok(o) ==> is_topological_order(self.tasks@, o@),
            r matches Err(e) ==> validation_error(self.tasks@, e),
    {
        let tasks = &self.tasks;
        let n = tasks.len();
        if n == 0 {
            return Err(JobsDomainError::ValidationFailed("job must have at least one task".to_string()));
        }
        let mut i: usize = 0;
        while i < n
            invariant
                n == tasks@.len(),
                tasks@ == self.tasks@,
                0 <= i <= n,
                forall|a: int, b: int|
                    0 <= a < i && 0 <= b < i && a != b ==> (#[trigger] tasks@[a]).name@
                        != (#[trigger] tasks@[b]).name@,
            decreases n - i,
        {
            let mut j: usize = 0;
            while j < i
                invariant
                    n == tasks@.len(),
                    tasks@ == self.tasks@,
                tasks@ == self.tasks@,
                    0 <= j <= i < n,
                    forall|a: int, b: int|
                        0 <= a < i && 0 <= b < i && a != b ==> (#[trigger] tasks@[a]).name@
                            != (#[trigger] tasks@[b]).name@,
                    forall|b: int| 0 <= b < j ==> (#[trigger] tasks@[b]).name@ != tasks@[i as int].name@,
                decreases i - j,
            {
                if tasks[j].name == tasks[i].name {
                    let mut msg = String::from_str("duplicate task name: ");
                    msg.append(tasks[i].name.as_str());
                    assert(!names_unique(tasks@)) by {
                        assert(tasks@[j as int].name@ == tasks@[i as int].name@);
                    }
                    return Err(JobsDomainError::ValidationFailed(msg));
                }
                j += 1;
            }
            i += 1;
        }
        let mut t: usize = 0;
        while t < n
            invariant
                n == tasks@.len(),
                tasks@ == self.tasks@,
                n > 0,
                names_unique(tasks@),
                0 <= t <= n,
                forall|u: int, k: int|
                    0 <= u < t && 0 <= k < tasks@[u].depends_on@.len() ==> names_task(
                        tasks@,
                        (#[trigger] tasks@[u].depends_on@[k])@,
                    ),
                forall|u: int| 0 <= u < t ==> !#[trigger] task_bad(tasks@, u),
            decreases n - t,
        {
            let deps = &tasks[t].depends_on;
            let mut k: usize = 0;
            while k < deps.len()
                invariant
                    n == tasks@.len(),
                    tasks@ == self.tasks@,
                tasks@ == self.tasks@,
                    n > 0,
                    names_unique(tasks@),
                    0 <= t < n,
                    deps == tasks@[t as int].depends_on,
                    0 <= k <= deps@.len(),
                    forall|u: int, k2: int|
                        0 <= u < t && 0 <= k2 < tasks@[u].depends_on@.len() ==> names_task(
                            tasks@,
                            (#[trigger] tasks@[u].depends_on@[k2])@,
                        ),
                    forall|k2: int| 0 <= k2 < k ==> names_task(tasks@, (#[trigger] deps@[k2])@),
                    forall|u: int| 0 <= u < t ==> !#[trigger] task_bad(tasks@, u),
                decreases deps@.len() - k,
            {
                if !has_task(tasks, &deps[k]) {
                    let task = tasks[t].name.clone();
                    let dependency = deps[k].clone();
                    proof {
                        assert(dep_unknown(tasks@, t as int, k as int));
                        assert(task_bad(tasks@, t as int));
                        assert(first_bad(tasks@, t as int));
                        assert forall|j: int| 0 <= j < k implies !#[trigger] dep_unknown(tasks@, t as int, j) by {
                            assert(names_task(tasks@, deps@[j]@));
                        }
                        if acyclic(tasks@) {
                            assert(!deps_known(tasks@));
                        }
                    }
                    return Err(JobsDomainError::UnknownDependency { task, dependency });
                }
                k += 1;
            }
            proof {
                assert forall|k2: int| 0 <= k2 < tasks@[t as int].depends_on@.len() implies !#[trigger] dep_unknown(
                    tasks@,
                    t as int,
                    k2,
                ) by {
                    assert(names_task(tasks@, deps@[k2]@));
                }
            }
            if has_dep(tasks, t, t) {
                proof {
                    lemma_self_dependency_cyclic(tasks@, t as int);
                    assert(first_bad(tasks@, t as int));
                }
                return Err(JobsDomainError::CyclicDependency);
            }
            t += 1;
        }
        match traverse(tasks) {
            Some(o) => Ok(o),
            None => Err(JobsDomainError::CyclicDependency),
        }
    }

    /// Validates the DAG: at least one task, unique names, every dependency
    /// known, no cycles (a self-dependency is a cycle).
    pub fn validate(&self) -> (r: Result<(), JobsDomainError>)
        ensures
            r is Ok <==> well_formed(self.tasks@),
            r matches Err(e) ==> validation_error(self.tasks@, e),
    {
        match self.checked_order() {
            Ok(_) => Ok(()),
            Err(e) => Err(e),
        }
    }

    /// Task names in topological order, roots first; ties in insertion order.
    pub fn topological_order(&self) -> (r: Result<Vec<&str>, JobsDomainError>)
        ensures
            r is Ok <==> well_formed(self.tasks@),
            r matches Ok(names) ==> exists|o: Seq<usize>|
                {
                    &&& is_topological_order(self.tasks@, o)
                    &&& names@.len() == o.len()
                    &&& forall|a: int| 0 <= a < o.len() ==> (#[trigger] names@[a])@ == self.tasks@[o[a] as int].name@
                },
            r matches Err(e) ==> validation_error(self.tasks@, e),
    {
        let o = match self.checked_order() {
            Ok(o) => o,
            Err(e) => {
                return Err(e);
            },
        };
        let mut names: Vec<&str> = Vec::new();
        let mut a: usize = 0;
        while a < o.len()
            invariant
                is_topological_order(self.tasks@, o@),
                0 <= a <= o@.len(),
                names@.len() == a,
                forall|b: int| 0 <= b < a ==> (#[trigger] names@[b])@ == self.tasks@[o@[b] as int].name@,
            decreases o@.len() - a,
        {
            assert((o@[a as int] as int) < self.tasks@.len());
            names.push(self.tasks[o[a]].name.as_str());
            a += 1;
        }
        Ok(names)
    }

    /// Names of the tasks without dependencies, in insertion order.
    pub fn roots(&self) -> (r: Vec<&str>)
        ensures
            r@.len() == root_names(self.tasks@).len(),
            forall|a: int| 0 <= a < r@.len() ==> (#[trigger] r@[a])@ == root_names(self.tasks@)[a],
    {
        let mut out: Vec<&str> = Vec::new();
        let mut i: usize = 0;
        while i < self.tasks.len()
            invariant
                0 <= i <= self.tasks@.len(),
                out@.len() == root_names(self.tasks@.subrange(0, i as int)).len(),
                forall|a: int| 0 <= a < out@.len() ==> (#[trigger] out@[a])@ == root_names(
                    self.tasks@.subrange(0, i as int),
                )[a],
            decreases self.tasks@.len() - i,
        {
            assert(self.tasks@.subrange(0, i + 1).drop_last() =~= self.tasks@.subrange(0, i as int));
            if self.tasks[i].depends_on.len() == 0 {
                out.push(self.tasks[i].name.as_str());
            }
            i += 1;
        }
        assert(self.tasks@.subrange(0, self.tasks@.len() as int) =~= self.tasks@);
        out
    }
}

/// Validation is deterministic: equal task lists give the same verdict.
pub proof fn lemma_validation_deterministic(a: Seq<TaskDefinition>, b: Seq<TaskDefinition>)
    requires
        a == b,
    ensures
        well_formed(a) == well_formed(b),
{
}

} // verus!
