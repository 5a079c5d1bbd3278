//! The table of tasks and the queue of those ready to run.
use vstd::prelude::*;
use super::task::Task;

verus! {

pub struct TaskManager {
    pub tasks: Vec<Task>,
    /// Pids of the tasks ready to run, first to run first.
    pub ready_queue: Vec<i32>,
}

/// The position of the first task with id `pid`.
pub open spec fn index_of(tasks: Seq<Task>, pid: i32) -> Option<int>
    decreases tasks.len(),
{
    if tasks.len() == 0 {
        None
    } else {
        match index_of(tasks.drop_last(), pid) {
            Some(i) => Some(i),
            None => if tasks.last().pid == pid { Some(tasks.len() - 1) } else { None },
        }
    }
}

pub proof fn lemma_index_of(tasks: Seq<Task>, pid: i32)
    ensures
        index_of(tasks, pid) matches Some(i) ==> 0 <= i < tasks.len() && tasks[i].pid == pid
            && forall|j: int| 0 <= j < i ==> #[trigger] tasks[j].pid != pid,
        index_of(tasks, pid).is_none() ==> forall|j: int| 0 <= j < tasks.len() ==> #[trigger] tasks[j].pid != pid,
    decreases tasks.len(),
{
    if tasks.len() > 0 {
        lemma_index_of(tasks.drop_last(), pid);
        assert forall|j: int| 0 <= j < tasks.len() - 1 implies #[trigger] tasks[j] == tasks.drop_last()[j] by {}
    }
}

pub fn find_index(tasks: &Vec<Task>, pid: i32) -> (r: Option<usize>)
    ensures
        r.is_some() == index_of(tasks@, pid).is_some(),
        r matches Some(i) ==> index_of(tasks@, pid) == Some(i as int) && i < tasks@.len() && tasks@[i as int].pid == pid,
{
    proof { lemma_index_of(tasks@, pid); }
    let mut i: usize = 0;
    while i < tasks.len()
        invariant
            i <= tasks@.len(),
            forall|j: int| 0 <= j < i ==> #[trigger] tasks@[j].pid != pid,
        decreases tasks@.len() - i,
    {
        if tasks[i].pid == pid {
            proof {
                if index_of(tasks@, pid) != Some(i as int) {
                    lemma_index_of(tasks@, pid);
                }
            }
            return Some(i);
        }
        i = i + 1;
    }
    None
}

impl TaskManager {
    pub fn new() -> (m: TaskManager)
        ensures m.tasks@.len() == 0, m.ready_queue@.len() == 0,
    {
        TaskManager { tasks: Vec::new(), ready_queue: Vec::new() }
    }

    /// Enters a task in the table (replacing one with the same pid) and queues it.
    pub fn add(&mut self, task: Task)
        ensures
            final(self).ready_queue@ == old(self).ready_queue@.push(task.pid),
            index_of(old(self).tasks@, task.pid) matches Some(i) ==> final(self).tasks@ == old(self).tasks@.update(i, task),
            index_of(old(self).tasks@, task.pid).is_none() ==> final(self).tasks@ == old(self).tasks@.push(task),
    {
        let pid = task.pid;
        match find_index(&self.tasks, pid) {
            Some(i) => { self.tasks.set(i, task); },
            None => { self.tasks.push(task); },
        }
        self.ready_queue.push(pid);
    }

    /// Drops the task with id `pid` from the table.
    pub fn remove(&mut self, pid: i32) -> (r: Option<usize>)
        ensures
            r == (match index_of(old(self).tasks@, pid) { Some(i) => Some(i as usize), None => None }),
            r matches Some(i) ==> i < old(self).tasks@.len() && final(self).tasks@ == old(self).tasks@.remove(i as int),
            r.is_none() ==> final(self).tasks@ == old(self).tasks@,
            final(self).ready_queue@ == old(self).ready_queue@,
    {
        match find_index(&self.tasks, pid) {
            Some(i) => {
                let _t = self.tasks.remove(i);
                Some(i)
            },
            None => None,
        }
    }

    /// Where the task with id `pid` is in the table.
    pub fn get(&self, pid: i32) -> (r: Option<usize>)
        ensures
            r == (match index_of(self.tasks@, pid) { Some(i) => Some(i as usize), None => None }),
            r matches Some(i) ==> i < self.tasks@.len() && self.tasks@[i as int].pid == pid,
    {
        find_index(&self.tasks, pid)
    }

    /// Takes the first ready task.
    pub fn pop_ready(&mut self) -> (r: Option<i32>)
        ensures
            old(self).ready_queue@.len() == 0 ==> r.is_none() && final(self).ready_queue@ == old(self).ready_queue@,
            old(self).ready_queue@.len() > 0 ==> r == Some(old(self).ready_queue@[0])
                && final(self).ready_queue@ == old(self).ready_queue@.skip(1),
            final(self).tasks@ == old(self).tasks@,
    {
        if self.ready_queue.len() == 0 {
            return None;
        }
        let p = self.ready_queue.remove(0);
        assert(self.ready_queue@ =~= old(self).ready_queue@.skip(1));
        Some(p)
    }

    /// Queues a task at the back.
    pub fn push_ready(&mut self, pid: i32)
        ensures
            final(self).ready_queue@ == old(self).ready_queue@.push(pid),
            final(self).tasks@ == old(self).tasks@,
    {
        self.ready_queue.push(pid);
    }
}

/// The task table starts empty: nothing to set up.
pub fn init() {
}

} // verus!
