//! The cooperative process scheduler's bookkeeping: process control blocks
//! and their queue. The context switch itself belongs to the host.

use vstd::prelude::*;

verus! {

/// The saved execution state of one process.
#[derive(Debug)]
pub struct ProcessControlBlock {
    pub pid: u64,
    pub stack: Vec<u8>,
    pub ip: usize,
    pub rsp: usize,
    pub cpu_flags: u64,
    pub code_segment: u64,
    pub stack_segment: u64,
}

/// The process queue and the ids it has handed out.
pub struct Scheduler {
    pub current_pid: u64,
    pub process_queue: Vec<ProcessControlBlock>,
    pub last_pid: u64,
    pub first_time: bool,
}

/// A zero-filled stack area of the given size.
pub fn allocate_stack(size: usize) -> (r: Vec<u8>)
    ensures
        r@.len() == size,
        forall|i: int| 0 <= i < size ==> r@[i] == 0,
{
    let mut stack: Vec<u8> = Vec::new();
    let mut i: usize = 0;
    while i < size
        invariant
            0 <= i <= size,
            stack@.len() == i,
            forall|j: int| 0 <= j < i ==> stack@[j] == 0,
        decreases size - i,
    {
        stack.push(0);
        i = i + 1;
    }
    stack
}

impl Scheduler {
    pub fn new() -> (r: Scheduler)
        ensures
            r.current_pid == 0,
            r.last_pid == 0,
            r.process_queue@.len() == 0,
            r.first_time,
    {
        Scheduler { current_pid: 0, last_pid: 0, process_queue: Vec::new(), first_time: true }
    }

    /// Queues a new process for the given entry point under the next free
    /// pid. Interrupts are flagged enabled in the saved processor state.
    pub fn new_process(&mut self, func_ptr: usize, stack_size: usize)
        requires
            old(self).last_pid < u64::MAX,
        ensures
            final(self).last_pid == old(self).last_pid + 1,
            final(self).process_queue@.len() == old(self).process_queue@.len() + 1,
            final(self).process_queue@.subrange(0, old(self).process_queue@.len() as int) == old(
                self,
            ).process_queue@,
            final(self).process_queue@.last().pid == old(self).last_pid + 1,
            final(self).process_queue@.last().ip == func_ptr,
            final(self).process_queue@.last().stack@.len() == stack_size,
            final(self).process_queue@.last().cpu_flags == 0x0200u64,
            final(self).current_pid == old(self).current_pid,
    {
        let pcb = ProcessControlBlock {
            pid: self.last_pid + 1,
            ip: func_ptr,
            code_segment: 0,
            stack_segment: 0,
            cpu_flags: 0x0200,
            stack: allocate_stack(stack_size),
            rsp: 0,
        };
        self.process_queue.push(pcb);
        self.last_pid = self.last_pid + 1;
        proof {
            assert(self.process_queue@.subrange(0, old(self).process_queue@.len() as int) =~= old(
                self,
            ).process_queue@);
        }
    }
}

} // verus!
