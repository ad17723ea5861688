//! A snapshot of the processes running on the machine: their ids and
//! command lines.
use vstd::prelude::*;

use crate::text::views_of;

verus! {

/// One running process.
pub struct ProcessEntry {
    /// Its process id
    pub pid: usize,
    /// Its command line, one string per argument
    pub cmd: Vec<String>,
}

/// The value of a `ProcessEntry`.
pub struct ProcessView {
    pub pid: usize,
    pub cmd: Seq<Seq<char>>,
}

impl View for ProcessEntry {
    type V = ProcessView;

    open spec fn view(&self) -> ProcessView {
        ProcessView { pid: self.pid, cmd: views_of(self.cmd@) }
    }
}

/// The processes running at one moment.
pub struct ProcessTable {
    processes: Vec<ProcessEntry>,
}

/// The command line of the first process in `procs` with id `pid`.
pub open spec fn command_of(procs: Seq<ProcessView>, pid: usize) -> Option<Seq<Seq<char>>>
    decreases procs.len(),
{
    if procs.len() == 0 {
        None
    } else if procs[0].pid == pid {
        Some(procs[0].cmd)
    } else {
        command_of(procs.drop_first(), pid)
    }
}

impl View for ProcessTable {
    type V = Seq<ProcessView>;

    closed spec fn view(&self) -> Seq<ProcessView> {
        self.processes@.map_values(|p: ProcessEntry| p@)
    }
}

impl ProcessTable {
    /// Whether a process with id `pid` is running.
    pub open spec fn runs(&self, pid: usize) -> bool {
        command_of(self@, pid) is Some
    }

    /// An empty table.
    pub fn new() -> (t: ProcessTable)
        ensures
            t@ == Seq::<ProcessView>::empty(),
    {
        let t = ProcessTable { processes: Vec::new() };
        assert(t@ =~= Seq::<ProcessView>::empty());
        t
    }

    /// Records a running process.
    pub fn add(&mut self, pid: usize, cmd: Vec<String>)
        ensures
            final(self)@ == old(self)@.push(ProcessView { pid, cmd: views_of(cmd@) }),
    {
        let ghost before = self@;
        self.processes.push(ProcessEntry { pid, cmd });
        assert(self@ =~= before.push(ProcessView { pid, cmd: views_of(cmd@) }));
    }

    /// The command line of the process with id `pid`, if one runs.
    pub fn command_line(&self, pid: usize) -> (r: Option<&Vec<String>>)
        ensures
            match r {
                Some(c) => command_of(self@, pid) == Some(views_of(c@)),
                None => command_of(self@, pid) is None,
            },
    {
        let mut i: usize = 0;
        assert(self@.skip(0) =~= self@);
        while i < self.processes.len()
            invariant
                i <= self.processes.len(),
                command_of(self@, pid) == command_of(self@.skip(i as int), pid),
            decreases self.processes.len() - i,
        {
            proof {
                assert(self@.skip(i as int)[0] == self.processes@[i as int]@);
                assert(self@.skip(i as int).drop_first() =~= self@.skip(i + 1));
            }
            if self.processes[i].pid == pid {
                return Some(&self.processes[i].cmd);
            }
            i = i + 1;
        }
        assert(self@.skip(i as int) =~= Seq::<ProcessView>::empty());
        None
    }

    /// Whether a process with id `pid` is running.
    pub fn is_running(&self, pid: usize) -> (r: bool)
        ensures
            r == self.runs(pid),
    {
        match self.command_line(pid) {
            Some(_) => true,
            None => false,
        }
    }
}

} // verus!
