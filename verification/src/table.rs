//! The table of live processes and its reconciliation with what the provider reports.

use std::collections::HashMap;
use vstd::prelude::*;
use vstd::std_specs::iter::IteratorSpec;
use crate::process::{Process, ProcessStatus, ProcessView};
use crate::text::{chars_of, parse_unsigned, trim, trimmed, unsigned_value};

verus! {

broadcast use vstd::std_specs::hash::group_hash_axioms;

/// What the provider reports of one live process in one cycle, together with
/// the raw text of its accounting record, `None` where that could not be read.
#[derive(Debug)]
pub struct Observation {
    pub name: String,
    pub pid: u32,
    pub run_time: u64,
    pub ram: u64,
    pub status: ProcessStatus,
    pub stat: Option<String>,
}

/// The mathematical value of an `Observation`.
pub struct ObservationView {
    pub name: Seq<char>,
    pub pid: u32,
    pub run_time: u64,
    pub ram: u64,
    pub status: ProcessStatus,
    pub stat: Option<Seq<char>>,
}

impl View for Observation {
    type V = ObservationView;

    open spec fn view(&self) -> ObservationView {
        ObservationView {
            name: self.name@,
            pid: self.pid,
            run_time: self.run_time,
            ram: self.ram,
            status: self.status,
            stat: match self.stat {
                Some(s) => Some(s@),
                None => None,
            },
        }
    }
}

/// The views of a sequence of observations.
pub open spec fn reports(live: Seq<Observation>) -> Seq<ObservationView> {
    live.map_values(|o: Observation| o@)
}

/// The views of the records of a table.
pub open spec fn records(m: Map<u32, Process>) -> Map<u32, ProcessView> {
    m.map_values(|p: Process| p@)
}

impl ObservationView {
    /// The record of a process seen for the first time, before its accounting text is read.
    pub open spec fn fresh(self) -> ProcessView {
        ProcessView {
            name: self.name,
            pid: self.pid,
            run_time: self.run_time,
            ram: self.ram,
            nice: None,
            status: Some(self.status),
            priority: None,
            rt_priority: None,
        }
    }

    /// The record of this process after the cycle: a known one keeps its name
    /// and its scheduling fields and takes the new figures, an unknown one
    /// starts afresh; then either looks once at the accounting text.
    pub open spec fn upsert(self, prior: Option<ProcessView>) -> ProcessView {
        match prior {
            Some(p) => ProcessView { pid: self.pid, ..p.observed(self.run_time, self.ram, self.status) }
                .refreshed(self.stat),
            None => self.fresh().refreshed(self.stat),
        }
    }
}

/// The last report of `pid` among `live`, if there is any.
pub open spec fn last_report(live: Seq<ObservationView>, pid: u32) -> Option<ObservationView>
    decreases live.len(),
{
    if live.len() == 0 {
        None
    } else if live.last().pid == pid {
        Some(live.last())
    } else {
        last_report(live.drop_last(), pid)
    }
}

/// Whether `pid` stays in the table: it is reported, and not as dead or zombie.
pub open spec fn stays(live: Seq<ObservationView>, pid: u32) -> bool {
    last_report(live, pid) is Some && !last_report(live, pid)->0.status.is_terminal()
}

/// The record that `m` holds for `pid`, if any.
pub open spec fn lookup(m: Map<u32, ProcessView>, pid: u32) -> Option<ProcessView> {
    if m.contains_key(pid) {
        Some(m[pid])
    } else {
        None
    }
}

/// The table after one cycle: the pids that stay, each with its record
/// brought up to date from what the table held before.
pub open spec fn reconciled(before: Map<u32, ProcessView>, live: Seq<ObservationView>) -> Map<
    u32,
    ProcessView,
> {
    Map::new(
        |pid: u32| stays(live, pid),
        |pid: u32| last_report(live, pid)->0.upsert(lookup(before, pid)),
    )
}

/// Whether no pid is reported twice.
pub open spec fn distinct_pids(live: Seq<ObservationView>) -> bool {
    forall|i: int, j: int|
        0 <= i < j < live.len() ==> (#[trigger] live[i]).pid != (#[trigger] live[j]).pid
}

/// The pids that the provider reports.
pub open spec fn live_set(live: Seq<ObservationView>) -> Set<u32> {
    Set::new(|pid: u32| exists|i: int| 0 <= i < live.len() && (#[trigger] live[i]).pid == pid)
}

/// The pids that the provider reports as dead or zombie.
pub open spec fn terminal_set(live: Seq<ObservationView>) -> Set<u32> {
    Set::new(
        |pid: u32|
            exists|i: int|
                0 <= i < live.len() && (#[trigger] live[i]).pid == pid
                    && live[i].status.is_terminal(),
    )
}

/// The last report of a pid is one of the reports, and there is one
/// exactly when the pid is reported at all.
pub proof fn lemma_last_report(live: Seq<ObservationView>, pid: u32)
    ensures
        last_report(live, pid) is Some <==> live_set(live).contains(pid),
        last_report(live, pid) is Some ==> last_report(live, pid)->0.pid == pid && live.contains(
            last_report(live, pid)->0,
        ),
    decreases live.len(),
{
    if live.len() > 0 {
        let rest = live.drop_last();
        lemma_last_report(rest, pid);
        if live.last().pid == pid {
            assert(live[live.len() - 1].pid == pid);
        } else {
            if last_report(rest, pid) is Some {
                let i = choose|i: int| 0 <= i < rest.len() && (#[trigger] rest[i]).pid == pid;
                assert(live[i].pid == pid);
                let k = choose|k: int| 0 <= k < rest.len() && rest[k] == last_report(rest, pid)->0;
                assert(live[k] == last_report(rest, pid)->0);
            }
            if live_set(live).contains(pid) {
                let i = choose|i: int| 0 <= i < live.len() && (#[trigger] live[i]).pid == pid;
                assert(rest[i].pid == pid);
            }
        }
    }
}

/// After a cycle the table's keys are the pids that the provider reports,
/// less those it reports as dead or zombie.
pub proof fn lemma_keys_after_refresh(before: Map<u32, ProcessView>, live: Seq<ObservationView>)
    requires
        distinct_pids(live),
    ensures
        reconciled(before, live).dom() == live_set(live).difference(terminal_set(live)),
{
    let keys = reconciled(before, live).dom();
    let want = live_set(live).difference(terminal_set(live));
    assert forall|pid: u32| keys.contains(pid) <==> want.contains(pid) by {
        lemma_last_report(live, pid);
        if last_report(live, pid) is Some {
            let r = last_report(live, pid)->0;
            let k = choose|k: int| 0 <= k < live.len() && live[k] == r;
            if terminal_set(live).contains(pid) {
                let i = choose|i: int|
                    0 <= i < live.len() && (#[trigger] live[i]).pid == pid
                        && live[i].status.is_terminal();
                assert(i == k) by {
                    if i < k {
                        assert(live[i].pid != live[k].pid);
                    }
                    if k < i {
                        assert(live[k].pid != live[i].pid);
                    }
                }
            }
            if r.status.is_terminal() {
                assert(live[k].pid == pid && live[k].status.is_terminal());
            }
        }
    }
    assert(keys =~= want);
}

/// Each record of a reconciled table carries the pid that it is filed
/// under, and its provider fields are those of the pid's report.
pub proof fn lemma_records_after_refresh(
    before: Map<u32, ProcessView>,
    live: Seq<ObservationView>,
    pid: u32,
)
    requires
        reconciled(before, live).contains_key(pid),
    ensures
        reconciled(before, live)[pid].pid == pid,
        reconciled(before, live)[pid].run_time == last_report(live, pid)->0.run_time,
        reconciled(before, live)[pid].ram == last_report(live, pid)->0.ram,
        reconciled(before, live)[pid].status == Some(last_report(live, pid)->0.status),
{
    lemma_last_report(live, pid);
}

/// Sticky fields across cycles: a scheduling field that the table knows of
/// a pid is the same after a cycle in which the pid stays.
pub proof fn lemma_refresh_keeps_known_fields(
    before: Map<u32, ProcessView>,
    live: Seq<ObservationView>,
    pid: u32,
)
    requires
        before.contains_key(pid),
        reconciled(before, live).contains_key(pid),
    ensures
        before[pid].priority is Some ==> reconciled(before, live)[pid].priority
            == before[pid].priority,
        before[pid].nice is Some ==> reconciled(before, live)[pid].nice == before[pid].nice,
        before[pid].rt_priority is Some ==> reconciled(before, live)[pid].rt_priority
            == before[pid].rt_priority,
{
}

/// A second cycle on the same reports gives the table that the first gave.
pub proof fn lemma_refresh_twice_same(before: Map<u32, ProcessView>, live: Seq<ObservationView>)
    ensures
        reconciled(reconciled(before, live), live) == reconciled(before, live),
{
    let once = reconciled(before, live);
    let twice = reconciled(once, live);
    assert forall|pid: u32| once.contains_key(pid) implies #[trigger] twice[pid] == once[pid] by {
        lemma_last_report(live, pid);
    }
    assert(twice =~= once);
}

/// Why the scheduling quantum could not be had.
#[derive(Clone, Copy, Debug, PartialEq, Eq, Structural)]
pub enum QuantumError {
    /// Its text could not be read.
    Unreadable,
    /// Its text is no unsigned number of 32 bits.
    Malformed,
}

/// The quantum that a text states: the text without the white space around
/// it, read as an unsigned decimal number of 32 bits.
pub open spec fn quantum_value(text: Seq<char>) -> Option<u32> {
    match unsigned_value(trimmed(text), 0xFFFF_FFFF) {
        Some(v) => Some(v as u32),
        None => None,
    }
}

/// Reads the scheduling quantum out of its text.
pub fn parse_quantum(text: &str) -> (r: Option<u32>)
    ensures
        r == quantum_value(text@),
{
    let chars = chars_of(text);
    let body = trim(&chars);
    match parse_unsigned(&body, 0xFFFF_FFFF) {
        Some(v) => Some(v as u32),
        None => None,
    }
}

/// The scheduling quantum and the table of live processes, by pid.
pub struct SysProbe {
    pub quantum: u32,
    pub processes: HashMap<u32, Process>,
}

impl SysProbe {
    /// The table as a map from pid to record.
    pub open spec fn table(&self) -> Map<u32, ProcessView> {
        records(self.processes@)
    }

    /// Each record is filed under its own pid.
    pub open spec fn wf(&self) -> bool {
        forall|pid: u32| #[trigger]
            self.processes@.contains_key(pid) ==> self.processes@[pid].pid == pid
    }

    /// An empty table with quantum zero.
    pub fn new() -> (s: SysProbe)
        ensures
            s.quantum == 0,
            s.processes@ == Map::<u32, Process>::empty(),
            s.wf(),
    {
        SysProbe { processes: HashMap::new(), quantum: 0 }
    }

    /// Takes the quantum from its text, `None` where that could not be
    /// read. On an error nothing changes.
    pub fn set_quantum(&mut self, timeslice: Option<&str>) -> (r: Result<(), QuantumError>)
        ensures
            final(self).processes == old(self).processes,
            match r {
                Ok(_) => timeslice is Some && quantum_value(timeslice->0@) == Some(
                    final(self).quantum,
                ),
                Err(QuantumError::Unreadable) => timeslice is None && final(self).quantum == old(
                    self,
                ).quantum,
                Err(QuantumError::Malformed) => timeslice is Some && quantum_value(timeslice->0@)
                    is None && final(self).quantum == old(self).quantum,
            },
    {
        match timeslice {
            None => Err(QuantumError::Unreadable),
            Some(text) => match parse_quantum(text) {
                Some(q) => {
                    self.quantum = q;
                    Ok(())
                },
                None => Err(QuantumError::Malformed),
            },
        }
    }

    /// Sets the quantum and runs the first cycle. Where the quantum cannot
    /// be had, nothing changes and the error says why.
    pub fn init(&mut self, timeslice: Option<&str>, live: &Vec<Observation>) -> (r: Result<
        (),
        QuantumError,
    >)
        ensures
            match r {
                Ok(_) => timeslice is Some && quantum_value(timeslice->0@) == Some(
                    final(self).quantum,
                ) && final(self).table() == reconciled(old(self).table(), reports(live@))
                    && final(self).wf(),
                Err(e) => *final(self) == *old(self) && (e == QuantumError::Unreadable
                    <==> timeslice is None) && (e == QuantumError::Malformed ==> quantum_value(
                    timeslice->0@,
                ) is None),
            },
    {
        match self.set_quantum(timeslice) {
            Ok(_) => {
                self.refresh_processes(live);
                Ok(())
            },
            Err(e) => Err(e),
        }
    }

    /// One cycle: drops every pid that is no longer reported or is reported
    /// as dead or zombie, brings the record of every other reported pid up to
    /// date, and adds a record for each pid seen for the first time.
    pub fn refresh_processes(&mut self, live: &Vec<Observation>)
        ensures
            final(self).table() == reconciled(old(self).table(), reports(live@)),
            distinct_pids(reports(live@)) ==> final(self).table().dom() == live_set(
                reports(live@),
            ).difference(terminal_set(reports(live@))),
            final(self).quantum == old(self).quantum,
            final(self).wf(),
    {
        let ghost before = self.table();
        proof {
            if distinct_pids(reports(live@)) {
                lemma_keys_after_refresh(before, reports(live@));
            }
        }
        let ghost obs = reports(live@);
        let mut next: HashMap<u32, Process> = HashMap::new();
        let mut i: usize = 0;
        assert(records(next@) =~= reconciled(before, obs.take(0)));
        while i < live.len()
            invariant
                i <= live.len(),
                obs == reports(live@),
                before == self.table(),
                *self == *old(self),
                records(next@) == reconciled(before, obs.take(i as int)),
                forall|pid: u32| #[trigger] next@.contains_key(pid) ==> next@[pid].pid == pid,
            decreases live.len() - i,
        {
            let o = &live[i];
            let ghost done = obs.take(i as int);
            let ghost step = obs.take(i + 1);
            proof {
                assert(step.drop_last() =~= done);
                assert(step.last() == o@);
                assert forall|pid: u32| #[trigger]
                    last_report(step, pid) == (if pid == o.pid {
                        Some(o@)
                    } else {
                        last_report(done, pid)
                    }) by {}
                assert(lookup(before, o.pid) == (match self.processes@.get(o.pid) {
                    Some(p) => Some(p@),
                    None => None,
                }));
            }
            let ghost prev = next@;
            if o.status.terminal() {
                next.remove(&o.pid);
                assert(next@ == prev.remove(o.pid));
            } else {
                let mut entry = match self.processes.get(&o.pid) {
                    Some(p) => {
                        let mut e = p.clone();
                        e.pid = o.pid;
                        e.run_time = o.run_time;
                        e.ram = o.ram;
                        e.status = Some(o.status);
                        e
                    },
                    None => Process::builder().name(o.name.clone()).pid(o.pid).run_time(
                        o.run_time,
                    ).status(o.status).ram(o.ram).build(),
                };
                match &o.stat {
                    Some(s) => entry.refresh(Some(s.as_str())),
                    None => entry.refresh(None),
                }
                assert(entry@ == o@.upsert(lookup(before, o.pid)));
                next.insert(o.pid, entry);
                assert(next@ == prev.insert(o.pid, entry));
            }
            i = i + 1;
            proof {
                let got = records(next@);
                let want = reconciled(before, step);
                let had = records(prev);
                assert(had == reconciled(before, done));
                assert forall|pid: u32| got.contains_key(pid) == want.contains_key(pid) by {
                    assert(had.contains_key(pid) == stays(done, pid));
                    assert(want.contains_key(pid) == stays(step, pid));
                    assert(got.contains_key(pid) == next@.contains_key(pid));
                    assert(had.contains_key(pid) == prev.contains_key(pid));
                }
                assert forall|pid: u32| got.contains_key(pid) implies got[pid] == want[pid] by {
                    assert(want.contains_key(pid) == stays(step, pid));
                    if pid != o.pid {
                        assert(had.contains_key(pid));
                        assert(had[pid] == reconciled(before, done)[pid]);
                        assert(got[pid] == had[pid]);
                    }
                }
                assert(got =~= want);
            }
        }
        assert(obs.take(live.len() as int) =~= obs);
        self.processes = next;
    }

    /// The pids of the table, each once, in no particular order.
    pub fn pids(&self) -> (r: Vec<u32>)
        ensures
            r@.no_duplicates(),
            r@.to_set() == self.processes@.dom(),
    {
        let mut r: Vec<u32> = Vec::new();
        let ghost all = vstd::std_specs::hash::spec_keys_iter(&self.processes).remaining();
        for k in it: self.processes.keys()
            invariant
                it.seq() == all,
                r@.len() == it.index(),
                forall|j: int| 0 <= j < r@.len() ==> r@[j] == *it.seq()[j],
        {
            r.push(*k);
        }
        assert(r@ =~= all.unref());
        r
    }

    /// The records of the table, each once, in no particular order.
    pub fn snapshot(&self) -> (r: Vec<Process>)
        requires
            self.wf(),
        ensures
            lists(r@, self.processes@),
    {
        let keys = self.pids();
        let mut r: Vec<Process> = Vec::new();
        let mut i: usize = 0;
        while i < keys.len()
            invariant
                i <= keys.len(),
                self.wf(),
                keys@.no_duplicates(),
                keys@.to_set() == self.processes@.dom(),
                r@.len() == i,
                forall|j: int| 0 <= j < i ==> #[trigger] r@[j] == self.processes@[keys@[j]],
            decreases keys.len() - i,
        {
            let pid = keys[i];
            assert(keys@.to_set().contains(pid));
            match self.processes.get(&pid) {
                Some(p) => {
                    r.push(p.clone());
                },
                None => {},
            }
            i = i + 1;
        }
        proof {
            assert forall|j: int| 0 <= j < r@.len() implies self.processes@.contains_key(
                (#[trigger] r@[j]).pid,
            ) && self.processes@[r@[j].pid] == r@[j] by {
                assert(keys@.to_set().contains(keys@[j]));
            }
            assert forall|a: int, b: int| 0 <= a < r@.len() && 0 <= b < r@.len() && a != b implies r@[a]
                != r@[b] by {
                assert(keys@.to_set().contains(keys@[a]));
                assert(keys@.to_set().contains(keys@[b]));
            }
            assert forall|pid: u32| #[trigger] self.processes@.contains_key(pid) implies r@.contains(
                self.processes@[pid],
            ) by {
                assert(keys@.to_set().contains(pid));
                let j = choose|j: int| 0 <= j < keys@.len() && keys@[j] == pid;
                assert(r@[j] == self.processes@[pid]);
            }
        }
        r
    }
}

/// Whether `items` holds the records of `m`, each once: no record twice,
/// none that `m` lacks, and none of `m` left out.
pub open spec fn lists(items: Seq<Process>, m: Map<u32, Process>) -> bool {
    &&& items.no_duplicates()
    &&& forall|i: int|
        0 <= i < items.len() ==> m.contains_key((#[trigger] items[i]).pid) && m[items[i].pid]
            == items[i]
    &&& forall|pid: u32| #[trigger] m.contains_key(pid) ==> items.contains(m[pid])
}

/// A rearrangement of a list of the table's records is such a list too.
pub proof fn lemma_lists_rearranged(a: Seq<Process>, b: Seq<Process>, m: Map<u32, Process>)
    requires
        lists(a, m),
        a.to_multiset() == b.to_multiset(),
    ensures
        lists(b, m),
{
    broadcast use vstd::seq_lib::group_to_multiset_ensures;

    a.lemma_multiset_has_no_duplicates();
    b.lemma_multiset_has_no_duplicates_conv();
    assert forall|i: int| 0 <= i < b.len() implies m.contains_key((#[trigger] b[i]).pid) && m[b[i].pid]
        == b[i] by {
        assert(b.contains(b[i]));
        assert(b.to_multiset().count(b[i]) > 0);
        assert(a.contains(b[i]));
    }
    assert forall|pid: u32| #[trigger] m.contains_key(pid) implies b.contains(m[pid]) by {
        assert(a.contains(m[pid]));
        assert(a.to_multiset().count(m[pid]) > 0);
    }
}

} // verus!
