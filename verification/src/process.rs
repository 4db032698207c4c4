//! One process: what the provider reports of it, and the scheduling fields
//! that are read from its accounting record and kept once known.

use vstd::prelude::*;
use crate::text::{chars_of, parse_i16, parse_u16, signed_value, split_words, unsigned_value, words};

verus! {

/// The column of the accounting record that holds the priority.
pub const PRIO_COL: usize = 17;

/// The column of the accounting record that holds the nice value.
pub const NICE_COL: usize = 18;

/// The column of the accounting record that holds the real-time priority.
pub const RT_PRIO_COL: usize = 39;

/// The least number of columns an accounting record must have to be read at all.
pub const MIN_COLS: usize = 15;

/// The lifecycle state that the provider reports of a process.
#[derive(Clone, Copy, Debug, PartialEq, Eq, Structural)]
pub enum ProcessStatus {
    Idle,
    Run,
    Sleep,
    Stop,
    Zombie,
    Tracing,
    Dead,
    Wakekill,
    Waking,
    Parked,
    LockBlocked,
    UninterruptibleDiskSleep,
    Unknown(u32),
}

impl ProcessStatus {
    /// A process that is dead or a zombie is no longer kept in the table.
    pub open spec fn is_terminal(self) -> bool {
        self == ProcessStatus::Dead || self == ProcessStatus::Zombie
    }

    /// Whether the status is `Dead` or `Zombie`.
    pub fn terminal(&self) -> (r: bool)
        ensures
            r == self.is_terminal(),
    {
        match self {
            ProcessStatus::Dead => true,
            ProcessStatus::Zombie => true,
            _ => false,
        }
    }
}

/// The three scheduling fields of one accounting record.
#[derive(Clone, Copy, Debug, PartialEq, Eq, Structural)]
pub struct StatRecord {
    pub priority: i16,
    pub nice: i16,
    pub rt_priority: u16,
}

/// The signed number in column `col`; zero where the column is missing or is no such number.
pub open spec fn signed_column(cols: Seq<Seq<char>>, col: int) -> i16 {
    if 0 <= col < cols.len() && signed_value(cols[col]) is Some {
        signed_value(cols[col])->0 as i16
    } else {
        0
    }
}

/// The unsigned number in column `col`; zero where the column is missing or is no such number.
pub open spec fn unsigned_column(cols: Seq<Seq<char>>, col: int) -> u16 {
    if 0 <= col < cols.len() && unsigned_value(cols[col], 65535) is Some {
        unsigned_value(cols[col], 65535)->0 as u16
    } else {
        0
    }
}

/// What an accounting record says: nothing where it has fewer than
/// `MIN_COLS` columns, else the three fields by their columns.
pub open spec fn stat_record(text: Seq<char>) -> Option<StatRecord> {
    let cols = words(text);
    if cols.len() < MIN_COLS {
        None
    } else {
        Some(
            StatRecord {
                priority: signed_column(cols, PRIO_COL as int),
                nice: signed_column(cols, NICE_COL as int),
                rt_priority: unsigned_column(cols, RT_PRIO_COL as int),
            },
        )
    }
}

fn read_signed(cols: &Vec<Vec<char>>, col: usize) -> (r: i16)
    ensures
        r == signed_column(crate::text::views(cols@), col as int),
{
    if col < cols.len() {
        match parse_i16(&cols[col]) {
            Some(v) => v,
            None => 0,
        }
    } else {
        0
    }
}

fn read_unsigned(cols: &Vec<Vec<char>>, col: usize) -> (r: u16)
    ensures
        r == unsigned_column(crate::text::views(cols@), col as int),
{
    if col < cols.len() {
        match parse_u16(&cols[col]) {
            Some(v) => v,
            None => 0,
        }
    } else {
        0
    }
}

/// Reads the scheduling fields out of the raw text of an accounting record.
///
/// A record of fewer than `MIN_COLS` columns yields nothing. In a longer one
/// a column that is missing or does not parse counts as zero, and the other
/// fields are still read.
pub fn parse_stat(text: &str) -> (r: Option<StatRecord>)
    ensures
        r == stat_record(text@),
{
    let chars = chars_of(text);
    let cols = split_words(&chars);
    assert(crate::text::views(cols@).len() == cols@.len());
    if cols.len() < MIN_COLS {
        None
    } else {
        Some(
            StatRecord {
                priority: read_signed(&cols, PRIO_COL),
                nice: read_signed(&cols, NICE_COL),
                rt_priority: read_unsigned(&cols, RT_PRIO_COL),
            },
        )
    }
}

/// The mathematical value of a `Process`.
pub struct ProcessView {
    pub name: Seq<char>,
    pub pid: u32,
    pub run_time: u64,
    pub ram: u64,
    pub nice: Option<i16>,
    pub status: Option<ProcessStatus>,
    pub priority: Option<i16>,
    pub rt_priority: Option<u16>,
}

/// `known` where it holds a value, else `found`.
pub open spec fn keep_or<T>(known: Option<T>, found: T) -> Option<T> {
    if known is Some {
        known
    } else {
        Some(found)
    }
}

impl ProcessView {
    /// The record with each scheduling field that was still unknown taken from `found`.
    pub open spec fn filled(self, found: StatRecord) -> ProcessView {
        ProcessView {
            priority: keep_or(self.priority, found.priority),
            nice: keep_or(self.nice, found.nice),
            rt_priority: keep_or(self.rt_priority, found.rt_priority),
            ..self
        }
    }

    /// The record after one look at its accounting text; `None` stands for
    /// a text that could not be read.
    pub open spec fn refreshed(self, stat: Option<Seq<char>>) -> ProcessView {
        match stat {
            Some(text) => match stat_record(text) {
                Some(found) => self.filled(found),
                None => self,
            },
            None => self,
        }
    }

    /// The record with the provider's figures replaced and the scheduling fields kept.
    pub open spec fn observed(self, run_time: u64, ram: u64, status: ProcessStatus) -> ProcessView {
        ProcessView { run_time, ram, status: Some(status), ..self }
    }
}

/// The characters of a text that may be missing.
pub open spec fn text_of(stat: Option<&str>) -> Option<Seq<char>> {
    match stat {
        Some(s) => Some(s@),
        None => None,
    }
}

/// One process of the table.
#[derive(Debug)]
pub struct Process {
    pub name: String,
    pub pid: u32,
    pub run_time: u64,
    pub ram: u64,
    pub nice: Option<i16>,
    pub status: Option<ProcessStatus>,
    pub priority: Option<i16>,
    pub rt_priority: Option<u16>,
}

impl View for Process {
    type V = ProcessView;

    open spec fn view(&self) -> ProcessView {
        ProcessView {
            name: self.name@,
            pid: self.pid,
            run_time: self.run_time,
            ram: self.ram,
            nice: self.nice,
            status: self.status,
            priority: self.priority,
            rt_priority: self.rt_priority,
        }
    }
}

impl Clone for Process {
    fn clone(&self) -> (r: Self)
        ensures
            r == *self,
    {
        Process {
            name: self.name.clone(),
            pid: self.pid,
            run_time: self.run_time,
            ram: self.ram,
            nice: self.nice,
            status: self.status,
            priority: self.priority,
            rt_priority: self.rt_priority,
        }
    }
}

impl Process {
    /// A builder with no field set.
    pub fn builder() -> (b: ProcessBuilder)
        ensures
            b@ == BuilderView::empty(),
    {
        ProcessBuilder::new()
    }

    /// Takes from `found` each scheduling field that is still unknown; a
    /// field that is known stays as it is.
    pub fn fill_unresolved(&mut self, found: StatRecord)
        ensures
            final(self)@ == old(self)@.filled(found),
    {
        if self.priority.is_none() {
            self.priority = Some(found.priority);
        }
        if self.rt_priority.is_none() {
            self.rt_priority = Some(found.rt_priority);
        }
        if self.nice.is_none() {
            self.nice = Some(found.nice);
        }
    }

    /// Looks at the process's accounting text, `None` where it could not be
    /// read, and fills the scheduling fields that are still unknown.
    pub fn refresh(&mut self, stat: Option<&str>)
        ensures
            final(self)@ == old(self)@.refreshed(text_of(stat)),
            old(self).priority is Some ==> final(self).priority == old(self).priority,
            old(self).nice is Some ==> final(self).nice == old(self).nice,
            old(self).rt_priority is Some ==> final(self).rt_priority == old(self).rt_priority,
    {
        if let Some(text) = stat {
            if let Some(found) = parse_stat(text) {
                self.fill_unresolved(found);
            }
        }
    }
}

/// The mathematical value of a `ProcessBuilder`.
pub struct BuilderView {
    pub name: Option<Seq<char>>,
    pub pid: Option<u32>,
    pub status: Option<ProcessStatus>,
    pub run_time: Option<u64>,
    pub ram: Option<u64>,
}

impl BuilderView {
    /// No field set.
    pub open spec fn empty() -> BuilderView {
        BuilderView { name: None, pid: None, status: None, run_time: None, ram: None }
    }

    /// Whether the four fields that a process cannot do without are set.
    pub open spec fn complete(self) -> bool {
        self.name is Some && self.pid is Some && self.run_time is Some && self.ram is Some
    }

    /// The process that these fields make, its scheduling fields unknown.
    pub open spec fn built(self) -> ProcessView
        recommends
            self.complete(),
    {
        ProcessView {
            name: self.name->0,
            pid: self.pid->0,
            run_time: self.run_time->0,
            ram: self.ram->0,
            nice: None,
            status: self.status,
            priority: None,
            rt_priority: None,
        }
    }
}

/// Collects the fields of a process before it is made.
pub struct ProcessBuilder {
    name: Option<String>,
    pid: Option<u32>,
    status: Option<ProcessStatus>,
    run_time: Option<u64>,
    ram: Option<u64>,
}

impl View for ProcessBuilder {
    type V = BuilderView;

    closed spec fn view(&self) -> BuilderView {
        BuilderView {
            name: match self.name {
                Some(n) => Some(n@),
                None => None,
            },
            pid: self.pid,
            status: self.status,
            run_time: self.run_time,
            ram: self.ram,
        }
    }
}

impl Clone for ProcessBuilder {
    fn clone(&self) -> (r: Self)
        ensures
            r@ == self@,
    {
        ProcessBuilder {
            name: match &self.name {
                Some(n) => Some(n.clone()),
                None => None,
            },
            pid: self.pid,
            status: self.status,
            run_time: self.run_time,
            ram: self.ram,
        }
    }
}

impl ProcessBuilder {
    /// A builder with no field set.
    pub fn new() -> (b: ProcessBuilder)
        ensures
            b@ == BuilderView::empty(),
    {
        ProcessBuilder { name: None, pid: None, status: None, run_time: None, ram: None }
    }

    /// Sets the name.
    pub fn name(&mut self, name: String) -> (r: &mut Self)
        ensures
            r@ == (BuilderView { name: Some(name@), ..old(self)@ }),
            *final(self) == *final(r),
    {
        self.name = Some(name);
        self
    }

    /// Sets the pid.
    pub fn pid(&mut self, pid: u32) -> (r: &mut Self)
        ensures
            r@ == (BuilderView { pid: Some(pid), ..old(self)@ }),
            *final(self) == *final(r),
    {
        self.pid = Some(pid);
        self
    }

    /// Sets the run time, in seconds.
    pub fn run_time(&mut self, run_time: u64) -> (r: &mut Self)
        ensures
            r@ == (BuilderView { run_time: Some(run_time), ..old(self)@ }),
            *final(self) == *final(r),
    {
        self.run_time = Some(run_time);
        self
    }

    /// Sets the memory, in bytes.
    pub fn ram(&mut self, ram: u64) -> (r: &mut Self)
        ensures
            r@ == (BuilderView { ram: Some(ram), ..old(self)@ }),
            *final(self) == *final(r),
    {
        self.ram = Some(ram);
        self
    }

    /// Sets the status.
    pub fn status(&mut self, status: ProcessStatus) -> (r: &mut Self)
        ensures
            r@ == (BuilderView { status: Some(status), ..old(self)@ }),
            *final(self) == *final(r),
    {
        self.status = Some(status);
        self
    }

    /// Whether `build` may be called.
    pub fn is_complete(&self) -> (r: bool)
        ensures
            r == self@.complete(),
    {
        self.name.is_some() && self.pid.is_some() && self.run_time.is_some() && self.ram.is_some()
    }

    /// Makes the process. Name, pid, run time and memory must have been set.
    pub fn build(&self) -> (p: Process)
        requires
            self@.complete(),
        ensures
            p@ == self@.built(),
    {
        let name = match &self.name {
            Some(n) => n.clone(),
            None => String::new(),
        };
        Process {
            name,
            pid: self.pid.unwrap(),
            run_time: self.run_time.unwrap(),
            nice: None,
            status: self.status,
            priority: None,
            rt_priority: None,
            ram: self.ram.unwrap(),
        }
    }
}

/// Sticky fields: a scheduling field that is known is the same after any
/// refresh, whatever the accounting text says.
pub proof fn lemma_known_fields_stay(p: ProcessView, stat: Option<Seq<char>>)
    ensures
        p.priority is Some ==> p.refreshed(stat).priority == p.priority,
        p.nice is Some ==> p.refreshed(stat).nice == p.nice,
        p.rt_priority is Some ==> p.refreshed(stat).rt_priority == p.rt_priority,
{
}

/// A refresh changes nothing but the scheduling fields.
pub proof fn lemma_refresh_keeps_provider_fields(p: ProcessView, stat: Option<Seq<char>>)
    ensures
        p.refreshed(stat).name == p.name,
        p.refreshed(stat).pid == p.pid,
        p.refreshed(stat).run_time == p.run_time,
        p.refreshed(stat).ram == p.ram,
        p.refreshed(stat).status == p.status,
{
}

/// An accounting text of fewer than `MIN_COLS` columns, like one that could
/// not be read, leaves the record as it was.
pub proof fn lemma_short_record_changes_nothing(p: ProcessView, text: Seq<char>)
    requires
        words(text).len() < MIN_COLS,
    ensures
        stat_record(text) is None,
        p.refreshed(Some(text)) == p,
        p.refreshed(None) == p,
{
}

/// An accounting text of `MIN_COLS` columns or more resolves all three fields.
pub proof fn lemma_long_record_resolves(p: ProcessView, text: Seq<char>)
    requires
        words(text).len() >= MIN_COLS,
    ensures
        p.refreshed(Some(text)).priority is Some,
        p.refreshed(Some(text)).nice is Some,
        p.refreshed(Some(text)).rt_priority is Some,
{
}

/// Looking twice at the same accounting text gives what looking once gives.
pub proof fn lemma_refresh_twice(p: ProcessView, stat: Option<Seq<char>>)
    ensures
        p.refreshed(stat).refreshed(stat) == p.refreshed(stat),
{
}

} // verus!
