//! The interactive session: the table, the displayed sequence, the filter
//! text, the selection cursor, and what a key or a tick does to them.

use vstd::prelude::*;
use crate::display::{
    ascending, filter_items, lemma_empty_filter_is_identity, shown, sort_by_run_time,
};
use crate::process::{Process, ProcessView};
use crate::text::{pop_char, push_char};
use crate::table::{
    lemma_lists_rearranged, lemma_refresh_twice_same, lists, quantum_value, reconciled, reports,
    Observation, QuantumError, SysProbe,
};

verus! {

/// The period of the refresh timer, in milliseconds.
pub const TICK_RATE_MS: u64 = 1000;

/// A key press, as far as the session tells keys apart.
#[derive(Clone, Copy, Debug, PartialEq, Eq, Structural)]
pub enum Key {
    Char(char),
    Up,
    Down,
    Backspace,
    Other,
}

/// What the caller of `step` does next.
#[derive(Clone, Copy, Debug, PartialEq, Eq, Structural)]
pub enum Action {
    /// The refresh timer has run out: query the provider, hand the reports
    /// to `update_processes` and start the timer anew.
    Refresh,
    /// Nothing to do before the next wait.
    Wait,
}

/// The row selected after moving down from `selected` among `rows` rows:
/// the next one, or the first after the last.
pub open spec fn row_below(selected: Option<usize>, rows: nat) -> usize {
    match selected {
        Some(i) => if i + 1 >= rows {
            0
        } else {
            (i + 1) as usize
        },
        None => 0,
    }
}

/// The row selected after moving up from `selected` among `rows` rows: the
/// one before, or the last before the first.
pub open spec fn row_above(selected: Option<usize>, rows: nat) -> usize {
    match selected {
        Some(i) => if i == 0 {
            if rows == 0 {
                0
            } else {
                (rows - 1) as usize
            }
        } else {
            (i - 1) as usize
        },
        None => 0,
    }
}

/// The cursor wraps at both ends: down from the last row leads to the
/// first, up from the first to the last, and a move inside stays inside.
pub proof fn lemma_cursor_wraps(rows: usize, i: usize)
    requires
        i < rows,
    ensures
        row_below(Some((rows - 1) as usize), rows as nat) == 0,
        row_above(Some(0), rows as nat) == rows - 1,
        row_below(Some(i), rows as nat) < rows,
        row_above(Some(i), rows as nat) < rows,
        i + 1 < rows ==> row_above(Some(row_below(Some(i), rows as nat)), rows as nat) == i,
        i > 0 ==> row_below(Some(row_above(Some(i), rows as nat)), rows as nat) == i,
{
}

/// With no filter text a session displays all its records, in their order.
pub proof fn lemma_no_filter_shows_all(app: App)
    requires
        app.wf(),
        app.filter@.len() == 0,
    ensures
        app.filtered@ == app.items@,
{
    assert(app.filter@ =~= Seq::<char>::empty());
    lemma_empty_filter_is_identity(app.items@);
}

/// How long the next wait for input may last: what is left of the period.
pub open spec fn wait_left(tick_rate: u64, elapsed: u64) -> u64 {
    if elapsed >= tick_rate {
        0
    } else {
        (tick_rate - elapsed) as u64
    }
}

/// The time that the next wait for input may take at most, given the
/// period of the timer and the time since the last refresh.
pub fn remaining_wait(tick_rate: u64, elapsed: u64) -> (r: u64)
    ensures
        r == wait_left(tick_rate, elapsed),
        r <= tick_rate,
        elapsed + r >= tick_rate,
{
    if elapsed >= tick_rate {
        0
    } else {
        tick_rate - elapsed
    }
}

/// A monitoring session.
pub struct App {
    /// The table of live processes.
    pub sys: SysProbe,
    /// The records of the table in order of run time.
    pub items: Vec<Process>,
    /// The records among `items` that the filter lets through.
    pub filtered: Vec<Process>,
    /// The filter text.
    pub filter: String,
    /// The selected row of `filtered`, if any.
    pub selected: Option<usize>,
    /// Whether the session is over.
    pub exit: bool,
}

impl App {
    /// The displayed sequences agree with the table and the filter.
    pub open spec fn wf(&self) -> bool {
        &&& self.sys.wf()
        &&& lists(self.items@, self.sys.processes@)
        &&& ascending(self.items@)
        &&& self.filtered@ == shown(self.items@, self.filter@)
    }

    /// What a key press makes of a session.
    pub open spec fn after_key(self, key: Key, next: App) -> bool {
        &&& next.sys == self.sys
        &&& next.items == self.items
        &&& match key {
            Key::Char('q') => {
                &&& next.exit
                &&& next.filter@ == self.filter@
                &&& next.filtered == self.filtered
                &&& next.selected == self.selected
            },
            Key::Down => {
                &&& next.exit == self.exit
                &&& next.filter@ == self.filter@
                &&& next.filtered == self.filtered
                &&& next.selected == Some(row_below(self.selected, self.filtered@.len()))
            },
            Key::Up => {
                &&& next.exit == self.exit
                &&& next.filter@ == self.filter@
                &&& next.filtered == self.filtered
                &&& next.selected == Some(row_above(self.selected, self.filtered@.len()))
            },
            Key::Char(c) => {
                &&& next.exit == self.exit
                &&& next.filter@ == self.filter@.push(c)
                &&& next.filtered@ == shown(self.items@, next.filter@)
                &&& next.selected == self.selected
            },
            Key::Backspace => {
                &&& next.exit == self.exit
                &&& next.filter@ == (if self.filter@.len() > 0 {
                    self.filter@.drop_last()
                } else {
                    self.filter@
                })
                &&& next.filtered@ == shown(self.items@, next.filter@)
                &&& next.selected == self.selected
            },
            Key::Other => {
                &&& next.exit == self.exit
                &&& next.filter@ == self.filter@
                &&& next.filtered == self.filtered
                &&& next.selected == self.selected
            },
        }
    }

    /// Starts a session: takes the quantum from its text, `None` where
    /// that could not be read, and fills the table from the first reports.
    /// Without a quantum there is no session.
    pub fn new(timeslice: Option<&str>, live: &Vec<Observation>) -> (r: Result<App, QuantumError>)
        ensures
            match r {
                Ok(app) => {
                    &&& timeslice is Some
                    &&& quantum_value(timeslice->0@) == Some(app.sys.quantum)
                    &&& app.sys.table() == reconciled(Map::<u32, ProcessView>::empty(), reports(live@))
                    &&& app.wf()
                    &&& app.filter@ == Seq::<char>::empty()
                    &&& app.selected is None
                    &&& !app.exit
                },
                Err(e) => {
                    &&& e == QuantumError::Unreadable <==> timeslice is None
                    &&& e == QuantumError::Malformed <==> timeslice is Some && quantum_value(
                        timeslice->0@,
                    ) is None
                },
            },
    {
        let mut app = App {
            sys: SysProbe::new(),
            items: Vec::new(),
            filtered: Vec::new(),
            filter: String::new(),
            selected: None,
            exit: false,
        };
        assert(app.sys.table() =~= Map::<u32, ProcessView>::empty());
        match app.sys.init(timeslice, live) {
            Ok(_) => {
                proof {
                    lemma_refresh_twice_same(Map::<u32, ProcessView>::empty(), reports(live@));
                }
                app.update_processes(live);
                Ok(app)
            },
            Err(e) => Err(e),
        }
    }

    /// One refresh: reconciles the table with the reports, puts its
    /// records in order of run time, and applies the filter.
    pub fn update_processes(&mut self, live: &Vec<Observation>)
        ensures
            final(self).sys.table() == reconciled(old(self).sys.table(), reports(live@)),
            final(self).sys.quantum == old(self).sys.quantum,
            final(self).wf(),
            final(self).filter == old(self).filter,
            final(self).selected == old(self).selected,
            final(self).exit == old(self).exit,
    {
        self.sys.refresh_processes(live);
        let all = self.sys.snapshot();
        let ghost unordered = all@;
        self.items = sort_by_run_time(all);
        proof {
            lemma_lists_rearranged(unordered, self.items@, self.sys.processes@);
        }
        self.apply_filter();
    }

    /// Derives the displayed sequence from the records and the filter text.
    /// The records themselves stay as they are.
    pub fn apply_filter(&mut self)
        ensures
            final(self).filtered@ == shown(old(self).items@, old(self).filter@),
            final(self).sys == old(self).sys,
            final(self).items == old(self).items,
            final(self).filter == old(self).filter,
            final(self).selected == old(self).selected,
            final(self).exit == old(self).exit,
    {
        self.filtered = filter_items(&self.items, self.filter.as_str());
    }

    /// Moves the cursor one row down, to the first row after the last.
    pub fn next_row(&mut self)
        ensures
            final(self).selected == Some(row_below(old(self).selected, old(self).filtered@.len())),
            final(self).sys == old(self).sys,
            final(self).items == old(self).items,
            final(self).filtered == old(self).filtered,
            final(self).filter == old(self).filter,
            final(self).exit == old(self).exit,
    {
        let rows: usize = self.filtered.len();
        let i: usize = match self.selected {
            Some(i) => {
                if rows == 0 || i >= rows - 1 {
                    0
                } else {
                    i + 1
                }
            },
            None => 0,
        };
        self.selected = Some(i);
    }

    /// Moves the cursor one row up, to the last row before the first.
    pub fn previous_row(&mut self)
        ensures
            final(self).selected == Some(row_above(old(self).selected, old(self).filtered@.len())),
            final(self).sys == old(self).sys,
            final(self).items == old(self).items,
            final(self).filtered == old(self).filtered,
            final(self).filter == old(self).filter,
            final(self).exit == old(self).exit,
    {
        let rows: usize = self.filtered.len();
        let i: usize = match self.selected {
            Some(i) => {
                if i == 0 {
                    if rows == 0 {
                        0
                    } else {
                        rows - 1
                    }
                } else {
                    i - 1
                }
            },
            None => 0,
        };
        self.selected = Some(i);
    }

    /// Handles one key press: `q` ends the session, the arrows move the
    /// cursor, any other character is added to the filter text, backspace
    /// takes its last character off, and every other key is ignored.
    pub fn handle_key(&mut self, key: Key)
        ensures
            old(self).after_key(key, *final(self)),
            old(self).wf() ==> final(self).wf(),
    {
        match key {
            Key::Char(c) => {
                if c == 'q' {
                    self.exit = true;
                } else {
                    push_char(&mut self.filter, c);
                    self.apply_filter();
                }
            },
            Key::Down => self.next_row(),
            Key::Up => self.previous_row(),
            Key::Backspace => {
                let _ = pop_char(&mut self.filter);
                self.apply_filter();
            },
            Key::Other => {},
        }
    }

    /// One turn of the session after the wait for input: handles the key
    /// that was pressed, if one was, and says whether the refresh timer has
    /// run out, given the time since the last refresh.
    pub fn step(&mut self, key: Option<Key>, elapsed: u64, tick_rate: u64) -> (a: Action)
        ensures
            match key {
                Some(k) => old(self).after_key(k, *final(self)),
                None => *final(self) == *old(self),
            },
            old(self).wf() ==> final(self).wf(),
            a == (if elapsed >= tick_rate {
                Action::Refresh
            } else {
                Action::Wait
            }),
    {
        if let Some(k) = key {
            self.handle_key(k);
        }
        if elapsed >= tick_rate {
            Action::Refresh
        } else {
            Action::Wait
        }
    }
}

} // verus!
