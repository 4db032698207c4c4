//! The text of the table's rows: one cell for each column of a record.

use vstd::prelude::*;
use crate::process::{Process, ProcessStatus, ProcessView};
use crate::text::{decimal, decimal_digits, digit_char, string_of};

verus! {

/// The word that the `sysinfo` crate prints for a status: the status is
/// given as `sysinfo::ProcessStatus`, variant for variant, and written
/// through that type's `Display` impl. The word depends on the platform
/// that the crate was built for, so nothing is claimed of it.
#[verifier::external_body]
fn status_word(status: ProcessStatus) -> (r: String) {
    match status {
        ProcessStatus::Idle => sysinfo::ProcessStatus::Idle,
        ProcessStatus::Run => sysinfo::ProcessStatus::Run,
        ProcessStatus::Sleep => sysinfo::ProcessStatus::Sleep,
        ProcessStatus::Stop => sysinfo::ProcessStatus::Stop,
        ProcessStatus::Zombie => sysinfo::ProcessStatus::Zombie,
        ProcessStatus::Tracing => sysinfo::ProcessStatus::Tracing,
        ProcessStatus::Dead => sysinfo::ProcessStatus::Dead,
        ProcessStatus::Wakekill => sysinfo::ProcessStatus::Wakekill,
        ProcessStatus::Waking => sysinfo::ProcessStatus::Waking,
        ProcessStatus::Parked => sysinfo::ProcessStatus::Parked,
        ProcessStatus::LockBlocked => sysinfo::ProcessStatus::LockBlocked,
        ProcessStatus::UninterruptibleDiskSleep => sysinfo::ProcessStatus::UninterruptibleDiskSleep,
        ProcessStatus::Unknown(n) => sysinfo::ProcessStatus::Unknown(n),
    }.to_string()
}

/// The cells of one row, or the labels of the columns.
#[derive(Debug)]
pub struct Row {
    pub pid: String,
    pub name: String,
    pub status: String,
    pub nice: String,
    pub priority: String,
    pub rt_priority: String,
    pub ram: String,
    pub run_time: String,
}

/// The mathematical value of a `Row`.
pub struct RowView {
    pub pid: Seq<char>,
    pub name: Seq<char>,
    pub status: Seq<char>,
    pub nice: Seq<char>,
    pub priority: Seq<char>,
    pub rt_priority: Seq<char>,
    pub ram: Seq<char>,
    pub run_time: Seq<char>,
}

impl View for Row {
    type V = RowView;

    open spec fn view(&self) -> RowView {
        RowView {
            pid: self.pid@,
            name: self.name@,
            status: self.status@,
            nice: self.nice@,
            priority: self.priority@,
            rt_priority: self.rt_priority@,
            ram: self.ram@,
            run_time: self.run_time@,
        }
    }
}

/// The number of bytes in a megabyte.
pub const MEGABYTE: u64 = 1048576;

/// `n` written in base ten, with a minus sign where it is negative.
pub open spec fn signed_decimal(n: int) -> Seq<char> {
    if n < 0 {
        seq!['-'] + decimal((-n) as nat)
    } else {
        decimal(n as nat)
    }
}

/// A number of bytes in tenths of a megabyte, rounded to the nearest
/// tenth, and to the even one where two are equally near.
pub open spec fn tenths_of_megabyte(ram: u64) -> nat {
    let q = (ram * 10) / (MEGABYTE as int);
    let r = (ram * 10) % (MEGABYTE as int);
    if r * 2 > MEGABYTE || (r * 2 == MEGABYTE && q % 2 == 1) {
        (q + 1) as nat
    } else {
        q as nat
    }
}

/// A number of bytes as megabytes with one decimal place, such as `1.5 MB`.
pub open spec fn ram_text(ram: u64) -> Seq<char> {
    let t = tenths_of_megabyte(ram);
    decimal(t / 10) + seq!['.', digit_char(t % 10), ' ', 'M', 'B']
}

/// The cells of a record's row, given the word for its status. Scheduling
/// fields that are still unknown show as zero.
pub open spec fn row_text(p: ProcessView, status: Seq<char>) -> RowView {
    RowView {
        pid: decimal(p.pid as nat),
        name: p.name,
        status,
        nice: signed_decimal(
            match p.nice {
                Some(v) => v as int,
                None => 0,
            },
        ),
        priority: signed_decimal(
            match p.priority {
                Some(v) => v as int,
                None => 0,
            },
        ),
        rt_priority: decimal(
            match p.rt_priority {
                Some(v) => v as nat,
                None => 0,
            },
        ),
        ram: ram_text(p.ram),
        run_time: decimal(p.run_time as nat),
    }
}

/// The labels of the columns.
pub open spec fn header_text() -> RowView {
    RowView {
        pid: "PID"@,
        name: "Name"@,
        status: "Status"@,
        nice: "Nice"@,
        priority: "Priority"@,
        rt_priority: "RT Priority"@,
        ram: "RAM"@,
        run_time: "Run Time"@,
    }
}

/// Writes a signed number in base ten.
pub fn signed_text(n: i16) -> (r: String)
    ensures
        r@ == signed_decimal(n as int),
{
    if n < 0 {
        let m: u64 = (-(n as i64)) as u64;
        let mut chars: Vec<char> = Vec::new();
        chars.push('-');
        let mut digits = decimal_digits(m);
        let ghost d = digits@;
        chars.append(&mut digits);
        assert(chars@ =~= seq!['-'] + d);
        string_of(&chars)
    } else {
        string_of(&decimal_digits(n as u64))
    }
}

/// Writes a number of bytes as megabytes with one decimal place.
pub fn ram_cell(ram: u64) -> (r: String)
    ensures
        r@ == ram_text(ram),
{
    let scaled: u128 = (ram as u128) * 10;
    let q: u128 = scaled / (MEGABYTE as u128);
    let rest: u128 = scaled % (MEGABYTE as u128);
    let up: bool = rest * 2 > (MEGABYTE as u128) || (rest * 2 == (MEGABYTE as u128) && q % 2 == 1);
    let t: u64 = if up {
        (q + 1) as u64
    } else {
        q as u64
    };
    let mut chars = decimal_digits(t / 10);
    let ghost whole = chars@;
    chars.push('.');
    chars.push((48u8 + (t % 10) as u8) as char);
    chars.push(' ');
    chars.push('M');
    chars.push('B');
    assert(chars@ =~= whole + seq!['.', digit_char((t % 10) as nat), ' ', 'M', 'B']);
    string_of(&chars)
}

/// The word shown for a status: `Unknown` where the status is not known.
/// For a known status it is the word that `sysinfo` prints for it on this
/// platform.
pub fn status_label(status: Option<ProcessStatus>) -> (r: String)
    ensures
        status is None ==> r@ == "Unknown"@,
{
    match status {
        Some(s) => status_word(s),
        None => "Unknown".to_owned(),
    }
}

/// The cells of a record's row, with `status` as the word for its status.
pub fn row_with(p: &Process, status: String) -> (r: Row)
    ensures
        r@ == row_text(p@, status@),
{
    Row {
        pid: string_of(&decimal_digits(p.pid as u64)),
        name: p.name.clone(),
        status,
        nice: signed_text(
            match p.nice {
                Some(v) => v,
                None => 0,
            },
        ),
        priority: signed_text(
            match p.priority {
                Some(v) => v,
                None => 0,
            },
        ),
        rt_priority: string_of(
            &decimal_digits(
                match p.rt_priority {
                    Some(v) => v as u64,
                    None => 0,
                },
            ),
        ),
        ram: ram_cell(p.ram),
        run_time: string_of(&decimal_digits(p.run_time)),
    }
}

/// The cells of a record's row. The status cell holds `Unknown` where
/// the status is not known; every other cell is fixed by the record.
pub fn row_of(p: &Process) -> (r: Row)
    ensures
        r@ == row_text(p@, r.status@),
        p.status is None ==> r@ == row_text(p@, "Unknown"@),
{
    row_with(p, status_label(p.status))
}

/// The rows of the displayed records, in their order.
pub fn rows_of(items: &Vec<Process>) -> (r: Vec<Row>)
    ensures
        r@.len() == items@.len(),
        forall|i: int|
            0 <= i < r@.len() ==> (#[trigger] r@[i])@ == row_text(items@[i]@, r@[i].status@),
        forall|i: int|
            0 <= i < r@.len() && items@[i].status is None ==> (#[trigger] r@[i])@ == row_text(
                items@[i]@,
                "Unknown"@,
            ),
{
    let mut r: Vec<Row> = Vec::new();
    let mut i: usize = 0;
    while i < items.len()
        invariant
            i <= items.len(),
            r@.len() == i,
            forall|k: int|
                0 <= k < r@.len() ==> (#[trigger] r@[k])@ == row_text(items@[k]@, r@[k].status@),
            forall|k: int|
                0 <= k < r@.len() && items@[k].status is None ==> (#[trigger] r@[k])@ == row_text(
                    items@[k]@,
                    "Unknown"@,
                ),
        decreases items.len() - i,
    {
        r.push(row_of(&items[i]));
        i = i + 1;
    }
    r
}

/// The labels of the columns, in a row of their own.
pub fn header() -> (r: Row)
    ensures
        r@ == header_text(),
{
    Row {
        pid: "PID".to_owned(),
        name: "Name".to_owned(),
        status: "Status".to_owned(),
        nice: "Nice".to_owned(),
        priority: "Priority".to_owned(),
        rt_priority: "RT Priority".to_owned(),
        ram: "RAM".to_owned(),
        run_time: "Run Time".to_owned(),
    }
}

} // verus!
