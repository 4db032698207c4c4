use sys_probe::process::{parse_stat, StatRecord};
use sys_probe::table::{parse_quantum, Observation, QuantumError};
use sys_probe::{Process, ProcessStatus, SysProbe};

fn stat_line(columns: usize, priority: &str, nice: &str, rt_priority: &str) -> String {
    let mut cols: Vec<String> = Vec::new();
    for i in 0..columns {
        let col = match i {
            17 => priority.to_string(),
            18 => nice.to_string(),
            39 => rt_priority.to_string(),
            _ => format!("c{}", i),
        };
        cols.push(col);
    }
    cols.join(" ")
}

fn seen(pid: u32, name: &str, run_time: u64, status: ProcessStatus, stat: Option<String>) -> Observation {
    Observation { name: name.to_string(), pid, run_time, ram: 1024 * u64::from(pid), status, stat }
}

fn keys(sys: &SysProbe) -> Vec<u32> {
    let mut k: Vec<u32> = sys.processes.keys().copied().collect();
    k.sort();
    k
}

#[test]
fn process() {
    let mut sysinfo = SysProbe::new();
    let live = vec![seen(1, "init", 5, ProcessStatus::Sleep, None)];
    assert_eq!(sysinfo.init(Some("100\n"), &live), Ok(()));

    assert!(sysinfo.processes.len() > 0);
    assert!(sysinfo.quantum == 100);
}

#[test]
fn process_builder() {
    let process = Process::builder()
        .name("test".to_string())
        .pid(1)
        .run_time(0)
        .ram(0)
        .build();

    assert!(process.name == "test");
    assert!(process.pid == 1);
    assert!(process.run_time == 0);
    assert!(process.ram == 0);
}

#[test]
fn builder_leaves_scheduling_fields_unknown() {
    let mut b = Process::builder();
    b.name("x".to_string()).pid(9).run_time(3).ram(4);
    assert!(b.is_complete());
    let p = b.status(ProcessStatus::Run).build();
    assert_eq!(p.status, Some(ProcessStatus::Run));
    assert_eq!(p.nice, None);
    assert_eq!(p.priority, None);
    assert_eq!(p.rt_priority, None);
    assert!(!Process::builder().is_complete());
}

#[test]
fn stat_fields_by_column() {
    let text = stat_line(52, "20", "-5", "42");
    assert_eq!(parse_stat(&text), Some(StatRecord { priority: 20, nice: -5, rt_priority: 42 }));
}

#[test]
fn stat_real_record() {
    let text = "1234 (bash) S 1 1234 1234 34816 1234 4194304 1500 20000 0 5 10 3 7 2 20 0 1 0 \
                555 12000000 900 18446744073709551615 1 1 0 0 0 0 65536 3670020 1266777851 0 0 0 \
                17 3 0 0 0 0 0 0 0 0 0 0 0 0 0\n";
    assert_eq!(parse_stat(text), Some(StatRecord { priority: 20, nice: 0, rt_priority: 0 }));
}

#[test]
fn stat_with_too_few_columns_is_not_read() {
    assert_eq!(parse_stat(&stat_line(14, "1", "2", "3")), None);
    assert_eq!(parse_stat(""), None);
    assert_eq!(parse_stat("   \n\t "), None);
}

#[test]
fn stat_threshold_is_fifteen_columns() {
    assert_eq!(
        parse_stat(&stat_line(15, "1", "2", "3")),
        Some(StatRecord { priority: 0, nice: 0, rt_priority: 0 })
    );
    assert_eq!(
        parse_stat(&stat_line(19, "7", "-3", "3")),
        Some(StatRecord { priority: 7, nice: -3, rt_priority: 0 })
    );
}

#[test]
fn stat_bad_column_counts_as_zero() {
    let text = stat_line(45, "abc", "19", "-1");
    assert_eq!(parse_stat(&text), Some(StatRecord { priority: 0, nice: 19, rt_priority: 0 }));
    let text = stat_line(45, "32768", "-32768", "65535");
    assert_eq!(parse_stat(&text), Some(StatRecord { priority: 0, nice: -32768, rt_priority: 65535 }));
    let text = stat_line(45, "+32767", "-", "65536");
    assert_eq!(parse_stat(&text), Some(StatRecord { priority: 32767, nice: 0, rt_priority: 0 }));
    let text = stat_line(45, "0007", "1x", "+9");
    assert_eq!(parse_stat(&text), Some(StatRecord { priority: 7, nice: 0, rt_priority: 9 }));
}

#[test]
fn stat_columns_split_at_any_white_space() {
    let text = stat_line(45, "3", "4", "5").replace(' ', "\t \n");
    assert_eq!(parse_stat(&text), Some(StatRecord { priority: 3, nice: 4, rt_priority: 5 }));
    let text = stat_line(45, "3", "4", "5").replace(' ', "\u{2003}");
    assert_eq!(parse_stat(&text), Some(StatRecord { priority: 3, nice: 4, rt_priority: 5 }));
}

#[test]
fn parsing_agrees_with_the_standard_library() {
    for token in ["0", "-0", "+0", "12", "-12", "+12", "32767", "32768", "-32768", "-32769", "", "-", "+", "1 ", "--1", "+-1", "00000000000000000000001", "99999999999999999999", "٣"] {
        let text = stat_line(45, token, token, token);
        let cols: Vec<&str> = text.split_whitespace().collect();
        let want = if cols.len() < 15 {
            None
        } else {
            Some(StatRecord {
                priority: cols.get(17).and_then(|c| c.parse::<i16>().ok()).unwrap_or(0),
                nice: cols.get(18).and_then(|c| c.parse::<i16>().ok()).unwrap_or(0),
                rt_priority: cols.get(39).and_then(|c| c.parse::<u16>().ok()).unwrap_or(0),
            })
        };
        assert_eq!(parse_stat(&text), want, "token {:?}", token);
    }
}

#[test]
fn refresh_fills_only_unknown_fields() {
    let mut p = Process::builder().name("a".to_string()).pid(1).run_time(0).ram(0).build();
    p.refresh(None);
    assert_eq!((p.priority, p.nice, p.rt_priority), (None, None, None));
    p.refresh(Some(&stat_line(10, "1", "2", "3")));
    assert_eq!((p.priority, p.nice, p.rt_priority), (None, None, None));
    p.refresh(Some(&stat_line(45, "1", "2", "3")));
    assert_eq!((p.priority, p.nice, p.rt_priority), (Some(1), Some(2), Some(3)));
    p.refresh(Some(&stat_line(45, "7", "8", "9")));
    assert_eq!((p.priority, p.nice, p.rt_priority), (Some(1), Some(2), Some(3)));
}

#[test]
fn fill_unresolved_keeps_known_fields() {
    let mut p = Process::builder().name("a".to_string()).pid(1).run_time(0).ram(0).build();
    p.nice = Some(-4);
    p.fill_unresolved(StatRecord { priority: 20, nice: 5, rt_priority: 1 });
    assert_eq!((p.priority, p.nice, p.rt_priority), (Some(20), Some(-4), Some(1)));
}

#[test]
fn quantum_is_read_from_trimmed_text() {
    assert_eq!(parse_quantum("100\n"), Some(100));
    assert_eq!(parse_quantum("  \t4294967295 \n"), Some(4294967295));
    assert_eq!(parse_quantum("4294967296"), None);
    assert_eq!(parse_quantum("-1"), None);
    assert_eq!(parse_quantum("1 0"), None);
    assert_eq!(parse_quantum(""), None);
    assert_eq!(parse_quantum("+25"), Some(25));
}

#[test]
fn quantum_errors() {
    let mut sys = SysProbe::new();
    assert_eq!(sys.set_quantum(None), Err(QuantumError::Unreadable));
    assert_eq!(sys.set_quantum(Some("fast")), Err(QuantumError::Malformed));
    assert_eq!(sys.quantum, 0);
    assert_eq!(sys.set_quantum(Some("25")), Ok(()));
    assert_eq!(sys.quantum, 25);
    let live = vec![seen(1, "a", 1, ProcessStatus::Run, None)];
    assert_eq!(sys.init(Some("x"), &live), Err(QuantumError::Malformed));
    assert_eq!(sys.init(None, &live), Err(QuantumError::Unreadable));
    assert_eq!(sys.quantum, 25);
    assert!(sys.processes.is_empty());
}

#[test]
fn keys_follow_the_live_set() {
    let mut sys = SysProbe::new();
    let first = vec![
        seen(1, "a", 1, ProcessStatus::Run, None),
        seen(2, "b", 2, ProcessStatus::Sleep, None),
        seen(3, "c", 3, ProcessStatus::Idle, None),
    ];
    sys.refresh_processes(&first);
    assert_eq!(keys(&sys), vec![1, 2, 3]);
    let second = vec![
        seen(3, "c", 4, ProcessStatus::Idle, None),
        seen(1, "a", 2, ProcessStatus::Run, None),
    ];
    sys.refresh_processes(&second);
    assert_eq!(keys(&sys), vec![1, 3]);
    sys.refresh_processes(&Vec::new());
    assert_eq!(keys(&sys), Vec::<u32>::new());
}

#[test]
fn dead_and_zombie_are_dropped() {
    let mut sys = SysProbe::new();
    let first = vec![
        seen(1, "a", 1, ProcessStatus::Run, None),
        seen(2, "b", 2, ProcessStatus::Zombie, None),
        seen(3, "c", 3, ProcessStatus::Dead, None),
        seen(4, "d", 4, ProcessStatus::Stop, None),
        seen(5, "e", 5, ProcessStatus::Unknown(7), None),
    ];
    sys.refresh_processes(&first);
    assert_eq!(keys(&sys), vec![1, 4, 5]);
    let second = vec![
        seen(1, "a", 1, ProcessStatus::Dead, None),
        seen(4, "d", 4, ProcessStatus::Stop, None),
    ];
    sys.refresh_processes(&second);
    assert_eq!(keys(&sys), vec![4]);
}

#[test]
fn refresh_updates_figures_and_keeps_scheduling_fields() {
    let mut sys = SysProbe::new();
    sys.refresh_processes(&vec![seen(7, "job", 10, ProcessStatus::Run, Some(stat_line(45, "20", "5", "0")))]);
    let p = &sys.processes[&7];
    assert_eq!((p.priority, p.nice, p.rt_priority), (Some(20), Some(5), Some(0)));
    assert_eq!((p.run_time, p.ram, p.status), (10, 7168, Some(ProcessStatus::Run)));
    let mut again = seen(7, "job", 11, ProcessStatus::Sleep, Some(stat_line(45, "1", "1", "1")));
    again.ram = 9000;
    sys.refresh_processes(&vec![again]);
    let p = &sys.processes[&7];
    assert_eq!((p.priority, p.nice, p.rt_priority), (Some(20), Some(5), Some(0)));
    assert_eq!((p.run_time, p.ram, p.status), (11, 9000, Some(ProcessStatus::Sleep)));
    assert_eq!(p.name, "job");
    assert_eq!(p.pid, 7);
}

#[test]
fn unknown_fields_are_tried_again_each_cycle() {
    let mut sys = SysProbe::new();
    sys.refresh_processes(&vec![seen(7, "job", 10, ProcessStatus::Run, None)]);
    assert_eq!(sys.processes[&7].nice, None);
    sys.refresh_processes(&vec![seen(7, "job", 10, ProcessStatus::Run, Some("1 2 3".to_string()))]);
    assert_eq!(sys.processes[&7].nice, None);
    sys.refresh_processes(&vec![seen(7, "job", 10, ProcessStatus::Run, Some(stat_line(45, "2", "3", "4")))]);
    assert_eq!(sys.processes[&7].nice, Some(3));
}

#[test]
fn refreshing_twice_changes_nothing() {
    let live = vec![
        seen(1, "a", 1, ProcessStatus::Run, Some(stat_line(45, "2", "3", "4"))),
        seen(2, "b", 2, ProcessStatus::Sleep, None),
        seen(3, "c", 2, ProcessStatus::Zombie, None),
    ];
    let mut sys = SysProbe::new();
    sys.refresh_processes(&live);
    let once: Vec<String> = {
        let mut v: Vec<String> = sys.processes.values().map(|p| format!("{:?}", p)).collect();
        v.sort();
        v
    };
    sys.refresh_processes(&live);
    let mut twice: Vec<String> = sys.processes.values().map(|p| format!("{:?}", p)).collect();
    twice.sort();
    assert_eq!(once, twice);
    assert_eq!(once.len(), 2);
}

#[test]
fn snapshot_lists_each_record_once() {
    let mut sys = SysProbe::new();
    sys.refresh_processes(&vec![
        seen(5, "e", 1, ProcessStatus::Run, None),
        seen(2, "b", 2, ProcessStatus::Run, None),
        seen(9, "i", 3, ProcessStatus::Run, None),
    ]);
    let mut pids = sys.pids();
    pids.sort();
    assert_eq!(pids, vec![2, 5, 9]);
    let mut names: Vec<String> = sys.snapshot().into_iter().map(|p| p.name).collect();
    names.sort();
    assert_eq!(names, vec!["b", "e", "i"]);
}

#[test]
fn terminal_statuses() {
    assert!(ProcessStatus::Dead.terminal());
    assert!(ProcessStatus::Zombie.terminal());
    assert!(!ProcessStatus::Run.terminal());
    assert!(!ProcessStatus::Unknown(0).terminal());
}

#[test]
fn quantum_agrees_with_the_standard_library() {
    for text in ["100\n", " 7", "\u{a0}12\u{3000}", "\u{85}3\u{2028}", "\u{200b}5", "1_000", "0x10", "+0", "-0", "4294967295", "4294967296", "", " ", "١٢"] {
        assert_eq!(parse_quantum(text), text.trim().parse::<u32>().ok(), "text {:?}", text);
    }
}

#[test]
fn duplicate_reports_follow_the_last_one() {
    let mut sys = SysProbe::new();
    sys.refresh_processes(&vec![
        seen(1, "a", 1, ProcessStatus::Run, None),
        seen(2, "b", 2, ProcessStatus::Run, None),
        seen(1, "a", 5, ProcessStatus::Zombie, None),
        seen(2, "b", 9, ProcessStatus::Sleep, None),
    ]);
    assert_eq!(keys(&sys), vec![2]);
    assert_eq!(sys.processes[&2].run_time, 9);
}
