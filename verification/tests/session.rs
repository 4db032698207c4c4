use sys_probe::display::{filter_items, sort_by_run_time};
use sys_probe::session::{remaining_wait, Action, Key, TICK_RATE_MS};
use sys_probe::table::{Observation, QuantumError};
use sys_probe::text::{contains, decimal_digits, lowercase};
use sys_probe::{App, Process, ProcessStatus};

fn record(pid: u32, name: &str, run_time: u64) -> Process {
    Process::builder().name(name.to_string()).pid(pid).run_time(run_time).ram(0).build()
}

fn report(pid: u32, name: &str, run_time: u64) -> Observation {
    Observation { name: name.to_string(), pid, run_time, ram: 0, status: ProcessStatus::Run, stat: None }
}

fn pids(items: &[Process]) -> Vec<u32> {
    items.iter().map(|p| p.pid).collect()
}

fn chars(s: &str) -> Vec<char> {
    s.chars().collect()
}

fn session(rows: u32) -> App {
    let live: Vec<Observation> = (1..=rows).map(|i| report(i, "p", u64::from(i))).collect();
    App::new(Some("100"), &live).unwrap()
}

#[test]
fn empty_filter_shows_everything_in_order() {
    let items = vec![record(3, "c", 1), record(1, "a", 2), record(2, "b", 3)];
    assert_eq!(pids(&filter_items(&items, "")), vec![3, 1, 2]);
}

#[test]
fn filter_by_pid_digits() {
    let items = vec![record(12, "a", 1), record(7, "b", 2), record(123, "c", 3)];
    assert_eq!(pids(&filter_items(&items, "12")), vec![12, 123]);
    assert_eq!(pids(&filter_items(&items, "7")), vec![7]);
    assert_eq!(pids(&filter_items(&items, "23")), vec![123]);
    assert_eq!(pids(&filter_items(&items, "124")), Vec::<u32>::new());
}

#[test]
fn filter_by_name_or_pid() {
    let items = vec![record(12, "nginx", 1), record(123, "bash", 2)];
    assert_eq!(pids(&filter_items(&items, "12")), vec![12, 123]);
    assert_eq!(pids(&filter_items(&items, "ngi")), vec![12]);
}

#[test]
fn filter_ignores_ascii_case() {
    let items = vec![record(1, "Nginx", 1), record(2, "bash", 2), record(3, "BASHful", 3)];
    assert_eq!(pids(&filter_items(&items, "NGI")), vec![1]);
    assert_eq!(pids(&filter_items(&items, "bAsH")), vec![2, 3]);
    assert_eq!(pids(&filter_items(&items, "x")), vec![1]);
}

#[test]
fn text_helpers() {
    assert_eq!(decimal_digits(0), chars("0"));
    assert_eq!(decimal_digits(4294967295), chars("4294967295"));
    assert_eq!(decimal_digits(18446744073709551615), chars("18446744073709551615"));
    assert_eq!(lowercase(&chars("AbC-Z[É")), chars("abc-z[É"));
    assert!(contains(&chars("hello"), &chars("")));
    assert!(contains(&chars(""), &chars("")));
    assert!(contains(&chars("hello"), &chars("llo")));
    assert!(contains(&chars("hello"), &chars("hello")));
    assert!(!contains(&chars("hello"), &chars("hellos")));
    assert!(!contains(&chars("hello"), &chars("lol")));
}

#[test]
fn sort_is_ascending_and_keeps_every_record() {
    let items = vec![record(1, "a", 30), record(2, "b", 10), record(3, "c", 20), record(4, "d", 10)];
    let sorted = sort_by_run_time(items);
    assert_eq!(pids(&sorted), vec![2, 4, 3, 1]);
    assert_eq!(pids(&sort_by_run_time(Vec::new())), Vec::<u32>::new());
}

#[test]
fn session_starts_with_sorted_rows() {
    let live = vec![report(5, "e", 50), report(6, "f", 5), report(7, "g", 20)];
    let app = App::new(Some(" 100\n"), &live).unwrap();
    assert_eq!(app.sys.quantum, 100);
    assert_eq!(pids(&app.items), vec![6, 7, 5]);
    assert_eq!(pids(&app.filtered), vec![6, 7, 5]);
    assert_eq!(app.filter, "");
    assert_eq!(app.selected, None);
    assert!(!app.exit);
}

#[test]
fn session_needs_a_quantum() {
    assert_eq!(App::new(None, &Vec::new()).err(), Some(QuantumError::Unreadable));
    assert_eq!(App::new(Some("ms"), &Vec::new()).err(), Some(QuantumError::Malformed));
}

#[test]
fn selection_wraps_at_both_ends() {
    let mut app = session(3);
    app.next_row();
    assert_eq!(app.selected, Some(0));
    app.next_row();
    assert_eq!(app.selected, Some(1));
    app.next_row();
    assert_eq!(app.selected, Some(2));
    app.next_row();
    assert_eq!(app.selected, Some(0));
    app.previous_row();
    assert_eq!(app.selected, Some(2));
    app.previous_row();
    assert_eq!(app.selected, Some(1));
}

#[test]
fn selection_on_no_rows() {
    let mut app = session(0);
    app.previous_row();
    assert_eq!(app.selected, Some(0));
    app.next_row();
    assert_eq!(app.selected, Some(0));
    app.previous_row();
    assert_eq!(app.selected, Some(0));
}

#[test]
fn selection_follows_the_displayed_rows() {
    let live = vec![report(12, "nginx", 1), report(123, "bash", 2), report(7, "cron", 3)];
    let mut app = App::new(Some("100"), &live).unwrap();
    app.handle_key(Key::Char('1'));
    app.handle_key(Key::Char('2'));
    assert_eq!(pids(&app.filtered), vec![12, 123]);
    app.handle_key(Key::Up);
    assert_eq!(app.selected, Some(0));
    app.handle_key(Key::Up);
    assert_eq!(app.selected, Some(1));
    app.handle_key(Key::Down);
    assert_eq!(app.selected, Some(0));
}

#[test]
fn keys_edit_the_filter() {
    let live = vec![report(12, "nginx", 1), report(123, "bash", 2)];
    let mut app = App::new(Some("100"), &live).unwrap();
    app.handle_key(Key::Char('n'));
    app.handle_key(Key::Char('G'));
    assert_eq!(app.filter, "nG");
    assert_eq!(pids(&app.filtered), vec![12]);
    app.handle_key(Key::Char('x'));
    assert_eq!(app.filter, "nGx");
    assert_eq!(pids(&app.filtered), Vec::<u32>::new());
    app.handle_key(Key::Backspace);
    app.handle_key(Key::Backspace);
    app.handle_key(Key::Backspace);
    assert_eq!(app.filter, "");
    assert_eq!(pids(&app.filtered), vec![12, 123]);
    app.handle_key(Key::Backspace);
    assert_eq!(app.filter, "");
    app.handle_key(Key::Other);
    assert_eq!(pids(&app.items), vec![12, 123]);
    assert!(!app.exit);
}

#[test]
fn q_ends_the_session() {
    let mut app = session(2);
    app.handle_key(Key::Char('Q'));
    assert!(!app.exit);
    assert_eq!(app.filter, "Q");
    app.handle_key(Key::Char('q'));
    assert!(app.exit);
    assert_eq!(app.filter, "Q");
}

#[test]
fn step_reports_when_the_timer_has_run_out() {
    let mut app = session(2);
    assert_eq!(app.step(None, 0, TICK_RATE_MS), Action::Wait);
    assert_eq!(app.step(None, 999, TICK_RATE_MS), Action::Wait);
    assert_eq!(app.step(None, 1000, TICK_RATE_MS), Action::Refresh);
    assert_eq!(app.step(Some(Key::Down), 1500, TICK_RATE_MS), Action::Refresh);
    assert_eq!(app.selected, Some(0));
    assert_eq!(app.step(Some(Key::Char('q')), 10, TICK_RATE_MS), Action::Wait);
    assert!(app.exit);
}

#[test]
fn wait_never_exceeds_what_is_left() {
    assert_eq!(TICK_RATE_MS, 1000);
    assert_eq!(remaining_wait(1000, 0), 1000);
    assert_eq!(remaining_wait(1000, 250), 750);
    assert_eq!(remaining_wait(1000, 1000), 0);
    assert_eq!(remaining_wait(1000, 5000), 0);
}

#[test]
fn update_keeps_filter_and_cursor() {
    let mut app = session(3);
    app.handle_key(Key::Char('2'));
    app.handle_key(Key::Down);
    let live = vec![report(2, "p", 9), report(20, "p", 1), report(3, "p", 5)];
    app.update_processes(&live);
    assert_eq!(pids(&app.items), vec![20, 3, 2]);
    assert_eq!(pids(&app.filtered), vec![20, 2]);
    assert_eq!(app.filter, "2");
    assert_eq!(app.selected, Some(0));
}

#[test]
fn white_space_is_what_the_standard_library_says() {
    for n in 0..=0x10FFFFu32 {
        if let Some(c) = char::from_u32(n) {
            assert_eq!(sys_probe::text::char_is_space(c), c.is_whitespace(), "char {:?}", c);
            assert_eq!(sys_probe::text::to_lower(c), c.to_ascii_lowercase(), "char {:?}", c);
        }
    }
}

#[test]
fn decimal_agrees_with_the_standard_library() {
    for n in [0u64, 9, 10, 11, 99, 100, 12345, 4294967295, 4294967296, u64::MAX] {
        assert_eq!(decimal_digits(n), chars(&n.to_string()));
    }
}

#[test]
fn words_are_split_as_the_standard_library_splits() {
    for text in ["", " ", "a", " a ", "a  b", "\ta\nb\r\n c\u{a0}d\u{3000}", "1 (my proc) S 0", "é\u{2003}ü "] {
        let got: Vec<String> = sys_probe::text::split_words(&chars(text)).iter().map(|w| w.iter().collect()).collect();
        let want: Vec<String> = text.split_whitespace().map(|w| w.to_string()).collect();
        assert_eq!(got, want, "text {:?}", text);
        let trimmed: String = sys_probe::text::trim(&chars(text)).iter().collect();
        assert_eq!(trimmed, text.trim(), "text {:?}", text);
    }
}
