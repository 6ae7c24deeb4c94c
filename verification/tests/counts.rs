use num_threads::dragonfly::ProcReply;
use num_threads::macos::TaskInfoReply;
use num_threads::netbsd::{Fill, Lwp, LwpList};
use num_threads::openbsd::{buffer_len, buffer_records, fill_is_sound, ProcList, ProcRecord};
use num_threads::proc_stat;
use num_threads::windows::{ProcessEntry, Snapshot};
use num_threads::{is_single_threaded, non_zero, num_threads, whole_records, ProcessInfo};

/// The count as the standard library reads it from a stat record.
fn std_count(stat: &str) -> Option<usize> {
    stat.rsplit(')')
        .next()
        .and_then(|rest| rest.split_whitespace().nth(17))
        .and_then(|field| field.parse::<std::num::NonZeroUsize>().ok())
        .map(|n| n.get())
}

fn stat_with(name: &str, threads: &str) -> String {
    format!(
        "4242 ({}) S 1 4242 4242 0 -1 4194560 1270 0 0 0 3 1 0 0 20 0 {} 0 1897 9547776 819 18446744073709551615",
        name, threads
    )
}

fn linux(stat: &str) -> ProcessInfo {
    ProcessInfo::ProcStat(Some(stat.to_string()))
}

#[test]
fn stat_record_gives_threads() {
    assert_eq!(num_threads(&linux(&stat_with("cat", "5"))), Some(5));
    assert_eq!(num_threads(&linux(&stat_with("cat", "1"))), Some(1));
    assert_eq!(proc_stat::thread_count(&stat_with("bash", "17")), Some(17));
}

#[test]
fn stat_command_name_with_spaces_and_parens() {
    let a = stat_with("a) b (c) d", "3");
    assert_eq!(num_threads(&linux(&a)), Some(3));
    let b = stat_with("x", "3");
    assert_eq!(num_threads(&linux(&a)), num_threads(&linux(&b)));
}

#[test]
fn stat_unreadable_or_short() {
    assert_eq!(num_threads(&ProcessInfo::ProcStat(None)), None);
    assert_eq!(num_threads(&linux("")), None);
    assert_eq!(num_threads(&linux("1 (x) S 1 2 3")), None);
}

#[test]
fn stat_field_parsing() {
    assert_eq!(num_threads(&linux(&stat_with("x", "0"))), None);
    assert_eq!(num_threads(&linux(&stat_with("x", "+7"))), Some(7));
    assert_eq!(num_threads(&linux(&stat_with("x", "-7"))), None);
    assert_eq!(num_threads(&linux(&stat_with("x", "+"))), None);
    assert_eq!(num_threads(&linux(&stat_with("x", "007"))), Some(7));
    assert_eq!(num_threads(&linux(&stat_with("x", "7a"))), None);
    let max = usize::MAX.to_string();
    assert_eq!(num_threads(&linux(&stat_with("x", &max))), Some(usize::MAX));
    let over = format!("{}0", usize::MAX);
    assert_eq!(num_threads(&linux(&stat_with("x", &over))), None);
}

#[test]
fn stat_unicode_white_space_separates_fields() {
    let s = "1 (x) S\u{a0}1 2 3 4 5 6 7 8 9 10 11 12 13 14 15 16\u{3000}9\u{2028}0";
    assert_eq!(num_threads(&linux(s)), Some(9));
    assert_eq!(num_threads(&linux(s)), std_count(s));
}

#[test]
fn stat_agrees_with_std() {
    let samples = [
        stat_with("cat", "5"),
        stat_with("a) (b", "12"),
        stat_with("x", "0"),
        stat_with("x", "+4"),
        stat_with("x", "-4"),
        stat_with("x", "ü"),
        stat_with("x", "99999999999999999999999999"),
        "no parens at all 1 2 3 4 5 6 7 8 9 10 11 12 13 14 15 16 17 18".to_string(),
        ")".to_string(),
        "  \t\n ".to_string(),
        "1 (x)\u{85}S 1 2 3 4 5 6 7 8 9 10 11 12 13 14 15 16\u{1680}8 x".to_string(),
        "1 (x) S 1 2 3 4 5 6 7 8 9 10 11 12 13 14 15 16 \u{200b}8".to_string(),
    ];
    for s in samples.iter() {
        assert_eq!(proc_stat::thread_count(s), std_count(s), "{:?}", s);
    }
}

#[test]
fn single_threaded_follows_count() {
    assert_eq!(is_single_threaded(&linux(&stat_with("x", "1"))), Some(true));
    assert_eq!(is_single_threaded(&linux(&stat_with("x", "2"))), Some(false));
    assert_eq!(is_single_threaded(&linux(&stat_with("x", "6"))), Some(false));
    assert_eq!(is_single_threaded(&ProcessInfo::ProcStat(None)), None);
    assert_eq!(is_single_threaded(&ProcessInfo::FreeBsd(Some(0))), None);
}

#[test]
fn freebsd_record() {
    assert_eq!(num_threads(&ProcessInfo::FreeBsd(Some(4))), Some(4));
    assert_eq!(num_threads(&ProcessInfo::FreeBsd(Some(0))), None);
    assert_eq!(num_threads(&ProcessInfo::FreeBsd(None)), None);
    assert_eq!(num_threads(&ProcessInfo::FreeBsd(Some(-1))), Some(usize::MAX));
}

fn dragonfly(status: i32, len: usize, record_pid: i32, record_threads: i32) -> ProcessInfo {
    ProcessInfo::DragonFly(ProcReply { status, len, expected_len: 1088, pid: 77, record_pid, record_threads })
}

#[test]
fn dragonfly_record() {
    assert_eq!(num_threads(&dragonfly(0, 1088, 77, 3)), Some(3));
    assert_eq!(num_threads(&dragonfly(-1, 1088, 77, 3)), None);
    assert_eq!(num_threads(&dragonfly(0, 1000, 77, 3)), None);
    assert_eq!(num_threads(&dragonfly(0, 1088, 78, 3)), None);
    assert_eq!(num_threads(&dragonfly(0, 1088, 77, 0)), None);
}

fn macos(allocated: bool, status: i32, expected_len: usize, record_threads: i32) -> ProcessInfo {
    ProcessInfo::MacOs(TaskInfoReply { allocated, status, expected_len, record_threads })
}

#[test]
fn macos_record() {
    assert_eq!(num_threads(&macos(true, 96, 96, 2)), Some(2));
    assert_eq!(num_threads(&macos(false, 96, 96, 2)), None);
    assert_eq!(num_threads(&macos(true, 0, 96, 2)), None);
    assert_eq!(num_threads(&macos(true, 96, 96, 0)), None);
}

fn lwp(pid: i32, state: i32) -> Lwp {
    Lwp { pid, state }
}

#[test]
fn netbsd_lwps() {
    let list = LwpList {
        pid: 9,
        idle_state: 1,
        zombie_state: 5,
        lwps: vec![lwp(9, 2), lwp(9, 1), lwp(8, 2), lwp(9, 5), lwp(9, 3), lwp(9, 7)],
    };
    assert_eq!(num_threads(&ProcessInfo::NetBsd(Some(list))), Some(3));
    let none_live = LwpList { pid: 9, idle_state: 1, zombie_state: 5, lwps: vec![lwp(9, 5), lwp(4, 2)] };
    assert_eq!(num_threads(&ProcessInfo::NetBsd(Some(none_live))), None);
    assert_eq!(num_threads(&ProcessInfo::NetBsd(None)), None);
}

#[test]
fn netbsd_fill_steps() {
    assert!(matches!(num_threads::netbsd::after_fill(0, false), Fill::Done));
    assert!(matches!(num_threads::netbsd::after_fill(0, true), Fill::Done));
    assert!(matches!(num_threads::netbsd::after_fill(-1, true), Fill::Retry));
    assert!(matches!(num_threads::netbsd::after_fill(-1, false), Fill::Failed));
}

fn rec(pid: i32, tid: i32) -> ProcRecord {
    ProcRecord { pid, tid }
}

#[test]
fn openbsd_records() {
    let list = ProcList { pid: 5, records: vec![rec(5, 100), rec(5, -1), rec(5, 101), rec(6, 102)] };
    assert_eq!(num_threads(&ProcessInfo::OpenBsd(Some(list))), Some(2));
    let only_process = ProcList { pid: 5, records: vec![rec(5, -1)] };
    assert_eq!(num_threads(&ProcessInfo::OpenBsd(Some(only_process))), None);
    assert_eq!(num_threads(&ProcessInfo::OpenBsd(None)), None);
}

#[test]
fn openbsd_buffer_sizing() {
    assert_eq!(buffer_records(644 * 16, 644), 18);
    assert_eq!(buffer_records(644 * 7, 644), 7);
    assert_eq!(buffer_records(644 * 7 + 100, 644), 7);
    assert_eq!(buffer_len(18, 644), 18 * 644);
    assert!(fill_is_sound(644 * 3, 644, 18));
    assert!(!fill_is_sound(644 * 3 + 1, 644, 18));
    assert!(!fill_is_sound(644 * 19, 644, 18));
    assert!(fill_is_sound(644 * 18, 644, 18));
}

fn entry(process_id: u32, threads: u32) -> ProcessEntry {
    ProcessEntry { process_id, threads }
}

#[test]
fn windows_snapshot() {
    let s = Snapshot { pid: 7, entries: vec![entry(3, 9), entry(7, 4), entry(7, 5)] };
    assert_eq!(num_threads(&ProcessInfo::Windows(s)), Some(4));
    let missing = Snapshot { pid: 8, entries: vec![entry(3, 9), entry(7, 4)] };
    assert_eq!(num_threads(&ProcessInfo::Windows(missing)), None);
    let empty = Snapshot { pid: 8, entries: vec![] };
    assert_eq!(num_threads(&ProcessInfo::Windows(empty)), None);
    let zero = Snapshot { pid: 3, entries: vec![entry(3, 0), entry(3, 2)] };
    assert_eq!(num_threads(&ProcessInfo::Windows(zero)), None);
}

#[test]
fn helpers() {
    assert_eq!(non_zero(0), None);
    assert_eq!(non_zero(12), Some(12));
    assert_eq!(whole_records(100, 30), 3);
    assert_eq!(whole_records(0, 30), 0);
    assert!(proc_stat::is_white_space('\u{a0}'));
    assert!(!proc_stat::is_white_space('\u{200b}'));
    for c in ['\t', '\n', ' ', '\u{85}', '\u{2000}', '\u{200a}', '\u{3000}', 'a', '\u{180e}', '\u{feff}'] {
        assert_eq!(proc_stat::is_white_space(c), c.is_whitespace(), "{:?}", c);
    }
}

#[test]
fn white_space_is_char_is_whitespace() {
    for u in 0..=0x10ffffu32 {
        if let Some(c) = char::from_u32(u) {
            assert_eq!(proc_stat::is_white_space(c), c.is_whitespace(), "{:?}", c);
        }
    }
}
