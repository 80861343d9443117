use nicewatch::proc_scan::{
    comm_from_stat, parse_btime, parse_cpu_busy, parse_meminfo_kb, parse_stat, parse_status_uid,
    parse_system_mem, pid_of_dir_name, rss_kb_from_statm, sort_by_pid, start_secs, uid_to_user,
    unified_cgroup_line, ProcEntry,
};

#[test]
fn parse_stat_handles_parens_and_comm_spaces() {
    let line = "4242 (foo ) (bar) R 1 2 3 4 5 6 7 8 9 10 11 12 13 14 15 16 17 18 19 20 21";
    let (comm, state, ppid, utime, stime, nice, starttime) = parse_stat(line).unwrap();
    assert_eq!(comm, "foo ) (bar");
    assert_eq!(state, 'R');
    assert_eq!(ppid, 1);
    assert_eq!(utime, 11);
    assert_eq!(stime, 12);
    assert_eq!(nice, 16);
    assert_eq!(starttime, 19);
}

#[test]
fn malformed_stat_lines_are_rejected() {
    assert!(parse_stat("4242 foo R 1").is_none());
    assert!(parse_stat("4242 (foo) R 1 2 3").is_none());
    assert_eq!(comm_from_stat("1 (a b) S").as_deref(), Some("a b"));
}

#[test]
fn stat_comm_is_taken_verbatim() {
    let line = "1 ( a ) R 1 2 3 4 5 6 7 8 9 10 11 12 13 14 15 16 17 18 19 20 21";
    assert_eq!(parse_stat(line).unwrap().0, " a ");
}

#[test]
fn uid_fallback_is_numeric() {
    assert_eq!(uid_to_user(u32::MAX, None), u32::MAX.to_string());
    assert_eq!(uid_to_user(1000, Some("alice".into())), "alice");
}

#[test]
fn system_cpu_stat_parsing() {
    // busy = total - idle(80+5); total = 103; busy = 18.
    let text = "cpu  10 0 5 80 5 1 2 0\ncpu0 2 0 1 40 0 0 1 0\nbtime 100\n";
    assert_eq!(parse_cpu_busy(text), Some((18, 103)));
    assert_eq!(parse_cpu_busy("btime 1\n"), Some((0, 0)));
    assert_eq!(parse_cpu_busy("cpu  1 2 3\n"), Some((0, 0)));
    assert_eq!(parse_btime(text), 100);
}

#[test]
fn proc_file_parsers() {
    assert_eq!(parse_status_uid("Name:\tx\nUid:\t1000\t1000\t1000\t1000\n"), 1000);
    assert_eq!(rss_kb_from_statm("500000 200 0 0 0 0 0\n", 4), 800);
    assert_eq!(parse_meminfo_kb(&"   16000 kB".chars().collect()), 16000);
    assert_eq!(
        parse_system_mem("MemTotal:       16000 kB\nMemFree: 1 kB\nMemAvailable:    6000 kB\n"),
        (16000, 10000)
    );
    assert_eq!(parse_system_mem(""), (0, 0));
    assert_eq!(pid_of_dir_name("1234"), Some(1234));
    assert_eq!(pid_of_dir_name("notanumber"), None);
    assert_eq!(start_secs(1_700_000_000, 3000, 100), 1_700_000_030);
    assert_eq!(
        unified_cgroup_line("1:cpu:/x\n0::/user.slice/app.slice\n").as_deref(),
        Some("0::/user.slice/app.slice")
    );
}

fn proc_entry(pid: u32, name: &str) -> ProcEntry {
    ProcEntry {
        pid,
        ppid: 1,
        name: name.into(),
        state: 'S',
        utime: 0,
        stime: 0,
        nice: 0,
        rss_kb: 0,
        uid: 0,
        start_secs: 0,
        exe: None,
        environ: None,
        cmdline: None,
        has_dri_fd: false,
        cgroup: None,
    }
}

#[test]
fn scanned_entries_come_out_by_pid() {
    let v = vec![proc_entry(300, "c"), proc_entry(2, "a"), proc_entry(41, "b"), proc_entry(1000, "d")];
    let sorted = sort_by_pid(v);
    let pids: Vec<u32> = sorted.iter().map(|e| e.pid).collect();
    assert_eq!(pids, vec![2, 41, 300, 1000]);
    let names: Vec<&str> = sorted.iter().map(|e| e.name.as_str()).collect();
    assert_eq!(names, vec!["a", "b", "c", "d"]);
    assert!(sort_by_pid(Vec::new()).is_empty());
}
