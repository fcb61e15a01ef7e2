use icie::debug::{
    gdb_command, rr_lacks_permission, rr_record_args, rr_replay_command, CONFIGURE_PERF_EVENT_PARANOID,
    RR_NOT_CONFIGURED,
};

#[test]
fn gdb_command_line() {
    assert_eq!(
        gdb_command("/usr/bin/gdb", "/w/main.e", "'/w/tests/1.in'"),
        vec!["/usr/bin/gdb", "-q", "/w/main.e", "-ex", "set args < '/w/tests/1.in'"]
    );
}

#[test]
fn rr_command_lines() {
    assert_eq!(rr_record_args("/w/main.e"), vec!["record", "/w/main.e"]);
    assert_eq!(rr_replay_command("rr"), vec!["rr", "replay", "--", "-q"]);
}

#[test]
fn rr_permission_detection() {
    assert!(rr_lacks_permission(
        "[FATAL] rr needs /proc/sys/kernel/perf_event_paranoid <= 1, but it is 3."
    ));
    assert!(!rr_lacks_permission("rr: Saving execution to trace directory"));
    assert!(!rr_lacks_permission(""));
    assert!(!rr_lacks_permission("/proc/sys/kernel/perf_event"));
}

#[test]
fn rr_texts() {
    assert!(RR_NOT_CONFIGURED.contains("kernel.perf_event_paranoid must be <= 1"));
    assert_eq!(
        CONFIGURE_PERF_EVENT_PARANOID,
        "echo 'kernel.perf_event_paranoid=1' | pkexec tee -a /etc/sysctl.conf && echo 1 | pkexec tee -a /proc/sys/kernel/perf_event_paranoid"
    );
}
