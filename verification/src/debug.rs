//! Running a solution under a debugger: GDB, or RR's record and replay.
use vstd::prelude::*;
use crate::text::{contains, contains_seq, string_views};

verus! {

/// What RR writes to standard error when the kernel does not let it record.
pub const PERF_EVENT_PARANOID: &'static str = "/proc/sys/kernel/perf_event_paranoid";

/// The error shown when RR cannot record.
pub const RR_NOT_CONFIGURED: &'static str =
    "RR is not configured properly (this is to be expected), kernel.perf_event_paranoid must be <= 1";

/// The shell command that lets RR record, now and after a reboot.
pub const CONFIGURE_PERF_EVENT_PARANOID: &'static str =
    "echo 'kernel.perf_event_paranoid=1' | pkexec tee -a /etc/sysctl.conf && echo 1 | pkexec tee -a /proc/sys/kernel/perf_event_paranoid";

/// The command line that starts GDB on the built solution, with its standard
/// input read from the file whose path, quoted for the shell, is `quoted_input`.
pub fn gdb_command(gdb: &str, executable: &str, quoted_input: &str) -> (command: Vec<String>)
    ensures
        string_views(command@) == seq![
            gdb@,
            "-q"@,
            executable@,
            "-ex"@,
            "set args < "@ + quoted_input@,
        ],
{
    let mut redirect = "set args < ".to_owned();
    redirect.append(quoted_input);
    let mut command: Vec<String> = Vec::new();
    command.push(gdb.to_owned());
    command.push("-q".to_owned());
    command.push(executable.to_owned());
    command.push("-ex".to_owned());
    command.push(redirect);
    assert(string_views(command@) =~= seq![
        gdb@,
        "-q"@,
        executable@,
        "-ex"@,
        "set args < "@ + quoted_input@,
    ]);
    command
}

/// The arguments of RR that record a run of the built solution.
pub fn rr_record_args(executable: &str) -> (args: Vec<String>)
    ensures
        string_views(args@) == seq!["record"@, executable@],
{
    let mut args: Vec<String> = Vec::new();
    args.push("record".to_owned());
    args.push(executable.to_owned());
    assert(string_views(args@) =~= seq!["record"@, executable@]);
    args
}

/// The command line that replays the last recording of RR.
pub fn rr_replay_command(rr: &str) -> (command: Vec<String>)
    ensures
        string_views(command@) == seq![rr@, "replay"@, "--"@, "-q"@],
{
    let mut command: Vec<String> = Vec::new();
    command.push(rr.to_owned());
    command.push("replay".to_owned());
    command.push("--".to_owned());
    command.push("-q".to_owned());
    assert(string_views(command@) =~= seq![rr@, "replay"@, "--"@, "-q"@]);
    command
}

/// Whether a recording failed because the kernel does not let RR record,
/// judged by what RR wrote to standard error.
pub fn rr_lacks_permission(stderr: &str) -> (lacks: bool)
    ensures
        lacks == contains_seq(stderr@, PERF_EVENT_PARANOID@),
{
    contains(stderr, PERF_EVENT_PARANOID)
}

} // verus!
