//! State changes of child processes.

use vstd::prelude::*;

use crate::error::Error;
use crate::os;
use crate::signal;
use crate::signal::Signal;

verus! {

/// What waiting for a child process reports.
#[derive(Clone, Copy, Debug, PartialEq, Eq, Structural)]
pub enum WaitStatus {
    /// The process exited with a status.
    Exited(i32, i32),
    /// The process was killed by a signal; the flag says whether its memory was dumped.
    Signaled(i32, Signal, bool),
    /// The process was stopped by a signal.
    Stopped(i32, Signal),
    /// The traced process was stopped by a signal because of a trace event.
    PtraceEvent(i32, Signal, i32),
    /// The traced process was stopped at a system call.
    PtraceSyscall(i32),
    /// The process was continued.
    Continued(i32),
    /// No child has changed its state.
    StillAlive,
}

/// What a report on a child with a process id, a status and a code says.
pub open spec fn wait_status_of(si_pid: i32, si_status: i32, si_code: i32) -> Result<
    WaitStatus,
    i32,
> {
    let by_signal = signal::is_signal_number(si_status as int);
    let signal = signal::signal_of(si_status as int);
    if si_pid == 0 {
        Ok(WaitStatus::StillAlive)
    } else if si_code == os::cld_exited() {
        Ok(WaitStatus::Exited(si_pid, si_status))
    } else if si_code == os::cld_killed() && by_signal {
        Ok(WaitStatus::Signaled(si_pid, signal, false))
    } else if si_code == os::cld_dumped() && by_signal {
        Ok(WaitStatus::Signaled(si_pid, signal, true))
    } else if si_code == os::cld_stopped() && by_signal {
        Ok(WaitStatus::Stopped(si_pid, signal))
    } else if si_code == os::cld_continued() {
        Ok(WaitStatus::Continued(si_pid))
    } else {
        Err(os::einval())
    }
}

/// Returns what the system's report on a child process says, or an error number where the report
/// makes no sense.
///
/// # Arguments
///
/// * `si_pid` - The process that the report is about, or 0 where there is nothing to report.
/// * `si_status` - The exit status, or the number of the signal that changed the state.
/// * `si_code` - The code that says which change it was.
pub fn siginfo_to_wait_status(si_pid: i32, si_status: i32, si_code: i32) -> (status: Result<
    WaitStatus,
    i32,
>)
    ensures
        status == wait_status_of(si_pid, si_status, si_code),
        match status {
            Ok(WaitStatus::StillAlive) => si_pid == 0,
            Ok(WaitStatus::Exited(pid, code)) => si_pid != 0 && si_code == os::cld_exited() && pid
                == si_pid && code == si_status,
            Ok(WaitStatus::Signaled(pid, signal, dumped)) => si_pid != 0 && si_code == (if dumped {
                os::cld_dumped()
            } else {
                os::cld_killed()
            }) && pid == si_pid && signal@ == si_status && signal::is_signal_number(
                si_status as int,
            ),
            Ok(WaitStatus::Stopped(pid, signal)) => si_pid != 0 && si_code == os::cld_stopped()
                && pid == si_pid && signal@ == si_status && signal::is_signal_number(
                si_status as int,
            ),
            Ok(WaitStatus::Continued(pid)) => si_pid != 0 && si_code == os::cld_continued() && pid
                == si_pid,
            Ok(WaitStatus::PtraceEvent(_, _, _) | WaitStatus::PtraceSyscall(_)) => false,
            Err(errno) => errno == os::einval() && si_pid != 0 && si_code != os::cld_exited()
                && si_code != os::cld_continued() && ((si_code == os::cld_killed() || si_code
                == os::cld_dumped() || si_code == os::cld_stopped())
                ==> !signal::is_signal_number(si_status as int)),
        },
{
    if si_pid == 0 {
        return Ok(WaitStatus::StillAlive);
    }
    if si_code == os::exited_code() {
        Ok(WaitStatus::Exited(si_pid, si_status))
    } else if si_code == os::killed_code() || si_code == os::dumped_code() {
        match Signal::from_number(si_status) {
            Ok(signal) => Ok(
                WaitStatus::Signaled(si_pid, signal, si_code == os::dumped_code()),
            ),
            Err(errno) => Err(errno),
        }
    } else if si_code == os::stopped_code() {
        match Signal::from_number(si_status) {
            Ok(signal) => Ok(WaitStatus::Stopped(si_pid, signal)),
            Err(errno) => Err(errno),
        }
    } else if si_code == os::continued_code() {
        Ok(WaitStatus::Continued(si_pid))
    } else {
        Err(os::einval_number())
    }
}

/// What to do next when polling for stopped children.
#[derive(Debug, PartialEq, Eq)]
pub enum PollStep {
    /// Wait once more; the flag says whether a stopped child has been seen so far.
    Again(bool),
    /// Polling is over, with this result.
    Done(Result<bool, Error>),
}

/// The next step after a wait, where the flag says whether a stopped child had been seen before.
pub open spec fn next_poll_step(
    found_stopped: bool,
    waited: Result<WaitStatus, i32>,
) -> PollStep {
    match waited {
        Ok(WaitStatus::Stopped(_, _)) => PollStep::Again(true),
        Ok(_) => PollStep::Done(Ok(found_stopped)),
        Err(errno) => if errno == os::echild() {
            PollStep::Done(Ok(found_stopped))
        } else {
            PollStep::Done(Err(Error::System(errno)))
        },
    }
}

/// What polling comes to, given what each wait reports in turn: nothing yet where all of these
/// waits report a stopped child.
pub open spec fn poll_outcome(
    found_stopped: bool,
    waits: Seq<Result<WaitStatus, i32>>,
) -> Option<Result<bool, Error>>
    decreases waits.len(),
{
    if waits.len() == 0 {
        None
    } else {
        match next_poll_step(found_stopped, waits[0]) {
            PollStep::Again(found) => poll_outcome(found, waits.skip(1)),
            PollStep::Done(result) => Some(result),
        }
    }
}

/// Returns the next step when polling for stopped children.
///
/// # Arguments
///
/// * `found_stopped` - Whether a stopped child has been seen before; at first `false`.
/// * `waited` - What the wait reported: a state change, or an error number.
pub fn poll_for_stopped_children(
    found_stopped: bool,
    waited: Result<WaitStatus, i32>,
) -> (step: PollStep)
    ensures
        step == next_poll_step(found_stopped, waited),
        match step {
            PollStep::Again(found) => found && (waited matches Ok(WaitStatus::Stopped(_, _))),
            PollStep::Done(Ok(found)) => found == found_stopped && !(waited matches Ok(
                WaitStatus::Stopped(_, _),
            )) && (waited matches Err(errno) ==> errno == os::echild()),
            PollStep::Done(Err(error)) => waited matches Err(errno) && errno != os::echild()
                && error == Error::System(errno),
        },
{
    match waited {
        Ok(WaitStatus::Stopped(_, _)) => PollStep::Again(true),
        Ok(_) => PollStep::Done(Ok(found_stopped)),
        Err(errno) => if errno == os::echild_number() {
            PollStep::Done(Ok(found_stopped))
        } else {
            PollStep::Done(Err(Error::System(errno)))
        },
    }
}

/// Whether a wait reports a stopped child.
pub open spec fn reports_stopped(waited: Result<WaitStatus, i32>) -> bool {
    waited matches Ok(WaitStatus::Stopped(_, _))
}

/// Law: polling goes on as long as stopped children are reported, and ends with the first report
/// of something else. Its result is then whether a stopped child was reported before that, unless
/// the wait failed for another reason than that there are no children.
pub proof fn law_poll_ends_at_first_other_report(
    found_stopped: bool,
    waits: Seq<Result<WaitStatus, i32>>,
    end: int,
)
    requires
        0 <= end < waits.len(),
        forall|i: int| 0 <= i < end ==> reports_stopped(#[trigger] waits[i]),
        !reports_stopped(waits[end]),
    ensures
        poll_outcome(found_stopped, waits) == Some(
            match waits[end] {
                Err(errno) if errno != os::echild() => Err::<bool, Error>(Error::System(errno)),
                _ => Ok::<bool, Error>(found_stopped || end > 0),
            },
        ),
    decreases end,
{
    if end > 0 {
        assert(reports_stopped(waits[0]));
        law_poll_ends_at_first_other_report(true, waits.skip(1), end - 1);
    }
}

/// Law: polling goes on where every report so far was of a stopped child.
pub proof fn law_poll_goes_on_while_stopped(
    found_stopped: bool,
    waits: Seq<Result<WaitStatus, i32>>,
)
    requires
        forall|i: int| 0 <= i < waits.len() ==> reports_stopped(#[trigger] waits[i]),
    ensures
        poll_outcome(found_stopped, waits) is None,
    decreases waits.len(),
{
    if waits.len() > 0 {
        assert(reports_stopped(waits[0]));
        law_poll_goes_on_while_stopped(true, waits.skip(1));
    }
}

/// Law: a report on a child with a process id says of that process what its code says: that it
/// exited, was continued, or was killed, dumped or stopped by the signal with the given number.
/// Any other report is an error, and one without a process id says that nothing has changed.
pub proof fn law_report_says_what_its_code_says(si_pid: i32, si_status: i32, signal: Signal)
    requires
        si_pid != 0,
        signal::is_signal_number(signal@ as int),
    ensures
        wait_status_of(si_pid, si_status, os::cld_exited()) == Ok::<WaitStatus, i32>(
            WaitStatus::Exited(si_pid, si_status),
        ),
        wait_status_of(si_pid, si_status, os::cld_continued()) == Ok::<WaitStatus, i32>(
            WaitStatus::Continued(si_pid),
        ),
        wait_status_of(si_pid, signal@, os::cld_killed()) == Ok::<WaitStatus, i32>(
            WaitStatus::Signaled(si_pid, signal, false),
        ),
        wait_status_of(si_pid, signal@, os::cld_dumped()) == Ok::<WaitStatus, i32>(
            WaitStatus::Signaled(si_pid, signal, true),
        ),
        wait_status_of(si_pid, signal@, os::cld_stopped()) == Ok::<WaitStatus, i32>(
            WaitStatus::Stopped(si_pid, signal),
        ),
        forall|code: i32|
            wait_status_of(si_pid, si_status, code) is Ok ==> code == os::cld_exited() || code
                == os::cld_continued() || (signal::is_signal_number(si_status as int) && (code
                == os::cld_killed() || code == os::cld_dumped() || code == os::cld_stopped())),
        forall|code: i32|
            #[trigger] wait_status_of(0, si_status, code) == Ok::<WaitStatus, i32>(
                WaitStatus::StillAlive,
            ),
{
    broadcast use {signal::lemma_signal_of_view, signal::lemma_view_of_signal};

}

/// Law: a wait goes on exactly where a stopped child is reported. Where it ends, an error is the
/// system's own unless there are no children, and any other result is what was seen before.
pub proof fn law_poll_step_by_report(found_stopped: bool, waited: Result<WaitStatus, i32>)
    ensures
        (waited matches Ok(WaitStatus::Stopped(_, _))) <==> next_poll_step(found_stopped, waited)
            == PollStep::Again(true),
        next_poll_step(found_stopped, waited) != PollStep::Again(false),
        waited matches Err(errno) ==> errno != os::echild() ==> next_poll_step(
            found_stopped,
            waited,
        ) == PollStep::Done(Err::<bool, Error>(Error::System(errno))),
        waited == Err::<WaitStatus, i32>(os::echild()) ==> next_poll_step(found_stopped, waited)
            == PollStep::Done(Ok::<bool, Error>(found_stopped)),
        waited matches Ok(status) ==> !(status is Stopped) ==> next_poll_step(
            found_stopped,
            waited,
        ) == PollStep::Done(Ok::<bool, Error>(found_stopped)),
{
}

/// Law: after a report of a stopped child, polling goes on as polling that has seen one. Without
/// any report, it has come to nothing yet.
pub proof fn law_poll_continues_after_stopped(
    found_stopped: bool,
    pid: i32,
    signal: Signal,
    waits: Seq<Result<WaitStatus, i32>>,
)
    ensures
        poll_outcome(
            found_stopped,
            seq![Ok::<WaitStatus, i32>(WaitStatus::Stopped(pid, signal))] + waits,
        ) == poll_outcome(true, waits),
        poll_outcome(found_stopped, Seq::empty()) is None,
{
    let all = seq![Ok::<WaitStatus, i32>(WaitStatus::Stopped(pid, signal))] + waits;
    assert(all.skip(1) == waits);
}

}
