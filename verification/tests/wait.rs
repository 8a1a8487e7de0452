use shell_traps::error::Error;
use shell_traps::signal::Signal;
use shell_traps::wait::{
    poll_for_stopped_children, siginfo_to_wait_status, PollStep, WaitStatus,
};

fn signal(number: i32) -> Signal {
    Signal::from_number(number).unwrap()
}

fn poll(waits: Vec<Result<WaitStatus, i32>>) -> Option<Result<bool, Error>> {
    let mut found = false;
    for waited in waits {
        match poll_for_stopped_children(found, waited) {
            PollStep::Again(seen) => found = seen,
            PollStep::Done(result) => return Some(result),
        }
    }
    None
}

#[test]
fn reports_are_told_apart_by_their_code() {
    assert_eq!(
        siginfo_to_wait_status(7, 3, nix::libc::CLD_EXITED),
        Ok(WaitStatus::Exited(7, 3))
    );
    assert_eq!(
        siginfo_to_wait_status(7, 9, nix::libc::CLD_KILLED),
        Ok(WaitStatus::Signaled(7, signal(9), false))
    );
    assert_eq!(
        siginfo_to_wait_status(7, 11, nix::libc::CLD_DUMPED),
        Ok(WaitStatus::Signaled(7, signal(11), true))
    );
    assert_eq!(
        siginfo_to_wait_status(7, 20, nix::libc::CLD_STOPPED),
        Ok(WaitStatus::Stopped(7, signal(20)))
    );
    assert_eq!(
        siginfo_to_wait_status(7, 18, nix::libc::CLD_CONTINUED),
        Ok(WaitStatus::Continued(7))
    );
}

#[test]
fn no_process_means_that_nothing_changed() {
    assert_eq!(siginfo_to_wait_status(0, 9, 2), Ok(WaitStatus::StillAlive));
    assert_eq!(siginfo_to_wait_status(0, 0, 0), Ok(WaitStatus::StillAlive));
}

#[test]
fn reports_that_make_no_sense_are_invalid() {
    assert_eq!(siginfo_to_wait_status(7, 0, 0), Err(22));
    assert_eq!(siginfo_to_wait_status(7, 5, nix::libc::CLD_TRAPPED), Err(22));
    assert_eq!(siginfo_to_wait_status(7, 0, 2), Err(22));
    assert_eq!(siginfo_to_wait_status(7, 64, 3), Err(22));
    assert_eq!(siginfo_to_wait_status(7, 99, 5), Err(22));
}

#[test]
fn polling_ends_at_the_first_other_report() {
    let stopped = WaitStatus::Stopped(7, signal(20));
    assert_eq!(poll(vec![Ok(WaitStatus::StillAlive)]), Some(Ok(false)));
    assert_eq!(poll(vec![Ok(stopped), Ok(WaitStatus::StillAlive)]), Some(Ok(true)));
    assert_eq!(poll(vec![Ok(stopped), Ok(stopped), Ok(WaitStatus::Continued(7))]), Some(Ok(true)));
    assert_eq!(poll(vec![Ok(WaitStatus::Exited(7, 0)), Ok(stopped)]), Some(Ok(false)));
    assert_eq!(poll(vec![Ok(WaitStatus::PtraceSyscall(7)), Ok(stopped)]), Some(Ok(false)));
}

#[test]
fn polling_without_children_is_no_failure() {
    let stopped = WaitStatus::Stopped(7, signal(20));
    assert_eq!(poll(vec![Err(nix::libc::ECHILD)]), Some(Ok(false)));
    assert_eq!(poll(vec![Ok(stopped), Err(10)]), Some(Ok(true)));
}

#[test]
fn polling_fails_where_waiting_fails() {
    let stopped = WaitStatus::Stopped(7, signal(20));
    assert_eq!(poll(vec![Ok(stopped), Err(22)]), Some(Err(Error::System(22))));
    assert_eq!(poll(vec![Err(4)]), Some(Err(Error::System(4))));
}

#[test]
fn polling_goes_on_while_children_are_stopped() {
    let stopped = WaitStatus::Stopped(7, signal(20));
    assert_eq!(poll(vec![Ok(stopped), Ok(stopped)]), None);
}
