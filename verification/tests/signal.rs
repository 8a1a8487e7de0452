use nix::sys::signal::Signal as NixSignal;
use shell_traps::error::Error;
use shell_traps::signal::{
    candidate_signals, continue_request, ignored_signals_among, kill_request, realtime_signals,
    realtime_signals_between, send_result, signal_is_ignored, system_candidate_signals, Signal,
};
use shell_traps::traps::TrapSignal;

const NAMES: [&str; 31] = [
    "SIGHUP", "SIGINT", "SIGQUIT", "SIGILL", "SIGTRAP", "SIGABRT", "SIGBUS", "SIGFPE", "SIGKILL",
    "SIGUSR1", "SIGSEGV", "SIGUSR2", "SIGPIPE", "SIGALRM", "SIGTERM", "SIGSTKFLT", "SIGCHLD",
    "SIGCONT", "SIGSTOP", "SIGTSTP", "SIGTTIN", "SIGTTOU", "SIGURG", "SIGXCPU", "SIGXFSZ",
    "SIGVTALRM", "SIGPROF", "SIGWINCH", "SIGIO", "SIGPWR", "SIGSYS",
];

fn names(entries: Vec<(i32, String)>) -> Vec<String> {
    entries.into_iter().map(|entry| entry.1).collect()
}

#[test]
fn signals_have_the_names_of_the_table() {
    let signals = Signal::iterator();
    assert_eq!(signals.len(), NAMES.len());
    for (i, signal) in signals.iter().enumerate() {
        assert_eq!(signal.number(), i as i32 + 1);
        assert_eq!(signal.as_str(), NAMES[i]);
        assert_eq!(Signal::from_number(i as i32 + 1), Ok(*signal));
        assert_eq!(Signal::from_name(NAMES[i]), Ok(*signal));
    }
}

#[test]
fn every_number_is_known_exactly_where_the_system_knows_it() {
    for number in -100..200 {
        let known = NixSignal::try_from(number).is_ok();
        assert_eq!(known, (1..=31).contains(&number));
        assert_eq!(Signal::from_number(number).is_ok(), known);
    }
    assert_eq!(Signal::from_number(0), Err(22));
    assert_eq!(Signal::from_number(i32::MIN), Err(22));
}

#[test]
fn names_have_to_be_spelled_in_full() {
    assert_eq!(Signal::from_name("HUP"), Err(22));
    assert_eq!(Signal::from_name("sighup"), Err(22));
    assert_eq!(Signal::from_name(""), Err(22));
    assert_eq!(Signal::from_name("SIGPOLL"), Err(22));
    assert_eq!(Signal::from_name("SIGHUP\0"), Err(22));
}

#[test]
fn realtime_names_count_from_both_ends() {
    assert_eq!(
        realtime_signals_between(34, 40),
        vec![
            (34, "SIGRTMIN".to_owned()),
            (35, "SIGRTMIN+1".to_owned()),
            (36, "SIGRTMIN+2".to_owned()),
            (37, "SIGRTMIN+3".to_owned()),
            (38, "SIGRTMAX-2".to_owned()),
            (39, "SIGRTMAX-1".to_owned()),
            (40, "SIGRTMAX".to_owned()),
        ]
    );
}

#[test]
fn realtime_ranges_at_the_edges() {
    assert_eq!(names(realtime_signals_between(34, 34)), vec!["SIGRTMIN"]);
    assert_eq!(names(realtime_signals_between(34, 35)), vec!["SIGRTMIN", "SIGRTMAX"]);
    assert_eq!(
        names(realtime_signals_between(34, 36)),
        vec!["SIGRTMIN", "SIGRTMIN+1", "SIGRTMAX"]
    );
    assert_eq!(realtime_signals_between(35, 34), vec![]);
    assert_eq!(realtime_signals_between(i32::MAX, i32::MIN), vec![]);
    assert_eq!(
        realtime_signals_between(i32::MAX, i32::MAX),
        vec![(i32::MAX, "SIGRTMIN".to_owned())]
    );
}

#[test]
fn realtime_names_of_the_usual_range() {
    let entries = realtime_signals_between(34, 64);
    assert_eq!(entries.len(), 31);
    assert_eq!(entries[15], (49, "SIGRTMIN+15".to_owned()));
    assert_eq!(entries[16], (50, "SIGRTMAX-14".to_owned()));
    assert_eq!(entries[30], (64, "SIGRTMAX".to_owned()));
    let mut distinct = names(entries);
    assert!(distinct.iter().all(|name| !NAMES.contains(&name.as_str())));
    distinct.sort();
    distinct.dedup();
    assert_eq!(distinct.len(), 31);
}

#[test]
fn realtime_signals_span_the_range_of_the_system() {
    let (min, max) = (nix::libc::SIGRTMIN(), nix::libc::SIGRTMAX());
    assert_eq!(realtime_signals(), realtime_signals_between(min, max));
    assert_ne!(realtime_signals(), vec![]);
}

#[test]
fn candidates_are_the_table_and_then_the_realtime_signals() {
    let candidates = candidate_signals(vec![(34, "SIGRTMIN".to_owned())]);
    assert_eq!(candidates.len(), 32);
    assert_eq!(candidates[0], (1, "SIGHUP".to_owned()));
    assert_eq!(candidates[30], (31, "SIGSYS".to_owned()));
    assert_eq!(candidates[31], (34, "SIGRTMIN".to_owned()));
    assert_eq!(system_candidate_signals(), candidate_signals(realtime_signals()));
}

#[test]
fn ignored_signals_are_those_answered_as_ignored() {
    let answered = vec![
        ((1, "SIGHUP".to_owned()), Ok(true)),
        ((2, "SIGINT".to_owned()), Ok(false)),
        ((9, "SIGKILL".to_owned()), Err(Error::System(22))),
        ((34, "SIGRTMIN".to_owned()), Ok(true)),
    ];
    assert_eq!(
        ignored_signals_among(answered),
        vec![(1, "SIGHUP".to_owned()), (34, "SIGRTMIN".to_owned())]
    );
    assert_eq!(ignored_signals_among(vec![]), vec![]);
}

#[test]
fn only_the_ignore_address_means_ignored() {
    assert_eq!(signal_is_ignored(Ok(nix::libc::SIG_IGN)), Ok(true));
    assert_eq!(signal_is_ignored(Ok(1)), Ok(true));
    assert_eq!(signal_is_ignored(Ok(nix::libc::SIG_DFL)), Ok(false));
    assert_eq!(signal_is_ignored(Ok(0x4000)), Ok(false));
    assert_eq!(signal_is_ignored(Err(22)), Err(Error::System(22)));
}

#[test]
fn real_signals_can_be_sent() {
    let term = Signal::from_name("SIGTERM").unwrap();
    let request = kill_request(42, TrapSignal::Signal(term)).unwrap();
    assert_eq!(request.pid, 42);
    assert_eq!(request.signal, term);
}

#[test]
fn special_traps_cannot_be_sent() {
    let special = [
        (TrapSignal::Debug, "DEBUG"),
        (TrapSignal::ErrTrap, "ERR"),
        (TrapSignal::Exit, "EXIT"),
        (TrapSignal::Return, "RETURN"),
    ];
    for (signal, name) in special {
        assert_eq!(kill_request(42, signal), Err(Error::InvalidSignal(name.to_owned())));
    }
}

#[test]
fn a_stopped_process_is_continued_by_its_signal() {
    let request = continue_request(7);
    assert_eq!(request.pid, 7);
    assert_eq!(request.signal.as_str(), "SIGCONT");
    assert_eq!(request.signal.number(), 18);
}

#[test]
fn any_failure_to_send_is_reported_the_same() {
    assert_eq!(send_result(Ok(())), Ok(()));
    assert_eq!(send_result(Err(3)), Err(Error::FailedToSendSignal));
    assert_eq!(send_result(Err(1)), Err(Error::FailedToSendSignal));
}
