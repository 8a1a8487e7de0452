use shell_traps::error::Error;
use shell_traps::listing::format_signals;
use shell_traps::signal::Signal;
use shell_traps::traps::{TrapSignal, TrapSignalNumberError};
use std::str::FromStr;

fn system(number: i32) -> TrapSignal {
    TrapSignal::Signal(Signal::from_number(number).unwrap())
}

fn invalid(text: &str) -> Result<TrapSignal, Error> {
    Err(Error::InvalidSignal(text.to_owned()))
}

#[test]
fn special_names_are_found_in_any_case() {
    assert_eq!(TrapSignal::try_from("DEBUG"), Ok(TrapSignal::Debug));
    assert_eq!(TrapSignal::try_from("Err"), Ok(TrapSignal::ErrTrap));
    assert_eq!(TrapSignal::try_from("exit"), Ok(TrapSignal::Exit));
    assert_eq!(TrapSignal::try_from("rEtUrN"), Ok(TrapSignal::Return));
}

#[test]
fn names_are_found_with_and_without_prefix() {
    assert_eq!(TrapSignal::try_from("SIGHUP"), Ok(system(1)));
    assert_eq!(TrapSignal::try_from("HUP"), Ok(system(1)));
    assert_eq!(TrapSignal::try_from("hup"), Ok(system(1)));
    assert_eq!(TrapSignal::try_from("sigusr1"), Ok(system(10)));
    assert_eq!(TrapSignal::try_from("Usr2"), Ok(system(12)));
}

#[test]
fn special_names_take_no_prefix() {
    assert_eq!(TrapSignal::try_from("SIGDEBUG"), invalid("SIGDEBUG"));
    assert_eq!(TrapSignal::try_from("sigexit"), invalid("sigexit"));
}

#[test]
fn unknown_names_are_rejected_as_they_were_written() {
    assert_eq!(TrapSignal::try_from("nope"), invalid("nope"));
    assert_eq!(TrapSignal::try_from(""), invalid(""));
    assert_eq!(TrapSignal::try_from("SIG"), invalid("SIG"));
    assert_eq!(TrapSignal::try_from(" HUP"), invalid(" HUP"));
    assert_eq!(TrapSignal::try_from("SIGSIGHUP"), invalid("SIGSIGHUP"));
    assert_eq!(TrapSignal::try_from("h\u{fc}p"), invalid("h\u{fc}p"));
    assert_eq!(TrapSignal::try_from("SIGRTMIN"), invalid("SIGRTMIN"));
}

#[test]
fn numbers_are_found() {
    assert_eq!(TrapSignal::try_from(0), Ok(TrapSignal::Exit));
    assert_eq!(TrapSignal::try_from(1), Ok(system(1)));
    assert_eq!(TrapSignal::try_from(31), Ok(system(31)));
    assert_eq!(TrapSignal::try_from(32), invalid("32"));
    assert_eq!(TrapSignal::try_from(-1), invalid("-1"));
    assert_eq!(TrapSignal::try_from(i32::MIN), invalid("-2147483648"));
    assert_eq!(TrapSignal::try_from(i32::MAX), invalid("2147483647"));
}

#[test]
fn texts_stand_for_numbers_or_names() {
    assert_eq!(TrapSignal::from_str("9"), Ok(system(9)));
    assert_eq!("+9".parse::<TrapSignal>(), Ok(system(9)));
    assert_eq!("009".parse::<TrapSignal>(), Ok(system(9)));
    assert_eq!("0".parse::<TrapSignal>(), Ok(TrapSignal::Exit));
    assert_eq!("-0".parse::<TrapSignal>(), Ok(TrapSignal::Exit));
    assert_eq!("kill".parse::<TrapSignal>(), Ok(system(9)));
    assert_eq!("+99".parse::<TrapSignal>(), invalid("99"));
    assert_eq!("-5".parse::<TrapSignal>(), invalid("-5"));
    assert_eq!("2147483648".parse::<TrapSignal>(), invalid("2147483648"));
    assert_eq!("-2147483649".parse::<TrapSignal>(), invalid("-2147483649"));
    assert_eq!("-".parse::<TrapSignal>(), invalid("-"));
    assert_eq!("".parse::<TrapSignal>(), invalid(""));
    assert_eq!("9 ".parse::<TrapSignal>(), invalid("9 "));
}

#[test]
fn every_signal_is_found_by_name_number_and_text() {
    let all = TrapSignal::iterator();
    assert_eq!(all.len(), 35);
    for signal in all {
        assert_eq!(TrapSignal::try_from(signal.as_str()), Ok(signal));
        assert_eq!(TrapSignal::from_str(signal.as_str()), Ok(signal));
        assert_eq!(TrapSignal::try_from(signal.to_string().to_lowercase().as_str()), Ok(signal));
        if let Ok(number) = i32::try_from(signal) {
            assert_eq!(TrapSignal::try_from(number), Ok(signal));
            assert_eq!(TrapSignal::from_str(&format!("{number}")), Ok(signal));
        }
    }
}

#[test]
fn iterator_gives_every_signal_once() {
    let all = TrapSignal::iterator();
    let special =
        [TrapSignal::Debug, TrapSignal::ErrTrap, TrapSignal::Exit, TrapSignal::Return];
    for signal in special {
        assert_eq!(all.iter().filter(|s| **s == signal).count(), 1);
    }
    for number in 1..=31 {
        assert_eq!(all.iter().filter(|s| **s == system(number)).count(), 1);
    }
}

#[test]
fn names_are_distinct() {
    let mut names: Vec<&str> = TrapSignal::iterator().iter().map(|s| s.as_str()).collect();
    names.sort();
    names.dedup();
    assert_eq!(names.len(), 35);
}

#[test]
fn only_real_signals_and_exit_have_numbers() {
    assert!(matches!(i32::try_from(TrapSignal::Debug), Err(TrapSignalNumberError)));
    assert!(matches!(i32::try_from(TrapSignal::ErrTrap), Err(TrapSignalNumberError)));
    assert!(matches!(i32::try_from(TrapSignal::Return), Err(TrapSignalNumberError)));
    assert!(matches!(i32::try_from(TrapSignal::Exit), Ok(0)));
    assert!(matches!(i32::try_from(system(15)), Ok(15)));
}

#[test]
fn names_of_trap_signals() {
    assert_eq!(TrapSignal::Debug.as_str(), "DEBUG");
    assert_eq!(TrapSignal::ErrTrap.as_str(), "ERR");
    assert_eq!(TrapSignal::Exit.as_str(), "EXIT");
    assert_eq!(TrapSignal::Return.as_str(), "RETURN");
    assert_eq!(system(15).as_str(), "SIGTERM");
    assert_eq!(system(2).to_string(), "SIGINT");
}

#[test]
fn listing_is_sorted_by_number() {
    let signals = vec![system(10), TrapSignal::Exit, system(9), system(2)];
    assert_eq!(format_signals(&signals), "0) EXIT\n2) SIGINT\n9) SIGKILL\n10) SIGUSR1");
}

#[test]
fn listing_leaves_out_signals_without_number() {
    let signals = vec![TrapSignal::Debug, system(1), TrapSignal::Return, TrapSignal::ErrTrap];
    assert_eq!(format_signals(&signals), "1) SIGHUP");
    assert_eq!(format_signals(&vec![TrapSignal::Debug]), "");
    assert_eq!(format_signals(&vec![]), "");
}

#[test]
fn listing_does_not_depend_on_order() {
    let mut signals = TrapSignal::iterator();
    let listed = format_signals(&signals);
    signals.reverse();
    assert_eq!(format_signals(&signals), listed);
    assert!(listed.starts_with("0) EXIT\n1) SIGHUP\n2) SIGINT\n"));
    assert!(listed.ends_with("\n30) SIGPWR\n31) SIGSYS"));
    assert_eq!(listed.lines().count(), 32);
}

#[test]
fn listing_repeats_signals_that_come_twice() {
    let signals = vec![system(3), TrapSignal::Exit, system(3)];
    assert_eq!(format_signals(&signals), "0) EXIT\n3) SIGQUIT\n3) SIGQUIT");
}
