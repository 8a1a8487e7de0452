use shell_traps::handlers::{TrapHandler, TrapHandlerConfig};
use shell_traps::signal::Signal;
use shell_traps::traps::TrapSignal;

#[derive(Clone, Debug, Default, PartialEq)]
struct SourceInfo {
    source: String,
}

type Traps = TrapHandlerConfig<SourceInfo>;

fn source(name: &str) -> SourceInfo {
    SourceInfo { source: name.to_owned() }
}

fn command(traps: &Traps, signal: TrapSignal) -> Option<&str> {
    traps.get_handler(signal).map(|handler| handler.command.as_str())
}

#[test]
fn ignored_signal_can_be_looked_up_by_trap_signal() {
    let Some(signal) = Signal::iterator().into_iter().next() else {
        return;
    };
    let mut traps = Traps::default();
    traps.record_ignored_signal_at_entry(signal.number(), signal.as_str().to_owned());

    assert_eq!(
        traps.ignored_signal_name_at_entry(TrapSignal::Signal(signal)),
        Some(signal.as_str())
    );
}

#[test]
fn ignored_signal_snapshot_is_preserved_by_clone() {
    let mut traps = Traps::default();
    traps.record_ignored_signal_at_entry(10, "SIGUSR1".to_owned());

    let cloned = traps.clone();
    let ignored = cloned.iter_ignored_signals_at_entry().into_iter().collect::<Vec<_>>();

    assert_eq!(ignored, vec![(10, "SIGUSR1")]);
}

#[test]
fn nothing_is_registered_at_first() {
    let traps = Traps::default();
    assert_eq!(traps.iter_handlers().len(), 0);
    assert_eq!(traps.iter_ignored_signals_at_entry().len(), 0);
    for signal in TrapSignal::iterator() {
        assert!(!traps.handles(signal));
        assert!(traps.get_handler(signal).is_none());
        assert_eq!(traps.ignored_signal_name_at_entry(signal), None);
    }
}

#[test]
fn a_registered_handler_is_found() {
    let int = TrapSignal::try_from("INT").unwrap();
    let mut traps = Traps::default();
    traps.register_handler(int, "echo interrupted".to_owned(), source("script.sh"));
    traps.register_handler(TrapSignal::Exit, "echo bye".to_owned(), source("main"));

    let handler = traps.get_handler(int).unwrap();
    assert_eq!(handler.command, "echo interrupted");
    assert_eq!(handler.source_info.source, "script.sh");
    assert!(traps.handles(int));
    assert!(traps.handles(TrapSignal::Exit));
    assert!(!traps.handles(TrapSignal::Debug));
    assert_eq!(command(&traps, TrapSignal::Exit), Some("echo bye"));
}

#[test]
fn a_later_handler_replaces_an_earlier_one() {
    let mut traps = Traps::default();
    traps.register_handler(TrapSignal::Debug, "first".to_owned(), source("a"));
    traps.register_handler(TrapSignal::Debug, "second".to_owned(), source("b"));
    assert_eq!(command(&traps, TrapSignal::Debug), Some("second"));
    assert_eq!(traps.iter_handlers().len(), 1);
}

#[test]
fn a_removed_handler_is_gone() {
    let mut traps = Traps::default();
    traps.register_handler(TrapSignal::ErrTrap, "one".to_owned(), source(""));
    traps.register_handler(TrapSignal::Return, "two".to_owned(), source(""));
    traps.remove_handlers(TrapSignal::ErrTrap);
    traps.remove_handlers(TrapSignal::Exit);
    assert!(!traps.handles(TrapSignal::ErrTrap));
    assert_eq!(command(&traps, TrapSignal::Return), Some("two"));
    traps.remove_handlers(TrapSignal::Return);
    assert_eq!(traps.iter_handlers().len(), 0);
}

#[test]
fn every_signal_has_a_handler_of_its_own() {
    let mut traps = Traps::default();
    for signal in TrapSignal::iterator() {
        traps.register_handler(signal, signal.to_string(), source(""));
    }
    for signal in TrapSignal::iterator() {
        assert_eq!(command(&traps, signal), Some(signal.as_str()));
    }
    let walked: Vec<TrapSignal> = traps.iter_handlers().iter().map(|entry| entry.0).collect();
    assert_eq!(walked, TrapSignal::iterator());
    for (signal, handler) in traps.iter_handlers() {
        assert_eq!(handler.command, signal.as_str());
    }
}

#[test]
fn ignored_signals_are_looked_up_by_number() {
    let mut traps = Traps::default();
    traps.record_ignored_signal_at_entry(0, "NONE".to_owned());
    traps.record_ignored_signal_at_entry(40, "SIGRTMIN+6".to_owned());
    traps.record_ignored_signal_at_entry(-1, "odd".to_owned());
    traps.record_ignored_signal_at_entry(40, "again".to_owned());
    assert_eq!(traps.ignored_signal_name_at_entry(TrapSignal::Exit), Some("NONE"));
    assert_eq!(traps.ignored_signal_name_at_entry(TrapSignal::Debug), None);
    assert_eq!(traps.ignored_signal_name_at_entry(TrapSignal::ErrTrap), None);
    assert_eq!(traps.ignored_signal_name_at_entry(TrapSignal::Return), None);
    let hup = TrapSignal::try_from(1).unwrap();
    assert_eq!(traps.ignored_signal_name_at_entry(hup), None);

    let mut ignored = traps.iter_ignored_signals_at_entry();
    ignored.sort();
    assert_eq!(ignored, vec![(-1, "odd"), (0, "NONE"), (40, "again")]);
}

#[test]
fn handlers_and_ignored_signals_are_independent() {
    let hup = TrapSignal::try_from(1).unwrap();
    let mut traps = Traps::default();
    traps.record_ignored_signal_at_entry(1, "SIGHUP".to_owned());
    assert!(!traps.handles(hup));
    traps.register_handler(hup, "run".to_owned(), source(""));
    assert_eq!(traps.ignored_signal_name_at_entry(hup), Some("SIGHUP"));
    traps.remove_handlers(hup);
    assert_eq!(traps.ignored_signal_name_at_entry(hup), Some("SIGHUP"));
}

#[test]
fn a_clone_keeps_its_handlers_when_the_other_changes() {
    let mut traps = Traps::default();
    traps.register_handler(TrapSignal::Exit, "kept".to_owned(), source("here"));
    let cloned = traps.clone();
    traps.remove_handlers(TrapSignal::Exit);
    let handler = cloned.get_handler(TrapSignal::Exit).unwrap();
    assert_eq!(handler.command, "kept");
    assert_eq!(handler.source_info, source("here"));
}

#[test]
fn a_default_handler_is_empty() {
    let handler = TrapHandler::<SourceInfo>::default();
    assert_eq!(handler.command, "");
    assert_eq!(handler.source_info.source, "");
    let copy = handler.clone();
    assert_eq!(copy.command, "");
}

#[test]
fn a_clone_is_the_same_configuration() {
    let mut traps = Traps::default();
    for signal in TrapSignal::iterator() {
        if signal != TrapSignal::Return {
            traps.register_handler(signal, signal.to_string(), source("file"));
        }
    }
    traps.record_ignored_signal_at_entry(1, "SIGHUP".to_owned());
    let cloned = traps.clone();
    for signal in TrapSignal::iterator() {
        assert_eq!(command(&cloned, signal), command(&traps, signal));
        assert_eq!(
            cloned.ignored_signal_name_at_entry(signal),
            traps.ignored_signal_name_at_entry(signal)
        );
    }
    assert_eq!(cloned.iter_handlers().len(), 34);
}
