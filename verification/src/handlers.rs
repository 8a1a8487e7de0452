//! Trap handlers, and the signals that were ignored when the shell was created.

use std::collections::HashMap;
use vstd::prelude::*;

use crate::signal;
use crate::traps;
use crate::traps::TrapSignal;

verus! {

broadcast use {
    signal::lemma_signal_of_view,
    signal::lemma_view_of_signal,
    vstd::std_specs::hash::group_hash_axioms,
};

/// A handler for a trap signal. Where it was defined is held as the shell's own kind of source
/// information, `S`.
#[derive(Debug)]
pub struct TrapHandler<S> {
    /// The source text of the command to run.
    pub command: String,
    /// Where the handler was defined.
    pub source_info: S,
}

/// A trap handler as plain values.
pub struct TrapHandlerView<S> {
    /// The source text of the command to run.
    pub command: Seq<char>,
    /// Where the handler was defined.
    pub source_info: S,
}

impl<S> View for TrapHandler<S> {
    type V = TrapHandlerView<S>;

    open spec fn view(&self) -> TrapHandlerView<S> {
        TrapHandlerView { command: self.command@, source_info: self.source_info }
    }
}

impl<S: Clone> TrapHandlerView<S> {
    /// Whether another handler is a copy of this one: the same command, and source information
    /// that cloning may give.
    pub open spec fn copied_as(self, copy: TrapHandlerView<S>) -> bool {
        copy.command == self.command && cloned::<S>(self.source_info, copy.source_info)
    }
}

impl<S: Clone> Clone for TrapHandler<S> {
    fn clone(&self) -> (copy: TrapHandler<S>)
        ensures
            self@.copied_as(copy@),
            copy.command@ == self.command@,
            cloned::<S>(self.source_info, copy.source_info),
    {
        TrapHandler { command: self.command.clone(), source_info: self.source_info.clone() }
    }
}

impl<S: Default> Default for TrapHandler<S> {
    fn default() -> (handler: TrapHandler<S>)
        ensures
            handler@.command == Seq::<char>::empty(),
            call_ensures(S::default, (), handler@.source_info),
    {
        TrapHandler { command: String::new(), source_info: S::default() }
    }
}

/// The key under which a trap signal's handler is kept.
spec fn key_of(signal: TrapSignal) -> i32 {
    match signal {
        TrapSignal::Signal(s) => s@,
        TrapSignal::Exit => 0,
        TrapSignal::Debug => (-1) as i32,
        TrapSignal::ErrTrap => (-2) as i32,
        TrapSignal::Return => (-3) as i32,
    }
}

fn key_for(signal: TrapSignal) -> (key: i32)
    ensures
        key == key_of(signal),
        signal.valid(),
{
    match signal {
        TrapSignal::Signal(s) => s.number(),
        TrapSignal::Exit => 0,
        TrapSignal::Debug => -1,
        TrapSignal::ErrTrap => -2,
        TrapSignal::Return => -3,
    }
}

/// Configuration of the trap handlers in a shell.
#[verifier::reject_recursive_types(S)]
pub struct TrapHandlerConfig<S> {
    handlers: HashMap<i32, TrapHandler<S>>,
    ignored_signals_at_entry: HashMap<i32, String>,
}

/// A configuration as plain values.
#[verifier::ext_equal]
#[verifier::reject_recursive_types(S)]
pub struct TrapHandlerConfigView<S> {
    /// The registered handlers by trap signal.
    pub handlers: Map<TrapSignal, TrapHandlerView<S>>,
    /// The names of the signals that were ignored when the shell was created, by number.
    pub ignored_signals_at_entry: Map<i32, Seq<char>>,
}

impl<S> View for TrapHandlerConfig<S> {
    type V = TrapHandlerConfigView<S>;

    closed spec fn view(&self) -> TrapHandlerConfigView<S> {
        TrapHandlerConfigView {
            handlers: Map::new(
                |signal: TrapSignal| signal.valid() && self.handlers@.contains_key(key_of(signal)),
                |signal: TrapSignal| self.handlers@[key_of(signal)]@,
            ),
            ignored_signals_at_entry: self.ignored_signals_at_entry@.map_values(
                |name: String| name@,
            ),
        }
    }
}

/// A handler list as plain values.
pub open spec fn handlers_of<S>(handlers: Seq<(TrapSignal, &TrapHandler<S>)>) -> Seq<
    (TrapSignal, TrapHandlerView<S>),
> {
    handlers.map_values(|entry: (TrapSignal, &TrapHandler<S>)| (entry.0, entry.1@))
}

/// A list of numbers with names as plain values.
pub open spec fn names_of(names: Seq<(i32, &str)>) -> Seq<(i32, Seq<char>)> {
    names.map_values(|entry: (i32, &str)| (entry.0, entry.1@))
}

impl<S> TrapHandlerConfigView<S> {
    /// Whether all handlers are those of valid trap signals.
    pub open spec fn valid(self) -> bool {
        forall|signal: TrapSignal| #[trigger] self.handlers.contains_key(signal) ==> signal.valid()
    }

    /// The registered handlers of some signals, in the order of the signals.
    pub open spec fn handlers_among(self, signals: Seq<TrapSignal>) -> Seq<
        (TrapSignal, TrapHandlerView<S>),
    > {
        signals.filter(|signal: TrapSignal| self.handlers.contains_key(signal)).map_values(
            |signal: TrapSignal| (signal, self.handlers[signal]),
        )
    }

    /// The name of a signal if it was ignored when the shell was created.
    pub open spec fn ignored_name(self, signal: TrapSignal) -> Option<Seq<char>> {
        match signal.number() {
            Some(n) => if self.ignored_signals_at_entry.contains_key(n) {
                Some(self.ignored_signals_at_entry[n])
            } else {
                None
            },
            None => None,
        }
    }

    /// The configuration with one more ignored signal.
    pub open spec fn record_ignored(
        self,
        number: i32,
        name: Seq<char>,
    ) -> TrapHandlerConfigView<S> {
        TrapHandlerConfigView {
            ignored_signals_at_entry: self.ignored_signals_at_entry.insert(number, name),
            ..self
        }
    }

    /// The configuration with a handler for a signal, in place of one that was there.
    pub open spec fn register(
        self,
        signal: TrapSignal,
        handler: TrapHandlerView<S>,
    ) -> TrapHandlerConfigView<S> {
        TrapHandlerConfigView { handlers: self.handlers.insert(signal, handler), ..self }
    }

    /// The configuration without a handler for a signal.
    pub open spec fn remove(self, signal: TrapSignal) -> TrapHandlerConfigView<S> {
        TrapHandlerConfigView { handlers: self.handlers.remove(signal), ..self }
    }
}

/// Entries of a table of names as plain values.
spec fn plain_entries(entries: Seq<(&i32, &String)>) -> Seq<(i32, Seq<char>)> {
    entries.map_values(|entry: (&i32, &String)| (*entry.0, entry.1@))
}

/// A walk through a table of names meets every entry once.
proof fn lemma_plain_entries(table: Map<i32, String>, entries: Seq<(&i32, &String)>)
    requires
        entries.no_duplicates(),
        forall|i: int|
            #![trigger entries[i]]
            0 <= i < entries.len() ==> table.contains_key(*entries[i].0) && table[*entries[i].0]
                == *entries[i].1,
        forall|k: i32| #[trigger] table.contains_key(k) ==> entries.contains((&k, &table[k])),
    ensures
        plain_entries(entries).no_duplicates(),
        plain_entries(entries).to_set() == table.map_values(|name: String| name@).kv_pairs(),
{
    let plain = plain_entries(entries);
    let names = table.map_values(|name: String| name@);
    assert forall|i: int, j: int| 0 <= i < j < plain.len() implies plain[i] != plain[j] by {
        assert(entries[i] != entries[j]);
    }
    assert forall|pair: (i32, Seq<char>)|
        plain.contains(pair) <==> #[trigger] names.kv_pairs().contains(pair) by {
        if plain.contains(pair) {
            let i = choose|i: int| 0 <= i < plain.len() && plain[i] == pair;
            assert(table.contains_key(*entries[i].0));
        }
        if names.kv_pairs().contains(pair) {
            assert(table.contains_key(pair.0));
            let i = choose|i: int|
                0 <= i < entries.len() && entries[i] == (&pair.0, &table[pair.0]);
            assert(plain[i] == pair);
        }
    }
    assert(plain.to_set() =~= names.kv_pairs());
}

impl<S> TrapHandlerConfig<S> {
    /// Returns the registered handlers with their signals, in the order of
    /// [`TrapSignal::iterator`].
    pub fn iter_handlers(&self) -> (handlers: Vec<(TrapSignal, &TrapHandler<S>)>)
        ensures
            handlers_of(handlers@) == self@.handlers_among(TrapSignal::all()),
            handlers_of(handlers@).no_duplicates(),
            handlers_of(handlers@).to_set() == self@.handlers.kv_pairs(),
            forall|i: int|
                0 <= i < handlers.len() ==> self@.handlers.contains_key(
                    (#[trigger] handlers@[i]).0,
                ) && self@.handlers[handlers@[i].0] == handlers@[i].1@,
    {
        let signals = TrapSignal::iterator();
        let mut handlers: Vec<(TrapSignal, &TrapHandler<S>)> = Vec::new();
        proof {
            reveal(Seq::filter);
        }
        for i in 0..signals.len()
            invariant
                handlers_of(handlers@) == self@.handlers_among(signals@.take(i as int)),
        {
            let signal = signals[i];
            proof {
                lemma_handlers_among_last(self@, signals@.take(i + 1));
                assert(signals@.take(i + 1).drop_last() == signals@.take(i as int));
            }
            match self.get_handler(signal) {
                Some(handler) => {
                    assert(handlers_of(handlers@.push((signal, handler))) == handlers_of(
                        handlers@,
                    ).push((signal, handler@)));
                    handlers.push((signal, handler));
                },
                None => {},
            }
        }
        proof {
            assert(signals@.take(signals.len() as int) == signals@);
            law_every_handler_is_among_all_signals(self@);
            assert forall|i: int| 0 <= i < handlers.len() implies self@.handlers.contains_key(
                (#[trigger] handlers@[i]).0,
            ) && self@.handlers[handlers@[i].0] == handlers@[i].1@ by {
                let pair = (handlers@[i].0, handlers@[i].1@);
                assert(handlers_of(handlers@)[i] == pair);
                assert(handlers_of(handlers@).to_set().contains(pair));
                assert(self@.handlers.kv_pairs().contains(pair));
            }
        }
        handlers
    }

    /// Returns the handler of a signal, if one is registered.
    ///
    /// # Arguments
    ///
    /// * `signal_type` - The signal to get the handler for.
    pub fn get_handler(&self, signal_type: TrapSignal) -> (handler: Option<&TrapHandler<S>>)
        ensures
            match handler {
                Some(handler) => self@.handlers.contains_key(signal_type)
                    && self@.handlers[signal_type] == handler@,
                None => !self@.handlers.contains_key(signal_type),
            },
    {
        let key: i32 = key_for(signal_type);
        self.handlers.get(&key)
    }

    /// Returns whether a handler is registered for a signal.
    pub fn handles(&self, signal_type: TrapSignal) -> (handled: bool)
        ensures
            handled == self@.handlers.contains_key(signal_type),
    {
        let key: i32 = key_for(signal_type);
        self.handlers.contains_key(&key)
    }

    /// Returns the signals that were ignored when the shell was created, each number with its
    /// name, in no particular order.
    pub fn iter_ignored_signals_at_entry(&self) -> (ignored: Vec<(i32, &str)>)
        ensures
            names_of(ignored@).no_duplicates(),
            names_of(ignored@).to_set() == self@.ignored_signals_at_entry.kv_pairs(),
            forall|i: int|
                0 <= i < ignored.len() ==> self@.ignored_signals_at_entry.contains_key(
                    (#[trigger] ignored@[i]).0,
                ) && self@.ignored_signals_at_entry[ignored@[i].0] == ignored@[i].1@,
            forall|number: i32| #[trigger]
                self@.ignored_signals_at_entry.contains_key(number) ==> exists|i: int|
                    0 <= i < ignored.len() && (#[trigger] ignored@[i]).0 == number,
    {
        let ghost all = vstd::std_specs::iter::IteratorSpec::remaining(
            &self.ignored_signals_at_entry.iter(),
        );
        let mut ignored: Vec<(i32, &str)> = Vec::new();
        for entry in it: self.ignored_signals_at_entry.iter()
            invariant
                it.seq() == all,
                all.no_duplicates(),
                names_of(ignored@) == plain_entries(all.take(it.index())),
        {
            let (number, name) = entry;
            let name = name.as_str();
            proof {
                let i = it.index();
                assert(all.take(i + 1) == all.take(i).push(all[i]));
                assert(names_of(ignored@.push((*number, name))) == names_of(ignored@).push(
                    (*number, name@),
                ));
            }
            ignored.push((*number, name));
        }
        proof {
            assert(all.take(all.len() as int) == all);
            lemma_plain_entries(self.ignored_signals_at_entry@, all);
            let table = self@.ignored_signals_at_entry;
            assert forall|i: int| 0 <= i < ignored.len() implies table.contains_key(
                (#[trigger] ignored@[i]).0,
            ) && table[ignored@[i].0] == ignored@[i].1@ by {
                let pair = (ignored@[i].0, ignored@[i].1@);
                assert(names_of(ignored@)[i] == pair);
                assert(names_of(ignored@).to_set().contains(pair));
                assert(table.kv_pairs().contains(pair));
            }
            assert forall|number: i32| #[trigger] table.contains_key(number) implies exists|i: int|
                0 <= i < ignored.len() && (#[trigger] ignored@[i]).0 == number by {
                let pair = (number, table[number]);
                assert(table.kv_pairs().contains(pair));
                assert(names_of(ignored@).contains(pair));
                let i = choose|i: int| 0 <= i < ignored.len() && names_of(ignored@)[i] == pair;
                assert(ignored@[i].0 == number);
            }
        }
        ignored
    }

    /// Returns the name of a signal if it was ignored when the shell was created.
    pub fn ignored_signal_name_at_entry(&self, signal_type: TrapSignal) -> (name: Option<&str>)
        ensures
            match name {
                Some(name) => self@.ignored_name(signal_type) == Some(name@),
                None => self@.ignored_name(signal_type) is None,
            },
            match (name, signal_type.number()) {
                (Some(name), Some(n)) => self@.ignored_signals_at_entry.contains_key(n)
                    && self@.ignored_signals_at_entry[n] == name@,
                (None, Some(n)) => !self@.ignored_signals_at_entry.contains_key(n),
                (Some(_), None) => false,
                (None, None) => true,
            },
    {
        match i32::try_from(signal_type) {
            Ok(number) => match self.ignored_signals_at_entry.get(&number) {
                Some(name) => Some(name.as_str()),
                None => None,
            },
            Err(_) => None,
        }
    }

    /// Records that a signal was ignored when the shell was created.
    ///
    /// # Arguments
    ///
    /// * `number` - The signal's number.
    /// * `name` - The signal's name.
    pub fn record_ignored_signal_at_entry(&mut self, number: i32, name: String)
        ensures
            final(self)@ == old(self)@.record_ignored(number, name@),
            final(self)@.handlers == old(self)@.handlers,
            final(self)@.ignored_signals_at_entry == old(self)@.ignored_signals_at_entry.insert(
                number,
                name@,
            ),
    {
        self.ignored_signals_at_entry.insert(number, name);
        assert(self@.ignored_signals_at_entry =~= old(
            self,
        )@.ignored_signals_at_entry.insert(number, name@));
    }

    /// Registers a handler for a signal, in place of one that was registered before.
    ///
    /// # Arguments
    ///
    /// * `signal_type` - The signal to register a handler for.
    /// * `command` - The command to run when the signal is trapped.
    /// * `source_info` - Where the handler was defined.
    pub fn register_handler(
        &mut self,
        signal_type: TrapSignal,
        command: String,
        source_info: S,
    )
        ensures
            final(self)@ == old(self)@.register(
                signal_type,
                TrapHandlerView { command: command@, source_info },
            ),
            final(self)@.ignored_signals_at_entry == old(self)@.ignored_signals_at_entry,
            final(self)@.handlers == old(self)@.handlers.insert(
                signal_type,
                (TrapHandlerView { command: command@, source_info }),
            ),
    {
        let key: i32 = key_for(signal_type);
        self.handlers.insert(key, TrapHandler { command, source_info });
        assert(self@.handlers =~= old(self)@.handlers.insert(
            signal_type,
            TrapHandlerView { command: command@, source_info },
        ));
    }

    /// Removes the handler of a signal.
    ///
    /// # Arguments
    ///
    /// * `signal_type` - The signal to remove the handler of.
    pub fn remove_handlers(&mut self, signal_type: TrapSignal)
        ensures
            final(self)@ == old(self)@.remove(signal_type),
            final(self)@.ignored_signals_at_entry == old(self)@.ignored_signals_at_entry,
            final(self)@.handlers == old(self)@.handlers.remove(signal_type),
    {
        let key: i32 = key_for(signal_type);
        self.handlers.remove(&key);
        assert(self@.handlers =~= old(self)@.handlers.remove(signal_type));
    }
}

proof fn lemma_handlers_among_last<S>(config: TrapHandlerConfigView<S>, signals: Seq<TrapSignal>)
    requires
        signals.len() > 0,
    ensures
        config.handlers_among(signals) == (if config.handlers.contains_key(signals.last()) {
            config.handlers_among(signals.drop_last()).push(
                (signals.last(), config.handlers[signals.last()]),
            )
        } else {
            config.handlers_among(signals.drop_last())
        }),
{
    reveal(Seq::filter);
    assert(config.handlers_among(signals) =~= (if config.handlers.contains_key(signals.last()) {
        config.handlers_among(signals.drop_last()).push(
            (signals.last(), config.handlers[signals.last()]),
        )
    } else {
        config.handlers_among(signals.drop_last())
    }));
}

impl<S> Default for TrapHandlerConfig<S> {
    /// Returns the configuration without handlers, of a shell that was created with no signal
    /// ignored.
    fn default() -> (config: TrapHandlerConfig<S>)
        ensures
            config@ == (TrapHandlerConfigView::<S> {
                handlers: Map::empty(),
                ignored_signals_at_entry: Map::empty(),
            }),
    {
        let config = TrapHandlerConfig {
            handlers: HashMap::new(),
            ignored_signals_at_entry: HashMap::new(),
        };
        assert(config@.handlers =~= Map::empty());
        assert(config@.ignored_signals_at_entry =~= Map::empty());
        config
    }
}

impl<S: Clone> TrapHandlerConfigView<S> {
    /// Whether another configuration is a copy of this one: the same ignored signals, and copies
    /// of the handlers for the same trap signals.
    pub open spec fn copied_as(self, copy: TrapHandlerConfigView<S>) -> bool {
        &&& copy.ignored_signals_at_entry == self.ignored_signals_at_entry
        &&& copy.handlers.dom() == self.handlers.dom()
        &&& forall|signal: TrapSignal| #[trigger]
            self.handlers.contains_key(signal) ==> self.handlers[signal].copied_as(
                copy.handlers[signal],
            )
    }
}

impl<S: Clone> Clone for TrapHandlerConfig<S> {
    fn clone(&self) -> (copy: TrapHandlerConfig<S>)
        ensures
            self@.copied_as(copy@),
            copy@.ignored_signals_at_entry == self@.ignored_signals_at_entry,
            copy@.handlers.dom() == self@.handlers.dom(),
            forall|signal: TrapSignal| #[trigger]
                self@.handlers.contains_key(signal) ==> copy@.handlers[signal].command
                    == self@.handlers[signal].command && cloned::<S>(
                    self@.handlers[signal].source_info,
                    copy@.handlers[signal].source_info,
                ),
    {
        let mut copy: TrapHandlerConfig<S> = TrapHandlerConfig {
            handlers: HashMap::new(),
            ignored_signals_at_entry: self.ignored_signals_at_entry.clone(),
        };
        let entries = self.iter_handlers();
        for i in 0..entries.len()
            invariant
                handlers_of(entries@).to_set() == self@.handlers.kv_pairs(),
                copy@.ignored_signals_at_entry == self@.ignored_signals_at_entry,
                forall|signal: TrapSignal| #[trigger]
                    copy@.handlers.contains_key(signal) <==> exists|k: int|
                        0 <= k < i && (#[trigger] entries@[k]).0 == signal,
                forall|signal: TrapSignal| #[trigger]
                    copy@.handlers.contains_key(signal) ==> self@.handlers.contains_key(signal)
                        && self@.handlers[signal].copied_as(copy@.handlers[signal]),
        {
            let (signal, handler) = entries[i];
            let handler_copy = handler.clone();
            proof {
                let pair = (signal, handler@);
                assert(handlers_of(entries@)[i as int] == pair);
                assert(handlers_of(entries@).to_set().contains(pair));
                assert(self@.handlers.kv_pairs().contains(pair));
            }
            let key: i32 = key_for(signal);
            let ghost before = copy@.handlers;
            let ghost copied = handler_copy@;
            copy.handlers.insert(key, handler_copy);
            assert(copy@.handlers =~= before.insert(signal, copied));
        }
        proof {
            assert forall|signal: TrapSignal| #[trigger]
                self@.handlers.contains_key(signal) implies copy@.handlers.contains_key(
                signal,
            ) by {
                let pair = (signal, self@.handlers[signal]);
                assert(self@.handlers.kv_pairs().contains(pair));
                assert(handlers_of(entries@).contains(pair));
                let k = choose|k: int|
                    0 <= k < entries@.len() && handlers_of(entries@)[k] == pair;
                assert(entries@[k].0 == signal);
            }
            assert(copy@.handlers.dom() =~= self@.handlers.dom());
        }
        copy
    }
}

/// Law: a copy of a configuration is the same configuration where cloning source information
/// gives back an equal value.
pub proof fn law_clone_is_the_same<S: Clone>(
    config: TrapHandlerConfigView<S>,
    copy: TrapHandlerConfigView<S>,
)
    requires
        config.copied_as(copy),
        forall|a: S, b: S| #[trigger] cloned::<S>(a, b) ==> a == b,
    ensures
        copy == config,
{
    assert forall|signal: TrapSignal| #[trigger] config.handlers.contains_key(signal) implies
        copy.handlers[signal] == config.handlers[signal] by {
        assert(config.handlers[signal].copied_as(copy.handlers[signal]));
    }
    assert(copy.handlers =~= config.handlers);
}

/// Law: a copy of a configuration has the same ignored signals.
pub proof fn law_clone_keeps_the_ignored_signals<S: Clone>(
    config: TrapHandlerConfigView<S>,
    copy: TrapHandlerConfigView<S>,
    signal: TrapSignal,
)
    requires
        config.copied_as(copy),
    ensures
        copy.ignored_signals_at_entry == config.ignored_signals_at_entry,
        copy.ignored_name(signal) == config.ignored_name(signal),
{
}

/// Law: looking through all trap signals meets every registered handler, and each once.
pub proof fn law_every_handler_is_among_all_signals<S>(config: TrapHandlerConfigView<S>)
    requires
        config.valid(),
    ensures
        config.handlers_among(TrapSignal::all()).no_duplicates(),
        config.handlers_among(TrapSignal::all()).to_set() == config.handlers.kv_pairs(),
{
    let all = TrapSignal::all();
    let found = config.handlers_among(all);
    traps::law_all_is_every_signal_once();
    lemma_handlers_among(config, all);
    assert forall|pair: (TrapSignal, TrapHandlerView<S>)|
        found.contains(pair) <==> #[trigger] config.handlers.kv_pairs().contains(pair) by {
        if config.handlers.kv_pairs().contains(pair) {
            assert(config.handlers.contains_key(pair.0));
            assert(all.contains(pair.0));
        }
    }
    assert(found.to_set() =~= config.handlers.kv_pairs());
}

proof fn lemma_handlers_among<S>(config: TrapHandlerConfigView<S>, signals: Seq<TrapSignal>)
    requires
        signals.no_duplicates(),
    ensures
        config.handlers_among(signals).no_duplicates(),
        forall|pair: (TrapSignal, TrapHandlerView<S>)| #[trigger]
            config.handlers_among(signals).contains(pair) <==> signals.contains(pair.0)
                && config.handlers.contains_key(pair.0) && config.handlers[pair.0] == pair.1,
    decreases signals.len(),
{
    reveal(Seq::filter);
    if signals.len() > 0 {
        let before = signals.drop_last();
        let last = signals.last();
        lemma_handlers_among(config, before);
        lemma_handlers_among_last(config, signals);
        assert(!before.contains(last));
        assert(signals == before.push(last));
        assert forall|t: TrapSignal| #[trigger] signals.contains(t) <==> before.contains(t) || t
            == last by {
            if before.contains(t) {
                let k = choose|k: int| 0 <= k < before.len() && before[k] == t;
                assert(signals[k] == t);
            }
            assert(signals[before.len() as int] == last);
        }
        if config.handlers.contains_key(last) {
            let list = config.handlers_among(before);
            let entry = (last, config.handlers[last]);
            assert(!list.contains(entry));
            assert forall|pair: (TrapSignal, TrapHandlerView<S>)|
                #[trigger] list.push(entry).contains(pair) <==> list.contains(pair) || pair
                    == entry by {
                if list.contains(pair) {
                    let k = choose|k: int| 0 <= k < list.len() && list[k] == pair;
                    assert(list.push(entry)[k] == pair);
                }
                assert(list.push(entry)[list.len() as int] == entry);
            }
        }
    }
}

/// Law: a handler that was registered for a signal is the one that is found for it, and the
/// handlers of the other signals stay as they were.
pub proof fn law_registered_handler_is_found<S>(
    config: TrapHandlerConfigView<S>,
    signal: TrapSignal,
    handler: TrapHandlerView<S>,
    other: TrapSignal,
)
    ensures
        config.register(signal, handler).handlers.contains_key(signal),
        config.register(signal, handler).handlers[signal] == handler,
        other != signal ==> config.register(signal, handler).handlers.contains_key(other)
            == config.handlers.contains_key(other),
        other != signal && config.handlers.contains_key(other) ==> config.register(
            signal,
            handler,
        ).handlers[other] == config.handlers[other],
{
}

/// Law: of two handlers registered for a signal the later one counts.
pub proof fn law_later_handler_replaces_earlier<S>(
    config: TrapHandlerConfigView<S>,
    signal: TrapSignal,
    earlier: TrapHandlerView<S>,
    later: TrapHandlerView<S>,
)
    ensures
        config.register(signal, earlier).register(signal, later) == config.register(signal, later),
{
    assert(config.register(signal, earlier).register(signal, later) =~= config.register(
        signal,
        later,
    ));
}

/// Law: a signal whose handlers were removed has none, and the handlers of the other signals
/// stay as they were.
pub proof fn law_removed_handler_is_gone<S>(
    config: TrapHandlerConfigView<S>,
    signal: TrapSignal,
    other: TrapSignal,
)
    ensures
        !config.remove(signal).handlers.contains_key(signal),
        other != signal ==> config.remove(signal).handlers.contains_key(other)
            == config.handlers.contains_key(other),
        other != signal && config.handlers.contains_key(other) ==> config.remove(
            signal,
        ).handlers[other] == config.handlers[other],
{
}

/// Law: removing a handler undoes its registration where the signal had none before.
pub proof fn law_removing_undoes_registering<S>(
    config: TrapHandlerConfigView<S>,
    signal: TrapSignal,
    handler: TrapHandlerView<S>,
)
    requires
        !config.handlers.contains_key(signal),
    ensures
        config.register(signal, handler).remove(signal) == config,
{
    assert(config.register(signal, handler).remove(signal) =~= config);
}

/// Law: a signal that was recorded as ignored under its number is found by the trap signal, with
/// the name that was recorded, and what is found for other trap signals stays as it was.
pub proof fn law_recorded_signal_is_found_by_trap_signal<S>(
    config: TrapHandlerConfigView<S>,
    signal: TrapSignal,
    number: i32,
    name: Seq<char>,
    other: TrapSignal,
)
    requires
        signal.valid(),
        other.valid(),
        signal.number() == Some(number),
    ensures
        config.record_ignored(number, name).ignored_name(signal) == Some(name),
        other != signal ==> config.record_ignored(number, name).ignored_name(other)
            == config.ignored_name(other),
{
    traps::law_found_by_its_number(signal);
    traps::law_found_by_its_number(other);
}

/// Law: a trap signal without a number is never found among the ignored ones.
pub proof fn law_signal_without_number_is_never_ignored<S>(
    config: TrapHandlerConfigView<S>,
    signal: TrapSignal,
)
    requires
        signal.number() is None,
    ensures
        config.ignored_name(signal) is None,
{
}

/// Law: handlers and ignored signals do not touch each other: registering and removing handlers
/// leaves the ignored signals as they were, and recording an ignored signal leaves the handlers.
pub proof fn law_handlers_and_ignored_signals_are_independent<S>(
    config: TrapHandlerConfigView<S>,
    signal: TrapSignal,
    handler: TrapHandlerView<S>,
    number: i32,
    name: Seq<char>,
)
    ensures
        config.register(signal, handler).ignored_signals_at_entry
            == config.ignored_signals_at_entry,
        config.remove(signal).ignored_signals_at_entry == config.ignored_signals_at_entry,
        config.record_ignored(number, name).handlers == config.handlers,
{
}

/// Law: a handler as plain values has the handler's own command and source information.
pub proof fn law_handler_keeps_command_and_source<S>(handler: TrapHandler<S>)
    ensures
        handler@.command == handler.command@,
        handler@.source_info == handler.source_info,
{
}

/// Law: a list of handlers stays as it is, in its order, when it is taken as plain values.
pub proof fn law_handler_list_keeps_signals_and_handlers<S>(
    handlers: Seq<(TrapSignal, &TrapHandler<S>)>,
    i: int,
)
    requires
        0 <= i < handlers.len(),
    ensures
        handlers_of(handlers).len() == handlers.len(),
        handlers_of(handlers)[i].0 == handlers[i].0,
        handlers_of(handlers)[i].1.command == handlers[i].1.command@,
        handlers_of(handlers)[i].1.source_info == handlers[i].1.source_info,
{
}

/// Law: a list of names stays as it is, in its order, when it is taken as plain values.
pub proof fn law_name_list_keeps_numbers_and_names(names: Seq<(i32, &str)>, i: int)
    requires
        0 <= i < names.len(),
    ensures
        names_of(names).len() == names.len(),
        names_of(names)[i].0 == names[i].0,
        names_of(names)[i].1 == names[i].1@,
{
}

/// Law: the handlers among one signal are the signal with its handler, or nothing where it has
/// none.
pub proof fn law_handlers_among_one<S>(config: TrapHandlerConfigView<S>, signal: TrapSignal)
    ensures
        config.handlers.contains_key(signal) ==> config.handlers_among(seq![signal]) == seq![
            (signal, config.handlers[signal]),
        ],
        !config.handlers.contains_key(signal) ==> config.handlers_among(seq![signal]) == Seq::<
            (TrapSignal, TrapHandlerView<S>),
        >::empty(),
        config.handlers_among(Seq::empty()) == Seq::<(TrapSignal, TrapHandlerView<S>)>::empty(),
{
    reveal(Seq::filter);
    lemma_handlers_among_last(config, seq![signal]);
    assert(seq![signal].drop_last() =~= Seq::empty());
    assert(config.handlers_among(Seq::empty()) =~= Seq::<
        (TrapSignal, TrapHandlerView<S>),
    >::empty());
}

/// Law: handlers are listed in the order of the signals: those among two lists, one after the
/// other, are those among each.
pub proof fn law_handlers_among_parts<S>(
    config: TrapHandlerConfigView<S>,
    a: Seq<TrapSignal>,
    b: Seq<TrapSignal>,
)
    ensures
        config.handlers_among(a + b) == config.handlers_among(a) + config.handlers_among(b),
    decreases b.len(),
{
    if b.len() == 0 {
        reveal(Seq::filter);
        assert(a + b == a);
        assert(config.handlers_among(a + b) =~= config.handlers_among(a) + config.handlers_among(
            b,
        ));
    } else {
        assert((a + b).drop_last() == a + b.drop_last());
        law_handlers_among_parts(config, a, b.drop_last());
        lemma_handlers_among_last(config, a + b);
        lemma_handlers_among_last(config, b);
        assert(config.handlers_among(a + b) =~= config.handlers_among(a) + config.handlers_among(
            b,
        ));
    }
}

/// Law: a number that was recorded as ignored has the name that was recorded, of two names the
/// later one, and all other numbers stay as they were.
pub proof fn law_recorded_number_has_the_name<S>(
    config: TrapHandlerConfigView<S>,
    number: i32,
    earlier: Seq<char>,
    name: Seq<char>,
    other: i32,
)
    ensures
        config.record_ignored(number, name).ignored_signals_at_entry.contains_key(number),
        config.record_ignored(number, name).ignored_signals_at_entry[number] == name,
        config.record_ignored(number, earlier).record_ignored(number, name)
            == config.record_ignored(number, name),
        other != number ==> config.record_ignored(
            number,
            name,
        ).ignored_signals_at_entry.contains_key(other)
            == config.ignored_signals_at_entry.contains_key(other),
        other != number ==> config.record_ignored(number, name).ignored_signals_at_entry[other]
            == config.ignored_signals_at_entry[other],
{
    assert(config.record_ignored(number, earlier).record_ignored(number, name)
        =~= config.record_ignored(number, name));
}

/// Law: a trap signal is found among the ignored ones exactly where its number was recorded, and
/// with the name recorded there.
pub proof fn law_ignored_name_is_the_one_at_the_number<S>(
    config: TrapHandlerConfigView<S>,
    signal: TrapSignal,
    name: Seq<char>,
)
    ensures
        config.ignored_name(signal) == Some(name) <==> (signal.number() matches Some(n)
            && config.ignored_signals_at_entry.contains_key(n)
            && config.ignored_signals_at_entry[n] == name),
{
}

}
