//! Signals of the operating system: their names and numbers, which of them a process ignores,
//! and what is sent to another process.

use vstd::prelude::*;

use crate::error::Error;
use crate::os;
use crate::text;
use crate::traps::TrapSignal;

verus! {

/// The names of the signals, in the order of their numbers: the first is that of signal 1.
///
/// The table is that of Linux on the architectures with its generic signal numbering.
pub open spec fn signal_names() -> Seq<Seq<char>> {
    seq![
        "SIGHUP"@, "SIGINT"@, "SIGQUIT"@, "SIGILL"@, "SIGTRAP"@, "SIGABRT"@, "SIGBUS"@, "SIGFPE"@,
        "SIGKILL"@, "SIGUSR1"@, "SIGSEGV"@, "SIGUSR2"@, "SIGPIPE"@, "SIGALRM"@, "SIGTERM"@,
        "SIGSTKFLT"@, "SIGCHLD"@, "SIGCONT"@, "SIGSTOP"@, "SIGTSTP"@, "SIGTTIN"@, "SIGTTOU"@,
        "SIGURG"@, "SIGXCPU"@, "SIGXFSZ"@, "SIGVTALRM"@, "SIGPROF"@, "SIGWINCH"@, "SIGIO"@,
        "SIGPWR"@, "SIGSYS"@,
    ]
}

/// Whether a number is that of a signal.
pub open spec fn is_signal_number(n: int) -> bool {
    1 <= n <= signal_names().len()
}

/// The name of the signal with a number.
pub open spec fn signal_name(n: int) -> Seq<char> {
    signal_names()[n - 1]
}

/// The numbers of all signals, in ascending order.
pub open spec fn signal_numbers() -> Seq<i32> {
    Seq::new(signal_names().len(), |i: int| (i + 1) as i32)
}

/// A signal of the operating system.
#[derive(Clone, Copy, Debug, PartialEq, Eq, Hash, Structural)]
pub struct Signal {
    number: i32,
}

/// A signal is seen as its number.
impl View for Signal {
    type V = i32;

    closed spec fn view(&self) -> i32 {
        self.number
    }
}

/// The signal with a number.
pub closed spec fn signal_of(n: int) -> Signal {
    Signal { number: n as i32 }
}

/// A signal is the one with its number.
pub broadcast proof fn lemma_signal_of_view(s: Signal)
    ensures
        signal_of(#[trigger] s@ as int) == s,
{
}

/// The signal with a number has that number.
pub broadcast proof fn lemma_view_of_signal(n: int)
    requires
        is_signal_number(n),
    ensures
        (#[trigger] signal_of(n))@ == n,
{
}

/// The signal with a name, if there is one.
pub open spec fn signal_named(name: Seq<char>) -> Option<Signal> {
    if exists|n: int| is_signal_number(n) && #[trigger] signal_name(n) == name {
        Some(signal_of(choose|n: int| is_signal_number(n) && #[trigger] signal_name(n) == name))
    } else {
        None
    }
}

/// Whether a text begins with the three letters that all signal names share.
pub open spec fn has_sig_prefix(s: Seq<char>) -> bool {
    s.len() >= 3 && s[0] == 'S' && s[1] == 'I' && s[2] == 'G'
}

/// What all names of the table have in common.
spec fn name_shape(s: Seq<char>) -> bool {
    &&& s.len() >= 5
    &&& has_sig_prefix(s)
    &&& 'A' <= s[3] <= 'Z'
    &&& s[3] != 'D' && s[3] != 'E' && s[3] != 'R'
    &&& s[3] == 'S' ==> s[4] != 'I'
    &&& forall|i: int| 0 <= i < s.len() ==> !('a' <= #[trigger] s[i] <= 'z')
}

/// What can be read off the letters of the table.
proof fn lemma_table_letters(a: int, b: int)
    requires
        is_signal_number(a),
        is_signal_number(b),
    ensures
        name_shape(signal_name(a)),
        signal_name(a) == signal_name(b) ==> a == b,
{
    reveal_strlit("SIGHUP");
    reveal_strlit("SIGINT");
    reveal_strlit("SIGQUIT");
    reveal_strlit("SIGILL");
    reveal_strlit("SIGTRAP");
    reveal_strlit("SIGABRT");
    reveal_strlit("SIGBUS");
    reveal_strlit("SIGFPE");
    reveal_strlit("SIGKILL");
    reveal_strlit("SIGUSR1");
    reveal_strlit("SIGSEGV");
    reveal_strlit("SIGUSR2");
    reveal_strlit("SIGPIPE");
    reveal_strlit("SIGALRM");
    reveal_strlit("SIGTERM");
    reveal_strlit("SIGSTKFLT");
    reveal_strlit("SIGCHLD");
    reveal_strlit("SIGCONT");
    reveal_strlit("SIGSTOP");
    reveal_strlit("SIGTSTP");
    reveal_strlit("SIGTTIN");
    reveal_strlit("SIGTTOU");
    reveal_strlit("SIGURG");
    reveal_strlit("SIGXCPU");
    reveal_strlit("SIGXFSZ");
    reveal_strlit("SIGVTALRM");
    reveal_strlit("SIGPROF");
    reveal_strlit("SIGWINCH");
    reveal_strlit("SIGIO");
    reveal_strlit("SIGPWR");
    reveal_strlit("SIGSYS");
    let s = signal_name(a);
    let t = signal_name(b);
    assert(name_shape(s) && name_shape(t));
    if s == t {
        assert(s[3] == t[3] && s[4] == t[4]);
        assert(s[s.len() - 2] == t[t.len() - 2] && s.last() == t.last());
    }
}

/// Law: every signal name is an upper-case text that begins with `SIG`.
pub proof fn law_signal_names_are_upper_case_with_prefix(n: int)
    requires
        is_signal_number(n),
    ensures
        has_sig_prefix(signal_name(n)),
        text::ascii_upper(signal_name(n)) == signal_name(n),
{
    lemma_table_letters(n, n);
    assert(text::ascii_upper(signal_name(n)) =~= signal_name(n));
}

/// A signal name without its prefix begins with a letter, and begins neither with the prefix again
/// nor with the first letter of `DEBUG`, `ERR`, `EXIT` or `RETURN`.
pub proof fn lemma_name_without_prefix(n: int)
    requires
        is_signal_number(n),
    ensures
        signal_name(n).len() > 3,
        'A' <= signal_name(n)[3] <= 'Z',
        signal_name(n)[3] != 'D',
        signal_name(n)[3] != 'E',
        signal_name(n)[3] != 'R',
        !has_sig_prefix(signal_name(n).skip(3)),
{
    lemma_table_letters(n, n);
}

/// Law: no two signals share a name.
pub proof fn law_signal_names_are_distinct(a: int, b: int)
    requires
        is_signal_number(a),
        is_signal_number(b),
        signal_name(a) == signal_name(b),
    ensures
        a == b,
{
    lemma_table_letters(a, b);
}

/// Law: looking up a signal's name finds that signal.
pub proof fn law_signal_found_by_its_name(n: int)
    requires
        is_signal_number(n),
    ensures
        signal_named(signal_name(n)) == Some(signal_of(n)),
{
    let found = choose|m: int| is_signal_number(m) && #[trigger] signal_name(m) == signal_name(n);
    law_signal_names_are_distinct(found, n);
}

/// Law: what is found by a name has that name, and nothing is found only where no signal has it.
pub proof fn law_found_signal_has_the_name(name: Seq<char>)
    ensures
        signal_named(name) matches Some(s) ==> is_signal_number(s@ as int) && signal_name(s@ as int)
            == name,
        signal_named(name) is None ==> forall|n: int|
            is_signal_number(n) ==> #[trigger] signal_name(n) != name,
{
    broadcast use lemma_view_of_signal;

}

impl Signal {
    /// Only numbers of the signal table stand for a signal.
    #[verifier::type_invariant]
    spec fn is_known(self) -> bool {
        is_signal_number(self.number as int)
    }

    /// Returns all signals, in the order of their numbers.
    pub fn iterator() -> (signals: Vec<Signal>)
        ensures
            signals@ == signal_numbers().map_values(|n: i32| signal_of(n as int)),
            signals.len() == signal_names().len(),
            forall|i: int| 0 <= i < signals.len() ==> (#[trigger] signals@[i])@ == i + 1,
    {
        let numbers = os::all_numbers();
        let mut signals: Vec<Signal> = Vec::new();
        for i in 0..numbers.len()
            invariant
                numbers@ == signal_numbers(),
                signals@ == signal_numbers().take(i as int).map_values(
                    |n: i32| signal_of(n as int),
                ),
        {
            signals.push(Signal { number: numbers[i] });
        }
        assert(signal_numbers().take(numbers.len() as int) == signal_numbers());
        signals
    }

    /// Returns the signal's number.
    pub fn number(self) -> (number: i32)
        ensures
            number == self@,
            is_signal_number(self@ as int),
    {
        proof {
            use_type_invariant(&self);
        }
        self.number
    }

    /// Returns the signal's name, such as `SIGHUP`.
    pub fn as_str(self) -> (name: &'static str)
        ensures
            name@ == signal_name(self@ as int),
            is_signal_number(self@ as int),
    {
        proof {
            use_type_invariant(&self);
        }
        os::name_of_number(self.number)
    }

    /// Returns the signal with a number, or the system's error number where there is none.
    pub fn from_number(number: i32) -> (found: Result<Signal, i32>)
        ensures
            found == (if is_signal_number(number as int) {
                Ok::<Signal, i32>(signal_of(number as int))
            } else {
                Err::<Signal, i32>(os::einval())
            }),
            found matches Ok(signal) ==> signal@ == number,
    {
        match os::known_number(number) {
            Ok(number) => Ok(Signal { number }),
            Err(errno) => Err(errno),
        }
    }

    /// Returns the signal with a name, spelled in full and in upper case, or the system's error
    /// number where there is none.
    pub fn from_name(name: &str) -> (found: Result<Signal, i32>)
        ensures
            found == (match signal_named(name@) {
                Some(signal) => Ok::<Signal, i32>(signal),
                None => Err::<Signal, i32>(os::einval()),
            }),
            found matches Ok(signal) ==> is_signal_number(signal@ as int) && signal_name(
                signal@ as int,
            ) == name@,
            found is Err ==> forall|n: int|
                is_signal_number(n) ==> #[trigger] signal_name(n) != name@,
    {
        match os::number_of_name(name) {
            Ok(number) => {
                proof {
                    law_signal_found_by_its_name(number as int);
                }
                Ok(Signal { number })
            },
            Err(errno) => Err(errno),
        }
    }
}

/// The name of a real-time signal: counted up from the first one in the lower half of the range
/// and down from the last one in the upper half.
pub open spec fn realtime_name(n: int, min: int, max: int) -> Seq<char> {
    if n == min {
        "SIGRTMIN"@
    } else if n <= min + (max - min) / 2 {
        "SIGRTMIN+"@ + text::decimal(n - min)
    } else if n == max {
        "SIGRTMAX"@
    } else {
        "SIGRTMAX-"@ + text::decimal(max - n)
    }
}

/// The real-time signals of a range, with their names.
pub open spec fn realtime_entries(min: int, max: int) -> Seq<(i32, Seq<char>)> {
    Seq::new(
        (if min <= max { max - min + 1 } else { 0 }) as nat,
        |i: int| ((min + i) as i32, realtime_name(min + i, min, max)),
    )
}

/// Numbers with names, as plain values.
pub open spec fn entries_of(entries: Seq<(i32, String)>) -> Seq<(i32, Seq<char>)> {
    entries.map_values(|entry: (i32, String)| (entry.0, entry.1@))
}

/// Returns the real-time signals from `min` to `max`, both included, with their names.
pub fn realtime_signals_between(min: i32, max: i32) -> (entries: Vec<(i32, String)>)
    ensures
        entries_of(entries@) == realtime_entries(min as int, max as int),
        entries.len() == (if min <= max { max - min + 1 } else { 0 }),
        forall|i: int| 0 <= i < entries.len() ==> (#[trigger] entries@[i]).0 == min + i,
        forall|i: int|
            0 <= i < entries.len() ==> (#[trigger] entries@[i]).1@ == (if i == 0 {
                "SIGRTMIN"@
            } else if i == max - min {
                "SIGRTMAX"@
            } else if i <= max - min - i {
                "SIGRTMIN+"@ + text::decimal(i)
            } else {
                "SIGRTMAX-"@ + text::decimal(max - min - i)
            }),
{
    let mut entries: Vec<(i32, String)> = Vec::new();
    let first: i64 = min as i64;
    let last: i64 = max as i64;
    let midpoint: i64 = first + (last - first) / 2;
    let mut signal: i64 = first;
    while signal <= last
        invariant
            first == min,
            last == max,
            first <= last ==> midpoint == first + (last - first) / 2,
            first <= signal,
            first <= last ==> signal <= last + 1,
            first > last ==> signal == first,
            entries_of(entries@) == realtime_entries(min as int, max as int).take(signal - first),
        decreases last + 1 - signal,
    {
        let name = if signal == first {
            "SIGRTMIN".to_owned()
        } else if signal <= midpoint {
            "SIGRTMIN+".to_owned().concat(text::to_decimal(signal - first).as_str())
        } else if signal == last {
            "SIGRTMAX".to_owned()
        } else {
            "SIGRTMAX-".to_owned().concat(text::to_decimal(last - signal).as_str())
        };
        entries.push((signal as i32, name));
        proof {
            let all = realtime_entries(min as int, max as int);
            assert(all.take(signal - first + 1) == all.take(signal - first).push(
                (signal as i32, name@),
            ));
        }
        signal += 1;
    }
    proof {
        let all = realtime_entries(min as int, max as int);
        assert(all.take(all.len() as int) == all);
        assert(entries_of(entries@).len() == all.len());
        assert forall|i: int| 0 <= i < entries.len() implies (#[trigger] entries@[i]).0 == min + i
            && entries@[i].1@ == realtime_name(min + i, min as int, max as int) by {
            assert(entries_of(entries@)[i] == all[i]);
        }
    }
    entries
}

/// Whether the C library may give this range of real-time signals.
pub closed spec fn is_system_range(min: i32, max: i32) -> bool {
    call_ensures(os::realtime_min, (), min) && call_ensures(os::realtime_max, (), max)
}

/// Returns what a function answers, with the answer tied to the function.
fn asked<F: Fn() -> i32>(f: F) -> (number: i32)
    requires
        call_requires(f, ()),
    ensures
        call_ensures(f, (), number),
{
    f()
}

/// Returns the system's real-time signals with their names.
///
/// The range is the one that the C library gives. Its numbers differ between C libraries, so
/// that the contract fixes none of them.
pub fn realtime_signals() -> (entries: Vec<(i32, String)>)
    ensures
        exists|min: i32, max: i32|
            is_system_range(min, max) && entries_of(entries@) == #[trigger] realtime_entries(
                min as int,
                max as int,
            ),
{
    let min = asked(os::realtime_min);
    let max = asked(os::realtime_max);
    realtime_signals_between(min, max)
}

/// How the names of real-time signals begin.
proof fn lemma_realtime_prefixes()
    ensures
        "SIGRTMIN"@ == seq!['S', 'I', 'G', 'R', 'T', 'M', 'I', 'N'],
        "SIGRTMIN+"@ == seq!['S', 'I', 'G', 'R', 'T', 'M', 'I', 'N', '+'],
        "SIGRTMAX"@ == seq!['S', 'I', 'G', 'R', 'T', 'M', 'A', 'X'],
        "SIGRTMAX-"@ == seq!['S', 'I', 'G', 'R', 'T', 'M', 'A', 'X', '-'],
{
    reveal_strlit("SIGRTMIN");
    reveal_strlit("SIGRTMIN+");
    reveal_strlit("SIGRTMAX");
    reveal_strlit("SIGRTMAX-");
    assert("SIGRTMIN"@ =~= seq!['S', 'I', 'G', 'R', 'T', 'M', 'I', 'N']);
    assert("SIGRTMIN+"@ =~= seq!['S', 'I', 'G', 'R', 'T', 'M', 'I', 'N', '+']);
    assert("SIGRTMAX"@ =~= seq!['S', 'I', 'G', 'R', 'T', 'M', 'A', 'X']);
    assert("SIGRTMAX-"@ =~= seq!['S', 'I', 'G', 'R', 'T', 'M', 'A', 'X', '-']);
}

/// Law: no two real-time signals of a range share a name.
pub proof fn law_realtime_names_are_distinct(a: int, b: int, min: int, max: int)
    requires
        min <= a <= max,
        min <= b <= max,
        realtime_name(a, min, max) == realtime_name(b, min, max),
    ensures
        a == b,
{
    lemma_realtime_prefixes();
    let name_a = realtime_name(a, min, max);
    let name_b = realtime_name(b, min, max);
    let middle = min + (max - min) / 2;
    assert(name_a[6] == name_b[6]);
    assert((a <= middle) == (name_a[6] == 'I')) by {
        assert(a <= middle ==> name_a[6] == 'I');
        assert(a > middle ==> name_a[6] == 'A');
    }
    assert((b <= middle) == (name_b[6] == 'I')) by {
        assert(b <= middle ==> name_b[6] == 'I');
        assert(b > middle ==> name_b[6] == 'A');
    }
    lemma_plain_end_is_shorter(a, min, max);
    lemma_plain_end_is_shorter(b, min, max);
    if a <= middle {
        if a != min && b != min {
            assert(name_a.skip(9) == text::decimal(a - min));
            assert(name_b.skip(9) == text::decimal(b - min));
            text::law_decimal_texts_are_distinct((a - min) as nat, (b - min) as nat);
        }
    } else {
        if a != max && b != max {
            assert(name_a.skip(9) == text::decimal(max - a));
            assert(name_b.skip(9) == text::decimal(max - b));
            text::law_decimal_texts_are_distinct((max - a) as nat, (max - b) as nat);
        }
    }
}

/// The name of an end of the range has eight letters, and every other name has more.
proof fn lemma_plain_end_is_shorter(n: int, min: int, max: int)
    requires
        min <= n <= max,
    ensures
        (realtime_name(n, min, max).len() == 8) == (n == min || n == max),
{
    lemma_realtime_prefixes();
}

/// Law: a range of real-time signals begins with `SIGRTMIN` and, where it has more than one
/// signal, ends with `SIGRTMAX`.
pub proof fn law_realtime_range_ends(min: int, max: int)
    requires
        min <= max,
    ensures
        realtime_name(min, min, max) == "SIGRTMIN"@,
        min < max ==> realtime_name(max, min, max) == "SIGRTMAX"@,
{
}

/// Law: no real-time signal has the name of a signal of the table.
pub proof fn law_realtime_names_are_not_in_the_table(n: int, min: int, max: int, m: int)
    requires
        min <= n <= max,
        is_signal_number(m),
    ensures
        realtime_name(n, min, max) != signal_name(m),
{
    lemma_realtime_prefixes();
    lemma_table_letters(m, m);
    assert(realtime_name(n, min, max)[3] == 'R');
}

/// The signals of the table with their names.
pub open spec fn standard_entries() -> Seq<(i32, Seq<char>)> {
    signal_numbers().map_values(|n: i32| (n, signal_name(n as int)))
}

/// Returns the signals whose disposition is worth asking for, with their names: those of the
/// table first, then the given real-time signals.
pub fn candidate_signals(realtime: Vec<(i32, String)>) -> (candidates: Vec<(i32, String)>)
    ensures
        entries_of(candidates@) == standard_entries() + entries_of(realtime@),
        candidates.len() == signal_names().len() + realtime.len(),
        forall|i: int|
            0 <= i < signal_names().len() ==> (#[trigger] candidates@[i]).0 == i + 1
                && candidates@[i].1@ == signal_name(i + 1),
        forall|i: int|
            0 <= i < realtime.len() ==> (#[trigger] realtime@[i]).0 == candidates@[i
                + signal_names().len()].0 && realtime@[i].1@ == candidates@[i
                + signal_names().len()].1@,
{
    broadcast use {lemma_signal_of_view, lemma_view_of_signal};

    let signals = Signal::iterator();
    let mut candidates: Vec<(i32, String)> = Vec::new();
    for i in 0..signals.len()
        invariant
            signals@ == signal_numbers().map_values(|n: i32| signal_of(n as int)),
            entries_of(candidates@) == standard_entries().take(i as int),
    {
        let signal = signals[i];
        let number: i32 = signal.number();
        let name = signal.as_str().to_owned();
        candidates.push((number, name));
        proof {
            assert(is_signal_number(signal_numbers()[i as int] as int));
            assert(standard_entries().take(i + 1) == standard_entries().take(i as int).push(
                (number, name@),
            ));
        }
    }
    assert(standard_entries().take(signals.len() as int) == standard_entries());
    let ghost given = realtime@;
    let mut realtime = realtime;
    candidates.append(&mut realtime);
    proof {
        let entries = standard_entries() + entries_of(given);
        let table = signal_names().len() as int;
        assert(entries_of(candidates@) == entries);
        assert forall|i: int| 0 <= i < table implies (#[trigger] candidates@[i]).0 == i + 1
            && candidates@[i].1@ == signal_name(i + 1) by {
            assert(entries_of(candidates@)[i] == standard_entries()[i]);
        }
        assert forall|i: int| 0 <= i < given.len() implies (#[trigger] given[i]).0 == candidates@[i
            + table].0 && given[i].1@ == candidates@[i + table].1@ by {
            assert(entries_of(candidates@)[i + table] == entries_of(given)[i]);
        }
    }
    candidates
}

/// Returns the signals whose disposition is worth asking for on this system, with their names:
/// those of the table, then the real-time signals in the range that the C library gives.
pub fn system_candidate_signals() -> (candidates: Vec<(i32, String)>)
    ensures
        exists|min: i32, max: i32|
            is_system_range(min, max) && entries_of(candidates@) == standard_entries()
                + #[trigger] realtime_entries(min as int, max as int),
{
    let realtime = realtime_signals();
    candidate_signals(realtime)
}

/// Whether an answer on a signal's disposition says that the signal is ignored.
pub open spec fn answers_ignored(answer: Result<bool, Error>) -> bool {
    answer matches Ok(ignored) && ignored
}

/// The signals that are ignored, out of signals with the answers on their disposition.
pub open spec fn ignored_entries(answered: Seq<((i32, String), Result<bool, Error>)>) -> Seq<
    (i32, Seq<char>),
> {
    answered.filter(
        |asked: ((i32, String), Result<bool, Error>)| answers_ignored(asked.1),
    ).map_values(|asked: ((i32, String), Result<bool, Error>)| (asked.0.0, asked.0.1@))
}

proof fn lemma_ignored_entries_last(answered: Seq<((i32, String), Result<bool, Error>)>)
    requires
        answered.len() > 0,
    ensures
        ignored_entries(answered) == (if answers_ignored(answered.last().1) {
            ignored_entries(answered.drop_last()).push(
                (answered.last().0.0, answered.last().0.1@),
            )
        } else {
            ignored_entries(answered.drop_last())
        }),
{
    reveal(Seq::filter);
    assert(ignored_entries(answered) =~= (if answers_ignored(answered.last().1) {
        ignored_entries(answered.drop_last()).push((answered.last().0.0, answered.last().0.1@))
    } else {
        ignored_entries(answered.drop_last())
    }));
}

/// Returns the signals that are ignored, in their order, given the answer on the disposition of
/// each. A signal whose disposition could not be found out is left out.
pub fn ignored_signals_among(answered: Vec<((i32, String), Result<bool, Error>)>) -> (ignored: Vec<
    (i32, String),
>)
    ensures
        entries_of(ignored@) == ignored_entries(answered@),
{
    let mut ignored: Vec<(i32, String)> = Vec::new();
    proof {
        reveal(Seq::filter);
    }
    for i in 0..answered.len()
        invariant
            entries_of(ignored@) == ignored_entries(answered@.take(i as int)),
    {
        proof {
            lemma_ignored_entries_last(answered@.take(i + 1));
            assert(answered@.take(i + 1).drop_last() == answered@.take(i as int));
        }
        let (candidate, answer) = &answered[i];
        match answer {
            Ok(true) => ignored.push((candidate.0, candidate.1.clone())),
            Ok(false) | Err(_) => {},
        }
    }
    assert(answered@.take(answered.len() as int) == answered@);
    ignored
}

/// Law: a signal is listed as ignored exactly where it was answered that it is.
pub proof fn law_listed_where_answered_ignored(
    answered: Seq<((i32, String), Result<bool, Error>)>,
    number: i32,
    name: Seq<char>,
)
    ensures
        ignored_entries(answered).contains((number, name)) <==> exists|i: int|
            0 <= i < answered.len() && answers_ignored(answered[i].1) && (
            #[trigger] answered[i]).0.0 == number && answered[i].0.1@ == name,
    decreases answered.len(),
{
    if answered.len() == 0 {
        reveal(Seq::filter);
    } else {
        let before = answered.drop_last();
        let last = answered.len() - 1;
        lemma_ignored_entries_last(answered);
        law_listed_where_answered_ignored(before, number, name);
        let entry = (answered.last().0.0, answered.last().0.1@);
        if answers_ignored(answered.last().1) {
            let list = ignored_entries(before);
            assert(list.push(entry).contains((number, name)) <==> list.contains((number, name))
                || entry == (number, name)) by {
                assert(list.push(entry)[list.len() as int] == entry);
                if list.contains((number, name)) {
                    let k = choose|k: int| 0 <= k < list.len() && list[k] == (number, name);
                    assert(list.push(entry)[k] == (number, name));
                }
            }
        }
        if exists|i: int|
            0 <= i < before.len() && answers_ignored(before[i].1) && (#[trigger] before[i]).0.0
                == number && before[i].0.1@ == name {
            let i = choose|i: int|
                0 <= i < before.len() && answers_ignored(before[i].1) && (#[trigger] before[i]).0.0
                    == number && before[i].0.1@ == name;
            assert(answered[i] == before[i]);
        }
        if exists|i: int|
            0 <= i < answered.len() && answers_ignored(answered[i].1) && (
            #[trigger] answered[i]).0.0 == number && answered[i].0.1@ == name {
            let i = choose|i: int|
                0 <= i < answered.len() && answers_ignored(answered[i].1) && (
                #[trigger] answered[i]).0.0 == number && answered[i].0.1@ == name;
            if i < last {
                assert(before[i] == answered[i]);
            }
        }
    }
}

/// Returns whether a signal is ignored, given what the system answered when it was asked for the
/// signal's handler: the handler's address, or an error number.
pub fn signal_is_ignored(queried: Result<usize, i32>) -> (ignored: Result<bool, Error>)
    ensures
        ignored == (match queried {
            Ok(handler) => Ok::<bool, Error>(handler == os::sig_ign()),
            Err(errno) => Err::<bool, Error>(Error::System(errno)),
        }),
{
    match queried {
        Ok(handler) => Ok(handler == os::ignore_handler()),
        Err(errno) => Err(Error::System(errno)),
    }
}

/// A signal to be sent to a process.
#[derive(Clone, Copy, Debug, PartialEq, Eq)]
pub struct KillRequest {
    /// The process to send the signal to.
    pub pid: i32,
    /// The signal to send.
    pub signal: Signal,
}

/// Returns what to send so that a trap signal reaches a process. It has to be a signal of the
/// operating system.
pub fn kill_request(pid: i32, signal: TrapSignal) -> (request: Result<KillRequest, Error>)
    ensures
        match (signal, request) {
            (TrapSignal::Signal(s), Ok(request)) => request.pid == pid && request.signal == s,
            (TrapSignal::Signal(_), Err(_)) => false,
            (_, Err(Error::InvalidSignal(text))) => text@ == signal.name(),
            _ => false,
        },
{
    match signal {
        TrapSignal::Signal(s) => Ok(KillRequest { pid, signal: s }),
        TrapSignal::Debug | TrapSignal::ErrTrap | TrapSignal::Exit | TrapSignal::Return => {
            Err(Error::InvalidSignal(signal.to_string()))
        },
    }
}

/// Returns what to send so that a stopped process goes on.
pub fn continue_request(pid: i32) -> (request: KillRequest)
    ensures
        request.pid == pid,
        signal_named("SIGCONT"@) == Some(request.signal),
        is_signal_number(request.signal@ as int),
        signal_name(request.signal@ as int) == "SIGCONT"@,
{
    let number = os::continue_number();
    proof {
        law_signal_found_by_its_name(number as int);
    }
    KillRequest { pid, signal: Signal { number } }
}

/// Returns what the sender of a signal is told, given what the system answered: nothing, or an
/// error number.
pub fn send_result(sent: Result<(), i32>) -> (result: Result<(), Error>)
    ensures
        result == (match sent {
            Ok(_) => Ok::<(), Error>(()),
            Err(_) => Err::<(), Error>(Error::FailedToSendSignal),
        }),
{
    match sent {
        Ok(_) => Ok(()),
        Err(_) => Err(Error::FailedToSendSignal),
    }
}

/// Law: every signal name begins with the text `SIG`.
pub proof fn law_signal_names_begin_with_sig(n: int)
    requires
        is_signal_number(n),
    ensures
        signal_name(n).take(3) == "SIG"@,
{
    lemma_table_letters(n, n);
    reveal_strlit("SIG");
    assert(signal_name(n).take(3) =~= "SIG"@);
}

/// Law: between the ends of a range, the name of a real-time signal tells how far it is from the
/// nearer end, and from the first one where both are as near: the name is `SIGRTMIN+` or
/// `SIGRTMAX-`, and what follows reads as the distance.
pub proof fn law_realtime_name_tells_distance_from_nearer_end(n: int, min: int, max: int)
    requires
        min < n < max,
    ensures
        n - min <= max - n ==> {
            &&& realtime_name(n, min, max).take(9) == "SIGRTMIN+"@
            &&& text::all_digits(realtime_name(n, min, max).skip(9))
            &&& text::digits_value(realtime_name(n, min, max).skip(9)) == n - min
            &&& realtime_name(n, min, max).skip(9) == text::decimal(n - min)
        },
        n - min > max - n ==> {
            &&& realtime_name(n, min, max).take(9) == "SIGRTMAX-"@
            &&& text::all_digits(realtime_name(n, min, max).skip(9))
            &&& text::digits_value(realtime_name(n, min, max).skip(9)) == max - n
            &&& realtime_name(n, min, max).skip(9) == text::decimal(max - n)
        },
{
    lemma_realtime_prefixes();
    let name = realtime_name(n, min, max);
    if n - min <= max - n {
        text::lemma_digits_read_back((n - min) as nat);
        assert(name.take(9) =~= "SIGRTMIN+"@);
        assert(name.skip(9) =~= text::decimal(n - min));
    } else {
        text::lemma_digits_read_back((max - n) as nat);
        assert(name.take(9) =~= "SIGRTMAX-"@);
        assert(name.skip(9) =~= text::decimal(max - n));
    }
}

/// Law: two real-time signals as far from the two ends of a range are counted by the same digits.
pub proof fn law_realtime_names_are_counted_alike_from_both_ends(k: int, min: int, max: int)
    requires
        0 < k,
        min + k < max - k,
    ensures
        realtime_name(min + k, min, max).skip(9) == realtime_name(max - k, min, max).skip(9),
{
    law_realtime_name_tells_distance_from_nearer_end(min + k, min, max);
    law_realtime_name_tells_distance_from_nearer_end(max - k, min, max);
}

/// Law: the real-time signals of a range are its numbers, one after the other, and none where the
/// range is empty. Each has its own name.
pub proof fn law_realtime_entries_are_the_range(min: i32, max: i32)
    ensures
        realtime_entries(min as int, max as int).len() == (if min <= max {
            max - min + 1
        } else {
            0
        }),
        forall|i: int|
            0 <= i < realtime_entries(min as int, max as int).len() ==> (
            #[trigger] realtime_entries(min as int, max as int)[i]).0 == min + i
                && realtime_entries(min as int, max as int)[i].1 == realtime_name(
                min + i,
                min as int,
                max as int,
            ),
{
}

/// Law: numbers with names stay as they are, in their order, when they are taken as plain values.
pub proof fn law_entries_keep_numbers_and_names(entries: Seq<(i32, String)>, i: int)
    requires
        0 <= i < entries.len(),
    ensures
        entries_of(entries).len() == entries.len(),
        entries_of(entries)[i].0 == entries[i].0,
        entries_of(entries)[i].1 == entries[i].1@,
{
}

/// Law: the signals of the table are listed once each, in the order of their numbers, and the
/// name beside a number is that by which the signal with the number is found.
pub proof fn law_standard_entries_name_their_signals(i: int)
    requires
        0 <= i < signal_names().len(),
    ensures
        standard_entries().len() == signal_names().len(),
        standard_entries()[i].0 == i + 1,
        signal_named(standard_entries()[i].1) matches Some(s) && s@ == standard_entries()[i].0,
        standard_entries()[i].1 == signal_names()[i],
{
    broadcast use lemma_view_of_signal;

    law_signal_found_by_its_name(i + 1);
}

/// Law: out of one signal with an answer, the signal is taken, with its number and name, exactly
/// where the answer is that it is ignored. Out of none, none is taken.
pub proof fn law_ignored_out_of_one(asked: ((i32, String), Result<bool, Error>))
    ensures
        asked.1 == Ok::<bool, Error>(true) ==> ignored_entries(seq![asked]) == seq![
            (asked.0.0, asked.0.1@),
        ],
        asked.1 != Ok::<bool, Error>(true) ==> ignored_entries(seq![asked]) == Seq::<
            (i32, Seq<char>),
        >::empty(),
        ignored_entries(Seq::empty()) == Seq::<(i32, Seq<char>)>::empty(),
{
    reveal(Seq::filter);
    lemma_ignored_entries_last(seq![asked]);
    assert(seq![asked].drop_last() =~= Seq::empty());
    assert(ignored_entries(Seq::empty()) =~= Seq::<(i32, Seq<char>)>::empty());
}

/// Law: the ignored signals out of two lists, one after the other, are those out of each.
pub proof fn law_ignored_out_of_parts(
    a: Seq<((i32, String), Result<bool, Error>)>,
    b: Seq<((i32, String), Result<bool, Error>)>,
)
    ensures
        ignored_entries(a + b) == ignored_entries(a) + ignored_entries(b),
    decreases b.len(),
{
    if b.len() == 0 {
        reveal(Seq::filter);
        assert(a + b == a);
        assert(ignored_entries(a + b) =~= ignored_entries(a) + ignored_entries(b));
    } else {
        assert((a + b).drop_last() == a + b.drop_last());
        law_ignored_out_of_parts(a, b.drop_last());
        lemma_ignored_entries_last(a + b);
        lemma_ignored_entries_last(b);
        assert(ignored_entries(a + b) =~= ignored_entries(a) + ignored_entries(b));
    }
}

/// Law: a range that the C library may give is made of answers to the two questions for its ends.
pub(crate) proof fn law_system_range_is_answered(min: i32, max: i32)
    ensures
        is_system_range(min, max) <==> call_ensures(os::realtime_min, (), min) && call_ensures(
            os::realtime_max,
            (),
            max,
        ),
{
}

}
