//! The signals that a shell can trap, and how they are named and numbered.

use std::str::FromStr;
use vstd::prelude::*;

use crate::error::Error;
use crate::signal;
use crate::signal::Signal;
use crate::text;

verus! {

broadcast use {signal::lemma_signal_of_view, signal::lemma_view_of_signal};

/// A signal that can be trapped in the shell.
#[derive(Clone, Copy, Debug, PartialEq, Eq, Hash, Structural)]
pub enum TrapSignal {
    /// A signal of the operating system.
    Signal(Signal),
    /// The `DEBUG` trap.
    Debug,
    /// The `ERR` trap.
    ErrTrap,
    /// The `EXIT` trap.
    Exit,
    /// The `RETURN` trap.
    Return,
}

/// Says that a trap signal has no number.
#[derive(Clone, Copy, Debug)]
pub struct TrapSignalNumberError;

impl TrapSignal {
    /// Whether the signal, where it is one of the operating system, is in its table.
    pub open spec fn valid(self) -> bool {
        self matches TrapSignal::Signal(s) ==> signal::is_signal_number(s@ as int)
    }

    /// The signal's name.
    pub open spec fn name(self) -> Seq<char> {
        match self {
            TrapSignal::Signal(s) => signal::signal_name(s@ as int),
            TrapSignal::Debug => "DEBUG"@,
            TrapSignal::ErrTrap => "ERR"@,
            TrapSignal::Exit => "EXIT"@,
            TrapSignal::Return => "RETURN"@,
        }
    }

    /// The signal's number, if it has one.
    pub open spec fn number(self) -> Option<i32> {
        match self {
            TrapSignal::Signal(s) => Some(s@),
            TrapSignal::Exit => Some(0),
            _ => None,
        }
    }

    /// The signal with a number, if there is one.
    pub open spec fn numbered(n: int) -> Option<TrapSignal> {
        if n == 0 {
            Some(TrapSignal::Exit)
        } else if signal::is_signal_number(n) {
            Some(TrapSignal::Signal(signal::signal_of(n)))
        } else {
            None
        }
    }

    /// The signal with a name, if there is one. Upper and lower case are the same, and the
    /// prefix `SIG` may be left out.
    pub open spec fn named(name: Seq<char>) -> Option<TrapSignal> {
        let upper = text::ascii_upper(name);
        if upper == "DEBUG"@ {
            Some(TrapSignal::Debug)
        } else if upper == "ERR"@ {
            Some(TrapSignal::ErrTrap)
        } else if upper == "EXIT"@ {
            Some(TrapSignal::Exit)
        } else if upper == "RETURN"@ {
            Some(TrapSignal::Return)
        } else {
            match signal::signal_named(with_sig_prefix(upper)) {
                Some(s) => Some(TrapSignal::Signal(s)),
                None => None,
            }
        }
    }

    /// All trap signals.
    pub open spec fn all() -> Seq<TrapSignal> {
        seq![TrapSignal::Debug, TrapSignal::ErrTrap, TrapSignal::Exit, TrapSignal::Return]
            + signal::signal_numbers().map_values(
            |n: i32| TrapSignal::Signal(signal::signal_of(n as int)),
        )
    }

    /// Returns all trap signals.
    pub fn iterator() -> (signals: Vec<TrapSignal>)
        ensures
            signals@ == TrapSignal::all(),
            signals.len() == 4 + signal::signal_names().len(),
            forall|i: int|
                4 <= i < signals.len() ==> ((#[trigger] signals@[i]) matches TrapSignal::Signal(s)
                    && s@ == i - 3),
    {
        let mut signals: Vec<TrapSignal> = vec![
            TrapSignal::Debug,
            TrapSignal::ErrTrap,
            TrapSignal::Exit,
            TrapSignal::Return,
        ];
        let system = Signal::iterator();
        for i in 0..system.len()
            invariant
                system@ == signal::signal_numbers().map_values(
                    |n: i32| signal::signal_of(n as int),
                ),
                signals@ == TrapSignal::all().take(4 + i),
        {
            signals.push(TrapSignal::Signal(system[i]));
        }
        assert(TrapSignal::all().take(4 + system.len()) == TrapSignal::all());
        signals
    }

    /// Returns the signal's name.
    pub fn as_str(self) -> (name: &'static str)
        ensures
            name@ == self.name(),
            self.valid(),
            self matches TrapSignal::Signal(s) ==> name@ == signal::signal_name(s@ as int),
    {
        match self {
            TrapSignal::Signal(s) => s.as_str(),
            TrapSignal::Debug => "DEBUG",
            TrapSignal::ErrTrap => "ERR",
            TrapSignal::Exit => "EXIT",
            TrapSignal::Return => "RETURN",
        }
    }

    /// Returns the signal's name as a string.
    pub fn to_string(self) -> (name: String)
        ensures
            name@ == self.name(),
            self.valid(),
    {
        self.as_str().to_owned()
    }
}

/// The text, with the prefix `SIG` put in front where it is missing.
pub open spec fn with_sig_prefix(s: Seq<char>) -> Seq<char> {
    if signal::has_sig_prefix(s) {
        s
    } else {
        "SIG"@ + s
    }
}

impl TryFrom<TrapSignal> for i32 {
    type Error = TrapSignalNumberError;

    /// Returns the signal's number.
    fn try_from(value: TrapSignal) -> (number: Result<i32, TrapSignalNumberError>)
        ensures
            match (value, number) {
                (TrapSignal::Signal(s), Ok(n)) => n == s@,
                (TrapSignal::Exit, Ok(n)) => n == 0,
                (TrapSignal::Debug | TrapSignal::ErrTrap | TrapSignal::Return, Err(_)) => true,
                _ => false,
            },
    {
        match value {
            TrapSignal::Signal(s) => Ok(s.number()),
            TrapSignal::Exit => Ok(0),
            _ => Err(TrapSignalNumberError),
        }
    }
}

impl vstd::std_specs::convert::TryFromSpecImpl<TrapSignal> for i32 {
    open spec fn obeys_try_from_spec() -> bool {
        true
    }

    open spec fn try_from_spec(value: TrapSignal) -> Result<i32, TrapSignalNumberError> {
        match value.number() {
            Some(n) => Ok(n),
            None => Err(TrapSignalNumberError),
        }
    }
}

impl TryFrom<i32> for TrapSignal {
    type Error = Error;

    /// Returns the signal with a number.
    ///
    /// `DEBUG`, `ERR` and `RETURN` have no number.
    fn try_from(value: i32) -> (found: Result<TrapSignal, Error>)
        ensures
            match (found, TrapSignal::numbered(value as int)) {
                (Ok(signal), Some(expected)) => signal == expected,
                (Err(Error::InvalidSignal(text)), None) => text@ == text::decimal(value as int),
                _ => false,
            },
            match found {
                Ok(TrapSignal::Signal(s)) => s@ == value && signal::is_signal_number(value as int),
                Ok(TrapSignal::Exit) => value == 0,
                Err(Error::InvalidSignal(text)) => value != 0 && !signal::is_signal_number(
                    value as int,
                ) && text@ == text::decimal(value as int),
                _ => false,
            },
    {
        if value == 0 {
            return Ok(TrapSignal::Exit);
        }
        match Signal::from_number(value) {
            Ok(signal) => Ok(TrapSignal::Signal(signal)),
            Err(_) => Err(Error::InvalidSignal(text::to_decimal(value as i64))),
        }
    }
}

/// The error holds a `String`, which no spec function can make: the clauses of `try_from` say
/// what it returns.
impl vstd::std_specs::convert::TryFromSpecImpl<i32> for TrapSignal {
    open spec fn obeys_try_from_spec() -> bool {
        false
    }

    open spec fn try_from_spec(value: i32) -> Result<TrapSignal, Error> {
        arbitrary()
    }
}

/// Returns whether a text begins with `SIG`.
fn starts_with_sig(s: &str) -> (starts: bool)
    ensures
        starts == signal::has_sig_prefix(s@),
{
    let chars = text::chars_of(s);
    chars.len() >= 3 && chars[0] == 'S' && chars[1] == 'I' && chars[2] == 'G'
}

impl<'a> TryFrom<&'a str> for TrapSignal {
    type Error = Error;

    /// Returns the signal with a name. Upper and lower case are the same, and the prefix `SIG`
    /// may be left out.
    fn try_from(value: &'a str) -> (found: Result<TrapSignal, Error>)
        ensures
            match (found, TrapSignal::named(value@)) {
                (Ok(signal), Some(expected)) => signal == expected,
                (Err(Error::InvalidSignal(text)), None) => text@ == value@,
                _ => false,
            },
            match found {
                Ok(signal) => signal.valid() && (text::ascii_upper(value@) == signal.name() || (
                signal is Signal && "SIG"@ + text::ascii_upper(value@) == signal.name())),
                Err(Error::InvalidSignal(text)) => text@ == value@ && forall|t: TrapSignal|
                    t.valid() ==> #[trigger] t.name() != text::ascii_upper(value@) && (
                    t is Signal ==> t.name() != "SIG"@ + text::ascii_upper(value@)),
                _ => false,
            },
    {
        proof {
            assert forall|t: TrapSignal| t.valid() implies (TrapSignal::named(value@) == Some(t)
                <==> text::ascii_upper(value@) == #[trigger] t.name() || (t is Signal && "SIG"@
                + text::ascii_upper(value@) == t.name())) by {
                law_named_by_its_names_only(value@, t);
            }
            law_found_signals_are_valid(value@);
        }
        let mut s = text::to_ascii_upper(value);
        if text::same_text(s.as_str(), "DEBUG") {
            Ok(TrapSignal::Debug)
        } else if text::same_text(s.as_str(), "ERR") {
            Ok(TrapSignal::ErrTrap)
        } else if text::same_text(s.as_str(), "EXIT") {
            Ok(TrapSignal::Exit)
        } else if text::same_text(s.as_str(), "RETURN") {
            Ok(TrapSignal::Return)
        } else {
            if !starts_with_sig(s.as_str()) {
                s = "SIG".to_owned().concat(s.as_str());
            }
            match Signal::from_name(s.as_str()) {
                Ok(signal) => Ok(TrapSignal::Signal(signal)),
                Err(_) => Err(Error::InvalidSignal(value.to_owned())),
            }
        }
    }
}

/// As for numbers, the clauses of `try_from` say what it returns.
impl<'a> vstd::std_specs::convert::TryFromSpecImpl<&'a str> for TrapSignal {
    open spec fn obeys_try_from_spec() -> bool {
        false
    }

    open spec fn try_from_spec(value: &'a str) -> Result<TrapSignal, Error> {
        arbitrary()
    }
}

impl TrapSignal {
    /// The signal that a text stands for, if it does for one: by number where the text is a
    /// number, and by name otherwise.
    pub open spec fn parsed(s: Seq<char>) -> Option<TrapSignal> {
        match text::i32_value(s) {
            Some(n) => TrapSignal::numbered(n as int),
            None => TrapSignal::named(s),
        }
    }

    /// What an error says of a text that stands for no signal: the number in plain decimal where
    /// the text is a number, and the text itself otherwise.
    pub open spec fn rejected_text(s: Seq<char>) -> Seq<char> {
        match text::i32_value(s) {
            Some(n) => text::decimal(n as int),
            None => s,
        }
    }
}

impl FromStr for TrapSignal {
    type Err = Error;

    /// Returns the signal that a text stands for: by number where the text is a number, and by
    /// name otherwise.
    fn from_str(s: &str) -> (found: Result<TrapSignal, Error>)
        ensures
            match (found, TrapSignal::parsed(s@)) {
                (Ok(signal), Some(expected)) => signal == expected,
                (Err(Error::InvalidSignal(text)), None) => text@ == TrapSignal::rejected_text(s@),
                _ => false,
            },
            match text::i32_value(s@) {
                Some(n) => match (found, TrapSignal::numbered(n as int)) {
                    (Ok(signal), Some(expected)) => signal == expected,
                    (Err(Error::InvalidSignal(text)), None) => text@ == text::decimal(n as int),
                    _ => false,
                },
                None => match (found, TrapSignal::named(s@)) {
                    (Ok(signal), Some(expected)) => signal == expected,
                    (Err(Error::InvalidSignal(text)), None) => text@ == s@,
                    _ => false,
                },
            },
    {
        match text::parse_i32(s) {
            Some(n) => TrapSignal::try_from(n),
            None => TrapSignal::try_from(s),
        }
    }
}

proof fn lemma_special_names()
    ensures
        "DEBUG"@.len() == 5 && "DEBUG"@[0] == 'D' && text::ascii_upper("DEBUG"@) == "DEBUG"@,
        "ERR"@.len() == 3 && "ERR"@[0] == 'E' && text::ascii_upper("ERR"@) == "ERR"@,
        "EXIT"@.len() == 4 && "EXIT"@[0] == 'E' && text::ascii_upper("EXIT"@) == "EXIT"@,
        "RETURN"@.len() == 6 && "RETURN"@[0] == 'R' && text::ascii_upper("RETURN"@) == "RETURN"@,
        "SIG"@ == seq!['S', 'I', 'G'],
{
    reveal_strlit("DEBUG");
    reveal_strlit("ERR");
    reveal_strlit("EXIT");
    reveal_strlit("RETURN");
    reveal_strlit("SIG");
    assert(text::ascii_upper("DEBUG"@) =~= "DEBUG"@);
    assert(text::ascii_upper("ERR"@) =~= "ERR"@);
    assert(text::ascii_upper("EXIT"@) =~= "EXIT"@);
    assert(text::ascii_upper("RETURN"@) =~= "RETURN"@);
    assert("SIG"@ =~= seq!['S', 'I', 'G']);
}

/// Law: a trap signal is found by its own name.
pub proof fn law_found_by_its_name(t: TrapSignal)
    requires
        t.valid(),
    ensures
        TrapSignal::named(t.name()) == Some(t),
{
    lemma_special_names();
    if let TrapSignal::Signal(s) = t {
        signal::law_signal_names_are_upper_case_with_prefix(s@ as int);
        signal::law_signal_found_by_its_name(s@ as int);
    }
}

/// Law: no two trap signals share a name.
pub proof fn law_names_are_distinct(a: TrapSignal, b: TrapSignal)
    requires
        a.valid(),
        b.valid(),
        a.name() == b.name(),
    ensures
        a == b,
{
    law_found_by_its_name(a);
    law_found_by_its_name(b);
}

/// Law: upper and lower case make no difference to a name.
pub proof fn law_case_makes_no_difference(a: Seq<char>, b: Seq<char>)
    requires
        text::ascii_upper(a) == text::ascii_upper(b),
    ensures
        TrapSignal::named(a) == TrapSignal::named(b),
{
}

/// Law: the prefix `SIG` may be left out, except that `SIG` in front of the name of a trap
/// that is no signal of the operating system gives no name of that trap.
pub proof fn law_prefix_may_be_left_out(name: Seq<char>)
    requires
        !signal::has_sig_prefix(text::ascii_upper(name)),
        text::ascii_upper(name) != "DEBUG"@,
        text::ascii_upper(name) != "ERR"@,
        text::ascii_upper(name) != "EXIT"@,
        text::ascii_upper(name) != "RETURN"@,
    ensures
        TrapSignal::named("SIG"@ + name) == TrapSignal::named(name),
{
    lemma_special_names();
    assert(text::ascii_upper("SIG"@ + name) =~= "SIG"@ + text::ascii_upper(name));
}

/// Law: every signal of the operating system is found by its name without the prefix `SIG`, in
/// any mix of upper and lower case.
pub proof fn law_found_by_name_without_prefix(n: int, text: Seq<char>)
    requires
        signal::is_signal_number(n),
        text::ascii_upper(text) == signal::signal_name(n).skip(3),
    ensures
        TrapSignal::named(text) == Some(TrapSignal::Signal(signal::signal_of(n))),
{
    let name = signal::signal_name(n);
    let upper = text::ascii_upper(text);
    lemma_special_names();
    signal::law_signal_names_are_upper_case_with_prefix(n);
    signal::lemma_name_without_prefix(n);
    signal::law_signal_found_by_its_name(n);
    assert(upper[0] == name[3]);
    assert("SIG"@ + upper =~= name);
}

/// Law: what is found by a name or a text is a valid trap signal.
pub proof fn law_found_signals_are_valid(s: Seq<char>)
    ensures
        TrapSignal::named(s) matches Some(t) ==> t.valid(),
        TrapSignal::parsed(s) matches Some(t) ==> t.valid(),
{
}

/// Law: a trap signal that has a number is found by that number.
pub proof fn law_found_by_its_number(t: TrapSignal)
    requires
        t.valid(),
    ensures
        t.number() matches Some(n) ==> TrapSignal::numbered(n as int) == Some(t),
{
}

/// Law: the trap signal that is found by a number has that number.
pub proof fn law_found_signal_has_the_number(n: i32)
    ensures
        TrapSignal::numbered(n as int) matches Some(t) ==> t.valid() && t.number() == Some(n),
{
}

/// Law: all trap signals are every valid one, each once.
pub proof fn law_all_is_every_signal_once()
    ensures
        TrapSignal::all().no_duplicates(),
        forall|t: TrapSignal| #[trigger] TrapSignal::all().contains(t) <==> t.valid(),
{
    let all = TrapSignal::all();
    assert forall|t: TrapSignal| #[trigger] all.contains(t) <==> t.valid() by {
        match t {
            TrapSignal::Signal(s) => {
                if t.valid() {
                    assert(all[3 + s@] == t);
                }
            },
            TrapSignal::Debug => assert(all[0] == t),
            TrapSignal::ErrTrap => assert(all[1] == t),
            TrapSignal::Exit => assert(all[2] == t),
            TrapSignal::Return => assert(all[3] == t),
        }
    }
    assert forall|i: int, j: int| 0 <= i < j < all.len() implies all[i] != all[j] by {
        if i >= 4 {
            assert(signal::signal_of(i - 3)@ == i - 3);
            assert(signal::signal_of(j - 3)@ == j - 3);
        }
    }
}

/// Law: the decimal text of a number stands for the trap signal with that number, if there is
/// one, and for none otherwise.
pub proof fn law_number_text_parses_as_number(n: i32)
    ensures
        TrapSignal::parsed(text::decimal(n as int)) == TrapSignal::numbered(n as int),
{
    text::law_decimal_reads_back(n);
}

/// Law: the name of a trap signal, as a text, stands for that trap signal.
pub proof fn law_name_parses_back(t: TrapSignal)
    requires
        t.valid(),
    ensures
        TrapSignal::parsed(t.name()) == Some(t),
{
    lemma_special_names();
    law_found_by_its_name(t);
    let name = t.name();
    if let TrapSignal::Signal(s) = t {
        signal::law_signal_names_are_upper_case_with_prefix(s@ as int);
    }
    assert(!text::is_digit(text::unsigned_part(name)[0]));
}

/// Law: the name of a signal of the operating system is the one of the table at its number, and
/// the other traps have the names `DEBUG`, `ERR`, `EXIT` and `RETURN`.
pub proof fn law_names_of_trap_signals(s: Signal)
    ensures
        TrapSignal::Signal(s).name() == signal::signal_names()[s@ - 1],
        TrapSignal::Debug.name() == "DEBUG"@,
        TrapSignal::ErrTrap.name() == "ERR"@,
        TrapSignal::Exit.name() == "EXIT"@,
        TrapSignal::Return.name() == "RETURN"@,
{
}

/// Law: a signal of the operating system has the number that it has there, `EXIT` has the number
/// zero, and the other traps have none.
pub proof fn law_numbers_of_trap_signals(s: Signal)
    ensures
        TrapSignal::Signal(s).number() == Some(s@),
        TrapSignal::Exit.number() == Some(0i32),
        TrapSignal::Debug.number() is None,
        TrapSignal::ErrTrap.number() is None,
        TrapSignal::Return.number() is None,
{
}

/// Law: a trap signal is found by a number exactly where it is valid and has that number.
pub proof fn law_numbered_by_its_number_only(n: int, t: TrapSignal)
    requires
        t.valid(),
    ensures
        TrapSignal::numbered(n) == Some(t) <==> (match t {
            TrapSignal::Signal(s) => s@ == n,
            TrapSignal::Exit => n == 0,
            _ => false,
        }),
{
}

/// Law: a trap signal is found by a text exactly where the text in upper case is its name or,
/// for a signal of the operating system, its name without the prefix `SIG`.
pub proof fn law_named_by_its_names_only(s: Seq<char>, t: TrapSignal)
    requires
        t.valid(),
    ensures
        TrapSignal::named(s) == Some(t) <==> text::ascii_upper(s) == t.name() || (t is Signal
            && "SIG"@ + text::ascii_upper(s) == t.name()),
{
    let upper = text::ascii_upper(s);
    lemma_special_names();
    if upper == t.name() {
        assert(text::ascii_upper(upper) =~= upper);
        law_case_makes_no_difference(s, upper);
        law_found_by_its_name(t);
    } else if t is Signal && "SIG"@ + upper == t.name() {
        assert(upper =~= t.name().skip(3));
        law_found_by_name_without_prefix(t->Signal_0@ as int, s);
    }
    if TrapSignal::named(s) == Some(t) && t is Signal {
        signal::law_found_signal_has_the_name(with_sig_prefix(upper));
    }
}

/// Law: a text that is the name of a trap signal is no number.
pub proof fn law_names_are_no_numbers(s: Seq<char>)
    requires
        TrapSignal::named(s) is Some,
    ensures
        text::i32_value(s) is None,
{
    let t = TrapSignal::named(s)->Some_0;
    let upper = text::ascii_upper(s);
    lemma_special_names();
    law_found_signals_are_valid(s);
    law_named_by_its_names_only(s, t);
    if let TrapSignal::Signal(sig) = t {
        let n = sig@ as int;
        signal::law_signal_names_are_upper_case_with_prefix(n);
        signal::lemma_name_without_prefix(n);
        if upper != t.name() {
            assert(upper =~= t.name().skip(3));
        }
    }
    assert('A' <= upper[0] <= 'Z');
    assert(!text::has_sign(s));
    assert(!text::is_digit(s[0]));
}

/// Law: a text that is no number stands for what is found by it as a name.
pub proof fn law_text_that_is_no_number_parses_as_name(s: Seq<char>)
    requires
        text::i32_value(s) is None,
    ensures
        TrapSignal::parsed(s) == TrapSignal::named(s),
        TrapSignal::rejected_text(s) == s,
{
}

/// Law: a text that is a number stands for the trap signal with that number, and an error on it
/// names the number in plain decimal.
pub proof fn law_text_that_is_a_number_parses_as_number(s: Seq<char>)
    requires
        text::i32_value(s) is Some,
    ensures
        TrapSignal::parsed(s) == TrapSignal::numbered(text::i32_value(s)->Some_0 as int),
        TrapSignal::rejected_text(s) == text::decimal(text::i32_value(s)->Some_0 as int),
{
}

/// Law: a text stands for a trap signal exactly where the signal is found by the text as a name,
/// or where the text is a number and that of the signal.
pub proof fn law_parses_by_name_or_number_only(s: Seq<char>, t: TrapSignal)
    requires
        t.valid(),
    ensures
        TrapSignal::parsed(s) == Some(t) <==> text::ascii_upper(s) == t.name() || (t is Signal
            && "SIG"@ + text::ascii_upper(s) == t.name()) || (text::i32_value(s) is Some
            && t.number() == text::i32_value(s)),
{
    law_named_by_its_names_only(s, t);
    if TrapSignal::named(s) == Some(t) {
        law_names_are_no_numbers(s);
    }
    if let Some(n) = text::i32_value(s) {
        law_numbered_by_its_number_only(n as int, t);
    }
}

/// Law: a text that is a signal's name in any mix of upper and lower case, with the prefix `SIG`
/// or without, stands for that signal.
pub proof fn law_signal_name_parses_with_and_without_prefix(n: int, s: Seq<char>)
    requires
        signal::is_signal_number(n),
        text::ascii_upper(s) == signal::signal_name(n) || text::ascii_upper(s)
            == signal::signal_name(n).skip(3),
    ensures
        TrapSignal::parsed(s) == Some(TrapSignal::Signal(signal::signal_of(n))),
{
    let t = TrapSignal::Signal(signal::signal_of(n));
    lemma_special_names();
    signal::law_signal_names_are_upper_case_with_prefix(n);
    if text::ascii_upper(s) != signal::signal_name(n) {
        assert("SIG"@ + text::ascii_upper(s) =~= signal::signal_name(n));
    }
    law_parses_by_name_or_number_only(s, t);
}

/// Law: what an error says of a text that stands for no signal stands for none either.
pub proof fn law_rejected_text_is_rejected(s: Seq<char>)
    ensures
        TrapSignal::parsed(TrapSignal::rejected_text(s)) == TrapSignal::parsed(s),
{
    if let Some(n) = text::i32_value(s) {
        law_number_text_parses_as_number(n);
    }
}

/// Law: the traps that are no signals of the operating system come first among all trap signals,
/// and behind them each signal in the order of the numbers.
pub proof fn law_order_of_all(n: int)
    requires
        signal::is_signal_number(n),
    ensures
        TrapSignal::all().len() == 4 + signal::signal_names().len(),
        TrapSignal::all().take(4) == seq![
            TrapSignal::Debug,
            TrapSignal::ErrTrap,
            TrapSignal::Exit,
            TrapSignal::Return,
        ],
        TrapSignal::all()[3 + n] matches TrapSignal::Signal(s) && s@ == n,
{
    assert(TrapSignal::all().take(4) =~= seq![
        TrapSignal::Debug,
        TrapSignal::ErrTrap,
        TrapSignal::Exit,
        TrapSignal::Return,
    ]);
}

}
