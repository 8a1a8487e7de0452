//! The operating system's tables and constants, as `nix` and `libc` give them.
//!
//! Names, numbers and codes are stated as Linux has them, on the architectures that share its
//! generic signal numbering (x86, ARM, RISC-V, PowerPC and others; not MIPS and SPARC).

use nix::sys::signal::Signal as NixSignal;
use std::str::FromStr;
use vstd::prelude::*;

use crate::signal;

verus! {

/// The error number for an invalid argument.
pub open spec fn einval() -> i32 {
    22
}

/// The error number for a wait without children.
pub open spec fn echild() -> i32 {
    10
}

/// The code of a child's state change: it exited.
pub open spec fn cld_exited() -> i32 {
    1
}

/// The code of a child's state change: it was killed by a signal.
pub open spec fn cld_killed() -> i32 {
    2
}

/// The code of a child's state change: it was killed by a signal and its memory was dumped.
pub open spec fn cld_dumped() -> i32 {
    3
}

/// The code of a child's state change: it was stopped by a signal.
pub open spec fn cld_stopped() -> i32 {
    5
}

/// The code of a child's state change: it was continued.
pub open spec fn cld_continued() -> i32 {
    6
}

/// The address that stands for "ignore the signal" in place of a handler's address.
pub open spec fn sig_ign() -> usize {
    1
}

/// Trusted: `Signal::try_from(i32)` of `nix` knows the numbers of the signal table and no
/// others. The signal that it gives has the number that was asked for, and its error is
/// `EINVAL`.
#[verifier::external_body]
pub(crate) fn known_number(number: i32) -> (known: Result<i32, i32>)
    ensures
        known == (if signal::is_signal_number(number as int) {
            Ok::<i32, i32>(number)
        } else {
            Err::<i32, i32>(einval())
        }),
{
    NixSignal::try_from(number).map(|signal| signal as i32).map_err(|errno| errno as i32)
}

/// Trusted: `Signal::as_str` of `nix` gives a signal's name in the signal table. The number has
/// to be one of the table, for `nix` has no signal with another number.
#[verifier::external_body]
pub(crate) fn name_of_number(number: i32) -> (name: &'static str)
    requires
        signal::is_signal_number(number as int),
    ensures
        name@ == signal::signal_name(number as int),
{
    NixSignal::try_from(number).unwrap().as_str()
}

/// Trusted: `Signal::from_str` of `nix` finds a signal by its name, spelled exactly as in the
/// signal table, and for any other text its error is `EINVAL`.
#[verifier::external_body]
pub(crate) fn number_of_name(name: &str) -> (found: Result<i32, i32>)
    ensures
        match found {
            Ok(number) => signal::is_signal_number(number as int) && name@ == signal::signal_name(
                number as int,
            ),
            Err(errno) => errno == einval() && forall|n: int|
                signal::is_signal_number(n) ==> name@ != #[trigger] signal::signal_name(n),
        },
{
    NixSignal::from_str(name).map(|signal| signal as i32).map_err(|errno| errno as i32)
}

/// Trusted: `Signal::iterator` of `nix` walks all signals of the table, in the order of their
/// numbers.
#[verifier::external_body]
pub(crate) fn all_numbers() -> (numbers: Vec<i32>)
    ensures
        numbers@ == signal::signal_numbers(),
{
    NixSignal::iterator().map(|signal| signal as i32).collect()
}

/// Trusted: `SIGCONT` of `nix` is the signal of that name in the signal table.
#[verifier::external_body]
pub(crate) fn continue_number() -> (number: i32)
    ensures
        signal::is_signal_number(number as int),
        signal::signal_name(number as int) == "SIGCONT"@,
{
    nix::sys::signal::SIGCONT as i32
}

/// Trusted: `libc::SIGRTMIN` gives the number of the first real-time signal that programs may
/// use. Which number that is depends on the C library, so nothing is claimed of it.
#[verifier::external_body]
pub(crate) fn realtime_min() -> (number: i32)
{
    nix::libc::SIGRTMIN()
}

/// Trusted: `libc::SIGRTMAX` gives the number of the last real-time signal. Which number that
/// is depends on the C library, so nothing is claimed of it.
#[verifier::external_body]
pub(crate) fn realtime_max() -> (number: i32)
{
    nix::libc::SIGRTMAX()
}

/// Trusted: `libc::SIG_IGN` is the address that stands for "ignore the signal".
#[verifier::external_body]
pub(crate) fn ignore_handler() -> (handler: usize)
    ensures
        handler == sig_ign(),
{
    nix::libc::SIG_IGN
}

/// Trusted: `Errno::EINVAL` of `nix` is the error number for an invalid argument.
#[verifier::external_body]
pub(crate) fn einval_number() -> (errno: i32)
    ensures
        errno == einval(),
{
    nix::errno::Errno::EINVAL as i32
}

/// Trusted: `Errno::ECHILD` of `nix` is the error number for a wait without children.
#[verifier::external_body]
pub(crate) fn echild_number() -> (errno: i32)
    ensures
        errno == echild(),
{
    nix::errno::Errno::ECHILD as i32
}

/// Trusted: `libc::CLD_EXITED` is the code that says that a child exited.
#[verifier::external_body]
pub(crate) fn exited_code() -> (code: i32)
    ensures
        code == cld_exited(),
{
    nix::libc::CLD_EXITED
}

/// Trusted: `libc::CLD_KILLED` is the code that says that a child was killed by a signal.
#[verifier::external_body]
pub(crate) fn killed_code() -> (code: i32)
    ensures
        code == cld_killed(),
{
    nix::libc::CLD_KILLED
}

/// Trusted: `libc::CLD_DUMPED` is the code that says that a child was killed by a signal and its
/// memory was dumped.
#[verifier::external_body]
pub(crate) fn dumped_code() -> (code: i32)
    ensures
        code == cld_dumped(),
{
    nix::libc::CLD_DUMPED
}

/// Trusted: `libc::CLD_STOPPED` is the code that says that a child was stopped by a signal.
#[verifier::external_body]
pub(crate) fn stopped_code() -> (code: i32)
    ensures
        code == cld_stopped(),
{
    nix::libc::CLD_STOPPED
}

/// Trusted: `libc::CLD_CONTINUED` is the code that says that a child was continued.
#[verifier::external_body]
pub(crate) fn continued_code() -> (code: i32)
    ensures
        code == cld_continued(),
{
    nix::libc::CLD_CONTINUED
}

}
