# shell_traps

Signals and traps of a shell, as a library verified with Verus. The system is Linux, on an
architecture with its generic signal numbering (not MIPS or SPARC).

* `src/` is the library.
  * `signal`: signals of the operating system, real-time signals, ignored signals, what is sent
    to other processes.
  * `traps`: the signals that can be trapped, by name and by number.
  * `listing`: the listing of signals by number.
  * `handlers`: registered trap handlers, and the signals that were ignored at the start.
  * `wait`: state changes of child processes.
  * `text`: decimal numbers and upper case.
  * `os`: what is taken from `nix` and `libc`, behind trusted contracts.
* `tests/` runs the library.
* `app/` makes the system calls, writes the listing and saves configurations.

Laws that span several functions are public proof functions whose names begin with `law_`.
