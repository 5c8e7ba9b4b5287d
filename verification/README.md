# vastline

A status line for vast.ai GPU usage: how many instances are up, the running and the total burn
rate, the account balance, and how long the balance lasts at the total burn.

The crate is a Verus library (`src/`) with the program around it (`app/`).

`src/` holds the logic, each function with a contract that Verus proves:

- `text` — white space, trimming, substring search, ASCII case folding, decimal text and
  parsing of unsigned numbers, each against a specification over `Seq<char>`;
- `json` — a JSON value with a mathematical view, field lookup, key paths, the
  insertion-ordered edits of an object, and the trusted boundary to `serde_json` (parsing text
  and bytes, pretty-printing), whose results are named rather than restated;
- `key` — which API key is used (environment, then vastline's key file, then the vast CLI's),
  and how it is masked for display;
- `install` — reading the settings and the recorded block, and the settings edits of `install`
  and `uninstall`, with the proofs that an uninstall after a first install restores the
  settings exactly (except that a `statusLine` of `null` comes back removed, and an executable
  path holding both white space and `"` is not recognised again; the proof takes the recorded
  block as read back unchanged from its file, which `serde_json` does not promise in writing),
  that reinstalling changes
  nothing, and that no setting but `statusLine` is touched;
- `api` — reading a response, which instances are running, and the fleet's counts;
- `render`, `fmt` — composing the status line from formatted readings;
- `cli`, `config` — command dispatch and the API base override.

`app/` does the I/O (files, environment, `curl`, child processes) and the floating-point money
and time arithmetic, and calls the library for every decision.
