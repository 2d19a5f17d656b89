# benshi

A background service that notices which episode is playing, decides what it is,
and says how far along it has been watched, written so that its rules are proved
rather than only tested.

## Layout

- `src/` is the library, verified with [Verus](https://github.com/verus-lang/verus).
  Every function says in its contract what it returns, but for what only the
  platform's clock can say, and the `law_*` functions state what holds across
  several of them.
  - `path`, `text`, `encoding`, `json`, `number`, `time`, `clock`: raw paths and
    their escapes, guesses at a name's encoding, JSON strings, the printed form of
    a number, spans of time.
  - `recognise`: a filename taken apart, the key a name is looked up by, the index
    over a list of titles, names recorded by hand, and the score a likely title is
    given.
  - `timeline`, `trace`: what a run of readings says was watched, and the files
    those readings are kept in.
  - `policy`, `detection`, `recognition`, `supervisor`, `bus`: which players are
    listened to, a round of polling, what is decided about a file, when a task is
    started again, and what is announced.
  - `protocol`, `ipc`, `commands`, `invocation`, `render`: what goes over the
    socket, how it is answered, and how it is shown.
- `tests/` holds ordinary tests of the compiled library.
- `app/` is the program around it: arguments, files, sockets and the loops that
  wait. It decides nothing by itself.

## What is taken on trust

A handful of functions outside the library are described by contracts that are
believed rather than proved: a few of the standard library's, the Unicode tables
and normal form of `unicode-normalization`, the filename parser `anitomy-ng`, the
encoding guesser `chardetng` with `encoding_rs`, `serde_json` for quoting a string
and `humantime` for writing a date. Each is named in the doc comment above its declaration.
