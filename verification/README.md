# metsuke

Signed telemetry, taken in from stake pools and pulled back out by developers. Two programs share
one library: `metsuke-server` checks what an agent sent and archives it under a key that says whose
it is, and `metsuke-fetch` lists that archive and downloads what a run has not seen yet.

The library is written in Verus. A function in `src/` carries a contract that says what it returns
and what it changes, and Verus proves it from the body. Three kinds of result are not settled by the
arguments alone: what chance or the clock gives (the random part of an id, the instant a URL is
signed at), what a user's own `Directory` answers, and what the calls in `src/outside.rs` into other
crates return, whose contracts are trusted and not proved.

## Layout

- `src/wire/` is what an agent, a server and a developer agree on: keys, signatures, the container a
  submission is sealed in, the routes.
- `src/fetch/` is a sync: the command line, the cursor it resumes from, the bar a directory is held
  to, what is downloaded, judged and written, step by step.
- `src/server/` is the ingest: what is refused and in which order, the rate limits, the archive, the
  routes and what each answers, the operator pages, the audit of a bucket.
- The other modules of `src/` are what these are made of: object keys, dates, hexadecimal, percent
  escapes, paths, text.
- `src/outside.rs` holds every call into another crate, with the contract each is trusted to meet.
- `app/` is the two programs: sockets, files, processes, SQL and the serde types of what they read.
- `tests/` runs the library.

## What is promised

The promises that span functions are public proof functions beside the code they are about. Among
them: a key that is written reads back and keys sort by the time they were stamped; what is filed
verifies; an upload that nobody signed charges nobody; a sync never moves its cursor past an object
it has yet to write; an interrupted sync and the one that resumes it land together what one run
would; no lower bar refuses what a higher one took.
