# jj-mesh

Peer-to-peer synchronization of [jj](https://jj-vcs.dev) repositories: each
machine has its own working copy, and a background daemon replicates commits and
the operation log directly between paired machines, with no central server.

## Layout

- `src/` is the verified library.
  - `config`: the machine key, names, paths, settings, and the replicated mesh
    state with its merge.
  - `daemon`: the hub that routes announcements, the peer and repo sets and their
    tasks, pairing, the store that every change goes through, and the control
    protocol.
  - `cli`: what the commands ask of the daemon, decide and show.
  - `net`: endpoint ids and the messages between machines.
  - `sorted_map`, `order`, `text`: the containers and text helpers underneath.
- `app/` is the program around it: argument parsing, files, sockets,
  connections, processes. The wire formats between machines and the access to
  jj's stores are behind the trait in `app/outside.rs`.
- `tests/` run the library as a caller sees it.

## How it is put together

The library takes and returns plain values. Times are milliseconds, connections
and tasks are numbers; the program keeps the sockets and handles they stand for.
A change to the mesh state is prepared on a copy, saved by the program, and only
then committed, which tells the program what to stop, close and start.

Contracts speak of views: records, maps keyed by endpoint bytes or by names, and
sequences. Laws that span several functions stand as public proof functions next
to what they are about, or in a module's `laws` file. Among them are that, as
long as everything fits the caps on machines and repos, two machines that
exchange memberships end up with the same records and the order of merges does
not matter; that updates to known records are taken in at the caps too; that two
spellings of one path register once; that a removed peer is cut off and a renamed
one respawned; and that a ticket pairs at most once.

What the library takes from other crates stands behind a few small functions
whose contracts are believed rather than proved: base64 and hex
(`data-encoding`), key generation, derivation and parsing (`iroh`), randomness
(`rand`), the host name (`gethostname`), byte counts (`indicatif`), and two
functions of the standard library's strings.
