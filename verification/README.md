# crossbow-switch

Runtime support for Crossbow's cache-shaped NixOS switches, written in Rust and
verified with Verus.

A switch builds a system toplevel, publishes its closure to a cache, checks that
the cache has it, and activates the exact toplevel that was prepared. A closure
plan says beforehand, for every derivation that must be there, whether its
outputs are present, substituted, built locally or built on a declared builder,
and refuses to guess where a store did not answer.

## Layout

- `src/` is the library. It decides which commands are run and what their
  answers mean. Every function states its result in its contract.
  - `planner/` plans a closure, one request at a time: `session` asks for what it
    needs, `frontier`, `probes`, `routes`, `order` and `assembly` decide, and
    `identity` seals the plan. `coverage`, `closure` and `economy` show what a
    finished plan holds (see below).
  - `executor`, `realize`, `publish`, `activation`, `delivery` and `switch` carry a
    switch through, over parties that the caller supplies. They reach a party only
    through `calls`, which keeps every call that is made, so that contracts say
    which calls are made, with what, in which order, and that there are no others.
  - `diagnostics` classifies failures and redacts what is shown of them.
  - `policy`, `metadata`, `requirements`, `state`, `cli`, `request`, `command`,
    `stderr` and `error` hold the rules and the values around them.
  - `text` and `sorted` are the strings and ordered collections that contracts
    speak of; `outside` holds the contracts of what is called in other crates.
- `app/` is the program: arguments, processes, files and JSON of whole values.
- `tests/` runs the library.

Proof functions whose names begin with `law_` state what holds across several
functions.

## What a finished plan holds

- It realizes every requested output of every root and every output that a
  planned derivation depends on, plans no derivation twice, and counts its
  derivations by class (`coverage`).
- It realizes the inputs of every output that was found in no store (`closure`).
- It plans no other output: each is requested by a root, or is an input of a
  derivation of which some output was found nowhere (`economy`).

These laws do not speak of all replies. All three leave out replies that name a
derivation with the store directory twice in front of its path, since two such
names may stand for one store path. `closure` and `economy` also leave out
replies that contradict an earlier one: another description of a derivation
that is already known, or another path for an output that has one. `economy`
leaves out reports of the local store on paths that it was not asked for.
