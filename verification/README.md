# asmi

Apple Silicon Machine Intelligence: a daemon and command line for a cluster of
Macs that are joined by Thunderbolt and share model servers over RDMA.

## Layout

- `src/` is the library: the rules by which the daemon and the command line
  decide, written and proved in [Verus](https://github.com/verus-lang/verus).
  It does no input or output. What it needs of the system (the output of a
  command, the body of an answer, the time) comes in as plain values, and what
  is to be done goes out as plain values.
- `app/` is the program around it: command line arguments, the HTTP server,
  child processes, files, sockets and the network, JSON documents as they are
  sent, and everything that is computed in floating point.
- `tests/` runs the library on concrete values.

## Where to look

| Subject | Modules |
| --- | --- |
| The mesh: graph, links, addresses, hostfiles | `topology`, `graph`, `rdma`, `links`, `jaccl`, `hostfile`, `bridge`, `autosetup` |
| Model servers: engines, command lines, processes, adoption | `serve`, `argv`, `process`, `adopt`, `startup` |
| Models: files, hub, downloads, images and videos | `models`, `hub`, `downloads`, `media` |
| Transfers over RDMA | `transfer`, `wire`, `digest` |
| The node: hardware, health, agents, setup, measurements | `hardware`, `health`, `launchd`, `setup`, `bench`, `ane`, `admin`, `bonjour` |
| The command line and the answers of the daemon | `cli`, `api` |
| Text, numerals, tables, order, JSON | `text`, `numeral`, `table`, `order`, `scan`, `json` |

## What is trusted

The proofs rest on what a few items say of code that they do not cover: JSON
documents (`serde_json`, in `json`), regular expressions (`regex`, in
`downloads`), SHA-256 sums (`sha2`, in `digest`), and `String::push` and
`str::to_lowercase` of the standard library (in `text`). The comment above each
of them names the function and says what is taken for granted.

Laws that join several functions are public proof functions beside the
functions they speak of: that the same cables get the same addresses in whatever
sequence and from whichever end they are found, that a mesh is complete exactly
where every two nodes are connected, that a graph is read back with the links it
was written with, that a search is answered from memory for a minute and a
failure never is, that a transfer which has ended stays ended.
