# peerchat

Chat and file transfer between peers, without a server. Nodes find each other in the local network
or through a distributed hash table, agree on session keys, and exchange sealed messages; files are
offered first, sent in chunks once they are accepted, and checked as a whole at the end.

- `src/` is the library: what a node knows, decides and shows. Every function has a contract that
  Verus proves. Calls into other crates stand behind small trusted functions, each with a comment
  that says what is taken for granted.
- `tests/` runs the library with the real crates.
- `app/` is the program around it: the network, the files, the terminal.

| Module | What it holds |
| --- | --- |
| `table`, `text` | ordered tables and text, on which the rest is built |
| `crypto`, `identity`, `protocol` | keys, sealed envelopes, peer ids and addresses |
| `chat`, `config`, `state` | messages and records, what is kept, the state of a node |
| `net`, `swarm`, `friends`, `cli` | what events, friends and commands do to the state |
| `file_transfer` | both sides of a transfer |
| `tui`, `draw` | keys, mouse, and what is shown where |
| `laws`, `transfer_laws`, `screen_laws` | what holds of several of these together |

Where a function has something to be done outside, it puts an `Effect` into the state or returns an
action; the program does it and reports what came of it.
