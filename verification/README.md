# codex-pool

A pool of accounts for the Codex command line, and a local proxy over it.

- `src/` is the library, written in Verus: every function states what it does, and is
  proved to do it.
- `app/` is the program around it: the command line, files, processes, and the HTTP
  client and server.
- `tests/` runs the library on concrete values.

## The library

| Module | What it holds |
| --- | --- |
| `auth` | sign-in documents: whose they are, how they are normalized, how tokens are refreshed |
| `store` | the pool: enrolling an account, importing another pool |
| `models` | accounts, usage, status, configuration |
| `usage` | usage reports: where they are asked for, how they are read |
| `ranking`, `percent`, `percent_text` | which account is best, and what is left of it |
| `commands` | references, selection, refreshing, logins, messages |
| `proxy` | scheduling, attempts, both protocols, streams, workers |
| `updater` | releases and checksums |
| `context`, `output`, `utils` | files, the table of accounts, clock and texts |
| `json`, `text`, `aliases` | documents, texts and sorted aliases, which the rest is stated over |

What goes on outside (files, processes, the network, time) reaches the library as plain
values. Where outside work and decisions alternate, the library holds the decisions as a
state machine: it says what is to be done next, and is told what came of it.

Calls into outside crates stand behind small functions whose contracts are believed; each
says in its doc comment what it claims of the crate.
