# Codex Quota Ledger

A local, private ledger of Codex subscription usage: official quota observations, token reports
from local session logs, reset windows, and what can be said about how they relate.

- `src/` is the library, written and proved in Verus. It reads session logs and replies of the App
  Server, keeps the ledger and the quota history, and decides what is reported.
- `app/` is the program around it: the database, processes, files, the network, and all arithmetic
  on floating-point numbers.
- `tests/` runs the library.

Modules of the library:

| Module | What it holds |
| --- | --- |
| `usage`, `ingest`, `backlog`, `ledger`, `scan` | token reports, from a line of a log to a stored event |
| `report`, `pricing` | what the events of a span come to, and the prices that apply |
| `quota`, `history`, `official` | rate limits, snapshots and windows, official daily usage |
| `account`, `session`, `recorder` | accounts, the exchange with the App Server, waits and health |
| `estimate`, `query`, `web`, `command` | answers to queries, the dashboard, the command line |
| `json`, `clock`, `calendar`, `text`, `local`, `schema` | what the others are built on |
