# LUCKYPROTOCOL indexer

Watches Bitcoin mainnet through a Bitcoin Core node, decodes `LUCKYPROTOCOL` payloads from
`OP_RETURN` outputs, replays the protocol's rules and serves balances, logs and the token
registry over HTTP. The rules are verified with Verus.

## Layout

`src/` is the verified library.

| Module | What it holds |
|---|---|
| `protocol` | constants of the protocol, the payload grammar, how a wager is decided |
| `ledger` | the mathematical ledger and what one transaction does to it |
| `indexer` | the executable state, its records, snapshots and recovery |
| `apply` | one transaction on the executable state |
| `laws` | what holds whatever transactions come: supply, burning, the registry, the index by address, the logs |
| `source` | transactions as the node gives them: payload, sender, merkle root |
| `chain` | whole blocks and ranges of them, reorganization probes, validation of snapshots |
| `poller` | the poll loop as a state machine |
| `server` | what each HTTP endpoint answers |
| `core_rpc` | replies of the node |
| `order` | the order of listings |
| `hashing` | calls into `hex` and `bitcoin` |
| `strmap`, `heights`, `views`, `sums`, `text` | collections, sums and text |

`tests/` runs the library on concrete values.

`app/` is the program: command line, HTTP in both directions, JSON, files, timers.

## What is not proved

The functions marked `external_body` and the specification of `String::push` are believed.
They stand in `hashing`, `text` and `indexer`, and each says what it claims of the function
that it calls.
