# canopen-core

A CANopen protocol stack, verified with [Verus](https://github.com/verus-lang/verus):
network management, heartbeats, SDO servers and clients, process data, emergency
messages, layer setting services, and object dictionaries from definitions or
EDS files.

`src/` is the library. Almost every function of it has a contract that Verus proves,
over models of the protocol's state; the laws that span several functions are
public proof functions. What the library takes on trust are the contracts of the
few wrappers around other crates, each named in the wrapper's documentation.

| module | what it holds |
|---|---|
| `cobid`, `datatypes`, `bytes` | identifiers, types, and values in little-endian bytes |
| `transport`, `slcan`, `bus`, `can_router`, `queue` | frames, serial lines, and who gets which frame |
| `nmt`, `heartbeat`, `sync`, `emcy`, `lss`, `events` | the small services |
| `sdo` | the SDO protocol: server, client, whole transfers, and both ends together |
| `pdo` | process data: packing, mapping, configuration, transmission and reception |
| `od`, `node` | what a dictionary is, and a node around one |
| `dictionary` | definitions, the dictionaries they describe, EDS files, typed clients |
| `dcf`, `ini`, `text` | device configuration files, and the text formats below them |

`app/` connects the library to the world: `embedded_can` drivers, interrupt
handlers, serial ports, threads, asynchronous tasks, files, and floating-point
numbers. `tests/` holds the tests.
