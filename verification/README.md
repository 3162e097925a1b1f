# gritty

Persistent remote shells. A server keeps sessions alive; a client attaches to
one of them, on this machine or through an SSH tunnel, and finds its way back
after the network, the tunnel or the laptop was away.

`src/` is the library: the parsers, tables, texts and state machines, verified
with Verus. Each function says in `requires` and `ensures` what it needs and what
it returns, and the public proof functions named `law_...` state what holds
across functions. `app/` is the program around it, which is not verified: the
command line, the encoding of messages on the wire, files, sockets, processes,
signals, the watch on the network, and the terminal. `tests/` runs the library on
concrete values.

## Where things are

- Text and order: `text`, `order`, `paths`, `naming`, `durations`,
  `columns`, `table`
- What crosses the wire: `protocol`, `manifest`, `wire_names`
- Settings: `config`
- An attached client: `attach`, `client`, `escape`, `alt_screen`, `chrome`,
  `rate`, `relay`, `reconnect`, `tail`, `picker`
- Tunnels: `connect`, `startup`, `monitor`, `target`, `forward`
- Sessions and hosts: `sessions`, `hosts`, `kill`, `complete`, `service`
- File transfer: `transfer`, `receive`
- Care: `doctor`, `refresh`, `report`, `runinfo`
- What is taken from other crates: `outside`

Where the program alternates waiting with deciding, the library holds the
decisions as a state machine (`Relay`, `Reconnect`, `Monitor`, `Startup`,
`Receiving`, `Restart`, `RemoteRefresh` and others): a step takes an event and
returns the action, and `app/` performs it.

## What is trusted

`src/outside.rs` wraps calls into other crates and states what is believed of
them; `src/text.rs` adds a contract for `String::push`. Nothing else is taken
without proof.
