# starlang

The rules of an actor runtime, written in Rust and proved with Verus: processes
with links and monitors, supervisors, state machines, channels, presence, timers,
name registries and peer nodes.

The library in `src/` decides, and never waits. What takes time or touches the
outside comes to it as an argument and leaves it as a value: a clock reading, the
result of a callback, the bytes of a message, an action that is to be performed.

- `base`, `atom`: identities of nodes, processes and references, and exit reasons
- `data`, `table`, `directory`, `text`, `time`: what the rest is built on
- `wire`: values as bytes, in the postcard format
- `runtime`, `registry`, `timer`: processes, their names and their timers
- `gen_server`, `gen_fsm`: the protocols of servers and state machines
- `supervisor`: supervisors with fixed and with changing children
- `channel`, `presence`: topics, their subscribers and who is present
- `node`, `distribution`, `peer`: nodes of a cluster
- `application`: how applications are set up

Each type has a model, and each function states its result over the models. What
holds across calls stands in public proof functions, most of them in files named
`laws.rs`.

`app/` runs the library on tokio: tasks, mailboxes, sleeping timers, child
processes, and the traits that users implement.
