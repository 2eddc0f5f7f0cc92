# rxsci

A push-based stream processing core: sources emit keyed items and key events, and
a pipeline of operators (`map`, `count`, `push_key_split`, `pop_key`, `forward`)
transforms them, keeping per-key state in a state store.

The library (`src/`) is written in Verus. Every operator is a state machine from its
state and one event to its new state and the events it emits, with a contract over
spec functions; a subscribed pipeline is a chain of such stages, and running the chain
is proved to match the composition of the stages' specifications for the answers that
the host's map and key functions gave, whatever those answers are.

- `src/events.rs`: keys, items, events and their views.
- `src/state.rs`: keyed states (`MemoryState`, `MemoryStateRc`) and the state store.
- `src/flextuple.rs`: schemas and tuples of typed values.
- `src/operators/`, `src/sources/`, `src/sinks/`: the operators' step functions.
- `src/chain.rs`: running stages and chains of stages, with the laws about them.
- `src/lib.rs`: operators, sources, pipelines and subscriptions.
- `app/lib.rs`: the C interface for the host (pointers, host callbacks, printing).
