# trouper

An actor runtime whose rules are verified with Verus: event-sourced entities,
projectors and services that exchange envelopes, keep journals and are
supervised.

`src/` decides. Every data structure, rule and state machine of the runtime
stands there with its contract: schemas, ids, payloads and envelopes, inboxes,
journals and the write-behind store, the registry, contexts and spawn plans,
supervision, and the steps of the kernel (`src/kernel/`). Properties that span
several functions are the public proof functions named `law_*`.

`app/` acts. It holds the async loops, the channels, SQLite, serde and the
traits that services implement. It asks the library what is to be done, does
it, and hands back how it ended.

`tests/` runs the library on concrete values.

The contracts of calls into other crates are believed, not proved: JSON text
(`serde_json`), id rendering and reading (`uuid`), and the small-vector buffer
behind `Events` (`smallvec`). Each such item says in its comment what is
claimed of the call.
