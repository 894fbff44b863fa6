# babel

A runtime in which protocols talk to each other through a central router:
requests and replies go to one protocol by its id, notifications to every
protocol subscribed to their type, and a shutdown to every protocol.

- `src/` is the verified core, written in Verus:
  - `ids`: protocol and message ids, and the decimal text of a protocol id;
  - `event`: the events, generic in their payloads;
  - `handle`: the events a protocol builds, stamped with its own id;
  - `counting`: occurrences of a value in a sequence;
  - `builder`: registration of protocols, one per id, and the start of an
    instance;
  - `router`: the routing tables and where each event goes;
  - `table`: the concurrent map (`dashmap`) that holds the subscriptions;
  - `dispatch`: which handler of a protocol takes an event;
  - `plan`: which table each handler method of a protocol goes into, and the
    notification types it subscribes to; `app/declare.rs` builds a protocol's
    tables through it from the list of its handler methods;
  - `laws`: properties that span these functions.
- `app/` runs it: one thread per protocol and per router queue, `mpsc`
  channels, payloads erased through `std::any::Any`, logging, and the `rkyv`
  encoding of ids and message frames.
- `tests/` runs the core on concrete values.
