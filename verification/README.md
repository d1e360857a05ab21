# transport-azure-event-hubs

Streams that travel as events into an Azure Event Hub, in Verus: which
request sends a Stream to a hub or to one of its partitions, and what a
stand-in for the namespace makes of such a request. Every function of the
library is verified against its contract.

- `src/` is the library. `client.rs` and `lib.rs` are the near end,
  `session.rs` is the far end, `message.rs` and `text.rs` are what both are
  written in, `model.rs` and `laws.rs` say what holds of a session and of both
  ends together.
- `tests/` runs both ends against each other in memory.
- `app/` puts them on sockets, with HTTP, the Shared Access Signature and the
  transport traits of the `http`, `transport` and
  `transport_azure_service_bus` crates.
