# bunsan

A multi-chain RPC load balancer for EVM networks. The routing decisions, the
configuration rules and the data structures are a Verus-verified library
(`src/`); the HTTP server, the command line, file and network I/O live in the
program under `app/`.

## Library modules

- `server`: chains and their ids and names, route templates and path parameters,
  how a request designates its chain, upstream selection, extension routes.
- `config`: the configuration and the rules a loaded configuration must meet.
- `load_balancer`: round robin, least connections and random selection among
  healthy nodes.
- `node`: nodes, their health and connection counters.
- `json`: parsing JSON text, reading members, and field filtering of JSON-RPC
  answers.
- `retry`: the retry and back-off policy for forwarded requests.
- `connection_pool`: how the client pool is resized.
- `benchmark`: the per-chain benchmark tally.
- `extensions`: extension packages, their route table, the configuration
  entries an extension adds and removes, and where an extension's binary lies
  and which arguments it is run with.
- `text`: string splitting and comparison used by the above.

Contracts state what each function returns; proof functions state the laws
that hold across calls (round-robin fairness over consecutive tickets, the
least-connections choice, chain-id round trips, case-insensitive chain names
for ASCII text, idempotent field filtering, route-table read-back, bounded
retries, pool-size bounds, benchmark averages between the fastest and slowest
latency).

## Notes on use

- The configuration must give `min_pool_size` and `max_pool_size`: they have
  no defaults, and a configuration without them is refused when it is loaded.
- An extension command is run with the route's path parameters and then the
  query parameters, each as `--name value`, followed by `--body <json>` when the
  request has a body; the request headers are passed as environment variables.
  This calling convention is the library's own (see `extension_arguments`).
