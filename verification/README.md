# aerospike node book-keeping, verified

The state that a cluster client keeps for one server node, written in Verus
with its contracts proved:

- `src/node.rs`: the node — identity, aliases, the pool of idle connections
  (first in, first out, never above the policy's size), the connection,
  failure and reference counters, and `refresh`, which takes the node's answer
  to an info request (name check, peers, partition generation).
- `src/services.rs`: what a services list (`HOST:PORT;HOST:PORT;...`) means.
- `src/text.rs`: splitting text and reading decimal numbers.
- `src/string_map.rs`, `src/host.rs`, `src/policy.rs`, `src/error.rs`: the
  values the node works with.
- `src/laws.rs`: properties that span several operations.

`app/` holds what needs the network or threads: a lock around the node, the
loop that checks pooled connections and opens new ones, and the info request.
