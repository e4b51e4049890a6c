# netfory-provider

A node of a mesh network that serves local HTTP and WebSocket endpoints to peers. Peers send
packets over the `api://` protocol; the node calls its local instances, signs what they answer and
sends it back, or passes a packet on to a node that serves its target.

The library under `src/` holds the rules of the node, each with a contract that Verus proves:

| Module | Subject |
|--------|---------|
| `config` | the configuration, and its completion at the first start |
| `crypto`, `hexadecimal` | keys derived from one phrase, signatures, names of nodes |
| `protocol`, `headers` | packets, signed responses, the handshake, tunnel frames |
| `proxy_engine`, `http_fields`, `json`, `encoding` | calls to local instances and signed responses |
| `p2p_server` | what becomes of a request; passing packets on |
| `tunnel` | WebSocket tunnels |
| `ratelimit` | the token bucket of each peer |
| `peers`, `discovery` | manifests of other nodes, announcements, health |
| `transport` | relays, ports and the DHT |
| `stats`, `clock` | counters and clocks |
| `text`, `bytes`, `ordered` | primitives |

Functions whose names begin with `law_` state properties that span several functions. Calls into
other crates stand in small functions marked `external_body`; the comment of each says what is
taken on trust.

The program under `app/` does the input and output around the library.
