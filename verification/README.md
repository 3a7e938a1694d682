# frama-c-mcp-server

A server that lets a client drive [Frama-C](https://frama-c.com/) over the Model
Context Protocol: value analysis (EVA), deductive proof (WP), ACSL annotations,
sandboxes for trying annotations out, and a record of what was verified.

The logic is a library written in Verus. Its functions carry contracts that are
proved; ordinary Rust around it does the input and output.

## Layout

`src/` is the library.

| Module | What it holds |
|--------|---------------|
| `frama_c::codec` | frames and messages of Frama-C's server protocol |
| `frama_c::client` | which reply ends which request, polling, paging, handshake |
| `state` | what is known of the program, conclusions, the state of the project, and laws about them |
| `components`, `topo` | mutually recursive groups, the bottom-up order, and which functions are ready |
| `linear_invariant` | the text format of the linear invariant tool |
| `mcp::acsl`, `mcp::inject` | clauses, their labels and normal forms; planning and adding a set of clauses |
| `mcp::routing` | where a name leads: the main instance or a sandbox; what the lock blocks |
| `mcp::sandbox`, `mcp::process` | the register of sandboxes; how instances are started |
| `mcp::request`, `mcp::script` | the requests that are sent, in which order, and how each is waited for |
| other modules under `mcp` | one per group of tools: requests and reports |
| `json`, `names`, `text`, `duplicate` | values, maps by name, texts, copies |
| `ffi` | the texts handed to C and OCaml |

`app/` is the program: the command line, the socket, processes, files, the types
with their serde derives, and the tools as they are offered to clients.

`tests/` runs the library on concrete values.

## What is trusted

Calls into other crates stand behind small functions whose contracts are believed:
reading and printing JSON (`serde_json`), strongly connected components
(`petgraph`), the two patterns for labels (`regex`), and a few functions of the
standard library (the clock, formatting a duration). The comment above each says
what its contract claims.
