# roteiro

The verified core of Roteiro, a tool that keeps a knowledge graph of a
repository: what its configuration says across two layers, how the config keys
of one repository correspond to those of another, what a change touches, and
what may be shown or sent.

- `src/` is the library. Every function states in its contract what it returns,
  and Verus proves it. The laws that span functions are public proof functions
  beside them.
- `tests/` runs the library on concrete values.
- `app/` is ordinary Rust around it: config files, git, HTTP routes, the socket
  to a hosted model. The graph store and the remote policy are traits there.

## Modules

| Module | What it holds |
| --- | --- |
| `config` | the two config layers, their merge, workspaces and what they compose |
| `overview` | the override matrix, as text and as a page |
| `infer_links` | which key of one repository is which key of another |
| `graph_api` | pages of nodes, neighbourhoods, hotspots, the hub and its spokes |
| `review` | the review of a change, and how a score is written out |
| `diff` | what git is asked, and what its answer means |
| `pins` | the hub version that a spoke pins |
| `okf_discovery`, `okf_viewer` | bundles of other projects: asking about them, showing them |
| `remote_engine`, `remote_transport` | what leaves the machine, and what a failure says |
| `init` | hooks, the agents' section and the skill |
| `explorer_app` | the explorer's assets |
| `graph`, `names`, `seqs`, `text` | the vocabulary that the others share |

Floating-point numbers are carried as their bits, or as the text they are shown
with; the library computes with neither.
