# sha_p2pool

A decentralised mining pool for the Tari network. Miners work together on a *share chain*: every share is a block of
that chain, and each block that the pool finds for the main chain pays the miners of the recent shares.

The pool's logic is a library whose behaviour is stated in contracts and proved with Verus.

| Directory        | What it holds                                                                             |
|------------------|-------------------------------------------------------------------------------------------|
| `src/sharechain` | blocks, the chain with its forks, uncles and reorganisations, shares and payouts          |
| `src/server/p2p` | peers and whom to trust, gossip, syncing with other nodes, relays: what the node decides  |
| `src/server/grpc`| block templates for miners, and what becomes of the blocks that they mine                 |
| `src/server/http`| the figures that a node collects and shows                                                |
| `src/cli`        | settings from the command line                                                            |
| `src/stratum.rs` | requests of miners that speak Stratum                                                     |
| `tests`          | the library at work                                                                       |
| `app`            | the program around the library: sockets, files, the clock, and the main chain's consensus |

Types that hold what the rules speak of have a view (`BlockView`, `ChainView`, `StoreView`, `ServiceView`, ...), and
contracts are written over views. What holds of the pool as a whole is stated by the proof functions whose names start
with `law_`. Functions that call another crate are marked `external_body`; their comments say what is taken on trust.

The node's decisions are ordinary functions from a state and an event to the next state and a list of actions. `app`
performs the actions and reports what happened. Hash rates of headers and moving averages of difficulties are worked
out by the main chain's consensus code; the library takes them as arguments.
