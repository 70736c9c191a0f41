# peam

A lean Ethereum consensus node whose rules are verified with Verus.

## Layout

- `src/`: the verified library. Every function states its result in a contract.
  - `ssz`, `types`, `containers`: the wire format, the containers and their roots,
    the state transition with justification and finalization.
  - `fork_choice`: block tree, votes, checkpoints and head selection.
  - `networking`: topics, messages, framing, validation, scoring, rate limits, peers and
    the key behind the node's identity.
  - `app`, `cli`, `node`: settings, genesis, command line and the duties of a node.
  - `checkpoint_sync`, `storage`, `metrics`, `crypto`, `inspect`: start from a finalized
    state, the block table, counters and their text, key derivation and signature checks,
    and the arguments of the inspection command.
  - `registry`, `registry_files`: the configuration files of a devnet.
  - `keyed_map`, `numbers`, `text`, `slot`: what the others build on.
- `app/`: the program around the library: files, sockets, tasks and the signature scheme.
- `tests/`: tests of the library.

Public functions named `law_...` state what holds across functions: what one call undoes,
what every operation keeps, and what does not depend on the order of things.

## Trust

A function marked `external_body` calls into another crate or into the standard library.
Its doc comment names the function that it calls and says what the contract claims of it.
