# godl-crank

The decisions of a crank for the GODL mining protocol on Solana, verified with
Verus, and the bot around them.

Each round, the bot submits one atomic `sample + reveal + reset_permissionless`
transaction to advance the board. Periodically it checkpoints eligible miners
and closes expired rounds whose rent it owns.

## Layout

- `src/` is the library. It does no input or output: what has to wait for an
  answer is a value with `action`, which says what it wants next, and a method
  that takes the answer in.
  - `reset`, `outcome`: one iteration on a round, and the watch for its outcome
  - `instructions`, `tx`: the transaction of a reset, compute budgets, messages
  - `batch`: the bisecting sender
  - `selection`, `top_miner`: the slot hash, the random number and the top miner
    of a round, and the search for it
  - `entropy`: the search for a seed over several hosts
  - `maintenance`: which miners to checkpoint and which rounds to close
  - `rpc`: account filters, and how accounts are read
  - `lifecycle`, `health`, `stats`, `text`: what the operator gets to see
  - `chain`, `bytes`: on-chain values and their encoding
- `app/` is the bot: arguments, RPC, HTTP, sleeping, printing, and amounts in
  SOL.
- `tests/` runs the library on concrete values.

The functions named `law_*` are proofs of what holds of the library as a whole:
that our own confirmation wins over a bare board advance, that no instruction is
lost by the sender, that nothing is fired unprepared, and so on.
