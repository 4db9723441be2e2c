# WinSaf

A provably fair lottery for Safrochain: ticket sales in one denomination (`usaf` by
default), a prize pool per round, a referral ledger and a treasury, draws from verified
randomness, and prizes that winners claim themselves. A jackpot share that nobody wins
for too long goes to the best tier below, and a round that gets no randomness can be
given up and refunded.

- `src/` is the lottery. Every function is verified with Verus: its contract says
  exactly what it returns or changes, and the modules `soundness`, `accounts`, `laws`,
  `fairness` and `locality` prove what holds of all requests together.
- `app/` connects it to a CosmWasm chain: entry points, storage, JSON and the
  questions that only the chain's host can answer.
- `tests/` runs the library on concrete values.

## How a request is handled

The state of the contract is one value. A request comes with what the host says about
it: the verdict on every address it names and, for drand randomness, whether the
pairing holds. The library answers with the next state and a reply, or with a refusal
that changes nothing. `app/` stores the state and sends the reply.

## What is trusted

Three calls are believed without proof, each behind a small function that says what
is claimed of it: SHA-256 of the `sha2` crate, and `str::trim` and
`str::to_lowercase` of the standard library.
