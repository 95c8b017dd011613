# inclusion

The inclusion pallet of a relay chain: it carries candidates of parachains and parathreads from
backable to backed, and from backed to included. The library is written in Verus. Every function
states what it returns and what it does to the state of the pallet, and the proofs are checked
together with the code.

## Layout

- `src/primitives.rs`: candidates, commitments, bitfields, assignments.
- `src/bits.rs`: bitfields, held by `bitvec`.
- `src/storage.rs`: storage maps, walked in the order of the hashed keys.
- `src/pallet.rs`: the state of the pallet, events, errors, effects; timing out, disputes, forced
  enactment, session change.
- `src/availability.rs`, `src/bitfields.rs`: which bitfields are taken, and what they do.
- `src/checks.rs`: the acceptance criteria for the outputs of a candidate.
- `src/round.rs`, `src/backing.rs`: what a round of backing comes to, and the code that runs it.
- `src/laws.rs`, `src/round_laws.rs`: what holds of the pallet as a whole.
- `src/weights.rs`: weights.
- `app/`: the pallet in a runtime. It reads and writes storage, asks the sibling pallets and carries
  out the effects.

## What is trusted

Calls into `bitvec` (in `src/bits.rs`) and `frame-support` (in `src/storage.rs` and
`src/weights.rs`) stand behind small functions whose contracts say what the crates document.
Digests and signatures are computed where values are made, and come in as part of these values or
through closures.
