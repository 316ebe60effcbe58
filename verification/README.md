# mtg_engine

A rules engine for a two-player card game, written in Verus: the functions
in `src/` carry contracts that Verus proves, resting only on the
specifications `vstd` gives the standard library.

Layout of `src/`:

- `state.rs`, `types.rs`, `ids.rs`, `cards.rs`, `events.rs`, `actions.rs`:
  the game state and the data it is made of, with the card registry.
- `objects.rs`: creating objects, players' life, counters, tapping, control.
- `characteristics.rs`, `effects.rs`, `protection.rs`, `board.rs`: what a
  permanent is (types, subtypes, colors, keywords, power and toughness) under
  the continuous effects in force, and questions about the battlefield.
- `zones.rs`: moving objects between zones, entries onto the battlefield,
  copies, libraries and discards.
- `replacement.rs`, `entry.rs`, `tokens.rs`: replacement effects, entries
  waiting on an enters-as-a-copy choice, and token creation.
- `control.rs`: control-changing effects and their expiry.
- `sba.rs`: state-based actions, run to a fixed point.
- `mana.rs`: paying costs and planning which sources to tap.
- `triggers.rs`, `random.rs`, `text.rs`, `util.rs`: triggered abilities on
  their way to the stack, the game's random stream, text, and helpers.
- `invariants.rs`: the structural invariants of a game state, checked at
  every decision point, once state-based actions have settled, and
  between two consecutive decision points.
- `laws.rs`: properties that span several operations.

`tests/` holds executable tests against the compiled library.

What the library does not hold: the legal-action menu offered at a
decision point and its check, the player actions and what each must
change, putting spells and abilities on the stack and resolving them,
collecting triggered abilities and putting them on the stack, and
state-triggered abilities. Cards are described by their data alone; no
card carries behaviour of its own.
