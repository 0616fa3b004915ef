# planar

A Planechase deck for a crux application, verified with Verus.

- `src/cards.rs`: card types, their stored text, picture paths, the reading
  of card lists and the Android resource names of cards.
- `src/deck.rs`: the deck in play (add, top card, turning, shuffling), with
  the proofs that turning is undone by turning back and that shuffling keeps
  every card.
- `src/planar.rs`: the application's state machine: from an event and the
  model to the next model and the actions that the shell performs.
- `app/`: the shell: SQLite tables, the JSON catalogue files, serde copies
  of the types and the crux `App`.
