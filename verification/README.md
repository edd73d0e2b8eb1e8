# atlas

A Texas hold'em table and the RPC protocol around it, written in Verus.

`src/` is the verified library:

- `card`, `deck`, `rank`: cards, the 52-card deck and its shuffle, hand ranks
  (ranking itself is done by `rs_poker`).
- `player`, `table`, `table_act`, `table_play`, `table_utils`, `evaluate`, `pot`:
  seating, starting a hand, betting actions and their log, streets, hand evaluation, side
  pots and their settlement. Each operation is specified over a mathematical
  model of the table (`TableModel`).
- `table_check`: checks that tell, before an operation, whether it can run to
  the end (`can_act`, `can_start`, ...).
- `laws`: properties that span operations (chips are conserved, seating and
  leaving, who sits where, numbers read back as printed).
- `cards_in_play`: the 52 cards stay at the table, each exactly once, through
  a new table, sitting down, starting a hand and every action.
- `chips_at_table`: the stacks and the pot keep their chips through a hand,
  and the showdown pays the pots back to the stacks.
- `turns`: the turn is always on a player who may act, and an action that is
  not refused goes through.
- `wire`, `module_rpc`: the 17-byte packet header, method ids and routing,
  errors as sent to clients.
- `holdem_types`, `holdem_model`, `holdem_rpc`, `auth_model`, `auth_rpc`,
  `service`: the message types and what each hold'em method answers.
- `chars`, `text`, `cli`, `render`, `codegen`: text handling, the console's
  commands, the console view of a table, and the TypeScript generator for
  RPC message types (source files are parsed with `syn`).
- `user_notify`, `auth_notify`: the user-update notices, with the balance as
  a decimal's mantissa and scale.

`app/` holds the program around it: the console loop, the table registry,
the TCP server, pending calls, serde copies of the message types (the
notices with `rust_decimal`'s `Decimal`), and the file work of the
TypeScript generator.
