# mtg_engine

Verified parts of a Magic: The Gathering pile-scenario engine: its data
formats, rules helpers and decision logic. The full game state, with its
card catalog, action executor, expression evaluator and turn loop, is not
part of this crate; the combat-damage pass, the priority round, the
automatic parts of the steps, the planning of a cast and the event
pipeline's decisions are, over boards and answers held as plain values.

- `snapshot`: compact board snapshots — the version-2 and version-3 binary
  formats, base64url text, URL tokens, the card registry, and conversion to
  and from name-based results. Encoders and decoders are proved to compute
  the byte layouts stated as spec functions, and reading back what was
  written is proved to give the snapshot back.
- `ir`: card behaviour as data — expressions, continuous-effect
  modifications, the event log, the binding environment, the analysis of
  which layers an effect reads and writes, and the matching of game events
  against trigger specifications (filters are decided by a check the caller
  supplies).
- `mana`, `combat`, `turn`, `strategy`, `predicates`, `deck`, `planner`,
  `potential`: mana pools, combat damage assignment, the turn structure,
  default answers to cost and combat decisions, object filters and targets,
  deck checks, the main-phase planner's state transitions, and the mana a
  source could add.
- `tap_plan`: which mana sources to tap for a cost — colored pips first, in
  a fixed color order, then generic mana; no source is used twice.
- `layers`: the order in which continuous effects apply — layer by layer,
  and within a layer in dependency order, timestamps breaking ties, position
  order for cycles (proved as laws over the order).
- `combat_pass`: one combat-damage pass — attackers, then blockers striking
  back, with trample, deathtouch, lifelink, protection and first strike.
- `priority`, `steps`, `cast`: who holds priority and when the stack
  resolves or the round ends; untapping, the skipped first draw, legal
  blocks and their damage order, expiring effects and each step's plan;
  which cost a spell is cast for, what delve exiles, and when a cast fails.
- `event_pipeline`: what happens to a fired event — prohibition first, then
  the first replacement not yet applied in the chain, else the event itself,
  with continuous effects recomputed at the top of a chain.
- `display`: section headings and collapsed name lists of the state
  printout.

`app/` holds what stays outside the verified library: serde copies of the
result types, the error type's `Display`, the deck warning printout, and a
token reader for user input.
