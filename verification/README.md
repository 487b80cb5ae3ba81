# sprk

The rules of a mobile game server, written in Verus and proved against their contracts.

- `src/` is the verified library. Each module holds the rules of one part of the game
  (shops, inventory, the hero inn, hero growth, pets, summons, equipment extensions,
  mail, ...). A request handler of the server reads its inputs, calls these rules with
  plain values and writes back what they return; each rule states in its `ensures` what
  it returns for the inputs it accepts, including each refusal and the result code it
  carries.
- Calls into `rand`, `chrono`, `serde_json` and `urlencoding` go through small trusted
  wrappers whose contracts say what those crates document. Where a rule draws random
  numbers (purification rolls, option renewal, package and roulette draws, event forges,
  soul stone draws, break drops, rune drops, option step raises), the part
  after the draw is a function of its own that takes the drawn values and states its
  result exactly; the rule that draws states what holds whatever was drawn.
- Properties that span several calls (what a written list reads back as, collecting all
  mail at once against one by one, declining a renewal, claiming a reward once, wallet
  spending and refunds) are stated as public proof functions next to the rules.
- `tests/` runs the rules on concrete values.
- `app/` holds the glue a server needs around the rules: the JSON shapes of records, the
  two computations that use floating point (a hero's shop discount and accessory
  positions), and the checks that some rules expect their callers to have made.
