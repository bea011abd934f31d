# dungeon_cards

A two-player dungeon card game on a 5x5 board of rooms. Each turn a player
holds up a card and plays it: walk to a connected room, turn rooms, exchange
two rooms, or shoot a fireball along a corridor. A card held up can be taken
back, and taking it back undoes what it did to the board. Fireballs hurt the
other player or the monster that roams the board.

Layout:

- `src/` — the library, verified with Verus: rooms and walks (`tile`,
  `paths`, `walk_order`, `board`, `effects`, `undo`), cards, players, the
  monster and fireballs, the server's game (`server`, `handlers`, `broadcast`,
  `messages`), the client's state and card handling (`client`,
  `card_effect`, `card_input`, `layout`), and the laws that tie them
  together (`laws`).
- `tests/` — tests of the library.
- `app/` — the game on the Turbo platform: screen, input, network, random
  draws and animations, around the library.
