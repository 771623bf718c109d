# mtga_me

A bot that plays MTG Arena by reading the screen and pressing keys, with its game logic written
in Verus and proved against its contracts.

- `src/` is the verified library: the card library and card attributes, the rules engine
  (`app::gre`: stack, delayed effects, replacement and continuous effects, triggers, effect
  resolution), combat resolution, the tracked game state, the bot's casting decisions, the
  states of a turn (`app::state`), OCR text clean-up and pixel rules, and pixel reads out of a
  captured screen. Laws that span functions are public proof functions (for instance
  `app::gre::laws`, `app::state::lemma_turn_cycle`, `app::ocr::lemma_sanitize_idempotent`).
- `app/` is the program around it: screen capture, Tesseract, mouse and keyboard, the screen
  geometry (floating point), and the game loop that hands what it read to the library and
  carries out what the library decided.
- `tests/` runs the library on concrete games.
