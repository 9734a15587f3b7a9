# chess_menu

A carousel menu with a chess match against a small engine and a file explorer, with its
logic verified by Verus.

- `src/chess/`: the rules (`rules.rs`, `moves.rs`), the engine's search (`ai.rs`,
  `score.rs`), the match state and its draw rules (`game.rs`), the player's input
  (`input.rs`), the board captions (`glyphs.rs`), and the properties proved across them
  (`laws.rs`, `agreement.rs`).
- `src/explorer.rs`: the explorer's list (ordering, selection, scrolling).
- `src/menu.rs`: the menu tree and its navigation.
- `src/assets.rs`: icons that fall back to a drawn one and the choice of a font.
- `src/window.rs`: the window's size bookkeeping around fullscreen.
- `src/rng.rs`: the calls into `rand`, with the contracts the proofs rely on.
- `app/`: the window (wgpu and winit), the floating-point geometry of the screens, the
  file-system side of the explorer, and the reading of icon and font files.
- `tests/`: tests of the library on concrete positions and lists.
