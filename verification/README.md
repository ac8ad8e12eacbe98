# hnefatafl-copenhagen

Copenhagen Hnefatafl — the rules engine, the text forms of the game and a few helpers of the
hnefatafl-copenhagen project — as a library whose behaviour is stated in Verus contracts and
proved.

## Layout

- `src/` — the verified library.
  - Boards and rules: `board` (positions, sizes, start positions), `board_move` (legal moves),
    `board_capture` and `board_shield` (captures, shield walls, the king's capture),
    `board_exit` (exit forts), `board_flood` (the attackers surrounding every defender),
    `board_escape`, `board_sides` and `board_trap` (whether the king can still escape),
    `board_play` (playing a turn), `board_scan` (exits, differences between positions, rook
    moves), `board_diagram` and `board_text` (reading and drawing boards).
  - Games: `game` (turns, clocks, history), `game_moves` (every legal move), `game_eval`
    (quick evaluations), `game_update` (the text protocol a game answers), `tree` (a tree of
    positions to walk through), `zobrist` (position hashing).
  - Text and protocol: `play` (squares, moves, records), `role`, `space`, `status`, `time`,
    `rating`, `opentafl` (OpenTafl move lists), `text` (numbers and strings), `utils`.
  - Other parts of the project: `futhorc` and `icelandic_runic` (English and Icelandic in
    runes), `client`, `login` (the rules for the lines a server reads from a user, before and
    after logging in), `server` (the server's account commands as a step from state and
    command to state and actions, turns in its games among them), `accounts` (password hashing and censoring), `server_game`,
    `tournament` (groups, records and the end of a round), `ai`, `characters`, `email`,
    `locale`.
- `tests/` — tests run against the compiled library.
- `app/` — a few helpers around the library: reading and writing lines on a server
  connection, the loops that run a user's login and session on a connection and that carry out
  the server's actions, the terminal
  loops that write typed lines in runes, and reading the pronunciation dictionary from disk.
