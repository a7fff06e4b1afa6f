# codingame_bots

Verified referees, rules and player logic for three turn-based bot games:
ultimate tic-tac-toe, a potion brewing game (witches) and a forest growing
game (wood spirits).

- `src/` is the library, written in Verus. Each referee (`game.rs` of each
  game) states what a move does to the game state, what input a player is
  sent, and when the game ends; the rules modules (`rules.rs`, `board.rs`,
  `cache.rs`) state the valid moves; the player modules simulate the games
  for the search-based bots; `view.rs` modules give the state a replay
  viewer shows. `graph.rs` holds a labelled graph with a breadth-first
  search that returns a shortest path, `stack_vector.rs` a bounded vector,
  `simulator.rs` the counting of a series of games, `record.rs` the replay
  records and `text.rs` the number and text helpers.
- `tests/` runs the library on concrete games.
- `app/` is the program around it: it starts the bots in threads, runs
  series of games, writes replay records as JSON, and holds the tree and
  beam searches, which score positions with floating point numbers.
