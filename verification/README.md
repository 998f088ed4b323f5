# feudle

A two-player networked word-guessing game. The library in `src/` holds the
game's decisions with their proofs; `app/` is the program around it (UDP
sockets, threads, terminal).

- `src/protocol.rs`: message types, packet framing and parsing.
- `src/text.rs`: characters and strings (ASCII upper case, character lists,
  and the three std calls the game makes: `to_uppercase`, `is_alphabetic`,
  `String::from_utf8`).
- `src/feudle.rs`: a player's board: the secret word, what is known of
  each letter, guesses used; win and loss.
- `src/client.rs`: a client's state, the marks of an opponent's guess, a
  player's turn, and how a client reacts to each server packet.
- `src/server.rs`: the server's roster and match, and what it sends for
  each packet it receives.
- `src/exchange.rs`: how the clients read what the server sends.

Run `feudle server`, then `feudle client` in two other terminals.
