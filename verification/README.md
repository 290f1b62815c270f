# yoric

A small networked game of skulls and roses (bluffing with cards and bids), with a
terminal client and a server that runs lobbies.

`src/` is the verified library:

- `cards`: cards and hands.
- `player`: one player's cards and the moves on them (play, reveal, recall, obscure),
  with the laws that keep every player's cards.
- `names`: the order of player names.
- `game_state`: a game: players kept sorted by name, turn, highest bidder; adding
  players and the view of the game one player may see.
- `game`: the rules of a turn: playing, bidding, passing, whose turn follows.
- `ids`: client ids in increasing order, as a lobby's map of clients is walked.
- `lobby`: a lobby's clients and host, what a lobby answers to each client message,
  and lobby ids.
- `connection`: what a client's connection does with each event: before, while and
  after it is in a lobby.
- `messages`: what client and server send each other.
- `text`: decimal numbers written and read.
- `client`: topics of server messages, the client's listeners, and the rules of the
  client's screens.
- `canvas`: where the game's cards are drawn.

`app/` holds the programs around it: `yoric server` runs the websocket server, `yoric`
the terminal client. It carries the network, the terminal interface and the
serialized form of the messages.
