# Pac-Man 1v1

Two Pac-Man share one maze and race for the same pellets. Difficulty rises on a
clock until the ghosts turn lethal, so a match lasts a few minutes. The power
pellet lets you eat your rival and steal score. Higher score when both players are
out wins.

The rules of the game, the wire protocol, client side prediction, seating,
matchmaking and reporting are a Verus library: every function in `src/` is verified
against its contract. `app/` is the ordinary Rust around it: sockets, HTTP, the
window and the clock.

## Layout

| Path | What it is |
|---|---|
| `src/grid.rs`, `maze.rs`, `movement.rs`, `reach.rs` | units, the board, exact movement on it, who can get where |
| `src/difficulty.rs`, `score.rs` | the curve and the points |
| `src/pellets.rs`, `ghosts.rs`, `sim.rs` | the field, the ghosts, one tick of a match |
| `src/sim_laws.rs` | what holds of a whole match |
| `src/wire.rs`, `protocol.rs`, `transport.rs` | bytes, messages, channels |
| `src/tokens.rs`, `text.rs`, `single.rs` | signed tokens, small text tools, single precision in whole numbers |
| `src/backend/` | identity, queue, results, configuration |
| `src/server/` | seating, the session around a match, reporting |
| `src/client/` | identity, prediction, the connection, the screens, what is drawn |
| `src/agreement.rs` | what the two ends of the wire agree on |
| `app/` | the three programs: `backend`, `server`, `client` |
| `tests/` | the library, run |

Proof functions whose names begin with `law_` state what holds of the library as a
whole.

## Exact numbers

Nothing on the board is rounded. Time is counted in twelve-thousandths of a second
and distance in twelve-millionths of a tile, so that every speed times every
duration of the game is a whole number. Replaying an input lands in the same place
on both ends of the wire, and reconciliation normally corrects nothing. On the wire
the progress into a tile is a single precision number, which is fine enough to tell
all of those units apart.

## What is trusted

Three outside crates are called from the library, each behind a small function whose
contract is taken on trust and says so in its comment: `postcard` for the byte format
of numbers and text, `jsonwebtoken` for signing and opening tokens, and `rand` for
guest ids. So are two functions of the standard library: `String::from_utf8` and
`SystemTime::now`.

## Running

The first argument says which program to run: `backend`, `server` or `client`.

- **backend**: `GAMEFLOW_API_URL`, `GAMEFLOW_API_KEY`, `GAMEFLOW_GAME_ID`,
  `GAMEFLOW_GAME_MODE`, `GAMEFLOW_REGION`, `GAME_BACKEND_API_TOKEN`, `JWT_SECRET`,
  `PORT`, `QUEUE_TIMEOUT_SECONDS`.
- **server**: `GAME_BACKEND_URL`, `GAME_BACKEND_API_TOKEN`.
- **client**: `PACMAN_BACKEND_URL`. Drawing needs Bevy's `bevy_sprite`, `bevy_ui`,
  `bevy_text`, `bevy_asset`, `png`, `bevy_winit` and rendering features on top of the
  ones listed in `Cargo.toml`.

`GAME_BACKEND_API_TOKEN` must be identical in the backend and the server: it signs
the session token the server checks at connect time.
