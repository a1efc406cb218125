# rounds_core

The rules of a local multiplayer arena shooter, verified with Verus: abilities with
use windows, cooldowns and stock; unique player ids; partial points, full points and
the leaderboard; when a match ends; bullet bounces; card selection; and the lobby where
players join and leave.

- `src/` is the verified library. Each module states its operations over a view of its
  data and proves the laws that tie them together (for example that no player id is
  handed out twice while in use, or that an ability in cooldown is ready again after a
  fixed number of ticks).
- `tests/` runs the library on concrete values.
- `app/` is the game itself on Bevy and Rapier: input, physics, rendering, and the
  floating-point parts (health, damage, movement). It calls the library for every rule.
