# shooter_compute

Finds the flywheel speed that lands a shot at a given distance between two
heights, and keeps the answers.

The library under `src/` is verified with Verus:

- `order_key` — every floating-point quantity is carried as the order key of
  its `f32` bit pattern (sign-magnitude), which orders as the floats do for
  every float but NaN; conversions both ways and their round-trip laws, and
  comparisons of keys that behave as float comparisons, NaN included.
- `types` — the shot configuration and simulated trajectories, in keys.
- `simulation_manager` — the trajectory cache, tied to one configuration.
- `search_manager` — judging a height against the window, locating the
  samples around a distance, the bisection over wheel speeds, and the cache
  of answers per distance.
- `database` — reading a stored answer: decimal parsing with the standard
  library's rules.
- `nt` — results passed through the network-table layer.

The float physics (the shot simulation, interpolation between samples and the
midpoint of two speeds), SQLite access, the message transport and `main` live
in `app/`, which hands the library closures for the float work.
