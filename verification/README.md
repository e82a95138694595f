# rust_exercises

A set of small practice programs — a riddle game, a temperature converter,
binary search, bubble sort, a calculator, a bracket checker on a stack, a job
queue, a counter window, rotating polyhedra and a screenshot tool — whose
logic is a library verified with Verus.

- `src/` — the verified library. Every public function states its result in
  `ensures`; the `law_*` proof functions state properties that span calls
  (first in first out, last in first out, balanced brackets compose, sorting
  has one result, meshes stay well formed, and so on).
- `tests/` — ordinary Rust tests of the library.
- `app/` — the programs themselves: terminal and window I/O, the keyboard
  hook, screen capture and floating-point geometry, calling the library for
  every decision.
