# bevy_xpbd

A small XPBD (extended position based dynamics) solver for 2D circles on bevy.

- `src/` — the verified library (Verus): the broad-phase pair scan
  (`pairs`), the contact lists that position solving hands to velocity
  solving (`contacts`), the order of the solver stages (`schedule`) and the
  fixed-frame counter (`frame`). Bodies are named by their 64-bit entity ids.
- `app/` — the bevy plugin: components, resources, the systems with their
  floating-point physics, and the registration of the systems in the order
  that `schedule` gives.
- `tests/` — tests of the library.
