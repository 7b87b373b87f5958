# cosmic_zoom

The screen magnifier of a desktop compositor, with its decisions verified in Verus.

An output is magnified around a focal point. The focal point follows the pointer
continuously, when the pointer reaches the edge of what is shown, or so that the pointer
stays in the middle; changes of level and of movement are animated. An overlay on the output
offers buttons to zoom and menus to configure the magnifier.

## Layout

- `src/` is the library. It computes over any `Scalar`, is told the time in nanoseconds, and
  returns what the overlay and the compositor have to do.
  - `scalar`: the numbers. `Arith` gives the meaning of the operations, for the mathematical
    reals too.
  - `double`, `binary`, `rounding`: `Double`, numbers in double precision computed on integers,
    with the rounding of IEEE 754.
  - `geometry`: points, sizes, rectangles and outputs, with their coordinate spaces.
  - `output_zoom`: the magnification of one output.
  - `zoom_state`: the magnifier of a seat.
  - `program`, `menu`, `message`, `label`, `config`: the overlay's controls and menus, and the
    settings that they change.
  - `laws`: what holds of the geometry and the animations as a whole.
- `tests/` runs the library on the machine's double-precision numbers and on `Double`, and
  holds the two against each other.
- `app/` connects it to a compositor built on smithay: double-precision numbers as the scalar,
  the clock, the event loop, drawing and input. The compositor implements the traits in
  `app/host.rs`; the widget toolkit stands behind `Toolkit` there.

## Numbers

Contracts name what each operation on scalars returns, so they say exactly which value a
function computes, rounding included. Laws that need more than an order between numbers are
proved of the same formulas over the reals.

`Double` is a verified implementation of the double-precision numbers that a machine offers:
each operation is proved to give its exact result, rounded to nearest and to even. Verified
code cannot use the machine's own numbers, so `app/` brings those.
