# lau-penrose-growth

Grow, don't calculate: Penrose tilings, golden-ratio convergents, spirals and
shell growth as structure that emerges from local growth laws.

The library under `src/` is written in Verus and holds the integer and
combinatorial side, each function with its contract and the laws proved:

- `golden`: Fibonacci numbers, the continued fraction `[1; 1, 1, ...]` of the
  golden ratio, evaluation of continued fractions and the convergents
  `fib(n + 1) / fib(n)`; the determinant law for neighbouring convergents of
  any continued fraction, and Cassini's identity for the golden one.
- `penrose`: rhombs with matching-rule edges, the sun and star tilings,
  inflation (fat -> fat, thin, thin; thin -> fat), counts by type and the
  matching-rule check; the laws on counts, locality and composition of
  inflation.
- `constitutive`: growth laws named as constitutive projections.
- `diffraction`: the shell/place labels of diffraction peaks.
- `growth`: the integer step of the Penrose-inflation growth law.

`app/` is the program around it: the real-valued geometry (the value of the
golden ratio, spirals, shells, rhomb positions and areas, diffraction
intensities, agent skill positions), the serialisable copies of the library's
types, and the demonstration `main`.

`tests/` runs the library on concrete values.
