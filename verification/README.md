# quantum_engine

A state-vector quantum circuit simulator. The library under `src/` is written
in Verus: its functions carry `requires`/`ensures` contracts that Verus proves.

- `circuit` — circuits, gates and noise channels as data, and the full set of
  validation rules (`Circuit::validate` returns exactly the first rule broken).
- `kinds`, `text` — gate, noise and axis names; message assembly.
- `optimizer` — cancellation of adjacent self-inverse pairs, fusion, depth and
  gate counts.
- `runtime` — layering of gates into conflict-free layers that keep the
  order of gates on a common qubit.
- `state`, `gates` — the state vector over any amplitude type, and the index
  structure of gates: which amplitudes are paired, swapped or cleared.
- `simulator`, `noise` — which operation a gate or noise channel stands for,
  when a gate runs, and where a measurement is recorded.
- `measurement`, `analysis` — bitstrings, tallies of samples, subsystem and
  Pauli-string bookkeeping.

Real numbers never enter the library: angles, probabilities and matrix
entries travel as IEEE-754 bit patterns, and the floating-point checks on
them are made where a circuit is read.

`app/` is the command-line program: JSON reading and writing, complex
amplitude arithmetic, random draws, and the run loop that carries out the
operations the library decides.
