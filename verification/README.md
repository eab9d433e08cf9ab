# circuit_engine

The verified core of a schematic circuit simulator.

`src/` is a Verus library; every function in it carries a contract that
Verus proves:

- `netlist`, `union_find`, `numbering`, `topology`, `analysis`: circuit
  analysis. From each element's posts, wires, labels, grounds and internal
  couplings it numbers the nodes (one per net, ground is node 0), lists the
  terminals on each node, finds the nodes that float, splits the nodes into
  independent equation systems and gives every node and voltage source its
  row.
- `dump`: reading text dumps into records (options and element headers).
- `chip`, `segments`, `logic`: digital chips (flip-flops, adders, latches,
  multiplexers, counters, shift registers, sequence generators, segment
  decoders), gates and multi-position controls.
- `geom`, `text`, `examples`, `kinds`, `error`: integer geometry, text
  escaping, the built-in example circuits, element kinds and errors;
  `example_reads` proves that every built-in example reads without error.

`app/` is the command-line simulator around it: file reading, the
floating-point element models, matrix stamping and LU solving.

`tests/` runs the library on concrete circuits, dumps and chips.
