# si_sheaf_gossip

Cellular sheaves on graphs, and gossip protocols whose convergence the sheaf
Laplacian governs.

`src/` is the verified library (Verus):

- `graph` — the edge lists of the complete graph, the ring and the star, with
  proofs of their size, range and freedom from repeated edges;
- `sheaf` — the `Sheaf` type, stalk dimensions, and the constant and
  disagreement sheaves on those graphs (identity restrictions), with proofs
  that they are well formed;
- `gossip` — network topologies, including seeded Erdős–Rényi graphs drawn
  with xorshift64, and the passage between per-agent states and one flat
  state vector;
- `laplacian` — the block offsets of the sheaf Laplacian and matrix transpose;
- `experiment` — the layout of the experiment report.

`app/` holds what works in floating point: the sheaf and graph Laplacians,
their spectra (Jacobi and power iteration), the gossip simulation, the
consensus error, and the five experiments, which hand their numbers to the
library's report.

`tests/` runs the library on concrete inputs.
