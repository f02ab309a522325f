# data-jet

Batched data loading for Python, with the logic in a verified Rust library.

- `src/` is the library, verified with Verus. `batching` says how an order of
  indices is cut into batches, `sampler` holds the samplers and their iterators,
  `epoch` the batches that a loader may visit, `dataset` and `collate` the
  in-memory dataset and its flat batches, `loader` the in-memory data loader, and
  `curvine` the decisions of the loader that reads whole files from a Curvine
  cluster.
- `tests/` exercises the library from outside.
- `app/` is the Python extension: it converts between Python objects and the
  library's types, and runs the fetching on tokio. The Curvine class is built with
  the feature `curvine`.

The element type of a dataset is a parameter of the library; the extension uses
`f64`. The library rests on two outside crates: `rand`, for shuffling, and `bytes`,
for the buffers in which file chunks arrive. What is believed of them without
proof is stated at the functions that call them.
