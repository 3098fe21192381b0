# rustport

A 3D bin packer for boxes and spheres, with a genetic optimizer over packing
orders. The crate is split in two:

- `src/` is the verified library, checked by Verus: the genetic operators on
  packing orders (crossover, swap, insert, scramble, space and
  bin-preservation mutations) and the population that ranks orders, keeps
  the elite and breeds the rest; the stable ranking; the candidate-gap list,
  constraint keys, wall triples, gap-filling pairs and spatial grid of the
  advancing-front sphere packer; the orientations and rotation mask of the
  box packers; and the rule by which a last-bin pass hands its result back.
- `app/` is ordinary Rust around it: everything that computes with
  floating-point coordinates (box and sphere placement, the sphere
  geometry, rating packings), the OpenCL and WebGPU back ends, and the
  WebAssembly interface.

`tests/` exercises the library from outside.

The spatial grid files its cells in a `HashMap` keyed by one integer, the
three cell coordinates packed side by side. The candidate-gap list finds a
gap by a linear search over its entries instead of keeping a hash map from
gap key to position: a gap key is three 64-bit constraint keys, wider than
any integer key type whose hashing vstd models, and the list keeps its
invariant (no key twice) over the sequence of entries itself.
