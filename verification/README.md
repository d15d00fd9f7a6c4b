# hacd

Hierarchical approximate convex decomposition of triangle meshes, verified with
Verus.

A mesh is decomposed by decimating its dual graph. At first every triangle is a
part of its own. Then the cheapest pair of neighboring parts is made one part,
again and again, as long as what this makes is not too concave and as long as
there are more parts than asked for. The result is the convex hulls of the parts
that are left, and the triangles of each of them.

## Layout

`src/` is the library. Every item in it is verified.

- `scalar`, `fixed`: what is asked of a number type, and one that keeps it.
- `linalg`, `aabb`, `mesh`, `bvt`: points, boxes, meshes, and a tree of boxes.
- `set`, `queue`: ordered sets and priority queues.
- `rays`, `dual_graph`, `vertex`, `edge`, `ancestor`: the rays of a mesh, and its
  dual graph.
- `kernel`: the two computations that a caller brings along, the convex hull of a
  cloud of points and the intersection of a ray with a convex hull.
- `decimation`, `decompose`: the states and the steps of a decimation, and the
  decomposition itself.
- `laws`, `connected`, `shape`, `enclosing`, `evaluation`, `casting`, `maximal`,
  `components`, `agreement`: what holds of every decimation.
- `exact`: what holds besides where arithmetic does not round.

Everything is generic over the number type. A function that computes with numbers
requires the type to be `lawful`: its operations are functions of their operands,
its order is total, and nothing lies below the opposite of its upper bound. To
compare edges or entries takes less: that the comparisons are functions of their
operands (`compares`). Nothing is asked of the arithmetic, so the contracts hold
under rounding as well. Where a law needs more, it says so: that the operations
respect the order (`monotone`), or that they are those of a field (`exact`).

`app/` connects the library to floating-point numbers and to the types of
nalgebra. It is not verified.

`tests/` runs the library on fixed-point and on floating-point numbers.
