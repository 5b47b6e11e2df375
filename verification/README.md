# packing

Interactive packing of small squares inside a big square, drawn with eframe.

- `src/` is the verified library: the indices of squares, handles and
  boundary elements, the order in which they are visited, the cyclic
  structure of a square's boundary, the sign logic of the point-in-square
  test, the container of squares with indexed access, and the routing of
  contact impulses to the squares they act on.
- `app/` is the program: the floating-point geometry (vectors, squares,
  edges, camera and window maps) and the eframe user interface, built on the
  library's types.
