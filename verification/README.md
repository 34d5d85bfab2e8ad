# webrender (spatial tree and display items)

A verified library for the geometry-free part of a display-list renderer:

- `src/ids.rs`: pipeline, clip, clip-chain, spatial and external scroll ids.
- `src/display_item.rs`: the enumerations that display items are made of,
  the clip/space pair of an item, the border-style rules used when a border
  is normalized, and the component transfer filter data with its sanitizing
  rules.
- `src/clip_scroll_tree.rs`: the spatial tree (parent links, child lists,
  node kinds, scroll offsets carried as a type parameter), its ancestry and
  identity queries, the nearest scrolling ancestor, the update traversal
  order, the drain of scroll states, where scroll requests go, what
  finalizing hands to each scroll frame and in which order, storing a
  scroll offset, and the walk through the hierarchy
  of coordinate systems.
- `src/tree_laws.rs`: laws of the spatial tree, proved.

`app/` holds the items that carry floating-point geometry (rectangles,
colors, transforms, radii, filter operations) on top of the library, using
`euclid` for the geometric types, and the relative transform between two
coordinate systems, which multiplies the matrices along the verified walk.

Not here: the per-node transform and scroll updates (computing world
transforms, creating coordinate systems, clamping scroll offsets), mapping
rectangles between spaces, the GPU transform palette and printing the tree.
They belong to the spatial node, utility and printing modules of the
renderer, which this project does not include.
