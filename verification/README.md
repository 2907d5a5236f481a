# saddle-ai-navmesh

Navmesh baking, querying and path following for Bevy, with its integer core verified in Verus.

- `src/` — the verified library: area masks and query filter masks (`area`), edge pairing and
  portal linking of a bake (`portals`, `key_order`), the polygon graph and its neighbour
  expansion (`topology`), corridor reconstruction and query decisions (`search`), primitive and
  mesh triangle layouts (`primitives`), polygon numbering of a bake (`bake`), the bake/query
  lifecycle of a surface (`lifecycle`) and follower decisions (`follow`). Each module states
  its contracts over `Seq`/`Map` models and proves the laws that span its functions.
- `app/` — the Bevy plugin and ECS systems, plus all floating-point geometry: projection onto
  triangles, slope and obstacle tests, A* costs, funnel smoothing, steering and crowd
  avoidance. It calls into `src/` for every integer decision.
- `tests/` — tests of the library on concrete values.
