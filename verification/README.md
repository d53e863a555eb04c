# anthill_ecs

The system registry of an entity-component-system runtime, written in Verus.

- `src/system/`: the registry of systems (`SystemsFlowConfigurationManager`).
  Systems are registered by UUID, linked ("`a` runs before `b`") without ever
  forming a cycle, and a world's `SystemsChain` is built from the expected
  systems: the links between the systems of the world are exactly the
  registry's links between them.
- `src/graph/`: the `petgraph` graph that holds systems and links, what the
  library states of each call into it, and the facts about cycles and node
  indices that the proofs use.
- `src/types/`: system and component ids, and the bookkeeping of signal
  waiters.
- `src/query/`: component queries (`Not`, and tuples of queries).
- `src/archetype/`: `RawAlloc`, reserved storage for component values.
- `app/`: the asynchronous side (system traits and fabrics, signals,
  building systems), which calls the library.
