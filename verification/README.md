# packsmith

A compiler from block graphs to Minecraft: Java Edition data packs, written
in Verus: the graph is validated, lowered to an IR of resources and command
lines, checked against the target's command grammar, laid out as a file tree
from target data, and packed into a deterministic zip.

- `src/` is the verified library. Each module states its behaviour as
  `requires`/`ensures` over mathematical models (`Seq`, views of each type),
  and the properties that span functions are public proof functions named
  `law_*`.
- `tests/` exercises the library on concrete values.
- `app/` is the command line and the repository tasks: reading and writing
  files, running processes, and the serde forms of the documents.
