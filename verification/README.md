# mc_client

A Minecraft launcher core: it reads Mojang's version and Java runtime
metadata, decides which files an instance needs and where they go, checks
what it downloads, and installs instances and Java runtimes.

- `src/` is the library, verified with Verus. It holds the metadata model,
  the library rules, the platform table, the launcher's directory layout,
  path safety checks, download planning and checking, Java runtime
  selection and layout, and the small pieces of the window's state. Every
  public function states what it returns in its contract, and the proof
  functions state the laws that hold across them (rules, de-duplication,
  paths staying under their roots, progress percentages).
- `app/` is the program around it: HTTP, the file system, JSON and zip
  reading, and the async install flows that call the library for every
  decision.
- `tests/` runs the library on concrete values.
