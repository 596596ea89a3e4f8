# physim

An N-body simulator assembled from plugin elements: initialisers create
bodies, transforms compute accelerations, an integrator advances the state,
transmutes edit it, and a renderer draws it. Elements talk over a message bus.

The verified library (`src/`) holds the logic, each function with a contract
that Verus proves:

- `messages`: the priority-ordered message bus and what emptying it hands to
  each client;
- `pipeline`: reading pipeline descriptions, assembling the elements, the
  pipeline's reaction to bus messages and the simulation's next step;
- `properties`: element properties as JSON values by name (values come from
  `serde_json`);
- `plugin`: element metadata, the registry of discovered elements, plugin
  symbol names and discovery decisions;
- `render`, `elements`: the decisions of the renderers and of the elements
  whose work is otherwise numerical;
- `grid`, `tree`: grouping entities by cell, and an arena binary search tree;
- `text`: the string operations the parsers use, stated over characters;
- `keyed`: vectors found by a text key, the map they stand for, and how it
  changes, shared by the properties and the element registry.

`app/` is the `physim` program: argument handling, plugin loading through
`libloading`, the C interface, file reading and the threads that run the
simulation, with the floating-point state of the bodies.

The plugins that do the numerical work (initialisers, gravity transforms,
integrators, collisions, the OpenGL and `stdout` renderers) compute in
floating point and are not part of this crate; the library holds their
whole-number and text decisions (`elements`, `render`, `grid`), which the
plugins call.
