# spawn

Spawn subprocesses, with control over their streams, environment, descriptors, users,
capabilities and privileges.

`src/` is the library, verified with Verus. It never calls the system. A `Spawner` gathers what
is wanted of a child and turns it into a `Launch`, which says step by step what to do in the
parent and in the child; a `Handle` looks after a child that runs, and answers every reply of the
system with what to do next; a `Stream` holds what a child has written until it is read.

`app/` is the system around it: descriptors, threads, signals and system calls.

| Module       | What it holds                                                     |
|--------------|-------------------------------------------------------------------|
| `spawn`      | `Spawner`: what is wanted of a child                              |
| `launch`     | `Launch`: how to start it                                         |
| `handle`     | `Handle`: waiting for it, sending it signals, putting an end to it |
| `stream`     | `Stream`: reading what it writes                                  |
| `which`      | finding the program that a command names                          |
| `store`      | variables and handles in shared maps, and the child's environment |
| `capability` | which capabilities a child loses                                  |
| `cache`      | writing arguments so that they can be read back                   |
| `text`       | joining, splitting and checking text                              |
| `system`     | the words in which the library speaks with the system             |
