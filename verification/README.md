# tokio-ns-jail

Linux namespace jailing: running a command isolated by Linux namespaces, with
an interface similar to that of `std::process::Command`. Rootless mounts and
the mapping of user and group IDs are supported.

The library under `src/` is written in Verus. It holds what is decided and
computed, with contracts that are proved: the description of a command, the ID
maps, the steps by which the root filesystem of the jail is set up, the two
sides of starting a process, the messages about its changes, and the command
line. It makes no system calls that change anything. The program under `app/`
drives it: it clones the process, mounts, reads and writes, and hands back what
came of that.

| module | what it holds |
| --- | --- |
| `command` | the builder, the ID map files, what the program is started with |
| `id_range` | ranges of user and group IDs |
| `namespace`, `stdio`, `environ`, `path` | parts of a description |
| `launch`, `jailed` | starting a process, from outside and from within |
| `root` | the root filesystem of the jail |
| `monitor`, `wire`, `child` | the changes of a process: watching, sending, receiving |
| `options`, `usage`, `cli` | the command line |
| `bytes`, `decimal` | byte strings and numbers |

Public proof functions state what holds across functions, for instance that a
message reads back as it was sent, or that the command is started only after
the jail is complete.
