# muffin

A program to send muffins from one computer to another, and to measure how fast
they arrive. It sends and receives TCP and UDP traffic, multicast included.

- `src/` is the library: the logic of the program, verified with
  [Verus](https://github.com/verus-lang/verus). It works on plain values.
- `app/` is the program around it: the command line, sockets, threads, clocks
  and the terminal. It performs the actions that the library decides on and
  hands back what came of them.
- `tests/` holds the tests of the library.

| Module | What it decides |
| --- | --- |
| `addr` | Internet addresses, and what kind of address one is |
| `cli` | Whether what the user asks for makes sense, and what runs it |
| `clock` | How much time is left of a run |
| `dstopts` | The IPv6 destination options header |
| `iface` | Which interface a selector stands for |
| `meter` | How many bits went by in each second |
| `net_error` | Which errors mean that the peer is gone, or that time ran out |
| `payload` | What is in a buffer, and its sequence number |
| `reporter` | What is told once a second |
| `share` | Which thread carries which streams |
| `sockets` | How sockets are set up and groups joined |
| `ssm` | Which groups are source-specific, and how they are joined |
| `tcp_client`, `tcp_server` | What a worker thread does next |
| `tcp_stream` | What a single stream does next |
| `udp` | Numbering datagrams, and counting those that are lost |
| `udp_server` | What a datagram server does next |

A public proof function whose name starts with `law_` states what holds of the
library as a whole.
