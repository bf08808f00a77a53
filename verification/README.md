# timely_communication

The communication layer of a dataflow system: framed messages between the workers of several
processes, over TCP, TLS, QUIC or shared memory.

- `src/` is the verified library. It decides what bytes mean, who gets which message, when a stream
  has ended, how processes connect to each other and what a command line asks for. The laws that
  tie its functions together are proof functions named `law_*`.
- `tests/` runs the library.
- `app/` is the runtime around it: sockets, threads, shared memory and files. It performs the steps
  that the library's state machines ask for and hands back what came of them.

## Modules

- `networking::bytes`, `networking::header`, `networking::framing`: integers, headers and messages
  as bytes.
- `networking::receive`, `networking::delivery`, `networking::send`: the two ends of a stream, and
  that what is sent is received.
- `networking::handshake`, `networking::util`, `networking::names`: who connects to whom, how
  connections are told apart, and how queues, connections and services are shared out.
- `initialize`, `options`: configurations and the command line.
- `allocator`: the generic allocator of channels and its builders.
- `text`: decimal numerals.
