# aeron-rs

The core of an Aeron-style media driver, verified with Verus: wire frames, the
command-and-control region that driver and clients share, the driver's three
agents, and the client's handles.

| Part | What it holds |
|------|---------------|
| `src/wire.rs`, `src/term.rs`, `src/text.rs`, `src/math.rs` | bytes, term positions, numerals, powers of two |
| `src/frame.rs` | frame headers and socket addresses: parse, write, and that each undoes the other |
| `src/context.rs`, `src/clock.rs` | configuration and its constraints; nanosecond clocks |
| `src/cnc/` | ring buffer, broadcast buffer, command messages, the shared region |
| `src/agent/` | conductor, sender, receiver with its image index, idle strategies, the runner |
| `src/client/` | client, publications, subscriptions, bridges between threads, the driver as a whole |
| `tests/` | what the library does on concrete values |
| `app/` | threads, memory maps, the system's clock and random numbers, logging; generic over a media layer that has the sockets and term buffers |

The agents decide, the program around them acts: a function of the library takes
what came in and says what to send, write or wait for, and the caller reports what
came of it. Shared memory is a byte slice that each operation is handed.

Contracts are stated over sequences of bytes and mathematical integers. Facts that
relate several functions are public proof functions whose names begin with `law_`:
that a ring buffer gives back what was written to it, in order; that a broadcast
receiver is given what was transmitted since it last read or, when it was lapped,
the last message; that an image index finds every registered image; that a client's
request is understood by the conductor and answered; that a sender stays within its
receiver's window; that a subscription takes in its own images and leaves the others;
that a run starts its agent, works until it is told to stop or fails, and closes it.
