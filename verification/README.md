# rusty_link

Ableton Link in Rust: tempo, beat and start/stop synchronisation between
applications on a local network, with LinkAudio channels streamed between
peers.

`src/` is the library, written in Verus, and Verus proves every function
there against its contract; the clock readers, whose result is the time,
state nothing of it. It holds the wire
formats of discovery, measurement and LinkAudio (each with a proof that
decoding gives back what was encoded), the session and peer bookkeeping,
the choice of session after a measurement, the peer timeouts, the channel
and receiver registries, the sink's commit check, the PCM codec, and, as steps from plain values to
actions, the decisions of the controller's change loop, of joining a
session, of the messenger, of the measurement listener and of the audio
engine's message handling and processing tick.

`app/` is plain Rust around it: the timing types that compute in floating
point, error types with their messages, audio buffers shared between
threads, and the sockets.

`tests/` runs the library on concrete values.
