# instrument_core

Instrument control without a VISA dependency: byte transports, SCPI framing and
sessions with retries and reconnects, IEEE 488.2 common commands, discovery and
classification of instruments, and scripted mock transports for deterministic tests.

- `src/` is the library, verified with Verus. Each public function states what it
  returns in its contract. An SCPI session keeps a ghost log of what it asked of its
  transport; its contracts say, whatever the transport answers, that the I/O timeout
  is restored, that a reconnect only follows a timed-out read or write, that a
  non-idempotent command is never sent twice, that a timed-out write is retried only
  as the options allow, and that a query succeeds exactly when a response was framed
  by the bytes read after its last write, that response being its reply.
- `tests/` exercises the library on concrete values.
- `app/` holds what cannot be verified: JSON and TOML formats, floating-point
  parsing, asynchronous sessions over async transports, a `tracing` observer, and the
  VISA backend.
