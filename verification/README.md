# hdlc

A verified library for an HDLC-style link protocol used to send a file from a
client to a server over TCP, with Go-Back-N or selective-reject
retransmission.

- `src/` is the library, verified with Verus:
  - `crc`: CRC-16 CCITT (polynomial 0x1021, initial value 0), table-driven and
    specified by bitwise polynomial division;
  - `byte_stuffing`: escaping of flag bytes, and its inverse;
  - `frame`: frame types, encoding of frames to bytes and decoding from bytes;
  - `shared`: a plain frame record;
  - `window`: the sliding window of unacknowledged frames;
  - `frame_handlers`: what the receiver does with each type of frame;
  - `io`: the decisions of the reader and writer tasks;
  - `client`, `server`: cutting a file into frames, recognizing the shutdown
    request.
- `app/` is the program around it (`app server|client|tunnel ...`): sockets,
  tasks, timers, channels, files and logging.
- `tests/` holds the tests of the library.
