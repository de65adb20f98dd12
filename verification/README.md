# UDS-to-SOVD proxy

A protocol translation gateway between UDS diagnostic tools, which speak DoIP, and a SOVD
diagnostic architecture. It accepts UDS requests over DoIP, finds the service that a request
asks for in the diagnostic description (MDD) of the ECU, turns the request into a SOVD REST
call, and encodes the reply back into UDS.

- `src/` is the library, verified with Verus: framing and sessions, service resolution,
  response encoding, gateway requests and replies, mock data and configuration. Nothing in it
  does I/O. Where an answer from outside is needed, it says what to ask and takes in what came
  back.
- `app/` is the program around it: sockets, HTTP, files, the command line, and the diagnostic
  engine (the CDA crates).
- `tests/` runs the library on concrete values.
