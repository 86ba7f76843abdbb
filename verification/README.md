# tellstickreport

Reports the status of a tellstick (temperature sensors and on/off switches)
to registered clients, switches devices on request, and serves web clients
that watch heating zones and set their target temperatures.

- `src/` is the verified library: message and status types, the decisions
  the reporter takes (client registration, address splitting, what to do with
  a received message, which tellstick readings are kept), and the web
  server's logic (what web clients see, zone targets, which switches to flip,
  one step of its main loop). Temperatures are held as IEEE-754 bit patterns
  and compared by IEEE rules.
- `app/` is the program around it: UDP sockets, websockets, threads and
  channels, JSON, configuration files, and the telldus-core C library.
- `tests/` exercises the library on concrete values.
