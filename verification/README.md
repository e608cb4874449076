# thread_transport

IPv6 and UDP over IEEE 802.15.4 with 6LoWPAN. A Stream is one UDP datagram,
whole in a frame or in FRAG1 and FRAGN fragments reassembled by datagram tag.
A loopback radio stands in for the mesh.

- `src/` is the library, verified with Verus. Its modules go from the wire up:
  `bytes`, `crc`, `checksum`, `frame`, `address`, `datagram` and `fragment`, then
  `radio`, `sending`, `reception`, `transport` and `loopback`. `laws` holds what
  is proved of them together.
- `tests/` runs the library on concrete values.
- `app/` shares a node between threads and gives it std's addresses, timeouts
  and targets as text.

One thing is taken on trust: that what std's `Debug` writes of a string depends
on the string alone (`error::quoted`).
