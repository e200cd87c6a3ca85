# aimeqtt

An MQTT 3.1.1 client (QoS 0) whose packet handling and connection decisions
are verified with Verus.

## Layout

- `src/packet.rs`: building CONNECT, PUBLISH, SUBSCRIBE and PINGREQ packets,
  and reading CONNACK, PINGRESP and PUBLISH packets. The Remaining Length
  encoding is proved to read back to the value it encodes, to take at most
  four bytes up to 268,435,455, and a built PUBLISH packet is proved to read
  back as its topic and its payload. Built PUBLISH packets carry a zero Packet
  Identifier even at QoS 0, so the payload reads back behind two NUL bytes.
- `src/client.rs`: client options (a builder whose broker host and port are
  type states), the client handle and its channels, and the decisions of the
  connection loop: what a read from the broker means, what an incoming packet
  asks for, how a publish request is answered.
- `src/error.rs`: connection errors and their conversion from and into
  `std::io::Error`.
- `src/channel.rs`: the tokio channel operations that the client uses, with
  the contracts that the library relies on.
- `app/`: the program around the library: the tokio runtime, the TCP stream,
  timers, logging and printing.
- `tests/`: tests of the library on concrete packets and clients.
