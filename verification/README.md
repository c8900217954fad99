# mqtt_broker

A small MQTT broker whose core is verified with Verus.

- `src/` is the library: packet decoding and encoding (CONNECT, PUBLISH,
  SUBSCRIBE, UNSUBSCRIBE, the acknowledgement packets, PINGREQ), the broker's
  client and subscription state, and the two delivery passes (the per-client
  pass and the broker-wide keeper pass) that drive the QoS handshakes. Every
  public function states what it returns or changes, apart from what comes
  from the clock or from chance (a fresh client id, the time a connecting
  client is stamped with); the laws that span functions are public proof
  functions.
- `app/` is the program around it: TCP listeners, threads, the clock, logging.
  It reads bytes, calls the library, and sends what the library returns.
- `tests/` runs the library on concrete packets.
