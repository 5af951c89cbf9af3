# ehci_debug_bridge

A USB debug device for the EHCI debug port, for boards with a CH32V307. A device
under test writes its console to it and polls it for input. The bridge carries
both directions to a USB serial port, to a TCP client, or to both.

- `src/` is the logic, verified with Verus: the control requests of the debug
  class, the byte queues, the packets that are read from and written to each
  link, the fan-out of the console output to two readers, and the sessions of
  the TCP server. `src/laws.rs` and `src/system.rs` state what holds of whole
  runs. With one bridge, every byte that is read goes into a packet for the
  other side, once and in order, except what was held back when a TCP client
  left. With both bridges, a reader that falls a whole queue behind loses its
  oldest bytes. A packet whose write fails is not sent again.
- `app/` is the firmware around it: hardware set-up, the USB and network stacks
  and the asynchronous tasks.
- `tests/` runs the library against the real channels and USB types.
