# easyshare

Clipboard synchronisation and file transfer between the devices of one
EasyTier virtual network, written in Verus.

- `src/` is the verified library: the protobuf wire format and the messages,
  the length-prefixed frames, the service state machine behind the host API,
  the message handler of a receiving device, joining file chunks, the
  clipboard watcher's decisions, the connection pool, and peer filtering.
  Each public function states what it returns in its `ensures`; the laws
  (decoding undoes encoding, a whole file transfer is saved as sent, content
  from a remote device is not sent back, and others) are public proof
  functions next to the functions they relate.
- `app/` is the host side that Verus does not see: the process-wide state and
  tokio runtime, TCP sockets, the system clipboard, files, `easytier-cli`,
  and the Android JNI bridge. It performs what the library decides.
- `tests/` runs the library on concrete values, partly against `prost`'s
  encoding functions and `std`.
