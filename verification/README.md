# xmpp_server

A small XMPP server whose protocol logic is a library verified with Verus.

- `src/` is the library. `stanza` holds the stanza model, its XML
  serialisation, the builders of protocol messages and stream parsing;
  `auth` and `crypto` hold SASL PLAIN and SCRAM-SHA-1; `roster`, `muc` and
  `router` hold contacts and presence, chat rooms and the routing table;
  `c2s` and `session` hold the client session state machine and what an
  established session does with messages, presences and IQs; `s2s` holds
  server-to-server streams and the STARTTLS offer; `config` and `cli` hold
  the settings and the command line; `xml` holds the event reader over
  `quick-xml` and `channel` the queues that carry stanzas to clients;
  `text` and `seqs` hold character-level helpers. Calls into `quick-xml`, `base64`,
  `hex`, `sha1`, `sha2`, `hmac`, `rand`, `uuid` and tokio's channels go
  through small trusted wrappers whose contracts say what those crates
  document.
- `app/` is the program around it: configuration and users files, TLS
  setup, the listeners, and the read and write loops of each connection.
- `tests/` exercises the library through its public interface.
