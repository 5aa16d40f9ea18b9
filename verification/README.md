# remote

The verified core of a peer-to-peer remote desktop, written in Verus.

`src/` is the library. Its functions carry contracts that Verus proves,
except a few small trusted items around outside calls (the system clock,
`String::push`, the random generator and random UUIDs), whose contracts
are believed from the outside crates' documentation and source:

- `chunk`: cutting an encoded message into numbered parts and putting the
  parts back together on the receiving side, with deadlines; the laws that
  the parts concatenate to the message, reassembly gives back exactly what
  was split in any arrival order and at any arrival times before the
  deadline, and that duplicate and expired parts are dropped.
- `signal`: the signalling server's routing of offers, answers, candidates
  and connection requests, and the client's mapping between requests,
  messages and events; random peer and connection ids.
- `peer`, `remote_peer`, `remote_ui`, `ui`, `stream`: the bookkeeping of a
  local peer, its remote peers and the state shown by the user interfaces.
- `connection`, `rtc`, `protocol`: where controls and events of one
  connection go, the order in which remote ICE candidates are applied,
  channel settings, and the stream request protocol.
- `media`: encodings, texture descriptions, the pacing clock of a played
  file and the audio sample queue.

`app/` is the program around it: the WebSocket signalling server and
client, the serialised forms of the messages, the framing of the media
channels, the loops of one connection (with the WebRTC peer and its data
channels handed in as channel ends) and the configuration read from the
environment. The program it builds runs the signalling server.

`tests/` runs the library on concrete inputs.
