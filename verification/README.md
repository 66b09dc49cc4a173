# bluestation

Verified core of a TETRA base-station protocol stack, written in Verus.

- `src/` is the library, verified by Verus; its functions carry contracts, except a few
  constructors of plain values whose result needs none.
  - `bitbuffer`, `bits`: the bit buffer that PDUs are read from and written to, modelled
    as a sequence of bits with a window and a cursor.
  - `typed_pdu_fields`: o-, p- and m-bits and the optional type 2, 3 and 4 elements.
  - `lmac`: CRC-16, the speech CRC, the rate 1/4 convolutional encoder with puncturing,
    the Viterbi decoder and the SB1 block decoder, block and matrix interleavers, the
    scrambler and the speech bit reordering.
  - `llc`: the frame check sequence, the acknowledgement bookkeeping of basic links and
    the reception of basic-link PDUs.
  - `cmce`: the downlink call state machine, the circuit manager of traffic timeslots and
    base-station call control of group calls (set-up, floor grant and release, calls from
    the network).
  - `mm`: registration, energy saving mode and group affiliation of radios.
  - `mle`, `messagerouter`, `timeslot_alloc`, `ranges`, `address`: routing of uplink PDUs
    by protocol discriminator, handles, broadcast scheduling, the message queue, timeslot
    ownership and SSI ranges.
  - `config`, `net_brew`, `brew`, `network`: configuration defaults and patches, Brew
    routing decisions, HTTP digest authentication and transport framing.
- `tests/` runs the library on concrete values.
- `app/` is the unverified edge: configuration file parsing, sockets and the clock.

Handlers of the protocol entities are steps: they take the decoded fields of one event and
the entity's state, update the state and return what is to be sent, in order.
