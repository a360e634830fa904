# dtmf

Telephone events (DTMF) over RTP, RFC 4733, verified with Verus.

A tone is sent as a series of small packets that share an RTP timestamp. Each
reports the duration of the tone so far; the last one carries the end bit and
is sent three times. The library turns queued tones into such series, and turns
arriving packets back into one event per tone.

- `src/event.rs`: digits, event codes and dialpad characters.
- `src/payload.rs`: the 4-byte payload.
- `src/sender.rs`: `DtmfSender`, viewed as the packets it has still to send.
- `src/receiver.rs`: `DtmfReceiver`, viewed as the event being received and the
  reports that wait to be fetched.
- `src/exchange.rs`: what a receiver makes of what a sender sends, with packets
  lost, repeated or reordered on the way.
- `src/rtp.rs`, `src/time.rs`: the values carried along.
- `app/`: the sender driven by the clock of the standard library.

The functions named `law_..` state what holds of the library as a whole.
