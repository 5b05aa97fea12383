# sonic_span

Low-latency audio streaming from a desktop to any device with a browser, in
Rust and Verus.

The library under `src/` is verified: every function has a contract, and Verus
proves that the code meets it and neither overflows nor panics. The programs
under `app/` are ordinary Rust: they talk to audio devices, sockets, the Java VM
and the browser, do the floating-point work, and ask the library what to do next.

## Layout

| Module | What it holds |
|--------|---------------|
| `buffer` | the sample FIFO |
| `jitter` | the jitter buffer; `jitter::model` is its state machine, `jitter::playout` which packets a step plays, `jitter::history` and `jitter::laws` what its steps add up to |
| `protocol`, `protocol::v2` | the two wire formats |
| `transmitter`, `receiver` | samples to packets and packets to samples |
| `pipeline` | laws from one end to the other |
| `http`, `web_path` | request heads, routing, path resolution, responses |
| `websocket`, `udp` | client set, replayed prefixes, transfer counters |
| `session`, `startup`, `player` | what the programs decide between two waits |
| `capture`, `android` | device selection, sample layouts, buffer sizes |
| `codec`, `resampler`, `duration`, `config`, `errors`, `text`, `bytes` | the parts the others share |

## What is proved

* A ring buffer gives out what it took in, in order, without gaps or duplicates.
* A packet that is encoded and decoded again is the same packet, in both formats.
* However pushes and reads of a jitter buffer follow each other, the packets are
  heard whole, in rising order of their numbers and at most once. Exactly the
  numbers that were passed over count as lost, and every sample that came in time
  has been read, is buffered or is counted as an overrun.
* Packets of a reorder window are played in sequence whatever the order in which
  they arrive, also when a read runs dry once in between; only a second dry read
  gives a gap up.
* A receiver's statistics never fall, also across sample rates: the packets
  received are those processed without an error.
* The samples fed to a PCM transmitter are the samples that the reads at the
  receiving end return.
* No URL path leads out of the web root.

## What is trusted

Two functions of the standard library that carry no specification elsewhere:
`String::push` and `String::from_utf8_lossy`.
