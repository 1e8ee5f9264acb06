# GameShare

Hardware-encoded, peer-to-peer screen sharing: capture, encode, WebRTC, viewer.

The library in `src/` holds what the application decides and computes, written and proved in
[Verus](https://github.com/verus-lang/verus):

| Module | What it holds |
|--------|---------------|
| `text` | characters, decimal numbers, white space, searching |
| `signaling` | invite codes and tokens, addresses, the line protocol |
| `session`, `setup` | the session that the user sees; how a host opens, and opens again after each viewer |
| `stream` | one stream from the offer to the end, for host and viewer |
| `webrtc_session` | timing, negotiation, session descriptions |
| `h264` | RTP payloads back to Annex-B access units |
| `capture`, `capture_win` | sources and their ids, capture loops, the test pattern |
| `pixels` | BGRA to NV12, padded rows |
| `encoder`, `mf_encoder` | encoder selection, the stub, the hardware encoder as a state machine |
| `audio`, `audio_win` | silence, wave formats, samples to packets |

Where the application has to wait for a device, a socket or a peer, the library offers a step
function: it takes what has happened and returns the next call to make. `app/` makes the calls.
It runs as a desktop application where it is built with the Tauri build script, and otherwise
reads the same commands from the console: `sources`, `host <source> <fps> <mbps>`, `join <code>`,
`state`, `stop`, `quit`.

`tests/` runs the library with the crates that it calls.
