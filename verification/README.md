# openclaw-listen

`openclaw-listen` listens to a microphone, has what was said transcribed by a speech service and
sends the text to a session of an OpenClaw Gateway. It logs the conversation as JSON Lines.

The crate is split in two:

- `src/` is the library: everything that decides or computes, with contracts that Verus proves.
- `app/` is the program around it: the command line, files, sockets, processes, the microphone,
  and floating-point signal processing.

## The library

| module | what it holds |
| --- | --- |
| `text` | trimming, searching, replacing and joining text |
| `json` | documents as plain values; reading and writing is left to `serde_json` |
| `encoding` | base64 and hexadecimal |
| `level` | signal levels by their bit patterns |
| `config` | settings, their defaults, environment variables, path expansion |
| `capture`, `utterance` | finding the start and the end of an utterance in a stream of samples |
| `audio` | devices, streams, the wake-word wait, resampling indices, WAV files |
| `wake_sidecar` | what the wake-word sidecar is started with, is fed and answers |
| `transcription` | the request for a transcript and what becomes of the answer |
| `identity` | the device identity and what it signs |
| `handshake` | the connect request and the approval of a new device, step by step |
| `gateway` | calls to the gateway and the answers that they wait for |
| `sessions`, `target` | sessions, messages, and the choice of the session to send to |
| `responses` | sending a transcript and watching for the reply |
| `conversation_log`, `report` | the lines that are logged and printed |

What each outside function is trusted to do stands in the doc comment of the item that calls it,
after the word "Trusted".

## Microphone access

The program reaches the microphone through `cpal`. That code is compiled only where the compiler
is given `--cfg feature="audio-cpal"`, for instance through `RUSTFLAGS`; the manifest declares no
features. Without it, capturing reports that the feature is missing.
