# ghostty-voice-core

Push-to-talk dictation for terminal agents: a daemon records speech, has a local
whisper-server transcribe it, and delivers the text into a `talk-to` wrapped program
for review before Enter.

- `src/` is the library, verified with Verus: the daemon's state machine, the wire
  protocol, the delivery queue and sink registry, key-combo parsing and the key
  tracker, trigger scanning, the streaming commit engine, the transcript pipeline
  (filters, corrections, prompts), cache naming and retention, device and GPU
  selection, and the model download's SHA-256 check (the digest itself is `sha2`'s,
  behind three small trusted wrappers in `src/download.rs`). Each public function states its result in `ensures`; the laws that
  relate several calls are public proof functions beside the functions they speak of.
- `tests/` runs the library on concrete inputs.
- `app/` is the process around it: the daemon (`ghostty-voiced`), the wrapper
  (`talk-to`), the control client (`ghostty-voice-ctl`) and the one-shot recorder,
  with their audio, evdev, HTTP, socket and filesystem work.
