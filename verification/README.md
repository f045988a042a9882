# mynah

Voice-to-text daemon for KDE Plasma on Wayland: press a hotkey, speak, press it
again, and the transcript is typed into whatever has focus.

The decision logic lives in `src/` as a Verus-verified library:

- `vocabulary`, `vocabulary_file`: user corrections (`misheard => desired`),
  whole-word replacement, the vocabulary file format, longest-phrase-first order.
- `typer`: typographic normalization and the US-layout keymap.
- `daemon`: the recording state machine (events in, actions out).
- `control`, `tray`, `settings`, `sound`, `stream`, `wav`, `pixels`, `audio`:
  the socket protocol, tray texts, environment-driven choices, cue tones,
  live-stream deltas, the WAVE reader, pixel formats and audio framing.
- `latency`: feed-time statistics of a streaming run (average, steady-state
  95th percentile, maximum, whether it keeps up).
- `text`: character-level helpers.

`app/` holds the program around it: the event loop, the microphone (cpal),
speech recognition (transcribe.cpp), the uinput keyboard (evdev), the tray
(ksni), the overlay (smithay-client-toolkit, tiny-skia) and the control socket.
