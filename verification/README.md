# MouseMic

An AJAZZ voice mouse as a microphone. The mouse sends mSBC frames in HID reports while one of its
voice keys is held. This program decodes them, plays them on the speakers, on a virtual sound card
or into a WAV file, and holds or taps a hotkey while there is voice.

- `src/` is the library: which interfaces to open and what to send them, the main loop as a state
  machine, hotkeys, framing, the audio queue, settings, and the state of the window. Verus proves
  every function of it against its contract, and the laws that its modules end with: that no key
  stays held, that the cable is preferred, that a new link gets a new decoder, and others.
- `tests/` runs the library.
- `app/` is the program around it: HID devices, the sound card, the SBC library, key injection,
  files, and the native window. It runs on Windows and links against BlueZ's `libsbc`.
