# unkvoid

The core of the Unkvoid desktop apps: rooms with voice and screen sharing, servers with
channels, and the account around them. The decisions live here, written in Verus and
proved against their contracts; the sockets, processes, files and sound live around them.

- `src/`: the verified library.
  - `app`, `room_code`, `interface`, `ffi`: the state the interfaces draw, the room codes,
    the requests that come through the ABI, and what crosses back.
  - `api`, `routes`, `failure`, `json`, `models`, `protocol`: the server's calls, their
    refusals, and the data they carry; the session of the account and its renewal.
  - `session`, `room`, `watching`, `chimes`, `speaking`, `members`, `permissions`,
    `realtime`, `reconnect`: the room's list, its cards, who is watched and heard, and what
    the chat's events ask of the interface.
  - `capture`, `media`: what to capture and how (pipelines, monitors, the system sound
    without the call apps), the encoder's rate and pacing, H.264 framing and the routing of
    what arrives.
  - `google`, `update`, `keymap`, `chance`: sign-in through the browser, updates and their
    signature, shortcut keys, and the random numbers.
- `tests/`: the tests, run against the compiled library.
- `app/`: what reads the machine and the wire (environment, `xrandr`, `/proc`, `pactl`,
  `gst-launch`), the serialisation of the library's types, the errors carried through
  `anyhow`, and the sound, which is floating point.
