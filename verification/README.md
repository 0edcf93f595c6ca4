# catguard

Locks the keyboard when a cat steps on it, and tells afterwards which keys got
through and what can be taken back.

`src/` is the platform-independent core, written in Verus and verified:

- `layout` – where each key sits on the board, in hundredths of a key unit.
- `detector` – the four rules (Slam, Chord, Pair, Sit) that tell a paw from a hand.
- `guard` – the lock state machine: what reaches the applications, the deterrent
  sound, the unlock word.
- `history` – the presses around a lock, what leaked and what Undo can press back.
- `snapshot` – the comparison of the system state before and after a paw.
- `settings`, `sound` – sanitised settings and the WAV framing of the sounds.
- `shell` – the decisions of the Windows shell: what the hook does with a key
  event and its timer, what the lock window and tray say, which windows and
  devices a snapshot lists, and the steps of Undo.
- `laws` – properties that span several operations, stated and proved.

`app/` is the Windows program around it: the keyboard hook, the windows, the
registry, the settings file (serde) and the floating-point synthesis of the
sounds. `tests/` runs the library on concrete inputs.
