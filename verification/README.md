# ragchew_gui

The logic of a desktop monitor for keyboard-to-keyboard radio modes (JS8, Olivia
and PSK), verified with Verus.

The program listens to a receiver, or plays a recording back, draws the band as a
waterfall and sets what each station says beside its trace. Everything it decides
on the way is here as functions on plain values, each with a contract:

| Modules | What they hold |
| --- | --- |
| `channel`, `channels`, `channel_laws` | decodes gathered into one row of text per station |
| `continuous`, `continuous_laws`, `scan_laws` | which stretch of audio to scan, whom to track, what to report |
| `capture`, `cycles`, `schedule`, `health`, `watch` | the capture buffer and the clocks that decoding keeps to |
| `playback`, `playback_laws`, `transport` | a recording, its clock, and what has been revealed of it |
| `rows`, `slides`, `drawing`, `colormap`, `waterfall`, `view`, `pane` | what is drawn, where, and how the pointer moves it |
| `dial`, `tuning`, `rig`, `transmit` | the dial, the key, and what goes on the air |
| `settings`, `theme`, `devices`, `choices`, `listening`, `startup`, `demo`, `words`, `calendar`, `calendar_laws` | settings, choices and what the window says |
| `modes`, `text`, `find`, `order` | what the others are written in terms of |

Times are whole twelfths of a microsecond, of which a sample and a microsecond are
both a whole number. Frequencies are thousandths of a hertz, levels thousandths of
a decibel. Samples are whatever the caller's audio is made of; the library moves
them and never computes with them.

`app/` is the program around the library: the window, the sound card, the threads
and the signal processing.
