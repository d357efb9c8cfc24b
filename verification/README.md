# osk_typer

Automates buttons of the Windows On-Screen Keyboard: up to eight programmable
slots, each a key with optional Ctrl and Shift, a press duration, a release
delay and an interval, stored in a versioned `key=value` configuration file.

- `src/` is the verified library (Verus): the configuration model and its
  text format (with the proof that a saved configuration reads back as
  itself), the ordered key actions of a macro and the decisions of a
  cancellable run, key binding text, UI Automation key name matching, and
  the rules of the desktop bar and its slot editor (layout, colours,
  notifications, what the edit boxes show and how they are read back), and
  the steps of starting a fresh On-Screen Keyboard (close the old ones, wait,
  launch, wait for its window, give up on time-outs) and of closing it, and
  which keyboard windows and key elements a search finds.
- `app/` is the Windows program around it: files, the log, the Win32 windows,
  UI Automation calls, the On-Screen Keyboard process and the run loop.
- `tests/` exercises the library.
