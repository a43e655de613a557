# autokey-rust

A key scheduler for the Windows desktop: profiles of twelve keys, each pressed
on its own or all in order, with intervals that vary, sent to the window in
front or to a bound window. The rules of the program are a library written in
Verus, whose contracts are proved; a thin program around it talks to Windows.

## Layout

- `src/` — the library. Every function states what it returns or changes, and
  Verus proves it.
  - `config`, `store`, `session`: profiles and preferences, where they are kept,
    how they are read, saved, switched and migrated.
  - `engine`, `humanizer`: what a run presses, in which order, and how long it
    waits.
  - `hook`, `hotkey`: the keyboard state machine behind the shortcuts.
  - `input`, `window`, `stealth`, `obfuscate`: what is sent for a key, to which
    window, and what varies in it.
  - `autostart`, `tray`, `taskbar`, `gui`, `logging`: the decisions and texts of
    the desktop parts.
  - `icon`, `icon_gen`, `ico`: the icons and their file format.
  - `paths`, `text`, `order`, `random`, `commands`: what the others share.
- `tests/` — tests of the library from outside.
- `app/` — the program: threads, files, the window, the calls into Windows
  (`system`), and what is computed in floating point (`draws`, `paint`).

## What is proved

Laws that relate several functions stand as public proof functions beside them,
named `lemma_…`. Some of them:

- Every press that was sent is followed by the attempt to send its release, with
  the same code and to the same target, whatever happens in between.
- A run with a limit presses no key more often than that, and is complete when
  each was pressed that often; a run in order goes through the keys in the order
  of their rows.
- An interval counts from the press, and stays within what was configured on every
  level of variation; no pause is added, and without a random range it is the
  configured one.
- Running is toggled only by a left Alt that was pressed and released alone.
- Two profiles with the same badge have the same icon.
- Whatever name a profile is given, it is kept under one that is safe as a file
  name; what is saved is read back, unless a name in it was cut off right after
  white space.
- A binding that was changed, or whose window is lost, is not acted on through an
  old snapshot: the action is not even called.

## What is trusted

The library calls `fastrand` for random draws, `serde_json` to tell the layout
of a profile's file, and three functions of the standard library
(`String::push`, `str::to_lowercase`, `String::from_utf8_lossy`). The contracts
of these calls are stated next to them and are not proved.
