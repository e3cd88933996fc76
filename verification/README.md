# clkmonoff

A hotkey killswitch for the screen, audio and input on Linux and Windows.

`src/` is the verified library:

- `text`: splitting on commas, joining, trimming, lower-casing, decimal numbers.
- `keys`: the key-name table per platform and the parsing of a hotkey
  (`Esc,Enter,0,w`, case-insensitive, comma-delimited) into key codes.
- `cli`: what the command line asks for.
- `bitmap`: key-code bitmaps.
- `switch`: the killswitch state machine — on when every key of the start
  hotkey is held, off again only when exactly the keys of the end hotkey are held.
- `hooks`: the Windows keyboard, mouse and overlay-window decisions.
- `ledger`: audio devices' mute states, noted before muting and handed back after.
- `linux`: the kernel module's parameters, its cache paths, the source fingerprint,
  and the media players to pause.

`app/` is the program around it: argument parsing, the kernel module on Linux,
the hooks, overlay and COM threads on Windows.

On Linux the kernel module's source archive is read at start-up from the file
named by `CLKMONOFF_KM_SRC`, or `clk_linux_km.tar.gz` beside the executable.
