# identicon

Identicons in the style of GitHub's: the MD5 hash of some input becomes a
symmetric 5x5 sprite, drawn as a PNG.

- `src/` is the verified library (Verus). `nibbler` splits the hash into
  nibbles; `identicon` turns them into the sprite (the left half column by
  column, even nibble = painted, mirrored to the right) and draws it into an
  RGB image of the `image` crate, whose contents `raster` describes;
  `hex` reads and writes colors and bytes in hexadecimal; `digest` wraps
  MD5; `settings` turns command-line choices into generator settings.
- `app/` is the command-line tool: argument parsing, file and standard
  input/output, PNG encoding, and the floating-point HSL-to-RGB step that
  gives the foreground color.
- `tests/` exercise the library.
