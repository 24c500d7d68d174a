# storage_daemon

The verified core of a storage appliance daemon that reports and manages block
devices, network interfaces, ZFS pools and volumes, Samba shares, users and the
system's status.

- `src/` is the library, verified with Verus. `text` and `num` model the text
  operations the daemon relies on (lines, words, trimming, number parsing) as
  specifications and implement them; `named_map` is the name-ordered map that the
  listings return; `services/` holds, per service, the parsers of what the system
  tools print, the rules that choose what is listed, and the commands and
  configuration text that are written; `harness` counts the outcomes of checks.
- `app/` runs the tools and reads the files, hands their text to the library and
  serializes the records; floating-point figures are computed there.
- `tests/` runs the library on concrete inputs.
