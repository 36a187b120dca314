# mib_browser

A browser for SNMP MIBs. The library under `src/` is verified with Verus; `app/` holds the windows
and the files around it.

- `mib` reads the OID tree of loaded modules through `mib_rs`.
- `tree` turns that tree into rows with the properties of each node.
- `visible` tells which rows are shown, and what clicks on them do.
- `config` reads and writes the settings file, through `yaml`.
- `profiles` and `paths` edit the device profiles and the list of MIB files.
- `text` handles texts.

The modules whose names end in `_laws` state what holds across functions.
