# sdslot

Writes vintage disk images to SD cards at fixed offsets, so that hardware can
present each region as a disk drive of its own, and extracts them again. Only the
bytes of the selected slots are touched.

`src/` is the library, verified with Verus:

- `layout`, `manifest`, `drive_types`, `units`, `powers`: the card layout, how it
  comes of a manifest, and what makes it valid
- `engine/`: plans, streaming writes and reads, wipes, verification, status scans,
  and the laws that hold between them
- `toc`, `sha`: the on-card table of contents and its hashes
- `device`, `transfer`, `platform`, `paths`: devices, transfers in pieces, and what
  the platforms say of their disks and paths
- `rtl`: addressing constants for hardware
- `cli/`, `gui/`: the decisions of the two frontends
- `text`, `lines`, `search`, `buffer`, `events`, `error`: common ground

`app/` holds what touches the world: files, raw devices, subprocesses, JSON and
TOML, the terminal and the window. The program runs as the command line tool, or as
the graphical frontend when it is started under the name `sdslot-gui`.

`tests/` runs the library.
