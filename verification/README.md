# nfs_manager

A manager for NFS shares, verified with Verus.

- `src/text.rs`: trimming, splitting, joining and searching character
  sequences, each proved against a specification.
- `src/nfs.rs`: platforms, errors, the configuration line
  `name|server|mount_point|options`, and where a share is mounted.
- `src/config.rs`: the configuration file `~/.nfs-manager.conf` (load, save,
  add, remove, look up) and the laws that tie these together.
- `src/command.rs`: command lines, command plans and the state machine that
  decides, from what each command did, what runs next and how an operation ends.
- `src/mount.rs`: the plans that mount, unmount and open a share on macOS,
  Linux and Windows, the mount check, and the reports for several shares.
- `app/`: the Tauri application around the library: file and process I/O,
  the environment, and the commands the front end calls.
