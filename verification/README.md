# myos

The shell and the file system of a small teaching kernel, as a verified
library (`src/`) and a program that drives it from standard input
(`app/main.rs`).

- `src/file_system/block.rs`: the disk, `NUM_BLOCKS` blocks of `BLOCK_SIZE` bytes.
- `src/file_system/inode.rs`: inodes and their little-endian layout in an inode block.
- `src/file_system/dir.rs`: directory entries and their 32-byte slots.
- `src/file_system/fs.rs`: the file system (create, find, write, read, list,
  stat, delete), its model over the disk's bytes, and its invariant.
- `src/file_system/laws.rs`: what holds across operations (a read gives back
  the last write; a lookup after a create finds the file, when its name fits
  the 27 bytes of a directory entry and the root directory has a free slot;
  ...).
- `src/text.rs`: white space, trimming, splitting and UTF-8 reading.
- `src/command.rs`: reading a command line and running it on the file system.
- `src/shell.rs`: the line being typed and what each key does to it.

The program keeps the shell and the file system in `spin` mutexes behind
`lazy_static`, turns `pc_keyboard` keys into the library's keys, and prints
what each command has to show.
