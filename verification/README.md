# starting

The verified core of a UEFI boot loader.

- `src/bytes.rs`: little-endian numbers read from disk blocks.
- `src/engine/fs/disk.rs`: the GPT header, partition entries (with their
  UTF-16 names) and the block-by-block walk of the partition entry array.
- `src/engine/fs/mod.rs`, `fat32.rs`, `gop.rs`, `cfg.rs`, `mod.rs`: the
  configuration text, the FAT32 partition, the choice of a video mode, the
  watchdog setting and the allocation failure message.
- `src/boot.rs`: the decisions of the boot sequence: the GUIDs of the
  configuration, the file system check and the kernel's entry segment.
- `src/panic.rs`, `src/tool.rs`: the panic report and decimal numbers.
- `app/`: the firmware side (UEFI protocols, the FAT32 volume, the JSON
  configuration, the global allocator and the jump to the kernel).
