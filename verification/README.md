# kstorage

The storage stack of a small x86-64 kernel, written in Verus and verified:

- `bytes`, `text`: little-endian codecs, path splitting and normal form,
  decimal text.
- `command`: shell command descriptions and how a command's parameters
  are filled from the words it is called with.
- `blockdev`: byte-addressed block devices, partitions, a buffered stream,
  cluster reads, and the sector-by-sector transfer plan that sector drivers
  follow.
- `hal`: the hardware-abstraction types (errors, streams, block devices,
  physical addresses, PCI BAR decoding and configuration-register
  arithmetic, the ECAM window and the enumeration walk over a snapshot of
  configuration space, display colours, ACPI results, files).
- `pci`: probing configuration spaces for virtio and AHCI devices.
- `virtio`, `ahci`: the decisions of the two disk drivers (descriptor
  chains, ring bookkeeping, command FIS layout); register and DMA accesses
  stay with the caller.
- `ntfs`: boot sector, update-sequence fixups, attribute parsing (with
  alternate data streams), data runs, directory indexes, record creation, errors and the driver itself, with
  the proofs that a written file and a created file read back.
- `gpt`: CRC-32, GPT headers and entries, reading and writing tables, and
  the ESP + NTFS layout manager, with the proof that a written table reads
  back.
- `storage`: which PCI function and driver the root file system is
  brought up from, in the order they are tried.
- `disk`: the byte layout of the boot disk image, the script that formats
  its partition, host path conversion and the check of the formatted
  boot sector.
- `vfs`: paths, open flags, inodes, open files, the mount table and the
  descriptor table.

`app/` is the host-side launcher: it builds the disk image file (running
the library's `mkntfs` script) and starts QEMU.
