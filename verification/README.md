# rvvdk

Virtual disk access and data movement, verified with Verus.

The library (`src/`) models disks as byte sequences and proves that its
operations do what their contracts say:

- `block_device`, `virtual_disk`, `memory`, `raw`: positional access to
  block devices and virtual disks, an in-memory device, and the raw disk
  format that exposes a device as one data extent.
- `buffer`, `buffer_pool`: aligned, zero-filled transfer buffers and a pool
  that lends them out.
- `extent`, `range`, `geometry`, `capabilities`: the vocabulary of disks.
- `datamover`: copies a source disk onto a destination extent by extent
  (data copied, zero and hole extents made zero), sequentially or by
  block-sized work items; plans copies, fingerprints extent maps, checks
  plans before executing them, and keeps the bookkeeping of an io_uring
  engine, of the native copy pipeline and of native copies of extent
  plans.  `datamover::laws` states what a
  copy does to the destination as a whole.

`app/` holds what verification cannot take: a pool shared with its
buffers that takes a buffer back when it is dropped (the library's pool
takes buffers back only through `release`), the `unsafe` io_uring
submissions and the loops that drive them, the native copy entry points,
displayable errors, and throughput in floating point.
