# naadf

CPU-side logic of the NAADF voxel renderer, verified with Verus.

- `src/` is the verified library: voxel cells and the dense volume
  (`voxel`, `volume`), where each voxel sits in a segment buffer (`layout`)
  and building and decoding those buffers (`segment`), the generator's source
  model (`model`), chunk and block words (`cell`), the GPU records and the
  half-float conversion (`gpu_types`, `half`), per-frame counters and buffer
  sizes (`counters`, `prepare`), the world-change dispatch plan
  (`world_change`), fixture worlds and segment grids (`fixture`), and the
  comparisons of a GPU-built world with its CPU oracle (`readback`, `diff`),
  with the report text they print (`text`, `report`). `vox` parses `.vox`
  model files through `dot_vox`.
- `app/` holds what stays outside the proofs: `bytemuck` upload copies of the
  GPU records, float conversions and the TAA jitter, reading GPU words for the
  sample walks, reading model files, and the text of the diff reports.
- `tests/` runs the library on concrete values.
