# jxl-encoder-gpu

The host side of a JPEG XL lossy encoder that runs its transforms on a GPU,
verified with Verus.

The library decides; a device computes. Every operation of the library is
recorded as a list of commands (make a buffer, fill it, launch a kernel, read
back), and the contracts say exactly which commands are recorded. A recording
that is well formed launches no kernel on more of a buffer than there is.

## Layout

- `src/float.rs`: single-precision numbers by their bits, with rounding stated
  over the integers, so that no floating point is needed in proofs or code.
- `src/device.rs`, `src/launch/`, `src/persistent.rs`: buffers, commands, and
  what each kernel launch looks like.
- `src/padding.rs`, `src/mask.rs`, `src/median.rs`, `src/quality.rs`: padding
  and cropping of planes, masking means, and what quality and distance mean for
  the quantizer.
- `src/partition.rs`, `src/assignment.rs`, `src/strategy.rs`: which transform
  covers which part of the image.
- `src/cost_grid.rs`, `src/search.rs`, `src/search_costs.rs`,
  `src/search_flow.rs`, `src/plan.rs`: the search for those transforms, from
  the image to a plan that can be encoded at many settings.
- `src/lossy_encoder.rs`, `src/pipeline.rs`, `src/encode.rs`: the encoder.
- `src/execution.rs`: what carrying out commands comes to on any device; here it
  serves to state that a batch gives what a loop gives, and that an encoding
  leaves earlier buffers alone.
- `src/*_laws.rs`: what holds of several of these together.
- `app/`: the parts around the library: a `cubecl` device that carries the
  commands out, floating-point tables, and the stages that the search asks for.
- `tests/`: tests on concrete values, with a device that lives in host memory.
