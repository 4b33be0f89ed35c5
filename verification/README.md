# h264

H.264/AVC elementary-stream coding, verified with Verus.

The crate splits and joins network abstraction layer (NAL) units, reads and writes the entropy codes
of residual data, filters block edges, and runs a deterministic encoder: plain samples, Intra 16x16,
Intra 4x4, Intra 8x8, pictures that are predicted from several earlier ones, and reordered pictures
that are predicted from both sides. Every item in `src/` is proved against the contract that it
carries, and the laws that relate several functions are public proof functions, named `law_...`.

## Layout

| Part | Modules |
| --- | --- |
| Bits and codes | `bits`, `golomb`, `codes`, `math` |
| NAL units | `nal`, `framing` |
| Residual codes | `cavlc`, `cavlc_laws`, `code_tables`, `residual_tables` |
| Arithmetic coding | `cabac`, `cabac_tables`, `arithmetic`, `arithmetic_laws`, `bins`, `inter_bins`, `contexts`, `starting_points`, `marks` |
| Samples | `plane`, `picture`, `frame`, `deblock`, `test_picture` |
| Transforms | `transform`, `quantize`, `quant_tables`, `scaling`, `residual`, `reconstruct`, `inter_residual`, `quantizers` |
| Prediction | `intra`, `intra_select`, `intra_coding`, `motion`, `interpolate`, `inter_predict`, `search`, `partitions`, `p_select`, `b_direct`, `b_select`, `inter_coding` |
| Pictures | `patterns`, `block_coding`, `neighbors`, `cavlc_syntax`, `cavlc_intra`, `idr`, `p_picture`, `b_picture`, `cabac_intra`, `cabac_pcm`, `cabac_inter`, `cabac_p`, `cabac_b`, `pictures` |
| Streams | `config`, `levels`, `rate`, `hrd`, `parameter_sets`, `option_map`, `options`, `settings`, `encoder` |
| Laws over symbols, pictures, and streams | `symbol_laws`, `lossless`, `lossless_streams`, `plain_laws`, `encoder_laws`, `settings_laws` |
| What the units of pictures tell | `level_bounds`, `told_codes`, `told_pictures`, `told_inter`, `told_motion`, `told_predicted`, `told_b_motion`, `told_b_pictures`, `inner_symbols`, `told_symbols`, `told_inter_symbols`, `told_marks`, `told_cabac`, `told_cabac_inter`, `told_cabac_p`, `told_cabac_b`, `told_streams` |

## Use

```rust
use h264::H264Encoder;

let mut encoder = H264Encoder::default();
let descriptor = encoder.configure(&settings)?;
encoder.send_frame(frame)?;
while let Some(packet) = encoder.receive_packet()? {
    let shown = encoder.receive_reconstructed_frame()?;
}
encoder.flush()?;
```

Arithmetic coding of predicted macroblocks starts from a table of number pairs for each kind of
picture. The proofs hold for any such tables; the encoder uses those of `starting_points`.

`app/` is a small program that times the encoder on a moving test picture.
