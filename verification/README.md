# brush

The decisions behind training and drawing Gaussian splats, written in Verus:
the functions in `src/` carry contracts, and the contracts are proved, but for
those of the calls into other crates in `outside`.

| Module | What it settles |
| --- | --- |
| `scene_loader` | Which view a loader task visits next, what is kept of it under a byte budget, and which seeds the tasks of a loader get. |
| `loader_runs` | What holds of loader tasks over any number of steps. |
| `gaussian_splats` | How the parameters of splats are laid out, read, rescaled and handed to the rasterizer. |
| `min_scale` | How a floor under the scales of splats is folded into their scales and opacities. |
| `sh` | How many coefficients a degree of spherical harmonics has. |
| `validation` | What is checked of splats and of their gradients, in what order and within what bounds. |
| `adam_scaled` | What one step of the optimizer does to its state and to a parameter. |
| `matrix`, `tensor` | Tables and arrays of numbers, and what moves their parts about. |
| `splat_math` | Which arithmetic on numbers is expected from outside. |
| `training_config`, `size_text` | How a training run is configured. |
| `engine` | The checks before a run starts, and what is reported while it goes on. |
| `file_picker` | What becomes of a file that the user picked. |
| `outside` | The calls into other crates, each with what is relied upon of it. |

Numbers are held as the bit patterns of their floats. Nothing in `src/` computes
with them: what does is handed in, as an implementation of `SplatMath` or
`AdamMath`, and the contracts say which computations a result comes from, of
what, and in which order.

`app/` holds what is left: the Java front end, files, threads and channels, and
tensors on a device.
