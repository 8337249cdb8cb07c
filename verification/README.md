# a3d

An ASCII 3D renderer for the terminal: it loads OBJ, STL and GLB models and
draws them as shaded ASCII art on the CPU or with a wgpu compute pipeline.

The crate is split in two:

- `src/` is the verified library. It holds every decision the renderer makes
  on integers, characters and strings, each with a Verus contract: the
  luminance ramp, the plain and ANSI-colored frame writers, triangle
  selection and mesh structure checks, the OBJ/STL/GLB index bookkeeping, the
  glTF accessor layout checks made before any accessor is read, the
  validated glTF scene walk, the GPU buffer-extent and frame checks, the
  command-line parsers, the backend choice and the input commands.
- `app/` is the `a3d` program around it: argument handling, file and terminal
  I/O, the floating-point geometry (rotation, projection, shading,
  rasterization, normalization), the wgpu device and pipeline with its WGSL
  shader, and the render loop.

`tests/` exercises the library through its public API, with the real glTF
parser linked.
