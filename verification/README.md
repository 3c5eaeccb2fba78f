# colorify

Converts images and 3D models into Minecraft: Bedrock Edition content — pixel art (flat or
staircase), particle art and voxel builds — written as `.mcfunction` files, `.mcstructure`
files, commands streamed to the game over WebSocket, or blocks written straight into a
world save.

## Layout

- `src/` — the library, verified with Verus. Each module states its behaviour in
  `requires`/`ensures` contracts over mathematical models:
  - `nbt` — the NBT writer and the `.mcstructure` file format;
  - `generator`, `staircase` — block placement for pixel art, staircase heights and their
    lossless compression, function files, structure export;
  - `ldb` — sorting placements into sub-chunks and laying out each sub-chunk's cells and
    palette for a world write;
  - `fill` — the solid fill of a voxel shell: which cells the shell closes in, and the
    nearest shell cell whose colour each of them takes;
  - `ws` — game messages and the command-sending task's state machine;
  - `glb`, `primitive`, `json` — the GLB container, glTF primitives and texture pixels,
    data URIs, JSON text read and written through `serde_json`, and the glTF material
    conversion applied to a GLB file or a glTF text before the glTF reader sees it;
  - `particle`, `pack`, `pixel`, `process`, `model`, `block`, `obj`, `calendar`, `window`,
    `ditherer`, `common`, `text` — request plans, image decoding and PNG encoding through
    `image`, scripts, pack information files, icons, indices, keys and texts.
- `tests/` — tests of the library on concrete values.
- `app/` — ordinary Rust around the library: image resizing, float colour
  matching and dithering, mesh import and voxelisation, files and archives, Bedrock world
  access and the WebSocket server.
