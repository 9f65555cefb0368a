# vert_frag_viewer

A Vulkan viewer for Slang, GLSL and SPIR-V shaders. The decisions the viewer
makes are a verified library (`src/`); the window, the GPU and the external
compilers are driven by a thin program (`app/`).

## Library (`src/`, verified with Verus)

- `calendar` — Unix time to civil date (`iDate`): each date returned is
  proved valid and to have exactly the input's day count, and distinct
  valid dates are proved to have distinct day counts.
- `sniff` — SPIR-V magic word, `spirv-dis` headers, `OpEntryPoint` stage
  sniffing, extension rules and Shadertoy detection.
- `shadertoy` — GLSL comment stripping, the unsupported-feature check and the
  wrapper that turns a `mainImage` export into a fragment stage while
  keeping the export's line numbers.
- `shader` — inputs, stages, display modes, disassembly entry points, the
  playground imports and the retry decisions of a module compile.
- `reflection` — slangc's reflection JSON, parsed with serde_json into a
  plain value tree, and the choice of display mode from it.
- `gpu` — queue family, surface format, present mode, extent, image count,
  memory type, descriptor layout, dispatch size and the per-frame
  acquire/present decisions.
- `random` — the xorshift generator that fills random float buffers.
- `text` — sequence and string helpers shared by the modules above.

## Program (`app/`)

Argument handling, file and process I/O (slangc, spirv-as), the winit
event loop and every Vulkan call, plus the floating-point
Shadertoy clock.
