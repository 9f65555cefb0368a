//! A viewer for Slang, GLSL and SPIR-V shaders: the decisions it makes
//! about its inputs, the compiler's reflection output, the Shadertoy
//! wrapper, and the Vulkan configuration it derives from the surface.

pub mod calendar;
pub mod shader;
pub mod reflection;
pub mod text;
pub mod sniff;
pub mod shadertoy;
pub mod gpu;
pub mod random;
