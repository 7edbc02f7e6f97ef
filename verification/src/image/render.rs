//! The WGSL shader that draws an image, built around a colour function
//! that the user supplies.
use vstd::prelude::*;
use vstd::string::StringExecFns;

verus! {

/// The shader text that comes before the user's colour function.
pub const SHADER_PREFIX: &'static str = "\nstruct Uniforms {\n    bp: f32, wp: f32, pan: vec2<f32>, zoom: f32, rotation: f32,\n    aspect_scale: vec2<f32>, bias: f32, contrast: f32, posterize_levels: f32,\n    scaling_mode: u32, recolor_mode: u32, invert: u32, _pad0: f32, _pad1: f32,\n};\n\n@group(0) @binding(0) var<uniform> uniforms: Uniforms;\n@group(0) @binding(1) var t_diffuse: texture_2d<f32>;\n@group(0) @binding(2) var s_diffuse: sampler;\n\nstruct VertexOutput {\n    @builtin(position) clip_position: vec4<f32>,\n    @location(0) tex_coords: vec2<f32>,\n};\n\n@vertex\nfn vs_main(@builtin(vertex_index) in_vertex_index: u32) -> VertexOutput {\n    var pos = array<vec2<f32>, 6>(\n        vec2<f32>(0.0,0.0), vec2<f32>(1.0,0.0), vec2<f32>(0.0,1.0),\n        vec2<f32>(1.0,1.0), vec2<f32>(0.0,1.0), vec2<f32>(1.0,0.0)\n    );\n    let p = pos[in_vertex_index];\n    var out: VertexOutput;\n    out.clip_position = vec4<f32>(p.x * 2.0 - 1.0, (1.0 - p.y) * 2.0 - 1.0, 0.0, 1.0);\n    out.tex_coords = p;\n    return out;\n}\n\n// ---- user-supplied ----\n";

/// The shader text that comes after the user's colour function.
pub const SHADER_SUFFIX: &'static str = "\n// ------------------------\n\n@fragment\nfn fs_main(in: VertexOutput) -> @location(0) vec4<f32> {\n    let uv = ((in.tex_coords - vec2<f32>(0.5, 0.5)) * uniforms.aspect_scale / uniforms.zoom) - uniforms.pan + vec2<f32>(0.5, 0.5);\n    if (uv.x < 0.0 || uv.x > 1.0 || uv.y < 0.0 || uv.y > 1.0) {\n        return vec4<f32>(0.0, 0.0, 0.0, 1.0);\n    }\n    let dim_f32 = vec2<f32>(textureDimensions(t_diffuse));\n    var tc = vec2<i32>(uv * dim_f32);\n    tc = clamp(tc, vec2<i32>(0,0), vec2<i32>(dim_f32) - vec2<i32>(1,1));\n    let raw = textureLoad(t_diffuse, tc, 0).r;\n    let range = uniforms.wp - uniforms.bp;\n    if (range <= 0.0) { return vec4<f32>(0.0,0.0,0.0,1.0); }\n    let val = (clamp(raw, uniforms.bp, uniforms.wp) - uniforms.bp) / range;\n    return vec4<f32>(user_color(val), 1.0);\n}\n";

/// The complete shader source around `shader_fragment`, which must define
/// `fn user_color(val: f32) -> vec3<f32>`.
pub fn build_shader_source(shader_fragment: &str) -> (s: String)
    ensures
        s@ == SHADER_PREFIX@ + shader_fragment@ + SHADER_SUFFIX@,
{
    let mut s = String::from_str(SHADER_PREFIX);
    s.append(shader_fragment);
    s.append(SHADER_SUFFIX);
    s
}

} // verus!
