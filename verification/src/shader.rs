//! The WGSL source of a user-supplied popup shader.
use vstd::prelude::*;

verus! {

/// The fragment shader every popup shader is embedded in; the user's code
/// takes the place of the placeholder.
pub const SHADER_TEMPLATE: &'static str = r#"
    #import bevy_pbr::forward_io::VertexOutput

    @group(#{MATERIAL_BIND_GROUP}) @binding(100) var<uniform> p_progress: f32;
    @group(#{MATERIAL_BIND_GROUP}) @binding(101) var<uniform> p_opacity: f32;
    @group(#{MATERIAL_BIND_GROUP}) @binding(102) var<uniform> p_scale: vec2<f32>;

    @fragment
    fn fragment(in: VertexOutput) -> @location(0) vec4<f32> {
       ###CodeHere###
    }
"#;

/// The marker in the template that the user's code replaces.
pub const SHADER_PLACEHOLDER: &'static str = "###CodeHere###";

/// `s` with every match of `from`, taken left to right without overlap,
/// replaced by `to`.
pub open spec fn spec_replace_all(s: Seq<char>, from: Seq<char>, to: Seq<char>) -> Seq<char>
    decreases s.len(),
{
    if from.len() == 0 || s.len() < from.len() {
        s
    } else if s.take(from.len() as int) == from {
        to + spec_replace_all(s.skip(from.len() as int), from, to)
    } else {
        seq![s[0]] + spec_replace_all(s.skip(1), from, to)
    }
}

/// Calls `str::replace`, documented to replace all matches of the pattern
/// with the replacement; its matches are found left to right without
/// overlap, which is what `spec_replace_all` states.
#[verifier::external_body]
fn replace_all(s: &str, from: &str, to: &str) -> (res: String)
    requires
        from@.len() > 0,
    ensures
        res@ == spec_replace_all(s@, from@, to@),
{
    s.replace(from, to)
}

/// The full shader source for the user's fragment code.
pub fn shader_source(code: &str) -> (res: String)
    ensures
        res@ == spec_replace_all(SHADER_TEMPLATE@, SHADER_PLACEHOLDER@, code@),
{
    proof {
        reveal_strlit("###CodeHere###");
    }
    replace_all(SHADER_TEMPLATE, SHADER_PLACEHOLDER, code)
}

} // verus!
