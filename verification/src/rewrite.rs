//! The source rewriter: an ordered list of textual rules that maps the
//! playground's implicit-uniform dialect onto the explicit-uniform dialect,
//! followed by blank-line normalization and header injection.
//!
//! The rules run in a fixed order over the whole current text; later rules
//! see the output of earlier ones. The three primary uniform rules run
//! before the single-letter shortcut rules, so the qualified access
//! expressions they produce are never re-matched as isolated words. The
//! single-letter rules for `t` and `r` are a lossy heuristic: an unrelated
//! identifier of the same name is rewritten too.

use vstd::prelude::*;
use crate::scan::{
    collapse_from, replace_entry_from, replace_word_spec, strip_define_from, strip_promo_from,
    trim_spec, collapse_blank_lines, replace_entry, replace_word, strip_define, strip_promo, trim,
};
use crate::text::{chars_of, push_all};

verus! {

/// The fixed explicit-pipeline preamble: version directive, stage
/// input/output bindings, the uniform buffer object with its three fields,
/// and one sampler binding.
pub open spec fn header_text() -> Seq<char> {
    "#version 450

layout(location = 0) in vec2 fragCoord;
layout(location = 0) out vec4 fragColor;

layout(binding = 0) uniform UniformBufferObject {
    vec3 iResolution;
    float iTime;
    vec4 iMouse;
} ubo;

layout(binding = 1) uniform sampler2D iChannel0;
// layout(binding = 2) uniform sampler2D iChannel1;
// layout(binding = 3) uniform sampler2D iChannel2;
// layout(binding = 4) uniform sampler2D iChannel3;

"@
}

/// The header as characters.
pub fn header_chars() -> (v: Vec<char>)
    ensures
        v@ == header_text(),
{
    chars_of(
        "#version 450

layout(location = 0) in vec2 fragCoord;
layout(location = 0) out vec4 fragColor;

layout(binding = 0) uniform UniformBufferObject {
    vec3 iResolution;
    float iTime;
    vec4 iMouse;
} ubo;

layout(binding = 1) uniform sampler2D iChannel0;
// layout(binding = 2) uniform sampler2D iChannel1;
// layout(binding = 3) uniform sampler2D iChannel2;
// layout(binding = 4) uniform sampler2D iChannel3;

",
    )
}

/// The rules that run before the entry-point rule: strip promotional lines,
/// strip the two macro aliases, qualify the three primary uniforms, and
/// substitute constants for the four secondary uniforms.
pub open spec fn pre_entry_rewrite(s: Seq<char>) -> Seq<char> {
    let s1 = strip_promo_from(s);
    let s2 = strip_define_from(s1, 't', "iTime"@);
    let s3 = strip_define_from(s2, 'r', "iResolution.xy"@);
    let s4 = replace_word_spec(s3, "iTime"@, "ubo.iTime"@);
    let s5 = replace_word_spec(s4, "iResolution"@, "ubo.iResolution"@);
    let s6 = replace_word_spec(s5, "iMouse"@, "ubo.iMouse"@);
    let s7 = replace_word_spec(s6, "iTimeDelta"@, "0.016"@);
    let s8 = replace_word_spec(s7, "iFrame"@, "int(ubo.iTime * 60.0)"@);
    let s9 = replace_word_spec(s8, "iFrameRate"@, "60.0"@);
    let s10 = replace_word_spec(s9, "iDate"@, "vec4(2024.0, 1.0, 1.0, 0.0)"@);
    replace_word_spec(s10, "iSampleRate"@, "44100.0"@)
}

/// The whole rewritten body, before the header is put on: entry-point
/// replacement, the two single-letter shortcut rules, and blank-line
/// collapsing.
pub open spec fn rewritten_body(s: Seq<char>) -> Seq<char> {
    let s12 = replace_entry_from(pre_entry_rewrite(s));
    let s13 = replace_word_spec(s12, "t"@, "ubo.iTime"@);
    let s14 = replace_word_spec(s13, "r"@, "ubo.iResolution.xy"@);
    collapse_from(s14)
}

/// What the rewriter returns: the header, the trimmed rewritten body, and
/// one final line feed.
pub open spec fn rewrite_spec(s: Seq<char>) -> Seq<char> {
    header_text() + trim_spec(rewritten_body(s)) + seq!['\n']
}

/// Rewrite implicit-uniform shader text into the explicit-uniform dialect.
/// Total: any input yields an output; semantic faithfulness of the
/// single-letter shortcut rules is a documented heuristic, not a guarantee.
pub fn convert_shadertoy_to_vulkan(code: &Vec<char>) -> (out: Vec<char>)
    ensures
        out@ == rewrite_spec(code@),
{
    proof {
        reveal_strlit("iTime");
        reveal_strlit("iResolution");
        reveal_strlit("iMouse");
        reveal_strlit("iTimeDelta");
        reveal_strlit("iFrame");
        reveal_strlit("iFrameRate");
        reveal_strlit("iDate");
        reveal_strlit("iSampleRate");
        reveal_strlit("t");
        reveal_strlit("r");
    }
    let s1 = strip_promo(code);
    let s2 = strip_define(&s1, 't', &chars_of("iTime"));
    let s3 = strip_define(&s2, 'r', &chars_of("iResolution.xy"));
    let s4 = replace_word(&s3, &chars_of("iTime"), &chars_of("ubo.iTime"));
    let s5 = replace_word(&s4, &chars_of("iResolution"), &chars_of("ubo.iResolution"));
    let s6 = replace_word(&s5, &chars_of("iMouse"), &chars_of("ubo.iMouse"));
    let s7 = replace_word(&s6, &chars_of("iTimeDelta"), &chars_of("0.016"));
    let s8 = replace_word(&s7, &chars_of("iFrame"), &chars_of("int(ubo.iTime * 60.0)"));
    let s9 = replace_word(&s8, &chars_of("iFrameRate"), &chars_of("60.0"));
    let s10 = replace_word(&s9, &chars_of("iDate"), &chars_of("vec4(2024.0, 1.0, 1.0, 0.0)"));
    let s11 = replace_word(&s10, &chars_of("iSampleRate"), &chars_of("44100.0"));
    let s12 = replace_entry(&s11);
    let s13 = replace_word(&s12, &chars_of("t"), &chars_of("ubo.iTime"));
    let s14 = replace_word(&s13, &chars_of("r"), &chars_of("ubo.iResolution.xy"));
    let s15 = collapse_blank_lines(&s14);
    let trimmed = trim(&s15);
    let mut out = header_chars();
    push_all(&mut out, &trimmed);
    out.push('\n');
    proof {
        assert(out@ =~= rewrite_spec(code@));
    }
    out
}

} // verus!
