use shaderconv::compile::{
    combined_failure_message, compile_glsl_to_spirv, spirv_words_to_bytes, CompileError,
    CompileStage,
};
use shaderconv::rewrite::convert_shadertoy_to_vulkan;

fn rewrite_str(input: &str) -> String {
    let chars: Vec<char> = input.chars().collect();
    convert_shadertoy_to_vulkan(&chars).iter().collect()
}

const HEADER_START: &str = "#version 450\n\nlayout(location = 0) in vec2 fragCoord;";

/// Every position where `needle` occurs in `hay` is preceded by `prefix`.
fn all_occurrences_prefixed(hay: &str, needle: &str, prefix: &str) -> bool {
    let mut start = 0;
    while let Some(rel) = hay[start..].find(needle) {
        let pos = start + rel;
        // whole-word occurrence?
        let before_ok = pos == 0
            || !hay[..pos]
                .chars()
                .last()
                .map(|c| c.is_ascii_alphanumeric() || c == '_')
                .unwrap_or(false);
        let after = pos + needle.len();
        let after_ok = after >= hay.len()
            || !hay[after..]
                .chars()
                .next()
                .map(|c| c.is_ascii_alphanumeric() || c == '_')
                .unwrap_or(false);
        if before_ok && after_ok {
            if pos < prefix.len() || &hay[pos - prefix.len()..pos] != prefix {
                return false;
            }
        }
        start = pos + 1;
    }
    true
}

#[test]
fn output_starts_with_header_and_ends_with_one_newline() {
    let out = rewrite_str("void mainImage(out vec4 c, in vec2 p){ c = vec4(sin(iTime)); }");
    assert!(out.starts_with(HEADER_START));
    assert!(out.ends_with('\n'));
    assert!(!out.ends_with("\n\n"));
}

#[test]
fn empty_input_still_gets_header_and_final_newline() {
    let out = rewrite_str("");
    assert!(out.starts_with(HEADER_START));
    assert!(out.ends_with('\n'));
}

#[test]
fn blank_line_runs_collapse() {
    let out = rewrite_str("float a;\n\n\n\n\n\nfloat b;\n");
    assert!(!out.contains("\n\n\n\n"));
    // the body itself keeps at most one blank line
    let header = full_header();
    let body = &out[header.len()..];
    assert!(!body.contains("\n\n\n"));
}

/// The full header block, recovered from the rewrite of empty input, which
/// is exactly the header plus one line feed.
fn full_header() -> String {
    let empty = rewrite_str("");
    empty[..empty.len() - 1].to_string()
}

#[test]
fn entry_point_signature_is_replaced() {
    let out = rewrite_str("void mainImage(out vec4 c, in vec2 p){ c = vec4(sin(iTime)); }");
    assert!(out.contains("void main()"));
    assert!(out.contains("ubo.iTime"));
    assert!(!out.contains("mainImage"));
}

#[test]
fn entry_point_signature_tolerates_spacing_and_names() {
    let out = rewrite_str("void   mainImage ( out vec4 fragColor ,  in  vec2 uv ) {}");
    assert!(out.contains("void main()"));
    assert!(!out.contains("mainImage"));
}

#[test]
fn primary_uniforms_are_qualified() {
    let out = rewrite_str("vec3 q = iResolution; vec4 m = iMouse; float s = sin(iTime);");
    assert!(out.contains("ubo.iResolution"));
    assert!(out.contains("ubo.iMouse"));
    assert!(out.contains("ubo.iTime"));
    let header = full_header();
    let body = &out[header.len()..];
    assert!(all_occurrences_prefixed(body, "iTime", "ubo."));
    assert!(all_occurrences_prefixed(body, "iResolution", "ubo."));
    assert!(all_occurrences_prefixed(body, "iMouse", "ubo."));
}

#[test]
fn secondary_uniforms_become_constants() {
    let out = rewrite_str("float a = iTimeDelta; int f = iFrame; float r2 = iFrameRate; vec4 d = iDate; float sr = iSampleRate;");
    assert!(out.contains("0.016"));
    assert!(out.contains("int(ubo.iTime * 60.0)"));
    assert!(out.contains("60.0"));
    assert!(out.contains("vec4(2024.0, 1.0, 1.0, 0.0)"));
    assert!(out.contains("44100.0"));
    assert!(!out.contains("iTimeDelta"));
    assert!(!out.contains("iFrameRate"));
}

#[test]
fn word_boundaries_protect_longer_identifiers() {
    let out = rewrite_str("float miTime = 1.0; float x = miTime;");
    // `miTime` is its own word and stays untouched
    assert!(out.contains("miTime"));
    assert!(!out.contains("ubo.miTime"));
    assert!(!out.contains("mubo.iTime"));
}

#[test]
fn define_alias_line_is_removed() {
    let out = rewrite_str("#define t iTime\nfloat x = t;\n");
    assert!(!out.contains("#define"));
    // the later use of the shortcut is expanded
    assert!(out.contains("ubo.iTime"));
}

#[test]
fn define_alias_for_resolution_is_removed() {
    let out = rewrite_str("#define r iResolution.xy\nvec2 p = r;\n");
    assert!(!out.contains("#define"));
    assert!(out.contains("ubo.iResolution.xy"));
}

#[test]
fn single_letter_shortcuts_are_expanded() {
    let out = rewrite_str("float x = t * t; vec2 p = q / r;");
    assert!(out.contains("ubo.iTime * ubo.iTime"));
    assert!(out.contains("q / ubo.iResolution.xy"));
    // letters inside words stay as they are
    let out2 = rewrite_str("float trust = 1.0; return;");
    assert!(out2.contains("trust"));
    assert!(out2.contains("return"));
}

#[test]
fn promotional_comment_lines_are_stripped() {
    let out = rewrite_str("float a;\n// http://www.pouet.net/prod.php?which=1\nfloat b;\n");
    assert!(!out.contains("pouet"));
    assert!(out.contains("float a;"));
    assert!(out.contains("float b;"));
}

#[test]
fn promotional_marker_takes_the_whole_line() {
    // text standing before the marker on the same line goes with it
    let out = rewrite_str("float a; // http://www.pouet.net entry\nfloat b;\n");
    assert!(!out.contains("pouet"));
    assert!(!out.contains("float a;"));
    assert!(out.contains("float b;"));
}

#[test]
fn promotional_marker_on_unterminated_last_line() {
    let out = rewrite_str("float a;\n// http://www.pouet.net");
    assert!(!out.contains("pouet"));
    assert!(out.contains("float a;"));
}

#[test]
fn compile_is_deterministic_in_the_source() {
    let src = "#version 450\nlayout(location = 0) out vec4 fragColor;\nvoid main() { fragColor = vec4(1.0); }\n";
    let first = compile_glsl_to_spirv(src).expect("in-process compile should succeed");
    let second = compile_glsl_to_spirv(src).expect("in-process compile should succeed");
    assert_eq!(first, second);
}

#[test]
fn successful_words_start_with_the_magic_number() {
    let src = "#version 450\nlayout(location = 0) out vec4 fragColor;\nvoid main() { fragColor = vec4(1.0); }\n";
    let words = compile_glsl_to_spirv(src).expect("in-process compile should succeed");
    assert!(words.len() >= 5);
    assert_eq!(words[0], 0x0723_0203);
}

#[test]
fn rewrite_is_not_idempotent() {
    let once = rewrite_str("void mainImage(out vec4 c, in vec2 p){ c = vec4(sin(iTime)); }");
    let twice = rewrite_str(&once);
    // running the rewriter on its own output prepends the header again and
    // re-qualifies already qualified accesses; the results differ
    assert_ne!(once, twice);
    assert_eq!(twice.matches("#version 450").count(), 2);
}

#[test]
fn compile_valid_shader_succeeds_with_nonempty_artifact() {
    let src = "#version 450\nlayout(location = 0) out vec4 fragColor;\nvoid main() { fragColor = vec4(1.0); }\n";
    let words = compile_glsl_to_spirv(src).expect("in-process compile should succeed");
    assert!(!words.is_empty());
    let bytes = spirv_words_to_bytes(&words);
    assert_eq!(bytes.len(), 4 * words.len());
    // little-endian serialization of the first word
    assert_eq!(bytes[0], (words[0] & 0xff) as u8);
    assert_eq!(bytes[1], ((words[0] >> 8) & 0xff) as u8);
    assert_eq!(bytes[2], ((words[0] >> 16) & 0xff) as u8);
    assert_eq!(bytes[3], ((words[0] >> 24) & 0xff) as u8);
}

#[test]
fn words_serialize_little_endian() {
    let bytes = spirv_words_to_bytes(&vec![0x0403_0201u32, 0xff00_00aau32]);
    assert_eq!(bytes, vec![0x01, 0x02, 0x03, 0x04, 0xaa, 0x00, 0x00, 0xff]);
}

#[test]
fn rewritten_header_needs_external_fallback() {
    // the in-process frontend does not take the combined sampler binding in
    // the fixed header, so rewritten sources go to the external fallback
    let src = rewrite_str("void mainImage(out vec4 c, in vec2 p){ c = vec4(sin(iTime)); }");
    let err = compile_glsl_to_spirv(&src).unwrap_err();
    assert_eq!(err.stage, CompileStage::Parse);
    assert!(!err.message.is_empty());
}

#[test]
fn compile_invalid_shader_reports_parse_stage() {
    let err = compile_glsl_to_spirv("this is not a shader").unwrap_err();
    assert_eq!(err.stage, CompileStage::Parse);
    assert!(!err.message.is_empty());
}

#[test]
fn combined_failure_keeps_both_diagnostics() {
    let in_process = CompileError {
        stage: CompileStage::Parse,
        message: "expected declaration".chars().collect(),
    };
    let external: Vec<char> = "tool not found".chars().collect();
    let combined: String = combined_failure_message(&in_process, &external).iter().collect();
    assert!(combined.contains("expected declaration"));
    assert!(combined.contains("tool not found"));
    assert!(combined.contains("still written"));
}
