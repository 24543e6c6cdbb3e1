//! The in-process compilation stage: frontend parse, validation, and binary
//! emission through the shader toolkit, with the word-to-byte serialization
//! and the failure-aggregation text done in verified code.
//!
//! The toolkit calls stand behind one trusted wrapper whose outcomes are
//! named results of the source text; everything around it takes plain
//! values and is verified for every value of them.

use vstd::prelude::*;
use naga::back::spv;
use naga::front::glsl;
use naga::valid;
use crate::text::{chars_of, contains_seq, push_all};

verus! {

/// Which step of the in-process compile failed.
#[derive(Clone, Copy, PartialEq, Eq, Structural, Debug)]
pub enum CompileStage {
    Parse,
    Validate,
    Backend,
}

/// A diagnostic from the in-process compile: the step that failed and its
/// message.
#[derive(Debug)]
pub struct CompileError {
    pub stage: CompileStage,
    pub message: Vec<char>,
}

/// Whether the frontend accepts the source as fragment-stage shader text.
pub uninterp spec fn parse_ok_of(s: Seq<char>) -> bool;

/// Whether the frontend and then the validator both accept the source.
pub uninterp spec fn validate_ok_of(s: Seq<char>) -> bool;

/// Whether the whole in-process attempt (parse, validate, emit) succeeds.
pub uninterp spec fn inproc_ok_of(s: Seq<char>) -> bool;

/// The binary words the backend emits for the source, when it succeeds.
pub uninterp spec fn inproc_words_of(s: Seq<char>) -> Seq<u32>;

/// The first failing stage's diagnostic text for the source.
pub uninterp spec fn inproc_err_of(s: Seq<char>) -> Seq<char>;

/// Relies on naga::front::glsl::Frontend::parse,
/// naga::valid::Validator::validate and naga::back::spv::write_vec, chained
/// as one attempt so that validation info is only ever paired with the
/// module it was computed for. The toolkit is deterministic (its hash maps
/// are fixed-seed), so each outcome is a function of the source text alone
/// and carries a name: whether each stage accepts, the emitted words, and
/// the first failing stage's diagnostic. A successful emission starts with
/// the format's fixed five-word header, whose first word is its magic
/// number.
#[verifier::external_body]
fn compile_in_process(source: &str) -> (r: Result<Vec<u32>, (CompileStage, String)>)
    ensures
        r is Ok <==> inproc_ok_of(source@),
        r matches Ok(words) ==> words@ == inproc_words_of(source@) && words@.len() >= 5
            && words@[0] == 0x07230203u32,
        r matches Err(e) ==> e.1@ == inproc_err_of(source@),
        r matches Err(e) ==> (e.0 is Parse <==> !parse_ok_of(source@)),
        r matches Err(e) ==> (e.0 is Validate <==> parse_ok_of(source@) && !validate_ok_of(
            source@,
        )),
        r matches Err(e) ==> (e.0 is Backend <==> validate_ok_of(source@)),
{
    let opts = glsl::Options::from(naga::ShaderStage::Fragment);
    let module = match glsl::Frontend::default().parse(&opts, source) {
        Ok(m) => m,
        Err(es) => return Err((CompileStage::Parse, format!("{:?}", es))),
    };
    let mut v = valid::Validator::new(valid::ValidationFlags::all(), valid::Capabilities::all());
    let info = match v.validate(&module) {
        Ok(i) => i,
        Err(e) => return Err((CompileStage::Validate, e.to_string())),
    };
    spv::write_vec(&module, &info, &spv::Options::default(), None).map_err(
        |e| (CompileStage::Backend, e.to_string()),
    )
}

/// Compile rewritten shader source to binary words in process: parse, then
/// validate, then emit. Success, the words, the failing stage and its
/// diagnostic are each pinned to the source text through the named results
/// of the in-process attempt.
pub fn compile_glsl_to_spirv(source: &str) -> (r: Result<Vec<u32>, CompileError>)
    ensures
        r is Ok <==> inproc_ok_of(source@),
        r matches Ok(words) ==> words@ == inproc_words_of(source@) && words@.len() >= 5
            && words@[0] == 0x07230203u32,
        r matches Err(e) ==> e.message@ == inproc_err_of(source@),
        r matches Err(e) ==> (e.stage is Parse <==> !parse_ok_of(source@)),
        r matches Err(e) ==> (e.stage is Validate <==> parse_ok_of(source@) && !validate_ok_of(
            source@,
        )),
        r matches Err(e) ==> (e.stage is Backend <==> validate_ok_of(source@)),
{
    match compile_in_process(source) {
        Ok(words) => Ok(words),
        Err((stage, msg)) => Err(CompileError { stage, message: chars_of(msg.as_str()) }),
    }
}

/// The four bytes of one word, least significant first.
pub open spec fn le_bytes_of_word(w: u32) -> Seq<u8> {
    seq![
        (w & 0xff) as u8,
        ((w >> 8) & 0xff) as u8,
        ((w >> 16) & 0xff) as u8,
        ((w >> 24) & 0xff) as u8,
    ]
}

/// The little-endian byte serialization of a word sequence.
pub open spec fn le_bytes_of_words(ws: Seq<u32>) -> Seq<u8>
    decreases ws.len(),
{
    if ws.len() == 0 {
        Seq::empty()
    } else {
        le_bytes_of_word(ws[0]) + le_bytes_of_words(ws.skip(1))
    }
}

pub proof fn lemma_le_bytes_len(ws: Seq<u32>)
    ensures
        le_bytes_of_words(ws).len() == 4 * ws.len(),
    decreases ws.len(),
{
    if ws.len() > 0 {
        lemma_le_bytes_len(ws.skip(1));
    }
}

proof fn lemma_le_bytes_push(ws: Seq<u32>, w: u32)
    ensures
        le_bytes_of_words(ws.push(w)) == le_bytes_of_words(ws) + le_bytes_of_word(w),
    decreases ws.len(),
{
    if ws.len() == 0 {
        assert(ws.push(w)[0] == w);
        assert(ws.push(w).skip(1) =~= Seq::<u32>::empty());
        assert(le_bytes_of_words(ws.push(w).skip(1)) == le_bytes_of_words(Seq::<u32>::empty()));
        assert(le_bytes_of_words(Seq::<u32>::empty()) == Seq::<u8>::empty());
        assert(le_bytes_of_words(ws) == Seq::<u8>::empty());
        assert(le_bytes_of_words(ws.push(w)) =~= le_bytes_of_words(ws) + le_bytes_of_word(w));
    } else {
        lemma_le_bytes_push(ws.skip(1), w);
        assert(ws.push(w).skip(1) =~= ws.skip(1).push(w));
        assert(ws.push(w)[0] == ws[0]);
        assert(le_bytes_of_word(ws[0]) + (le_bytes_of_words(ws.skip(1)) + le_bytes_of_word(w))
            =~= (le_bytes_of_word(ws[0]) + le_bytes_of_words(ws.skip(1))) + le_bytes_of_word(w));
        assert(ws.push(w).len() > 0);
        assert(le_bytes_of_words(ws.push(w)) == le_bytes_of_word(ws[0]) + le_bytes_of_words(
            ws.skip(1).push(w),
        ));
        assert(le_bytes_of_words(ws.push(w)) =~= le_bytes_of_words(ws) + le_bytes_of_word(w));
    }
}

/// Serialize binary words to little-endian bytes, four per word.
pub fn spirv_words_to_bytes(words: &Vec<u32>) -> (bytes: Vec<u8>)
    ensures
        bytes@ == le_bytes_of_words(words@),
        bytes@.len() == 4 * words@.len(),
{
    let mut bytes: Vec<u8> = Vec::new();
    let mut i: usize = 0;
    while i < words.len()
        invariant
            i <= words@.len(),
            bytes@ == le_bytes_of_words(words@.take(i as int)),
        decreases words@.len() - i,
    {
        let w = words[i];
        bytes.push((w & 0xff) as u8);
        bytes.push(((w >> 8) & 0xff) as u8);
        bytes.push(((w >> 16) & 0xff) as u8);
        bytes.push(((w >> 24) & 0xff) as u8);
        proof {
            lemma_le_bytes_push(words@.take(i as int), w);
            assert(words@.take(i as int).push(w) =~= words@.take(i + 1));
            assert(bytes@ =~= le_bytes_of_words(words@.take(i as int)) + le_bytes_of_word(w));
        }
        i += 1;
    }
    proof {
        assert(words@.take(words@.len() as int) =~= words@);
        lemma_le_bytes_len(words@);
    }
    bytes
}

/// The combined diagnostic shown when both compile paths fail: both causes
/// in full, and the note that the rewritten source file was still written.
pub open spec fn combined_failure_text(in_process: Seq<char>, external: Seq<char>) -> Seq<char> {
    "naga error: "@ + in_process + "\nglslangValidator error: "@ + external
        + "\nNote: the rewritten shader source file was still written\n"@
}

/// Build the combined diagnostic for the case where the in-process compile
/// and the external compiler both failed.
pub fn combined_failure_message(in_process: &CompileError, external: &Vec<char>) -> (out: Vec<
    char,
>)
    ensures
        out@ == combined_failure_text(in_process.message@, external@),
{
    let mut out = chars_of("naga error: ");
    push_all(&mut out, &in_process.message);
    push_all(&mut out, &chars_of("\nglslangValidator error: "));
    push_all(&mut out, external);
    push_all(&mut out, &chars_of("\nNote: the rewritten shader source file was still written\n"));
    proof {
        assert(out@ =~= combined_failure_text(in_process.message@, external@));
    }
    out
}

/// Neither cause is dropped: the combined diagnostic holds the in-process
/// message and the external message in full.
pub proof fn lemma_combined_failure_keeps_both(a: Seq<char>, b: Seq<char>)
    ensures
        contains_seq(combined_failure_text(a, b), a),
        contains_seq(combined_failure_text(a, b), b),
{
    let o = combined_failure_text(a, b);
    let p1 = "naga error: "@.len() as int;
    assert(o.subrange(p1, p1 + a.len() as int) =~= a);
    let p2 = ("naga error: "@.len() + a.len() + "\nglslangValidator error: "@.len()) as int;
    assert(o.subrange(p2, p2 + b.len() as int) =~= b);
}

} // verus!
