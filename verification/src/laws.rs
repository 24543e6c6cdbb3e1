//! Properties of the rewriter that hold for every input, stated over the
//! same spec functions the executable contracts use, and proved here.

use vstd::prelude::*;
use crate::rewrite::{header_text, pre_entry_rewrite, rewrite_spec, rewritten_body};
use crate::scan::{
    collapse_from, entry_sig_len, lemma_trim_end_len_bounds, lemma_trim_shape, replace_entry_from,
    replace_word_from, replace_word_spec, trim_end_len, trim_spec, word_at_front,
};
use crate::text::{
    begins_with, contains_seq, is_space_char, is_word_char, lemma_contains_occurs,
    lemma_contains_shift_right, lemma_newline_run_bounds, lemma_occurs_contains,
    lemma_space_run_bounds, newline_run, occurs_at, space_run,
};

verus! {

/// The character at `i` exists and is a line feed.
pub open spec fn newline_at(s: Seq<char>, i: int) -> bool {
    0 <= i < s.len() && s[i] == '\n'
}

/// No three line feeds in a row anywhere in `s`.
pub open spec fn no_triple_newline(s: Seq<char>) -> bool {
    forall|i: int|
        !(#[trigger] newline_at(s, i) && newline_at(s, i + 1) && newline_at(s, i + 2))
}

/// No four line feeds in a row anywhere in `s`: no run of three or more
/// consecutive blank lines.
pub open spec fn no_quad_newline(s: Seq<char>) -> bool {
    forall|i: int|
        !(#[trigger] newline_at(s, i) && newline_at(s, i + 1) && newline_at(s, i + 2)
            && newline_at(s, i + 3))
}

/// For every input, the output starts with the fixed header block, is
/// nonempty, and ends with a line feed; when the rewritten body is nonempty,
/// no second line feed stands before the final one, so exactly one line feed
/// ends the output.
pub proof fn lemma_output_framing(s: Seq<char>)
    ensures
        begins_with(rewrite_spec(s), header_text()),
        rewrite_spec(s).len() > 0,
        rewrite_spec(s)[rewrite_spec(s).len() - 1] == '\n',
        trim_spec(rewritten_body(s)).len() > 0 ==> rewrite_spec(s)[rewrite_spec(s).len() - 2]
            != '\n',
{
    let h = header_text();
    let b = trim_spec(rewritten_body(s));
    let o = rewrite_spec(s);
    assert(o.len() == h.len() + b.len() + 1);
    assert(o.take(h.len() as int) =~= h);
    assert(o[o.len() - 1] == '\n');
    if b.len() > 0 {
        lemma_trim_shape(rewritten_body(s));
        assert(o[o.len() - 2] == b[b.len() - 1]);
        assert(!is_space_char(b[b.len() - 1]));
    }
}

/// Blank-line collapsing leaves no three line feeds in a row, keeps the
/// first character, and never grows the text.
pub proof fn lemma_collapse_no_triple(s: Seq<char>)
    ensures
        no_triple_newline(collapse_from(s)),
        collapse_from(s).len() <= s.len(),
        s.len() > 0 ==> collapse_from(s).len() > 0 && collapse_from(s)[0] == s[0],
    decreases s.len(),
{
    let o = collapse_from(s);
    if s.len() == 0 {
    } else if s.len() >= 3 && s[0] == '\n' && s[1] == '\n' && s[2] == '\n' {
        let k = newline_run(s);
        lemma_newline_run_bounds(s);
        assert(k >= 3) by {
            if k < 3 {
                assert(s[k] == '\n');
            }
        }
        lemma_collapse_no_triple(s.skip(k));
        let rec = collapse_from(s.skip(k));
        assert(o == seq!['\n', '\n'] + rec);
        assert forall|i: int|
            !(#[trigger] newline_at(o, i) && newline_at(o, i + 1) && newline_at(o, i + 2)) by {
            if newline_at(o, i) && newline_at(o, i + 1) && newline_at(o, i + 2) {
                if i >= 2 {
                    assert(o[i] == rec[i - 2]);
                    assert(o[i + 1] == rec[i - 1]);
                    assert(o[i + 2] == rec[i]);
                    assert(newline_at(rec, i - 2) && newline_at(rec, i - 1) && newline_at(
                        rec,
                        i,
                    ));
                } else {
                    assert(i + 2 >= 2);
                    assert(o[i + 2] == rec[i]);
                    assert(rec.len() > 0);
                    assert(s.skip(k).len() > 0);
                    assert(rec[0] == s.skip(k)[0]);
                    assert(s.skip(k)[0] == s[k]);
                    assert(s[k] != '\n');
                    assert(i == 0 || i == 1);
                    if i == 0 {
                        assert(o[2] == rec[0]);
                    } else {
                        assert(o[2] == rec[0]);
                        assert(newline_at(o, i + 1));
                    }
                }
            }
        }
    } else {
        lemma_collapse_no_triple(s.skip(1));
        let rec = collapse_from(s.skip(1));
        assert(o == seq![s[0]] + rec);
        assert forall|i: int|
            !(#[trigger] newline_at(o, i) && newline_at(o, i + 1) && newline_at(o, i + 2)) by {
            if newline_at(o, i) && newline_at(o, i + 1) && newline_at(o, i + 2) {
                if i >= 1 {
                    assert(o[i] == rec[i - 1]);
                    assert(o[i + 1] == rec[i]);
                    assert(o[i + 2] == rec[i + 1]);
                    assert(newline_at(rec, i - 1) && newline_at(rec, i) && newline_at(
                        rec,
                        i + 1,
                    ));
                } else {
                    assert(i == 0);
                    assert(o[0] == s[0]);
                    assert(s[0] == '\n');
                    assert(o[1] == rec[0]);
                    assert(rec.len() >= 2);
                    assert(s.skip(1).len() > 0);
                    assert(rec[0] == s.skip(1)[0]);
                    assert(s.skip(1)[0] == s[1]);
                    assert(s[1] == '\n');
                    // the branch condition failed, so the text is short or
                    // the third character is no line feed
                    assert(s.len() < 3 || s[2] != '\n');
                    assert(s.len() >= 2);
                    if s.len() == 2 {
                        assert(s.skip(1).len() == 1);
                        assert(rec.len() <= 1);
                    } else {
                        assert(s[2] != '\n');
                        let s1 = s.skip(1);
                        assert(s1[0] == s[1] && s1[1] == s[2]);
                        assert(!(s1.len() >= 3 && s1[0] == '\n' && s1[1] == '\n' && s1[2]
                            == '\n'));
                        lemma_collapse_no_triple(s.skip(2));
                        let rec2 = collapse_from(s.skip(2));
                        assert(s1.skip(1) =~= s.skip(2));
                        assert(rec == seq![s1[0]] + rec2);
                        assert(o[2] == rec[1]);
                        assert(rec[1] == rec2[0]);
                        assert(s.skip(2).len() > 0);
                        assert(rec2[0] == s.skip(2)[0]);
                        assert(s.skip(2)[0] == s[2]);
                    }
                }
            }
        }
    }
}

/// A contiguous part of a text with no three line feeds in a row has none
/// either.
pub proof fn lemma_no_triple_subrange(s: Seq<char>, a: int, e: int)
    requires
        0 <= a <= e <= s.len(),
        no_triple_newline(s),
    ensures
        no_triple_newline(s.subrange(a, e)),
{
    let t = s.subrange(a, e);
    assert forall|i: int|
        !(#[trigger] newline_at(t, i) && newline_at(t, i + 1) && newline_at(t, i + 2)) by {
        if newline_at(t, i) && newline_at(t, i + 1) && newline_at(t, i + 2) {
            assert(t[i] == s[a + i]);
            assert(t[i + 1] == s[a + i + 1]);
            assert(t[i + 2] == s[a + i + 2]);
            assert(newline_at(s, a + i) && newline_at(s, a + i + 1) && newline_at(s, a + i + 2));
        }
    }
}

/// The fixed header block itself never has three line feeds in a row, and
/// ends with a semicolon line followed by one blank line.
#[verifier::rlimit(100)]
#[verifier::spinoff_prover]
proof fn lemma_header_facts()
    ensures
        no_triple_newline(header_text()),
        header_text().len() >= 3,
        header_text()[header_text().len() - 1] == '\n',
        header_text()[header_text().len() - 2] == '\n',
        header_text()[header_text().len() - 3] == ';',
{
    reveal_strlit(
        "#version 450

layout(location = 0) in vec2 fragCoord;
layout(location = 0) out vec4 fragColor;

layout(binding = 0) uniform UniformBufferObject {
    vec3 iResolution;
    float iTime;
    vec4 iMouse;
} ubo;

layout(binding = 1) uniform sampler2D iChannel0;
// layout(binding = 2) uniform sampler2D iChannel1;
// layout(binding = 3) uniform sampler2D iChannel2;
// layout(binding = 4) uniform sampler2D iChannel3;

",
    );
    let h = header_text();
    assert forall|i: int|
        !(#[trigger] newline_at(h, i) && newline_at(h, i + 1) && newline_at(h, i + 2)) by {
        if newline_at(h, i) && newline_at(h, i + 1) && newline_at(h, i + 2) {
            assert(h[i] == '\n' && h[i + 1] == '\n' && h[i + 2] == '\n' && 0 <= i && i + 2
                < h.len());
        }
    }
}

/// The rewriter's output never holds a run of three or more consecutive
/// blank lines.
pub proof fn lemma_no_excess_blank_lines(s: Seq<char>)
    ensures
        no_quad_newline(rewrite_spec(s)),
{
    let body = rewritten_body(s);
    let s14 = replace_word_spec(
        replace_word_spec(replace_entry_from(pre_entry_rewrite(s)), "t"@, "ubo.iTime"@),
        "r"@,
        "ubo.iResolution.xy"@,
    );
    assert(body == collapse_from(s14));
    lemma_collapse_no_triple(s14);
    lemma_trim_shape(body);
    let e = trim_end_len(body);
    let a = space_run(body.take(e));
    let b = trim_spec(body);
    lemma_no_triple_subrange(body, a, e);
    lemma_header_facts();
    let h = header_text();
    let o = rewrite_spec(s);
    assert(o == h + b + seq!['\n']);
    assert(o.len() == h.len() + b.len() + 1);
    assert forall|i: int|
        !(#[trigger] newline_at(o, i) && newline_at(o, i + 1) && newline_at(o, i + 2)
            && newline_at(o, i + 3)) by {
        if newline_at(o, i) && newline_at(o, i + 1) && newline_at(o, i + 2) && newline_at(
            o,
            i + 3,
        ) {
            if i + 4 <= h.len() {
                assert(o[i] == h[i] && o[i + 1] == h[i + 1] && o[i + 2] == h[i + 2]);
                assert(newline_at(h, i) && newline_at(h, i + 1) && newline_at(h, i + 2));
            } else if h.len() <= i && i + 4 <= h.len() + b.len() {
                assert(o[i] == b[i - h.len()]);
                assert(o[i + 1] == b[i + 1 - h.len()]);
                assert(o[i + 2] == b[i + 2 - h.len()]);
                assert(newline_at(b, i - h.len()) && newline_at(b, i + 1 - h.len()) && newline_at(
                    b,
                    i + 2 - h.len(),
                ));
            } else if b.len() == 0 {
                // the window reaches past the header into the final line
                // feed alone, so it covers the semicolon
                assert(i + 4 > h.len());
                assert(i + 3 < o.len() == h.len() + 1);
                assert(i + 3 == h.len());
                assert(o[i] == h[h.len() - 3]);
                assert(h[h.len() - 3] == ';');
            } else if i < h.len() {
                // the window crosses from the header into the body, so it
                // covers the body's first character, which is no whitespace
                assert(i + 4 > h.len() + b.len() || i + 4 > h.len());
                assert(h.len() <= i + 3);
                assert(o[h.len() as int] == b[0]);
                assert(!is_space_char(b[0]));
                let j = h.len() as int;
                assert(i <= j <= i + 3);
                assert(newline_at(o, j) ==> o[j] == '\n');
                assert(b[0] == '\n');
            } else {
                // the window ends past the body, so it covers the body's
                // last character, which is no whitespace
                assert(i >= h.len() && i + 4 > h.len() + b.len());
                let j = h.len() + b.len() - 1;
                assert(i <= j <= i + 3);
                assert(o[j as int] == b[b.len() - 1]);
                assert(!is_space_char(b[b.len() - 1]));
                assert(b[b.len() - 1] == '\n');
            }
        }
    }
}

// ---------------------------------------------------------------------------
// Entry-point replacement reaches the output
// ---------------------------------------------------------------------------
/// Somewhere in `s` the playground entry-point signature stands.
pub open spec fn has_entry_sig(s: Seq<char>) -> bool {
    exists|i: int| 0 <= i <= s.len() && (#[trigger] entry_sig_len(s.skip(i))) is Some
}

proof fn lemma_replace_word_keeps_prefix(
    s: Seq<char>,
    w: Seq<char>,
    r: Seq<char>,
    u: Seq<char>,
    prev: bool,
)
    requires
        w.len() == 1,
        forall|j: int| 0 <= j < u.len() ==> u[j] != w[0],
        begins_with(s, u),
    ensures
        begins_with(replace_word_from(s, w, r, prev), u),
    decreases u.len(),
{
    let o = replace_word_from(s, w, r, prev);
    if u.len() == 0 {
        assert(o.take(0) =~= u);
    } else {
        assert(s.take(u.len() as int)[0] == s[0]);
        assert(s[0] == u[0]);
        assert(!word_at_front(s, w, prev)) by {
            if word_at_front(s, w, prev) {
                assert(s.take(w.len() as int)[0] == s[0]);
                assert(w[0] == s[0]);
            }
        }
        assert(o == seq![s[0]] + replace_word_from(s.skip(1), w, r, is_word_char(s[0])));
        assert(begins_with(s.skip(1), u.skip(1))) by {
            assert(s.skip(1).take(u.len() - 1) =~= u.skip(1)) by {
                assert forall|j: int| 0 <= j < u.len() - 1 implies s.skip(1).take(u.len() - 1)[j]
                    == u.skip(1)[j] by {
                    assert(s.skip(1).take(u.len() - 1)[j] == s[j + 1]);
                    assert(s.take(u.len() as int)[j + 1] == s[j + 1]);
                }
            }
        }
        assert(forall|j: int| 0 <= j < u.skip(1).len() ==> u.skip(1)[j] != w[0]);
        lemma_replace_word_keeps_prefix(s.skip(1), w, r, u.skip(1), is_word_char(s[0]));
        let rec = replace_word_from(s.skip(1), w, r, is_word_char(s[0]));
        assert(o.take(u.len() as int) =~= u) by {
            assert forall|j: int| 0 <= j < u.len() implies o.take(u.len() as int)[j] == u[j] by {
                if j == 0 {
                } else {
                    assert(o[j] == rec[j - 1]);
                    assert(rec.take(u.skip(1).len() as int)[j - 1] == rec[j - 1]);
                    assert(u.skip(1)[j - 1] == u[j]);
                }
            }
        }
    }
}

proof fn lemma_replace_word_keeps_occurrence(
    s: Seq<char>,
    w: Seq<char>,
    r: Seq<char>,
    u: Seq<char>,
    p: int,
    prev: bool,
)
    requires
        w.len() == 1,
        u.len() > 0,
        forall|j: int| 0 <= j < u.len() ==> u[j] != w[0],
        occurs_at(s, u, p),
    ensures
        contains_seq(replace_word_from(s, w, r, prev), u),
    decreases s.len(),
{
    let o = replace_word_from(s, w, r, prev);
    if p == 0 {
        assert(begins_with(s, u)) by {
            assert(s.take(u.len() as int) =~= s.subrange(0, 0 + u.len() as int));
        }
        lemma_replace_word_keeps_prefix(s, w, r, u, prev);
        crate::text::lemma_begins_with_contains(o, u);
    } else {
        assert(s.len() > 0);
        assert(occurs_at(s.skip(1), u, p - 1)) by {
            assert(s.skip(1).subrange(p - 1, p - 1 + u.len() as int) =~= s.subrange(
                p,
                p + u.len() as int,
            ));
        }
        if word_at_front(s, w, prev) {
            let rec = replace_word_from(s.skip(1), w, r, is_word_char(w.last()));
            assert(o == r + rec);
            lemma_replace_word_keeps_occurrence(s.skip(1), w, r, u, p - 1, is_word_char(w.last()));
            lemma_contains_shift_right(r, rec, u);
        } else {
            let rec = replace_word_from(s.skip(1), w, r, is_word_char(s[0]));
            assert(o == seq![s[0]] + rec);
            lemma_replace_word_keeps_occurrence(s.skip(1), w, r, u, p - 1, is_word_char(s[0]));
            lemma_contains_shift_right(seq![s[0]], rec, u);
        }
    }
}

proof fn lemma_collapse_keeps_prefix(s: Seq<char>, u: Seq<char>)
    requires
        forall|j: int| 0 <= j < u.len() ==> u[j] != '\n',
        begins_with(s, u),
    ensures
        begins_with(collapse_from(s), u),
    decreases u.len(),
{
    let o = collapse_from(s);
    if u.len() == 0 {
        assert(o.take(0) =~= u);
    } else {
        assert(s.take(u.len() as int)[0] == s[0]);
        assert(s[0] == u[0]);
        assert(s[0] != '\n');
        let rec = collapse_from(s.skip(1));
        assert(o == seq![s[0]] + rec);
        assert(begins_with(s.skip(1), u.skip(1))) by {
            assert(s.skip(1).take(u.len() - 1) =~= u.skip(1)) by {
                assert forall|j: int| 0 <= j < u.len() - 1 implies s.skip(1).take(u.len() - 1)[j]
                    == u.skip(1)[j] by {
                    assert(s.skip(1).take(u.len() - 1)[j] == s[j + 1]);
                    assert(s.take(u.len() as int)[j + 1] == s[j + 1]);
                }
            }
        }
        assert(forall|j: int| 0 <= j < u.skip(1).len() ==> u.skip(1)[j] != '\n');
        lemma_collapse_keeps_prefix(s.skip(1), u.skip(1));
        assert(o.take(u.len() as int) =~= u) by {
            assert forall|j: int| 0 <= j < u.len() implies o.take(u.len() as int)[j] == u[j] by {
                if j == 0 {
                } else {
                    assert(o[j] == rec[j - 1]);
                    assert(rec.take(u.skip(1).len() as int)[j - 1] == rec[j - 1]);
                    assert(u.skip(1)[j - 1] == u[j]);
                }
            }
        }
    }
}

proof fn lemma_collapse_keeps_occurrence(s: Seq<char>, u: Seq<char>, p: int)
    requires
        u.len() > 0,
        forall|j: int| 0 <= j < u.len() ==> u[j] != '\n',
        occurs_at(s, u, p),
    ensures
        contains_seq(collapse_from(s), u),
    decreases s.len(),
{
    let o = collapse_from(s);
    if p == 0 {
        assert(begins_with(s, u)) by {
            assert(s.take(u.len() as int) =~= s.subrange(0, 0 + u.len() as int));
        }
        lemma_collapse_keeps_prefix(s, u);
        crate::text::lemma_begins_with_contains(o, u);
    } else {
        assert(s.len() > 0);
        assert(s.subrange(p, p + u.len() as int)[0] == s[p]);
        assert(s[p] == u[0]);
        if s.len() >= 3 && s[0] == '\n' && s[1] == '\n' && s[2] == '\n' {
            let k = newline_run(s);
            lemma_newline_run_bounds(s);
            assert(k >= 3) by {
                if k < 3 {
                    assert(s[k] == '\n');
                }
            }
            let rec = collapse_from(s.skip(k));
            assert(o == seq!['\n', '\n'] + rec);
            assert(p >= k) by {
                if p < k {
                    assert(s[p] == '\n');
                }
            }
            assert(occurs_at(s.skip(k), u, p - k)) by {
                assert(s.skip(k).subrange(p - k, p - k + u.len() as int) =~= s.subrange(
                    p,
                    p + u.len() as int,
                ));
            }
            lemma_collapse_keeps_occurrence(s.skip(k), u, p - k);
            lemma_contains_shift_right(seq!['\n', '\n'], rec, u);
        } else {
            let rec = collapse_from(s.skip(1));
            assert(o == seq![s[0]] + rec);
            assert(occurs_at(s.skip(1), u, p - 1)) by {
                assert(s.skip(1).subrange(p - 1, p - 1 + u.len() as int) =~= s.subrange(
                    p,
                    p + u.len() as int,
                ));
            }
            lemma_collapse_keeps_occurrence(s.skip(1), u, p - 1);
            lemma_contains_shift_right(seq![s[0]], rec, u);
        }
    }
}

proof fn lemma_trim_keeps_occurrence(s: Seq<char>, u: Seq<char>, p: int)
    requires
        u.len() > 0,
        !is_space_char(u[0]),
        !is_space_char(u[u.len() - 1]),
        occurs_at(s, u, p),
    ensures
        contains_seq(trim_spec(s), u),
{
    lemma_trim_shape(s);
    lemma_trim_end_len_bounds(s);
    let e = trim_end_len(s);
    let t = s.take(e);
    lemma_space_run_bounds(t);
    let a = space_run(t);
    assert(s.subrange(p, p + u.len() as int)[0] == s[p]);
    assert(s[p] == u[0]);
    assert(s.subrange(p, p + u.len() as int)[u.len() - 1] == s[p + u.len() - 1]);
    assert(s[p + u.len() - 1] == u[u.len() - 1]);
    assert(p + u.len() <= e) by {
        if p + u.len() > e {
            assert(is_space_char(s[p + u.len() - 1]));
        }
    }
    assert(p >= a) by {
        if p < a {
            assert(is_space_char(t[p]));
            assert(t[p] == s[p]);
        }
    }
    assert(occurs_at(s.subrange(a, e), u, p - a)) by {
        assert(s.subrange(a, e).subrange(p - a, p - a + u.len() as int) =~= s.subrange(
            p,
            p + u.len() as int,
        ));
    }
    lemma_occurs_contains(s.subrange(a, e), u, p - a);
}

proof fn lemma_contains_in_output(h: Seq<char>, b: Seq<char>, u: Seq<char>)
    requires
        contains_seq(b, u),
    ensures
        contains_seq(h + b + seq!['\n'], u),
{
    lemma_contains_occurs(b, u);
    let p = choose|p: int| #[trigger] occurs_at(b, u, p);
    let o = h + b + seq!['\n'];
    assert(o.subrange(h.len() + p, h.len() + p + u.len() as int) =~= b.subrange(
        p,
        p + u.len() as int,
    ));
    assert(occurs_at(o, u, h.len() + p));
    lemma_occurs_contains(o, u, h.len() + p);
}

proof fn lemma_entry_stage_emits_main(s: Seq<char>)
    requires
        has_entry_sig(s),
    ensures
        contains_seq(replace_entry_from(s), "void main()"@),
    decreases s.len(),
{
    let vm = "void main()"@;
    let o = replace_entry_from(s);
    let i = choose|i: int| 0 <= i <= s.len() && (#[trigger] entry_sig_len(s.skip(i))) is Some;
    crate::scan::lemma_entry_sig_len_bounds(s);
    if entry_sig_len(s) is Some {
        if let Some(k) = entry_sig_len(s) {
            assert(o == vm + replace_entry_from(s.skip(k)));
            assert(begins_with(o, vm)) by {
                assert(o.take(vm.len() as int) =~= vm);
            }
            crate::text::lemma_begins_with_contains(o, vm);
        }
    } else {
        assert(i >= 1) by {
            if i == 0 {
                assert(s.skip(0) =~= s);
            }
        }
        assert(s.len() > 0);
        assert(o == seq![s[0]] + replace_entry_from(s.skip(1)));
        assert(has_entry_sig(s.skip(1))) by {
            assert(s.skip(1).skip(i - 1) =~= s.skip(i));
            assert(entry_sig_len(s.skip(1).skip(i - 1)) is Some);
            assert(0 <= i - 1 <= s.skip(1).len());
        }
        lemma_entry_stage_emits_main(s.skip(1));
        lemma_contains_shift_right(seq![s[0]], replace_entry_from(s.skip(1)), vm);
    }
}

/// If the text that reaches the entry-point rule holds the playground
/// signature somewhere, the rewriter's output holds `void main()`.
pub proof fn lemma_entry_point_rewritten(s: Seq<char>)
    requires
        has_entry_sig(pre_entry_rewrite(s)),
    ensures
        contains_seq(rewrite_spec(s), "void main()"@),
{
    let vm = "void main()"@;
    reveal_strlit("void main()");
    reveal_strlit("t");
    reveal_strlit("r");
    reveal_strlit("ubo.iTime");
    reveal_strlit("ubo.iResolution.xy");
    let m = pre_entry_rewrite(s);
    let s12 = replace_entry_from(m);
    lemma_entry_stage_emits_main(m);
    assert(vm.len() == 11);
    assert(forall|j: int| 0 <= j < vm.len() ==> vm[j] != "t"@[0]);
    assert(forall|j: int| 0 <= j < vm.len() ==> vm[j] != "r"@[0]);
    assert(forall|j: int| 0 <= j < vm.len() ==> vm[j] != '\n');
    assert(!is_space_char(vm[0]));
    assert(!is_space_char(vm[vm.len() - 1]));
    let s13 = replace_word_spec(s12, "t"@, "ubo.iTime"@);
    lemma_contains_occurs(s12, vm);
    let p1 = choose|p: int| #[trigger] occurs_at(s12, vm, p);
    lemma_replace_word_keeps_occurrence(s12, "t"@, "ubo.iTime"@, vm, p1, false);
    let s14 = replace_word_spec(s13, "r"@, "ubo.iResolution.xy"@);
    lemma_contains_occurs(s13, vm);
    let p2 = choose|p: int| #[trigger] occurs_at(s13, vm, p);
    lemma_replace_word_keeps_occurrence(s13, "r"@, "ubo.iResolution.xy"@, vm, p2, false);
    let s15 = collapse_from(s14);
    lemma_contains_occurs(s14, vm);
    let p3 = choose|p: int| #[trigger] occurs_at(s14, vm, p);
    lemma_collapse_keeps_occurrence(s14, vm, p3);
    lemma_contains_occurs(s15, vm);
    let p4 = choose|p: int| #[trigger] occurs_at(s15, vm, p);
    lemma_trim_keeps_occurrence(s15, vm, p4);
    assert(rewritten_body(s) == s15);
    lemma_contains_in_output(header_text(), trim_spec(s15), vm);
}

// ---------------------------------------------------------------------------
// Qualification of the primary uniforms
// ---------------------------------------------------------------------------
/// The word `w` stands at position `j` of `o` as an isolated word; `prev`
/// tells whether the character just before `o` is a word character.
pub open spec fn isolated_word_at(o: Seq<char>, w: Seq<char>, j: int, prev: bool) -> bool {
    &&& 0 <= j
    &&& j + w.len() <= o.len()
    &&& o.subrange(j, j + w.len() as int) == w
    &&& if j == 0 {
        !prev
    } else {
        !is_word_char(o[j - 1])
    }
    &&& (j + w.len() == o.len() || !is_word_char(o[j + w.len()]))
}

pub open spec fn all_word_chars(w: Seq<char>) -> bool {
    forall|i: int| 0 <= i < w.len() ==> is_word_char(w[i])
}

/// While the previous character is a word character the scanner only
/// copies, so an output prefix of word characters mirrors the input.
proof fn lemma_copy_run(s: Seq<char>, w: Seq<char>, r: Seq<char>, u: Seq<char>)
    requires
        w.len() > 0,
        r.len() > 0,
        all_word_chars(u),
        begins_with(replace_word_from(s, w, r, true), u),
    ensures
        begins_with(s, u),
        replace_word_from(s, w, r, true).len() == u.len() ==> s.len() == u.len(),
        s.len() == u.len() ==> replace_word_from(s, w, r, true).len() == u.len(),
        s.len() > u.len() && replace_word_from(s, w, r, true).len() > u.len()
            ==> replace_word_from(s, w, r, true)[u.len() as int] == s[u.len() as int],
    decreases u.len(),
{
    let o = replace_word_from(s, w, r, true);
    if u.len() == 0 {
        assert(s.take(0) =~= u);
        if s.len() > 0 {
            assert(!word_at_front(s, w, true));
            assert(o == seq![s[0]] + replace_word_from(s.skip(1), w, r, is_word_char(s[0])));
        }
    } else {
        assert(o.len() >= u.len() >= 1);
        assert(s.len() > 0);
        assert(!word_at_front(s, w, true));
        let o2 = replace_word_from(s.skip(1), w, r, is_word_char(s[0]));
        assert(o == seq![s[0]] + o2);
        assert(o.take(u.len() as int)[0] == o[0]);
        assert(o[0] == s[0]);
        assert(s[0] == u[0]);
        assert(is_word_char(u[0]));
        assert(o2 == replace_word_from(s.skip(1), w, r, true));
        assert(begins_with(o2, u.skip(1))) by {
            assert(o2.take(u.len() - 1) =~= u.skip(1)) by {
                assert forall|x: int| 0 <= x < u.len() - 1 implies o2.take(u.len() - 1)[x]
                    == u.skip(1)[x] by {
                    assert(o2.take(u.len() - 1)[x] == o2[x]);
                    assert(o2[x] == o[x + 1]);
                    assert(o.take(u.len() as int)[x + 1] == o[x + 1]);
                    assert(u.skip(1)[x] == u[x + 1]);
                }
            }
        }
        assert(all_word_chars(u.skip(1))) by {
            assert forall|x: int| 0 <= x < u.skip(1).len() implies is_word_char(u.skip(1)[x]) by {
                assert(u.skip(1)[x] == u[x + 1]);
            }
        }
        lemma_copy_run(s.skip(1), w, r, u.skip(1));
        assert(begins_with(s, u)) by {
            assert(s.take(u.len() as int) =~= u) by {
                assert forall|x: int| 0 <= x < u.len() implies s.take(u.len() as int)[x]
                    == u[x] by {
                    if x > 0 {
                        assert(s.take(u.len() as int)[x] == s.skip(1)[x - 1]);
                        assert(s.skip(1).take(u.len() - 1)[x - 1] == s.skip(1)[x - 1]);
                        assert(u.skip(1)[x - 1] == u[x]);
                    }
                }
            }
        }
        if s.len() > u.len() && o.len() > u.len() {
            assert(s.skip(1).len() > u.len() - 1 && o2.len() > u.len() - 1);
            assert(o[u.len() as int] == o2[u.len() - 1]);
            assert(s.skip(1)[u.len() - 1] == s[u.len() as int]);
        }
    }
}

/// Where no isolated `w` stands at the front of the input, none stands at
/// the front of the output.
proof fn lemma_no_front_word(s: Seq<char>, w: Seq<char>, r: Seq<char>, prev: bool)
    requires
        w.len() > 0,
        r.len() > 0,
        all_word_chars(w),
        !word_at_front(s, w, prev),
    ensures
        !isolated_word_at(replace_word_from(s, w, r, prev), w, 0, prev),
{
    let o = replace_word_from(s, w, r, prev);
    if isolated_word_at(o, w, 0, prev) {
        assert(!prev);
        assert(o.len() >= w.len());
        assert(s.len() > 0);
        let o2 = replace_word_from(s.skip(1), w, r, is_word_char(s[0]));
        assert(o == seq![s[0]] + o2);
        assert(o.subrange(0, 0 + w.len() as int)[0] == o[0]);
        assert(o[0] == s[0]);
        assert(s[0] == w[0]);
        assert(is_word_char(w[0]));
        assert(o2 == replace_word_from(s.skip(1), w, r, true));
        assert(begins_with(o2, w.skip(1))) by {
            assert(o2.take(w.len() - 1) =~= w.skip(1)) by {
                assert forall|x: int| 0 <= x < w.len() - 1 implies o2.take(w.len() - 1)[x]
                    == w.skip(1)[x] by {
                    assert(o2.take(w.len() - 1)[x] == o2[x]);
                    assert(o2[x] == o[x + 1]);
                    assert(o.subrange(0, 0 + w.len() as int)[x + 1] == o[x + 1]);
                    assert(w.skip(1)[x] == w[x + 1]);
                }
            }
        }
        assert(all_word_chars(w.skip(1))) by {
            assert forall|x: int| 0 <= x < w.skip(1).len() implies is_word_char(w.skip(1)[x]) by {
                assert(w.skip(1)[x] == w[x + 1]);
            }
        }
        lemma_copy_run(s.skip(1), w, r, w.skip(1));
        assert(s.take(w.len() as int) =~= w) by {
            assert forall|x: int| 0 <= x < w.len() implies s.take(w.len() as int)[x] == w[x] by {
                if x > 0 {
                    assert(s.take(w.len() as int)[x] == s.skip(1)[x - 1]);
                    assert(s.skip(1).take(w.len() - 1)[x - 1] == s.skip(1)[x - 1]);
                    assert(w.skip(1)[x - 1] == w[x]);
                }
            }
        }
        if o.len() == w.len() {
            assert(o2.len() == w.len() - 1);
            assert(s.skip(1).len() == w.len() - 1);
            assert(s.len() == w.len());
            assert(word_at_front(s, w, prev));
        } else {
            assert(!is_word_char(o[w.len() as int]));
            if s.len() == w.len() {
                assert(s.skip(1).len() == w.len() - 1);
                assert(o2.len() == w.len() - 1);
                assert(o.len() == w.len());
            }
            assert(s.len() > w.len());
            assert(s.skip(1).len() > w.len() - 1);
            assert(o2.len() > w.len() - 1);
            assert(o[w.len() as int] == o2[w.len() - 1]);
            assert(o2[w.len() - 1] == s.skip(1)[w.len() - 1]);
            assert(s.skip(1)[w.len() - 1] == s[w.len() as int]);
            assert(word_at_front(s, w, prev));
        }
    }
}

/// After one pass that replaces the isolated word `w` by `q + w`, every
/// isolated occurrence of `w` in the result stands right after `q`.
proof fn lemma_replace_word_qualifies_from(s: Seq<char>, w: Seq<char>, q: Seq<char>, prev: bool)
    requires
        w.len() > 0,
        q.len() > 0,
        all_word_chars(w),
        forall|j: int|
            0 <= j < q.len() ==> #[trigger] (q + w).subrange(j, j + w.len() as int) != w,
    ensures
        forall|j: int|
            #[trigger] isolated_word_at(replace_word_from(s, w, q + w, prev), w, j, prev) ==> j
                >= q.len() && replace_word_from(s, w, q + w, prev).subrange(j - q.len(), j) == q,
    decreases s.len(),
{
    let r = q + w;
    let o = replace_word_from(s, w, r, prev);
    if s.len() == 0 {
    } else if word_at_front(s, w, prev) {
        assert(is_word_char(w[w.len() - 1]));
        let o2 = replace_word_from(s.skip(w.len() as int), w, r, is_word_char(w.last()));
        assert(o == r + o2);
        assert(is_word_char(w.last()));
        assert(o2 == replace_word_from(s.skip(w.len() as int), w, r, true));
        lemma_replace_word_qualifies_from(s.skip(w.len() as int), w, q, true);
        assert forall|j: int| #[trigger] isolated_word_at(o, w, j, prev) implies j >= q.len()
            && o.subrange(j - q.len(), j) == q by {
            if j < q.len() {
                assert(o.subrange(j, j + w.len() as int) =~= r.subrange(j, j + w.len() as int));
                assert(r.subrange(j, j + w.len() as int) != w);
            } else if j == q.len() {
                assert(o.subrange(j - q.len(), j) =~= q);
            } else if j <= r.len() {
                assert(o[j - 1] == r[j - 1]);
                assert(r[j - 1] == w[j - 1 - q.len()]);
                assert(is_word_char(w[j - 1 - q.len()]));
            } else {
                assert(isolated_word_at(o2, w, j - r.len(), true)) by {
                    assert(o2.subrange(j - r.len(), j - r.len() + w.len() as int) =~= o.subrange(
                        j,
                        j + w.len() as int,
                    ));
                    assert(o[j - 1] == o2[j - r.len() - 1]);
                    if j + w.len() < o.len() {
                        assert(o[j + w.len()] == o2[j - r.len() + w.len()]);
                    }
                }
                assert(o.subrange(j - q.len(), j) =~= o2.subrange(
                    j - r.len() - q.len(),
                    j - r.len(),
                ));
            }
        }
    } else {
        let o2 = replace_word_from(s.skip(1), w, r, is_word_char(s[0]));
        assert(o == seq![s[0]] + o2);
        lemma_replace_word_qualifies_from(s.skip(1), w, q, is_word_char(s[0]));
        lemma_no_front_word(s, w, r, prev);
        assert forall|j: int| #[trigger] isolated_word_at(o, w, j, prev) implies j >= q.len()
            && o.subrange(j - q.len(), j) == q by {
            if j == 0 {
                assert(!isolated_word_at(o, w, 0, prev));
            } else {
                assert(isolated_word_at(o2, w, j - 1, is_word_char(s[0]))) by {
                    assert(o2.subrange(j - 1, j - 1 + w.len() as int) =~= o.subrange(
                        j,
                        j + w.len() as int,
                    ));
                    if j == 1 {
                        assert(o[0] == s[0]);
                    } else {
                        assert(o[j - 1] == o2[j - 2]);
                    }
                    if j + w.len() < o.len() {
                        assert(o[j + w.len()] == o2[j - 1 + w.len()]);
                    }
                }
                assert(o.subrange(j - q.len(), j) =~= o2.subrange(j - 1 - q.len(), j - 1));
            }
        }
    }
}

/// Whole-word occurrences of a primary implicit uniform never stay
/// unqualified: after that uniform's rule has run, every isolated
/// occurrence of its name in the result stands right after `ubo.`. The
/// later rules insert these names only in qualified form and never re-match
/// them, which the scenario tests exercise end to end.
pub proof fn lemma_primary_uniform_rule_qualifies(x: Seq<char>)
    ensures
        forall|j: int|
            #[trigger] isolated_word_at(
                replace_word_spec(x, "iTime"@, "ubo.iTime"@),
                "iTime"@,
                j,
                false,
            ) ==> j >= "ubo."@.len() && replace_word_spec(x, "iTime"@, "ubo.iTime"@).subrange(
                j - "ubo."@.len(),
                j,
            ) == "ubo."@,
        forall|j: int|
            #[trigger] isolated_word_at(
                replace_word_spec(x, "iResolution"@, "ubo.iResolution"@),
                "iResolution"@,
                j,
                false,
            ) ==> j >= "ubo."@.len() && replace_word_spec(
                x,
                "iResolution"@,
                "ubo.iResolution"@,
            ).subrange(j - "ubo."@.len(), j) == "ubo."@,
        forall|j: int|
            #[trigger] isolated_word_at(
                replace_word_spec(x, "iMouse"@, "ubo.iMouse"@),
                "iMouse"@,
                j,
                false,
            ) ==> j >= "ubo."@.len() && replace_word_spec(x, "iMouse"@, "ubo.iMouse"@).subrange(
                j - "ubo."@.len(),
                j,
            ) == "ubo."@,
{
    reveal_strlit("iTime");
    reveal_strlit("ubo.iTime");
    reveal_strlit("iResolution");
    reveal_strlit("ubo.iResolution");
    reveal_strlit("iMouse");
    reveal_strlit("ubo.iMouse");
    reveal_strlit("ubo.");
    let q = "ubo."@;
    assert("ubo.iTime"@ =~= q + "iTime"@);
    assert("ubo.iResolution"@ =~= q + "iResolution"@);
    assert("ubo.iMouse"@ =~= q + "iMouse"@);
    assert forall|j: int| 0 <= j < q.len() implies #[trigger] (q + "iTime"@).subrange(
        j,
        j + "iTime"@.len() as int,
    ) != "iTime"@ by {
        assert((q + "iTime"@).subrange(j, j + "iTime"@.len() as int)[0] == (q + "iTime"@)[j]);
        assert((q + "iTime"@)[j] == q[j]);
        assert(q[j] != 'i');
    }
    assert forall|j: int| 0 <= j < q.len() implies #[trigger] (q + "iResolution"@).subrange(
        j,
        j + "iResolution"@.len() as int,
    ) != "iResolution"@ by {
        assert((q + "iResolution"@).subrange(j, j + "iResolution"@.len() as int)[0] == (q
            + "iResolution"@)[j]);
        assert((q + "iResolution"@)[j] == q[j]);
        assert(q[j] != 'i');
    }
    assert forall|j: int| 0 <= j < q.len() implies #[trigger] (q + "iMouse"@).subrange(
        j,
        j + "iMouse"@.len() as int,
    ) != "iMouse"@ by {
        assert((q + "iMouse"@).subrange(j, j + "iMouse"@.len() as int)[0] == (q + "iMouse"@)[j]);
        assert((q + "iMouse"@)[j] == q[j]);
        assert(q[j] != 'i');
    }
    lemma_replace_word_qualifies_from(x, "iTime"@, q, false);
    lemma_replace_word_qualifies_from(x, "iResolution"@, q, false);
    lemma_replace_word_qualifies_from(x, "iMouse"@, q, false);
}

} // verus!
