//! The pattern scanners behind the rewrite rules. Each rule is a single
//! left-to-right pass: at every position the pattern is tried; on a match the
//! replacement is emitted and the scan resumes after the matched text, else
//! one character is copied. Repetitions in the patterns are greedy, and each
//! repetition's character class is disjoint from what follows it, so greedy
//! matching is exact.

use vstd::prelude::*;
use crate::text::{
    begins_with, contains_seq, first_newline, is_space_char, is_word_char, space_run, word_run, newline_run,
    lemma_space_run_bounds, lemma_word_run_bounds, lemma_newline_run_bounds,
    lemma_first_newline_bounds, space_char, word_char, match_at, push_all, space_run_from, word_run_from,
    newline_run_from, find_newline_from,
};

verus! {

// ---------------------------------------------------------------------------
// Whole-word replacement
// ---------------------------------------------------------------------------
/// The word `w` stands at the front of `s` as an isolated word: the previous
/// character (told by `prev_word`) and the character after it are not word
/// characters.
pub open spec fn word_at_front(s: Seq<char>, w: Seq<char>, prev_word: bool) -> bool {
    &&& !prev_word
    &&& 0 < w.len() <= s.len()
    &&& s.take(w.len() as int) == w
    &&& (s.len() == w.len() || !is_word_char(s[w.len() as int]))
}

/// One pass over `s`, replacing each isolated occurrence of the word `w` by
/// `r`. `prev_word` tells whether the character just before `s` is a word
/// character.
pub open spec fn replace_word_from(s: Seq<char>, w: Seq<char>, r: Seq<char>, prev_word: bool) -> Seq<
    char,
>
    decreases s.len(),
{
    if s.len() == 0 {
        Seq::empty()
    } else if word_at_front(s, w, prev_word) {
        r + replace_word_from(s.skip(w.len() as int), w, r, is_word_char(w.last()))
    } else {
        seq![s[0]] + replace_word_from(s.skip(1), w, r, is_word_char(s[0]))
    }
}

pub open spec fn replace_word_spec(s: Seq<char>, w: Seq<char>, r: Seq<char>) -> Seq<char> {
    replace_word_from(s, w, r, false)
}

/// Replace every isolated occurrence of the word `w` in `s` by `r`.
pub fn replace_word(s: &Vec<char>, w: &Vec<char>, r: &Vec<char>) -> (out: Vec<char>)
    requires
        w@.len() > 0,
    ensures
        out@ == replace_word_spec(s@, w@, r@),
{
    let mut out: Vec<char> = Vec::new();
    let mut i: usize = 0;
    let mut prev: bool = false;
    proof {
        assert(s@.skip(0) =~= s@);
    }
    while i < s.len()
        invariant
            i <= s@.len(),
            w@.len() > 0,
            prev == if i == 0 {
                false
            } else {
                is_word_char(s@[i - 1])
            },
            replace_word_spec(s@, w@, r@) == out@ + replace_word_from(
                s@.skip(i as int),
                w@,
                r@,
                prev,
            ),
        decreases s@.len() - i,
    {
        let ghost tail = s@.skip(i as int);
        let hit = !prev && match_at(s, i, w) && (i + w.len() == s.len() || !word_char(
            s[i + w.len()],
        ));
        if hit {
            proof {
                assert(tail.take(w@.len() as int) == w@);
                if i + w@.len() < s@.len() {
                    assert(tail[w@.len() as int] == s@[i + w@.len()]);
                }
                assert(word_at_front(tail, w@, prev));
                assert(tail.skip(w@.len() as int) =~= s@.skip(i + w@.len()));
                assert(tail[w@.len() - 1] == s@[i + w@.len() - 1]);
                assert(w@[w@.len() - 1] == tail.take(w@.len() as int)[w@.len() - 1]);
            }
            push_all(&mut out, r);
            let last_is_word = word_char(w[w.len() - 1]);
            i += w.len();
            prev = last_is_word;
        } else {
            proof {
                assert(!word_at_front(tail, w@, prev)) by {
                    if word_at_front(tail, w@, prev) {
                        assert(begins_with(tail, w@));
                        if i + w@.len() < s@.len() {
                            assert(tail[w@.len() as int] == s@[i + w@.len()]);
                        }
                    }
                }
                assert(tail[0] == s@[i as int]);
                assert(tail.skip(1) =~= s@.skip(i + 1));
                assert(out@ + (seq![tail[0]] + replace_word_from(tail.skip(1), w@, r@, is_word_char(
                    tail[0],
                ))) =~= (out@ + seq![tail[0]]) + replace_word_from(
                    tail.skip(1),
                    w@,
                    r@,
                    is_word_char(tail[0]),
                ));
            }
            out.push(s[i]);
            let c_word = word_char(s[i]);
            i += 1;
            prev = c_word;
        }
    }
    proof {
        assert(s@.skip(i as int).len() == 0);
        assert(out@ + Seq::<char>::empty() =~= out@);
    }
    out
}

// ---------------------------------------------------------------------------
// Macro-definition stripping
// ---------------------------------------------------------------------------
/// Length of a macro-definition alias at the front of `s`: the text
/// `#define`, whitespace, the single-letter alias, whitespace, and the
/// aliased expression, exactly in that shape.
pub open spec fn define_len(s: Seq<char>, short: char, full: Seq<char>) -> Option<int> {
    if !begins_with(s, "#define"@) {
        None
    } else {
        let s1 = s.skip("#define"@.len() as int);
        let a = space_run(s1);
        if a == 0 {
            None
        } else {
            let s2 = s1.skip(a);
            if !(s2.len() > 0 && s2[0] == short) {
                None
            } else {
                let s3 = s2.skip(1);
                let b = space_run(s3);
                if b == 0 {
                    None
                } else {
                    let s4 = s3.skip(b);
                    if !begins_with(s4, full) {
                        None
                    } else {
                        Some("#define"@.len() + a + 1 + b + full.len())
                    }
                }
            }
        }
    }
}

/// One pass over `s`, deleting each macro-definition alias.
pub open spec fn strip_define_from(s: Seq<char>, short: char, full: Seq<char>) -> Seq<char>
    decreases s.len(),
{
    if s.len() == 0 {
        Seq::empty()
    } else {
        let k: int = match define_len(s, short, full) {
            Some(k) => k,
            None => 0,
        };
        if 1 <= k <= s.len() {
            strip_define_from(s.skip(k), short, full)
        } else {
            seq![s[0]] + strip_define_from(s.skip(1), short, full)
        }
    }
}

pub proof fn lemma_define_len_bounds(s: Seq<char>, short: char, full: Seq<char>)
    ensures
        match define_len(s, short, full) {
            Some(k) => 1 <= k <= s.len(),
            None => true,
        },
{
    if define_len(s, short, full) is Some {
        let s1 = s.skip("#define"@.len() as int);
        let a = space_run(s1);
        let s2 = s1.skip(a);
        let s3 = s2.skip(1);
        let b = space_run(s3);
        let s4 = s3.skip(b);
        lemma_space_run_bounds(s1);
        lemma_space_run_bounds(s3);
    }
}

/// The matcher for a macro-definition alias at position `i`.
fn define_match_len(s: &Vec<char>, i: usize, short: char, full: &Vec<char>, pound: &Vec<char>) -> (m:
    Option<usize>)
    requires
        i <= s@.len(),
        pound@ == "#define"@,
    ensures
        match m {
            Some(k) => define_len(s@.skip(i as int), short, full@) == Some(k as int) && 1 <= k <= s@.len()
                - i,
            None => define_len(s@.skip(i as int), short, full@) is None,
        },
{
    let ghost tail = s@.skip(i as int);
    if !match_at(s, i, pound) {
        return None;
    }
    proof {
        broadcast use vstd::std_specs::vec::axiom_spec_len;

        assert(pound@.len() <= s@.skip(i as int).len());
        assert(s@.skip(i as int).len() == s@.len() - i);
        assert(i + pound@.len() <= s@.len());
        assert(s.len() == s@.len());
    }
    let j1 = i + pound.len();
    proof {
        assert(tail.skip("#define"@.len() as int) =~= s@.skip(j1 as int));
    }
    let j2 = space_run_from(s, j1);
    if j2 == j1 {
        return None;
    }
    if j2 == s.len() || s[j2] != short {
        proof {
            let s2 = tail.skip("#define"@.len() as int).skip((j2 - j1) as int);
            assert(s2 =~= s@.skip(j2 as int));
            if j2 < s@.len() {
                assert(s2[0] == s@[j2 as int]);
            }
        }
        return None;
    }
    let j3 = j2 + 1;
    proof {
        let s2 = tail.skip("#define"@.len() as int).skip((j2 - j1) as int);
        assert(s2 =~= s@.skip(j2 as int));
        assert(s2[0] == s@[j2 as int]);
        assert(s2.skip(1) =~= s@.skip(j3 as int));
    }
    let j4 = space_run_from(s, j3);
    if j4 == j3 {
        return None;
    }
    if !match_at(s, j4, full) {
        proof {
            assert(s@.skip(j3 as int).skip((j4 - j3) as int) =~= s@.skip(j4 as int));
        }
        return None;
    }
    proof {
        assert(s@.skip(j3 as int).skip((j4 - j3) as int) =~= s@.skip(j4 as int));
        lemma_define_len_bounds(tail, short, full@);
    }
    Some(j4 + full.len() - i)
}

/// Delete every macro-definition alias (`#define`, whitespace, `short`,
/// whitespace, `full`) from `s`.
pub fn strip_define(s: &Vec<char>, short: char, full: &Vec<char>) -> (out: Vec<char>)
    ensures
        out@ == strip_define_from(s@, short, full@),
{
    let pound = crate::text::chars_of("#define");
    let mut out: Vec<char> = Vec::new();
    let mut i: usize = 0;
    proof {
        assert(s@.skip(0) =~= s@);
    }
    while i < s.len()
        invariant
            i <= s@.len(),
            pound@ == "#define"@,
            strip_define_from(s@, short, full@) == out@ + strip_define_from(
                s@.skip(i as int),
                short,
                full@,
            ),
        decreases s@.len() - i,
    {
        let ghost tail = s@.skip(i as int);
        match define_match_len(s, i, short, full, &pound) {
            Some(k) => {
                proof {
                    assert(tail.skip(k as int) =~= s@.skip(i + k));
                }
                i += k;
            },
            None => {
                proof {
                    assert(tail[0] == s@[i as int]);
                    assert(tail.skip(1) =~= s@.skip(i + 1));
                    assert(out@ + (seq![tail[0]] + strip_define_from(tail.skip(1), short, full@))
                        =~= (out@ + seq![tail[0]]) + strip_define_from(tail.skip(1), short, full@));
                }
                out.push(s[i]);
                i += 1;
            },
        }
    }
    proof {
        assert(s@.skip(i as int).len() == 0);
        assert(out@ + Seq::<char>::empty() =~= out@);
    }
    out
}

// ---------------------------------------------------------------------------
// Promotional-comment line stripping
// ---------------------------------------------------------------------------
/// Length of the first line of `s`, its line feed included; all of `s`
/// where no line feed remains.
pub open spec fn first_line_len(s: Seq<char>) -> int {
    match first_newline(s) {
        Some(j) => j + 1,
        None => s.len() as int,
    }
}

pub proof fn lemma_first_line_len_bounds(s: Seq<char>)
    requires
        s.len() > 0,
    ensures
        1 <= first_line_len(s) <= s.len(),
{
    lemma_first_newline_bounds(s);
}

/// One pass over `s`, line by line: every line that carries the
/// promotional marker anywhere in it is deleted whole, its line feed
/// included; every other line is kept as it is.
pub open spec fn strip_promo_from(s: Seq<char>) -> Seq<char>
    decreases s.len(),
{
    if s.len() == 0 {
        Seq::empty()
    } else {
        let l = first_line_len(s);
        if 1 <= l <= s.len() {
            if contains_seq(s.take(l), "// http://www.pouet.net"@) {
                strip_promo_from(s.skip(l))
            } else {
                s.take(l) + strip_promo_from(s.skip(l))
            }
        } else {
            seq![s[0]] + strip_promo_from(s.skip(1))
        }
    }
}

/// Whether `p` stands anywhere in `s` between `from` and `to`.
fn contains_in_range(s: &Vec<char>, from: usize, to: usize, p: &Vec<char>) -> (b: bool)
    requires
        from <= to <= s@.len(),
        p@.len() > 0,
    ensures
        b == contains_seq(s@.subrange(from as int, to as int), p@),
{
    let ghost sub = s@.subrange(from as int, to as int);
    let mut j: usize = from;
    while to - j >= p.len()
        invariant
            from <= j <= to <= s@.len(),
            p@.len() > 0,
            sub == s@.subrange(from as int, to as int),
            forall|jj: int|
                from <= jj < j ==> !(jj + p@.len() <= to && #[trigger] s@.subrange(
                    jj,
                    jj + p@.len() as int,
                ) == p@),
        decreases to - j,
    {
        if match_at(s, j, p) {
            proof {
                assert(s@.subrange(j as int, j + p@.len() as int) =~= s@.skip(j as int).take(
                    p@.len() as int,
                ));
                assert(sub.subrange(j - from, j - from + p@.len() as int) =~= s@.subrange(
                    j as int,
                    j + p@.len() as int,
                ));
            }
            return true;
        }
        proof {
            assert(s@.subrange(j as int, j + p@.len() as int) =~= s@.skip(j as int).take(
                p@.len() as int,
            ));
        }
        j += 1;
    }
    proof {
        assert(!contains_seq(sub, p@)) by {
            if contains_seq(sub, p@) {
                let q = choose|q: int|
                    0 <= q && q + p@.len() <= sub.len() && #[trigger] sub.subrange(
                        q,
                        q + p@.len() as int,
                    ) == p@;
                assert(sub.subrange(q, q + p@.len() as int) =~= s@.subrange(
                    from + q,
                    from + q + p@.len() as int,
                ));
                assert(from <= from + q < j);
            }
        }
    }
    false
}

/// Delete every line that carries the promotional-comment marker, the
/// line feed that ends it included.
pub fn strip_promo(s: &Vec<char>) -> (out: Vec<char>)
    ensures
        out@ == strip_promo_from(s@),
{
    let marker = crate::text::chars_of("// http://www.pouet.net");
    proof {
        reveal_strlit("// http://www.pouet.net");
        assert(s@.skip(0) =~= s@);
    }
    let mut out: Vec<char> = Vec::new();
    let mut i: usize = 0;
    while i < s.len()
        invariant
            i <= s@.len(),
            marker@ == "// http://www.pouet.net"@,
            marker@.len() > 0,
            strip_promo_from(s@) == out@ + strip_promo_from(s@.skip(i as int)),
        decreases s@.len() - i,
    {
        let ghost tail = s@.skip(i as int);
        let line_end = match find_newline_from(s, i) {
            Some(nl) => nl + 1,
            None => s.len(),
        };
        proof {
            lemma_first_line_len_bounds(tail);
            assert(first_line_len(tail) == line_end - i);
            assert(tail.take((line_end - i) as int) =~= s@.subrange(i as int, line_end as int));
            assert(tail.skip((line_end - i) as int) =~= s@.skip(line_end as int));
        }
        if contains_in_range(s, i, line_end, &marker) {
            proof {
                assert(strip_promo_from(tail) == strip_promo_from(s@.skip(line_end as int)));
            }
        } else {
            let ghost out_before = out@;
            let mut k: usize = i;
            while k < line_end
                invariant
                    i <= k <= line_end <= s@.len(),
                    out@ == out_before + s@.subrange(i as int, k as int),
                decreases line_end - k,
            {
                out.push(s[k]);
                proof {
                    assert(out_before + s@.subrange(i as int, k as int) + seq![s@[k as int]]
                        =~= out_before + s@.subrange(i as int, k + 1));
                }
                k += 1;
            }
            proof {
                assert(strip_promo_from(tail) == tail.take((line_end - i) as int)
                    + strip_promo_from(s@.skip(line_end as int)));
                assert(out_before + (tail.take((line_end - i) as int) + strip_promo_from(
                    s@.skip(line_end as int),
                )) =~= (out_before + tail.take((line_end - i) as int)) + strip_promo_from(
                    s@.skip(line_end as int),
                ));
                assert(out@ =~= out_before + tail.take((line_end - i) as int));
            }
        }
        i = line_end;
    }
    proof {
        assert(s@.skip(i as int).len() == 0);
        assert(out@ + Seq::<char>::empty() =~= out@);
    }
    out
}

// ---------------------------------------------------------------------------
// Entry-point signature replacement
// ---------------------------------------------------------------------------
/// The words of the per-frame entry-point signature, built once from
/// literals.
pub struct SigWords {
    pub w_void: Vec<char>,
    pub w_main_image: Vec<char>,
    pub w_lparen: Vec<char>,
    pub w_out: Vec<char>,
    pub w_vec4: Vec<char>,
    pub w_comma: Vec<char>,
    pub w_in: Vec<char>,
    pub w_vec2: Vec<char>,
    pub w_rparen: Vec<char>,
}

pub open spec fn sig_words_ok(w: &SigWords) -> bool {
    &&& w.w_void@ == "void"@
    &&& w.w_main_image@ == "mainImage"@
    &&& w.w_lparen@ == "("@
    &&& w.w_out@ == "out"@
    &&& w.w_vec4@ == "vec4"@
    &&& w.w_comma@ == ","@
    &&& w.w_in@ == "in"@
    &&& w.w_vec2@ == "vec2"@
    &&& w.w_rparen@ == ")"@
}

pub fn make_sig_words() -> (w: SigWords)
    ensures
        sig_words_ok(&w),
{
    SigWords {
        w_void: crate::text::chars_of("void"),
        w_main_image: crate::text::chars_of("mainImage"),
        w_lparen: crate::text::chars_of("("),
        w_out: crate::text::chars_of("out"),
        w_vec4: crate::text::chars_of("vec4"),
        w_comma: crate::text::chars_of(","),
        w_in: crate::text::chars_of("in"),
        w_vec2: crate::text::chars_of("vec2"),
        w_rparen: crate::text::chars_of(")"),
    }
}

/// Length of an entry-point signature at the front of `s`: the two-parameter
/// out/in signature with any identifiers for the two parameter names, and
/// whitespace wherever the language allows it.
pub open spec fn entry_sig_len(s: Seq<char>) -> Option<int> {
    if !begins_with(s, "void"@) {
        None
    } else {
        let t1 = s.skip("void"@.len() as int);
        let a1 = space_run(t1);
        if a1 == 0 {
            None
        } else {
            let t2 = t1.skip(a1);
            if !begins_with(t2, "mainImage"@) {
                None
            } else {
                let t3 = t2.skip("mainImage"@.len() as int);
                let t4 = t3.skip(space_run(t3));
                if !begins_with(t4, "("@) {
                    None
                } else {
                    let t5 = t4.skip("("@.len() as int);
                    let t6 = t5.skip(space_run(t5));
                    if !begins_with(t6, "out"@) {
                        None
                    } else {
                        let t7 = t6.skip("out"@.len() as int);
                        let a2 = space_run(t7);
                        if a2 == 0 {
                            None
                        } else {
                            let t8 = t7.skip(a2);
                            entry_sig_len_params(s, t8)
                        }
                    }
                }
            }
        }
    }
}

/// The parameter part of the signature: `vec4`, a name, `,`, `in`, `vec2`, a
/// name, `)`. `s` is the whole text the signature started in, `t8` the rest
/// after `out` and its whitespace.
pub open spec fn entry_sig_len_params(s: Seq<char>, t8: Seq<char>) -> Option<int> {
    if !begins_with(t8, "vec4"@) {
        None
    } else {
        let t9 = t8.skip("vec4"@.len() as int);
        let a3 = space_run(t9);
        if a3 == 0 {
            None
        } else {
            let t10 = t9.skip(a3);
            let b1 = word_run(t10);
            if b1 == 0 {
                None
            } else {
                let t11 = t10.skip(b1);
                let t12 = t11.skip(space_run(t11));
                if !begins_with(t12, ","@) {
                    None
                } else {
                    let t13 = t12.skip(","@.len() as int);
                    let t14 = t13.skip(space_run(t13));
                    if !begins_with(t14, "in"@) {
                        None
                    } else {
                        let t15 = t14.skip("in"@.len() as int);
                        let a4 = space_run(t15);
                        if a4 == 0 {
                            None
                        } else {
                            let t16 = t15.skip(a4);
                            if !begins_with(t16, "vec2"@) {
                                None
                            } else {
                                let t17 = t16.skip("vec2"@.len() as int);
                                let a5 = space_run(t17);
                                if a5 == 0 {
                                    None
                                } else {
                                    let t18 = t17.skip(a5);
                                    let b2 = word_run(t18);
                                    if b2 == 0 {
                                        None
                                    } else {
                                        let t19 = t18.skip(b2);
                                        let t20 = t19.skip(space_run(t19));
                                        if !begins_with(t20, ")"@) {
                                            None
                                        } else {
                                            Some(s.len() - t20.len() + ")"@.len())
                                        }
                                    }
                                }
                            }
                        }
                    }
                }
            }
        }
    }
}


pub proof fn lemma_entry_sig_len_params_bounds(s: Seq<char>, t8: Seq<char>)
    requires
        t8.len() <= s.len(),
    ensures
        match entry_sig_len_params(s, t8) {
            Some(k) => 1 <= k <= s.len(),
            None => true,
        },
{
    if entry_sig_len_params(s, t8) is Some {
        reveal_strlit(")");
        let t9 = t8.skip("vec4"@.len() as int);
        lemma_space_run_bounds(t9);
        let t10 = t9.skip(space_run(t9));
        lemma_word_run_bounds(t10);
        let t11 = t10.skip(word_run(t10));
        lemma_space_run_bounds(t11);
        let t12 = t11.skip(space_run(t11));
        let t13 = t12.skip(","@.len() as int);
        lemma_space_run_bounds(t13);
        let t14 = t13.skip(space_run(t13));
        let t15 = t14.skip("in"@.len() as int);
        lemma_space_run_bounds(t15);
        let t16 = t15.skip(space_run(t15));
        let t17 = t16.skip("vec2"@.len() as int);
        lemma_space_run_bounds(t17);
        let t18 = t17.skip(space_run(t17));
        lemma_word_run_bounds(t18);
        let t19 = t18.skip(word_run(t18));
        lemma_space_run_bounds(t19);
        let t20 = t19.skip(space_run(t19));
        assert(t20.len() >= 1);
        assert(t20.len() <= t8.len());
    }
}

pub proof fn lemma_entry_sig_len_bounds(s: Seq<char>)
    ensures
        match entry_sig_len(s) {
            Some(k) => 1 <= k <= s.len(),
            None => true,
        },
{
    if entry_sig_len(s) is Some {
        let t1 = s.skip("void"@.len() as int);
        lemma_space_run_bounds(t1);
        let t2 = t1.skip(space_run(t1));
        let t3 = t2.skip("mainImage"@.len() as int);
        lemma_space_run_bounds(t3);
        let t4 = t3.skip(space_run(t3));
        let t5 = t4.skip("("@.len() as int);
        lemma_space_run_bounds(t5);
        let t6 = t5.skip(space_run(t5));
        let t7 = t6.skip("out"@.len() as int);
        lemma_space_run_bounds(t7);
        let t8 = t7.skip(space_run(t7));
        assert(t8.len() <= s.len());
        lemma_entry_sig_len_params_bounds(s, t8);
    }
}

/// One pass over `s`, replacing each entry-point signature by the
/// zero-parameter one.
pub open spec fn replace_entry_from(s: Seq<char>) -> Seq<char>
    decreases s.len(),
{
    if s.len() == 0 {
        Seq::empty()
    } else {
        let k: int = match entry_sig_len(s) {
            Some(k) => k,
            None => 0,
        };
        if 1 <= k <= s.len() {
            "void main()"@ + replace_entry_from(s.skip(k))
        } else {
            seq![s[0]] + replace_entry_from(s.skip(1))
        }
    }
}

/// Literal match helper: the end index of `p` standing at `j`.
fn lit_end(s: &Vec<char>, j: usize, p: &Vec<char>) -> (r: Option<usize>)
    requires
        j <= s@.len(),
    ensures
        match r {
            Some(j2) => j2 == j + p@.len() && j <= j2 <= s@.len() && begins_with(
                s@.skip(j as int),
                p@,
            ) && s@.skip(j2 as int) == s@.skip(j as int).skip(p@.len() as int),
            None => !begins_with(s@.skip(j as int), p@),
        },
{
    if match_at(s, j, p) {
        proof {
            broadcast use vstd::std_specs::vec::axiom_spec_len;

            assert(s.len() == s@.len());
            assert(p@.len() <= s@.skip(j as int).len());
            assert(s@.skip(j + p@.len()) =~= s@.skip(j as int).skip(p@.len() as int));
        }
        Some(j + p.len())
    } else {
        None
    }
}

/// The matcher for the parameter part, from position `j8` on. `i` is where
/// the signature started.
#[verifier::rlimit(100)]
fn entry_match_params(s: &Vec<char>, i: usize, j8: usize, w: &SigWords) -> (m: Option<usize>)
    requires
        i <= j8 <= s@.len(),
        sig_words_ok(w),
    ensures
        match m {
            Some(k) => entry_sig_len_params(s@.skip(i as int), s@.skip(j8 as int)) == Some(
                k as int,
            ) && 1 <= k <= s@.len() - i,
            None => entry_sig_len_params(s@.skip(i as int), s@.skip(j8 as int)) is None,
        },
{
    let ghost t0 = s@.skip(i as int);
    let j9 = match lit_end(s, j8, &w.w_vec4) {
        Some(j) => j,
        None => {
            return None;
        },
    };
    let j10 = space_run_from(s, j9);
    proof {
        assert(s@.skip(j9 as int).skip((j10 - j9) as int) =~= s@.skip(j10 as int));
    }
    if j10 == j9 {
        return None;
    }
    let j11 = word_run_from(s, j10);
    proof {
        assert(s@.skip(j10 as int).skip((j11 - j10) as int) =~= s@.skip(j11 as int));
    }
    if j11 == j10 {
        return None;
    }
    let j12 = space_run_from(s, j11);
    proof {
        assert(s@.skip(j11 as int).skip((j12 - j11) as int) =~= s@.skip(j12 as int));
    }
    let j13 = match lit_end(s, j12, &w.w_comma) {
        Some(j) => j,
        None => {
            return None;
        },
    };
    let j14 = space_run_from(s, j13);
    proof {
        assert(s@.skip(j13 as int).skip((j14 - j13) as int) =~= s@.skip(j14 as int));
    }
    let j15 = match lit_end(s, j14, &w.w_in) {
        Some(j) => j,
        None => {
            return None;
        },
    };
    let j16 = space_run_from(s, j15);
    proof {
        assert(s@.skip(j15 as int).skip((j16 - j15) as int) =~= s@.skip(j16 as int));
    }
    if j16 == j15 {
        return None;
    }
    let j17 = match lit_end(s, j16, &w.w_vec2) {
        Some(j) => j,
        None => {
            return None;
        },
    };
    let j18 = space_run_from(s, j17);
    proof {
        assert(s@.skip(j17 as int).skip((j18 - j17) as int) =~= s@.skip(j18 as int));
    }
    if j18 == j17 {
        return None;
    }
    let j19 = word_run_from(s, j18);
    proof {
        assert(s@.skip(j18 as int).skip((j19 - j18) as int) =~= s@.skip(j19 as int));
    }
    if j19 == j18 {
        return None;
    }
    let j20 = space_run_from(s, j19);
    proof {
        assert(s@.skip(j19 as int).skip((j20 - j19) as int) =~= s@.skip(j20 as int));
    }
    match lit_end(s, j20, &w.w_rparen) {
        Some(j21) => {
            proof {
                reveal_strlit(")");
                assert(s@.skip(j20 as int).len() == s@.len() - j20);
                assert(t0.len() == s@.len() - i);
            }
            Some(j21 - i)
        },
        None => None,
    }
}

/// The matcher for an entry-point signature at position `i`.
#[verifier::rlimit(100)]
fn entry_match_len(s: &Vec<char>, i: usize, w: &SigWords) -> (m: Option<usize>)
    requires
        i <= s@.len(),
        sig_words_ok(w),
    ensures
        match m {
            Some(k) => entry_sig_len(s@.skip(i as int)) == Some(k as int) && 1 <= k <= s@.len()
                - i,
            None => entry_sig_len(s@.skip(i as int)) is None,
        },
{
    let ghost t0 = s@.skip(i as int);
    proof {
        assert(t0.skip(0) =~= t0);
    }
    let j1 = match lit_end(s, i, &w.w_void) {
        Some(j) => j,
        None => {
            return None;
        },
    };
    let j2 = space_run_from(s, j1);
    proof {
        assert(s@.skip(j1 as int).skip((j2 - j1) as int) =~= s@.skip(j2 as int));
    }
    if j2 == j1 {
        return None;
    }
    let j3 = match lit_end(s, j2, &w.w_main_image) {
        Some(j) => j,
        None => {
            return None;
        },
    };
    let j4 = space_run_from(s, j3);
    proof {
        assert(s@.skip(j3 as int).skip((j4 - j3) as int) =~= s@.skip(j4 as int));
    }
    let j5 = match lit_end(s, j4, &w.w_lparen) {
        Some(j) => j,
        None => {
            return None;
        },
    };
    let j6 = space_run_from(s, j5);
    proof {
        assert(s@.skip(j5 as int).skip((j6 - j5) as int) =~= s@.skip(j6 as int));
    }
    let j7 = match lit_end(s, j6, &w.w_out) {
        Some(j) => j,
        None => {
            return None;
        },
    };
    let j8 = space_run_from(s, j7);
    proof {
        assert(s@.skip(j7 as int).skip((j8 - j7) as int) =~= s@.skip(j8 as int));
    }
    if j8 == j7 {
        return None;
    }
    entry_match_params(s, i, j8, w)
}

/// Replace every entry-point signature in `s` by `void main()`.
pub fn replace_entry(s: &Vec<char>) -> (out: Vec<char>)
    ensures
        out@ == replace_entry_from(s@),
{
    let words = make_sig_words();
    let void_main = crate::text::chars_of("void main()");
    let mut out: Vec<char> = Vec::new();
    let mut i: usize = 0;
    proof {
        assert(s@.skip(0) =~= s@);
    }
    while i < s.len()
        invariant
            i <= s@.len(),
            sig_words_ok(&words),
            void_main@ == "void main()"@,
            replace_entry_from(s@) == out@ + replace_entry_from(s@.skip(i as int)),
        decreases s@.len() - i,
    {
        let ghost tail = s@.skip(i as int);
        match entry_match_len(s, i, &words) {
            Some(k) => {
                proof {
                    assert(tail.skip(k as int) =~= s@.skip(i + k));
                }
                push_all(&mut out, &void_main);
                i += k;
            },
            None => {
                proof {
                    assert(tail[0] == s@[i as int]);
                    assert(tail.skip(1) =~= s@.skip(i + 1));
                    assert(out@ + (seq![tail[0]] + replace_entry_from(tail.skip(1))) =~= (out@
                        + seq![tail[0]]) + replace_entry_from(tail.skip(1)));
                }
                out.push(s[i]);
                i += 1;
            },
        }
    }
    proof {
        assert(s@.skip(i as int).len() == 0);
        assert(out@ + Seq::<char>::empty() =~= out@);
    }
    out
}

// ---------------------------------------------------------------------------
// Blank-line collapsing
// ---------------------------------------------------------------------------
/// One pass over `s`: each run of three or more line feeds becomes exactly
/// two.
pub open spec fn collapse_from(s: Seq<char>) -> Seq<char>
    decreases s.len(),
{
    if s.len() == 0 {
        Seq::empty()
    } else if s.len() >= 3 && s[0] == '\n' && s[1] == '\n' && s[2] == '\n' {
        let k = newline_run(s);
        if 3 <= k <= s.len() {
            seq!['\n', '\n'] + collapse_from(s.skip(k))
        } else {
            seq![s[0]] + collapse_from(s.skip(1))
        }
    } else {
        seq![s[0]] + collapse_from(s.skip(1))
    }
}

/// Collapse every run of three or more line feeds in `s` down to two, so
/// that at most one blank line stands between stretches of text.
pub fn collapse_blank_lines(s: &Vec<char>) -> (out: Vec<char>)
    ensures
        out@ == collapse_from(s@),
{
    let mut out: Vec<char> = Vec::new();
    let mut i: usize = 0;
    proof {
        assert(s@.skip(0) =~= s@);
    }
    while i < s.len()
        invariant
            i <= s@.len(),
            collapse_from(s@) == out@ + collapse_from(s@.skip(i as int)),
        decreases s@.len() - i,
    {
        let ghost tail = s@.skip(i as int);
        let triple = s.len() - i > 2 && s[i] == '\n' && s[i + 1] == '\n' && s[i + 2] == '\n';
        if triple {
            let j = newline_run_from(s, i);
            proof {
                assert(tail[0] == s@[i as int]);
                assert(tail[1] == s@[i + 1]);
                assert(tail[2] == s@[i + 2]);
                lemma_newline_run_bounds(tail);
                assert(newline_run(tail) == j - i);
                assert(j - i >= 3) by {
                    if j - i < 3 {
                        assert(tail[j - i] == '\n');
                    }
                }
                assert(tail.skip((j - i) as int) =~= s@.skip(j as int));
            }
            let ghost out_before = out@;
            out.push('\n');
            out.push('\n');
            proof {
                assert(out@ =~= out_before + seq!['\n', '\n']);
                assert(out_before + (seq!['\n', '\n'] + collapse_from(tail.skip((j - i) as int)))
                    =~= (out_before + seq!['\n', '\n']) + collapse_from(
                    tail.skip((j - i) as int),
                ));
            }
            i = j;
        } else {
            proof {
                assert(tail[0] == s@[i as int]);
                if tail.len() >= 3 {
                    assert(tail[1] == s@[i + 1]);
                    assert(tail[2] == s@[i + 2]);
                }
                assert(tail.skip(1) =~= s@.skip(i + 1));
                assert(out@ + (seq![tail[0]] + collapse_from(tail.skip(1))) =~= (out@
                    + seq![tail[0]]) + collapse_from(tail.skip(1)));
            }
            out.push(s[i]);
            i += 1;
        }
    }
    proof {
        assert(s@.skip(i as int).len() == 0);
        assert(out@ + Seq::<char>::empty() =~= out@);
    }
    out
}

// ---------------------------------------------------------------------------
// Trimming
// ---------------------------------------------------------------------------
/// Length of `s` once trailing whitespace is dropped.
pub open spec fn trim_end_len(s: Seq<char>) -> int
    decreases s.len(),
{
    if s.len() > 0 && is_space_char(s[s.len() - 1]) {
        trim_end_len(s.take(s.len() - 1))
    } else {
        s.len() as int
    }
}

/// `s` without leading and trailing whitespace.
pub open spec fn trim_spec(s: Seq<char>) -> Seq<char> {
    let t = s.take(trim_end_len(s));
    t.skip(space_run(t))
}

pub proof fn lemma_trim_end_len_bounds(s: Seq<char>)
    ensures
        0 <= trim_end_len(s) <= s.len(),
        forall|j: int| trim_end_len(s) <= j < s.len() ==> is_space_char(s[j]),
        trim_end_len(s) > 0 ==> !is_space_char(s[trim_end_len(s) - 1]),
    decreases s.len(),
{
    if s.len() > 0 && is_space_char(s[s.len() - 1]) {
        let t = s.take(s.len() - 1);
        lemma_trim_end_len_bounds(t);
        assert forall|j: int| trim_end_len(s) <= j < s.len() implies is_space_char(s[j]) by {
            if j < s.len() - 1 {
                assert(t[j] == s[j]);
            }
        }
        if trim_end_len(s) > 0 {
            assert(t[trim_end_len(s) - 1] == s[trim_end_len(s) - 1]);
        }
    }
}

/// What trimming leaves: the contiguous middle of `s`, with no whitespace at
/// either end.
pub proof fn lemma_trim_shape(s: Seq<char>)
    ensures
        trim_spec(s) == s.subrange(
            space_run(s.take(trim_end_len(s))),
            trim_end_len(s),
        ),
        0 <= space_run(s.take(trim_end_len(s))) <= trim_end_len(s) <= s.len(),
        trim_spec(s).len() > 0 ==> !is_space_char(trim_spec(s)[0]),
        trim_spec(s).len() > 0 ==> !is_space_char(trim_spec(s)[trim_spec(s).len() - 1]),
{
    lemma_trim_end_len_bounds(s);
    let e = trim_end_len(s);
    let t = s.take(e);
    lemma_space_run_bounds(t);
    let a = space_run(t);
    assert(t.skip(a) =~= s.subrange(a, e));
    if trim_spec(s).len() > 0 {
        assert(trim_spec(s)[0] == s[a]);
        assert(a < e);
        assert(t[a] == s[a]);
        assert(trim_spec(s)[trim_spec(s).len() - 1] == s[e - 1]);
        assert(t[e - 1] == s[e - 1]);
        assert(e == trim_end_len(s));
    }
}

/// Drop leading and trailing whitespace from `s`.
pub fn trim(s: &Vec<char>) -> (out: Vec<char>)
    ensures
        out@ == trim_spec(s@),
{
    let mut e: usize = s.len();
    proof {
        assert(s@.take(e as int) =~= s@);
    }
    while e > 0 && space_char(s[e - 1])
        invariant
            e <= s@.len(),
            trim_end_len(s@) == trim_end_len(s@.take(e as int)),
        decreases e,
    {
        proof {
            let t = s@.take(e as int);
            assert(t[t.len() - 1] == s@[e - 1]);
            assert(t.take(t.len() - 1) =~= s@.take(e - 1));
        }
        e -= 1;
    }
    proof {
        let t = s@.take(e as int);
        if e > 0 {
            assert(t[t.len() - 1] == s@[e - 1]);
        }
        assert(trim_end_len(t) == t.len());
        assert(trim_end_len(s@) == e);
    }
    let ghost t = s@.take(e as int);
    let mut a: usize = 0;
    proof {
        assert(t.skip(0) =~= t);
    }
    while a < e && space_char(s[a])
        invariant
            a <= e <= s@.len(),
            t == s@.take(e as int),
            space_run(t) == a + space_run(t.skip(a as int)),
        decreases e - a,
    {
        proof {
            assert(t.skip(a as int)[0] == s@[a as int]);
            assert(t.skip(a as int).skip(1) =~= t.skip(a + 1));
        }
        a += 1;
    }
    proof {
        if a < e {
            assert(t.skip(a as int)[0] == s@[a as int]);
        } else {
            assert(t.skip(a as int).len() == 0);
        }
        assert(space_run(t.skip(a as int)) == 0);
        assert(space_run(t) == a);
    }
    let mut out: Vec<char> = Vec::new();
    let mut k: usize = a;
    while k < e
        invariant
            a <= k <= e <= s@.len(),
            out@ == s@.subrange(a as int, k as int),
        decreases e - k,
    {
        out.push(s[k]);
        proof {
            assert(s@.subrange(a as int, k as int) + seq![s@[k as int]] =~= s@.subrange(
                a as int,
                k + 1,
            ));
        }
        k += 1;
    }
    proof {
        assert(out@ =~= t.skip(a as int));
    }
    out
}

} // verus!
