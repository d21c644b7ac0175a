//! Properties of the scan, stated and proved against the model.

use vstd::prelude::*;

use crate::model::{
    dec_depth, is_close_spec, is_open_spec, lemma_render_app, lemma_render_singleton, render,
    render_tok, scan, spaces, toggles_string, write_char_toks, Tok, NEWLINE, SPACE,
};

verus! {

/// Is the scan position inside a string literal after the first `i` bytes?
pub open spec fn in_str_after(s: Seq<u8>, i: int) -> bool {
    scan(s, i).in_str
}

/// The scanner's nesting depth after the first `i` bytes.
pub open spec fn depth_after(s: Seq<u8>, i: int) -> nat {
    scan(s, i).depth
}

/// The contribution of the byte at position `j` to the bracket count:
/// +1 for a structural opening bracket, -1 for a structural closing
/// bracket, 0 for everything else and for anything inside a string.
pub open spec fn bracket_delta(s: Seq<u8>, j: int) -> int {
    if in_str_after(s, j + 1) {
        0
    } else if is_open_spec(s[j]) {
        1
    } else if is_close_spec(s[j]) {
        -1
    } else {
        0
    }
}

/// The plain bracket count over the first `i` bytes: opens minus closes,
/// ignoring everything inside strings. Unlike the scanner's depth this
/// count may go negative.
pub open spec fn raw_depth(s: Seq<u8>, i: int) -> int
    decreases i,
{
    if i <= 0 {
        0
    } else {
        raw_depth(s, i - 1) + bracket_delta(s, i - 1)
    }
}

/// No prefix closes more brackets than were opened before it.
pub open spec fn never_over_closed(s: Seq<u8>) -> bool {
    forall|i: int| 0 <= i <= s.len() ==> raw_depth(s, i) >= 0
}

/// Well-formed input: every string literal is closed, no prefix
/// over-closes, and the brackets balance out over the whole input.
pub open spec fn well_formed(s: Seq<u8>) -> bool {
    &&& !in_str_after(s, s.len() as int)
    &&& never_over_closed(s)
    &&& raw_depth(s, s.len() as int) == 0
}

/// As long as no prefix over-closes, the scanner's saturating depth agrees
/// with the plain bracket count.
pub proof fn lemma_depth_matches_raw(s: Seq<u8>, i: int)
    requires
        0 <= i <= s.len(),
        forall|j: int| 0 <= j <= i ==> raw_depth(s, j) >= 0,
    ensures
        depth_after(s, i) == raw_depth(s, i),
    decreases i,
{
    if i > 0 {
        lemma_depth_matches_raw(s, i - 1);
        let st = scan(s, i - 1);
        let c = s[i - 1];
        if !in_str_after(s, i) {
            if is_close_spec(c) {
                assert(raw_depth(s, i) == raw_depth(s, i - 1) - 1);
                assert(raw_depth(s, i) >= 0);
                assert(st.depth >= 1);
                assert(scan(s, i).depth == dec_depth(st.depth));
            }
        }
    }
}

/// Depth returns to zero: on well-formed input the nesting depth is zero
/// before the scan starts and zero again after the last byte.
pub proof fn lemma_depth_returns_to_zero(s: Seq<u8>)
    requires
        well_formed(s),
    ensures
        depth_after(s, 0) == 0,
        depth_after(s, s.len() as int) == 0,
{
    lemma_depth_matches_raw(s, s.len() as int);
}

/// String masking: a byte scanned inside a string literal (the opening
/// quote included) is copied verbatim — the step emits exactly that byte,
/// at every indent width, so the output segment for a string literal is
/// byte-for-byte the input segment.
pub proof fn lemma_string_masking(s: Seq<u8>, i: int, w: nat)
    requires
        0 <= i < s.len(),
        in_str_after(s, i + 1),
    ensures
        scan(s, i + 1).toks == scan(s, i).toks + seq![Tok::Byte(s[i])],
        render(scan(s, i + 1).toks, w) == render(scan(s, i).toks, w) + seq![s[i]],
{
    let st = scan(s, i);
    let c = s[i];
    assert(scan(s, i + 1).toks == st.toks + write_char_toks(c, true));
    assert(write_char_toks(c, true) =~= seq![Tok::Byte(c)]);
    lemma_render_app(st.toks, seq![Tok::Byte(c)], w);
    lemma_render_singleton(Tok::Byte(c), w);
}

/// String masking over a whole segment: if every position of `s[i..j]` lies
/// inside a string literal, the output grows over those steps by exactly
/// that segment, byte for byte, at every indent width.
pub proof fn lemma_string_segment_masked(s: Seq<u8>, i: int, j: int, w: nat)
    requires
        0 <= i <= j <= s.len(),
        forall|k: int| i < k <= j ==> #[trigger] in_str_after(s, k),
    ensures
        render(scan(s, j).toks, w) == render(scan(s, i).toks, w) + s.subrange(i, j),
    decreases j - i,
{
    if j > i {
        lemma_string_segment_masked(s, i, j - 1, w);
        lemma_string_masking(s, j - 1, w);
        assert(s.subrange(i, j - 1) + seq![s[j - 1]] =~= s.subrange(i, j));
        assert(render(scan(s, i).toks, w) + s.subrange(i, j - 1) + seq![s[j - 1]] =~= render(
            scan(s, i).toks,
            w,
        ) + (s.subrange(i, j - 1) + seq![s[j - 1]]));
    } else {
        assert(render(scan(s, i).toks, w) + s.subrange(i, i) =~= render(scan(s, i).toks, w));
    }
}

/// The indentation run a token contributes at width `w`: empty for a
/// literal byte, `d * w` spaces for a break at depth `d`.
pub open spec fn indent_run(t: Tok, w: nat) -> Seq<u8> {
    match t {
        Tok::Byte(b) => Seq::<u8>::empty(),
        Tok::Break(d) => spaces(d * w),
    }
}

/// Indent width parameterization: the token stream `scan(s, i).toks` never
/// mentions the width, so the line breaks are identical at every width;
/// and doubling the width appends a second copy of each break's
/// indentation run while leaving every literal byte unchanged.
pub proof fn lemma_indent_width_doubles(s: Seq<u8>, w: nat)
    ensures
        forall|k: int|
            0 <= k < scan(s, s.len() as int).toks.len() ==> #[trigger] render_tok(
                scan(s, s.len() as int).toks[k],
                2 * w,
            ) == render_tok(scan(s, s.len() as int).toks[k], w) + indent_run(
                scan(s, s.len() as int).toks[k],
                w,
            ),
{
    let ts = scan(s, s.len() as int).toks;
    assert forall|k: int| 0 <= k < ts.len() implies #[trigger] render_tok(ts[k], 2 * w)
        == render_tok(ts[k], w) + indent_run(ts[k], w) by {
        lemma_render_tok_doubles(ts[k], w);
    }
}

/// Rendering one token at a doubled width.
pub proof fn lemma_render_tok_doubles(t: Tok, w: nat)
    ensures
        render_tok(t, 2 * w) == render_tok(t, w) + indent_run(t, w),
{
    match t {
        Tok::Byte(b) => {
            assert(render_tok(t, w) + indent_run(t, w) =~= seq![b]);
        },
        Tok::Break(d) => {
            assert(d * (2 * w) == d * w + d * w) by (nonlinear_arith);
            assert(spaces((d * w + d * w) as nat) =~= spaces(d * w) + spaces(d * w));
            assert(seq![NEWLINE] + spaces(d * (2 * w)) =~= (seq![NEWLINE] + spaces(d * w)) + spaces(
                d * w,
            ));
        },
    }
}

/// Space suppression: a space scanned outside a string literal emits
/// nothing and changes no scanner state — no literal space outside a
/// string survives into the output.
pub proof fn lemma_space_suppressed(s: Seq<u8>, i: int, w: nat)
    requires
        0 <= i < s.len(),
        s[i] == SPACE,
        !in_str_after(s, i + 1),
    ensures
        scan(s, i + 1).toks == scan(s, i).toks,
        scan(s, i + 1).depth == scan(s, i).depth,
        scan(s, i + 1).in_str == scan(s, i).in_str,
        render(scan(s, i + 1).toks, w) == render(scan(s, i).toks, w),
{
    let st = scan(s, i);
    assert(!toggles_string(s[i], if i >= 1 {
        Some(s[i - 1])
    } else {
        None
    }));
    assert(scan(s, i + 1).toks =~= st.toks + Seq::<Tok>::empty());
    assert(st.toks + Seq::<Tok>::empty() =~= st.toks);
}

} // verus!
