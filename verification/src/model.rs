//! Mathematical model of the formatter.
//!
//! The scan is modelled in two stages. The first stage walks the input and
//! produces a stream of tokens: literal bytes, and line breaks tagged with
//! the nesting depth at which they occur. The second stage renders that
//! stream to bytes, turning each break into a newline followed by
//! `depth * width` spaces. Splitting the model this way makes the
//! width-independence of the structural decisions a fact of the
//! definitions: the token stream never mentions the indent width.

use vstd::prelude::*;

verus! {

/// The bytes the scanner gives structural meaning to.
pub const QUOTE: u8 = 34;

pub const BACKSLASH: u8 = 92;

pub const OPEN_BRACE: u8 = 123;

pub const CLOSE_BRACE: u8 = 125;

pub const OPEN_BRACKET: u8 = 91;

pub const CLOSE_BRACKET: u8 = 93;

pub const COMMA: u8 = 44;

pub const COLON: u8 = 58;

pub const SPACE: u8 = 32;

pub const NEWLINE: u8 = 10;


/// One unit of formatter output: a literal byte, or a line break at the
/// given nesting depth.
pub enum Tok {
    Byte(u8),
    Break(nat),
}

/// The opening brackets.
pub open spec fn is_open_spec(c: u8) -> bool {
    c == OPEN_BRACE || c == OPEN_BRACKET
}

/// The closing brackets.
pub open spec fn is_close_spec(c: u8) -> bool {
    c == CLOSE_BRACE || c == CLOSE_BRACKET
}

/// A byte toggles string mode exactly when it is a quote that is not
/// preceded by a backslash. This is a deliberate two-state simplification,
/// not an escape-sequence parser: a quote after `\\` (an escaped backslash)
/// is still treated as escaped.
pub open spec fn toggles_string(c: u8, prev: Option<u8>) -> bool {
    c == QUOTE && match prev {
        Some(p) => p != BACKSLASH,
        None => true,
    }
}

/// The bytes a single written character contributes: inside a string every
/// byte is copied verbatim; outside a string a space is suppressed and a
/// colon gains exactly one trailing space.
pub open spec fn write_char_bytes(c: u8, in_str: bool) -> Seq<u8> {
    if !in_str && c == SPACE {
        Seq::<u8>::empty()
    } else if !in_str && c == COLON {
        seq![c, SPACE]
    } else {
        seq![c]
    }
}

/// The same contribution, as literal-byte tokens.
pub open spec fn write_char_toks(c: u8, in_str: bool) -> Seq<Tok> {
    if !in_str && c == SPACE {
        Seq::<Tok>::empty()
    } else if !in_str && c == COLON {
        seq![Tok::Byte(c), Tok::Byte(SPACE)]
    } else {
        seq![Tok::Byte(c)]
    }
}

/// Depth decrement saturates at zero: an unmatched closing bracket leaves
/// the depth at zero instead of underflowing. This is the documented
/// malformed-input policy; it is never reached on balanced input.
pub open spec fn dec_depth(d: nat) -> nat {
    if d > 0 {
        (d - 1) as nat
    } else {
        0
    }
}

/// An opening bracket breaks the line unless the very next byte closes it
/// (an empty container stays on one line).
pub open spec fn breaks_after_open(next: Option<u8>) -> bool {
    match next {
        Some(n) => !is_close_spec(n),
        None => false,
    }
}

/// A closing bracket is moved to a fresh line unless the byte just before
/// it opened the container (an empty container stays on one line).
pub open spec fn breaks_before_close(prev: Option<u8>) -> bool {
    match prev {
        Some(p) => !is_open_spec(p),
        None => false,
    }
}

/// Tokens and new depth for one byte scanned outside a string: an opening
/// bracket deepens the nesting and usually breaks the line after itself, a
/// closing bracket shallows it and usually breaks before itself, a comma
/// breaks at the current depth, and anything else is written as a plain
/// character.
pub open spec fn process_char_toks(
    c: u8,
    depth: nat,
    prev: Option<u8>,
    next: Option<u8>,
    in_str: bool,
) -> (nat, Seq<Tok>) {
    if is_open_spec(c) {
        let d = depth + 1;
        let brk = if breaks_after_open(next) {
            seq![Tok::Break(d)]
        } else {
            Seq::<Tok>::empty()
        };
        (d, write_char_toks(c, in_str) + brk)
    } else if is_close_spec(c) {
        let d = dec_depth(depth);
        let brk = if breaks_before_close(prev) {
            seq![Tok::Break(d)]
        } else {
            Seq::<Tok>::empty()
        };
        (d, brk + write_char_toks(c, in_str))
    } else if c == COMMA {
        (depth, write_char_toks(c, in_str) + seq![Tok::Break(depth)])
    } else {
        (depth, write_char_toks(c, in_str))
    }
}

/// Scanner state after the first `i` bytes of the input: the string-mode
/// flag, the nesting depth, and the tokens emitted so far.
pub struct ScanState {
    pub in_str: bool,
    pub depth: nat,
    pub toks: Seq<Tok>,
}

/// The scan after `i` bytes. Each step first applies the quote toggle, then
/// either copies the byte verbatim (string mode) or classifies it
/// structurally. The scan starts outside any string at depth zero.
pub open spec fn scan(s: Seq<u8>, i: int) -> ScanState
    decreases i,
{
    if i <= 0 {
        ScanState { in_str: false, depth: 0, toks: Seq::<Tok>::empty() }
    } else {
        let st = scan(s, i - 1);
        let c = s[i - 1];
        let prev = if i >= 2 {
            Some(s[i - 2])
        } else {
            None
        };
        let next = if i < s.len() {
            Some(s[i])
        } else {
            None
        };
        let f = if toggles_string(c, prev) {
            !st.in_str
        } else {
            st.in_str
        };
        if f {
            ScanState { in_str: f, depth: st.depth, toks: st.toks + write_char_toks(c, true) }
        } else {
            let r = process_char_toks(c, st.depth, prev, next, false);
            ScanState { in_str: f, depth: r.0, toks: st.toks + r.1 }
        }
    }
}

/// `n` space bytes.
pub open spec fn spaces(n: nat) -> Seq<u8> {
    Seq::new(n, |j: int| SPACE)
}

/// Rendering one token at indent width `w`: a literal byte stands for
/// itself; a break at depth `d` is a newline followed by `d * w` spaces.
pub open spec fn render_tok(t: Tok, w: nat) -> Seq<u8> {
    match t {
        Tok::Byte(b) => seq![b],
        Tok::Break(d) => seq![NEWLINE] + spaces(d * w),
    }
}

/// Rendering a token stream at indent width `w`.
pub open spec fn render(ts: Seq<Tok>, w: nat) -> Seq<u8>
    decreases ts.len(),
{
    if ts.len() == 0 {
        Seq::<u8>::empty()
    } else {
        render(ts.drop_last(), w) + render_tok(ts.last(), w)
    }
}

/// The whole transformation: scan the input, then render the token stream
/// at the given indent width.
pub open spec fn format_spec(s: Seq<u8>, w: nat) -> Seq<u8> {
    render(scan(s, s.len() as int).toks, w)
}

/// Rendering distributes over token-stream concatenation.
pub proof fn lemma_render_app(a: Seq<Tok>, b: Seq<Tok>, w: nat)
    ensures
        render(a + b, w) == render(a, w) + render(b, w),
    decreases b.len(),
{
    if b.len() == 0 {
        assert(a + b =~= a);
        assert(render(a, w) + render(b, w) =~= render(a, w));
    } else {
        lemma_render_app(a, b.drop_last(), w);
        assert((a + b).drop_last() =~= a + b.drop_last());
        assert((a + b).last() == b.last());
        assert(render(a, w) + render(b.drop_last(), w) + render_tok(b.last(), w) =~= render(
            a,
            w,
        ) + (render(b.drop_last(), w) + render_tok(b.last(), w)));
    }
}

/// Rendering a single token.
pub proof fn lemma_render_singleton(t: Tok, w: nat)
    ensures
        render(seq![t], w) == render_tok(t, w),
{
    assert(seq![t].drop_last() =~= Seq::<Tok>::empty());
    assert(seq![t].last() == t);
    assert(render(seq![t], w) == render(Seq::<Tok>::empty(), w) + render_tok(t, w));
    assert(render(Seq::<Tok>::empty(), w) == Seq::<u8>::empty());
    assert(Seq::<u8>::empty() + render_tok(t, w) =~= render_tok(t, w));
}

/// A written character renders to exactly its byte contribution, at any
/// width: it contains no break.
pub proof fn lemma_render_write_char(c: u8, in_str: bool, w: nat)
    ensures
        render(write_char_toks(c, in_str), w) == write_char_bytes(c, in_str),
{
    if !in_str && c == SPACE {
    } else if !in_str && c == COLON {
        let ts = write_char_toks(c, in_str);
        assert(ts.drop_last() =~= seq![Tok::Byte(c)]);
        lemma_render_singleton(Tok::Byte(c), w);
        assert(seq![c] + seq![SPACE] =~= seq![c, SPACE]);
    } else {
        lemma_render_singleton(Tok::Byte(c), w);
    }
}

} // verus!
