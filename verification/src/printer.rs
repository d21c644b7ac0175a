//! The executable formatter: one left-to-right pass over the input bytes,
//! proved to produce exactly the rendering that `model::format_spec`
//! describes.
//!
//! Re-formatting already-indented text is outside the contract: the input
//! is assumed to be the flat, single-line form, since literal spaces
//! outside strings are dropped and newlines are copied through like any
//! other byte. The output for such input is still fully defined, just not
//! idempotent.

use vstd::arithmetic::mul::lemma_mul_inequality;
use vstd::prelude::*;

use crate::model::{
    format_spec, is_close_spec, is_open_spec, lemma_render_app, lemma_render_singleton,
    lemma_render_write_char, process_char_toks, render, render_tok, scan, spaces, toggles_string,
    write_char_bytes, write_char_toks, Tok, BACKSLASH, CLOSE_BRACE, CLOSE_BRACKET, COLON, COMMA,
    NEWLINE, OPEN_BRACE, OPEN_BRACKET, QUOTE, SPACE,
};

verus! {

/// Does this byte open a container?
pub fn is_open(c: u8) -> (r: bool)
    ensures
        r == is_open_spec(c),
{
    c == OPEN_BRACE || c == OPEN_BRACKET
}

/// Does this byte close a container?
pub fn is_close(c: u8) -> (r: bool)
    ensures
        r == is_close_spec(c),
{
    c == CLOSE_BRACE || c == CLOSE_BRACKET
}

/// Append one character: verbatim inside a string; outside a string a
/// space is dropped and a colon is followed by exactly one space.
pub fn write_char(output: &mut Vec<u8>, c: u8, in_str: bool)
    ensures
        final(output)@ == old(output)@ + write_char_bytes(c, in_str),
{
    if !in_str && c == SPACE {
        assert(old(output)@ + write_char_bytes(c, in_str) =~= old(output)@);
        return ;
    }
    output.push(c);
    if !in_str && c == COLON {
        output.push(SPACE);
        assert(old(output)@ + write_char_bytes(c, in_str) =~= old(output)@.push(c).push(SPACE));
        return ;
    }
    assert(old(output)@ + write_char_bytes(c, in_str) =~= old(output)@.push(c));
}

/// Append a line break followed by the indentation for the given nesting
/// depth: `indent_count * space_count` spaces.
pub fn newline(output: &mut Vec<u8>, indent_count: usize, space_count: usize)
    requires
        indent_count * space_count <= usize::MAX,
    ensures
        final(output)@ == old(output)@ + render_tok(
            Tok::Break(indent_count as nat),
            space_count as nat,
        ),
{
    output.push(NEWLINE);
    let total = indent_count * space_count;
    assert(total == (indent_count as nat) * (space_count as nat));
    let mut i: usize = 0;
    assert(output@ =~= old(output)@ + seq![NEWLINE] + spaces(0));
    while i < total
        invariant
            i <= total,
            output@ == old(output)@ + seq![NEWLINE] + spaces(i as nat),
        decreases total - i,
    {
        output.push(SPACE);
        assert(old(output)@ + seq![NEWLINE] + spaces((i + 1) as nat) =~= (old(output)@ + seq![
            NEWLINE,
        ] + spaces(i as nat)).push(SPACE));
        i = i + 1;
    }
    assert(output@ =~= old(output)@ + (seq![NEWLINE] + spaces(
        (indent_count as nat) * (space_count as nat),
    )));
}

/// Scan one byte outside a string: emit its tokens and update the nesting
/// depth, exactly as `process_char_toks` describes. The depth decrement on
/// a closing bracket saturates at zero (the documented policy for
/// unbalanced input); the increment on an opening bracket is covered by
/// the preconditions.
pub fn process_char(
    c: u8,
    output: &mut Vec<u8>,
    indent_count: &mut usize,
    space_count: usize,
    prev: Option<u8>,
    next: Option<u8>,
    in_str: bool,
)
    requires
        *old(indent_count) < usize::MAX,
        (*old(indent_count) + 1) * space_count <= usize::MAX,
    ensures
        *final(indent_count) as nat == process_char_toks(
            c,
            *old(indent_count) as nat,
            prev,
            next,
            in_str,
        ).0,
        final(output)@ == old(output)@ + render(
            process_char_toks(c, *old(indent_count) as nat, prev, next, in_str).1,
            space_count as nat,
        ),
{
    let ghost d0 = *old(indent_count) as nat;
    let ghost w = space_count as nat;
    if is_open(c) {
        write_char(output, c, in_str);
        *indent_count = *indent_count + 1;
        let brk = match next {
            Some(ch) => !is_close(ch),
            None => false,
        };
        if brk {
            newline(output, *indent_count, space_count);
        }
        proof {
            let ts = process_char_toks(c, d0, prev, next, in_str).1;
            lemma_render_write_char(c, in_str, w);
            if brk {
                lemma_render_app(write_char_toks(c, in_str), seq![Tok::Break(d0 + 1)], w);
                lemma_render_singleton(Tok::Break(d0 + 1), w);
            } else {
                assert(write_char_toks(c, in_str) + Seq::<Tok>::empty() =~= write_char_toks(
                    c,
                    in_str,
                ));
                assert(old(output)@ + write_char_bytes(c, in_str) =~= old(output)@ + render(ts, w));
            }
        }
    } else if is_close(c) {
        if *indent_count > 0 {
            *indent_count = *indent_count - 1;
        }
        let brk = match prev {
            Some(ch) => !is_open(ch),
            None => false,
        };
        if brk {
            proof {
                lemma_mul_inequality(
                    *indent_count as int,
                    *old(indent_count) as int + 1,
                    space_count as int,
                );
            }
            newline(output, *indent_count, space_count);
        }
        write_char(output, c, in_str);
        proof {
            let d = process_char_toks(c, d0, prev, next, in_str).0;
            let ts = process_char_toks(c, d0, prev, next, in_str).1;
            lemma_render_write_char(c, in_str, w);
            if brk {
                lemma_render_app(seq![Tok::Break(d)], write_char_toks(c, in_str), w);
                lemma_render_singleton(Tok::Break(d), w);
                assert(old(output)@ + render_tok(Tok::Break(d), w) + write_char_bytes(c, in_str)
                    =~= old(output)@ + (render_tok(Tok::Break(d), w) + write_char_bytes(
                    c,
                    in_str,
                )));
            } else {
                assert(Seq::<Tok>::empty() + write_char_toks(c, in_str) =~= write_char_toks(
                    c,
                    in_str,
                ));
            }
        }
    } else if c == COMMA {
        write_char(output, c, in_str);
        proof {
            lemma_mul_inequality(
                *indent_count as int,
                *old(indent_count) as int + 1,
                space_count as int,
            );
        }
        newline(output, *indent_count, space_count);
        proof {
            let ts = process_char_toks(c, d0, prev, next, in_str).1;
            lemma_render_write_char(c, in_str, w);
            lemma_render_app(write_char_toks(c, in_str), seq![Tok::Break(d0)], w);
            lemma_render_singleton(Tok::Break(d0), w);
            assert(old(output)@ + write_char_bytes(c, in_str) + render_tok(Tok::Break(d0), w)
                =~= old(output)@ + (write_char_bytes(c, in_str) + render_tok(Tok::Break(d0), w)));
        }
    } else {
        write_char(output, c, in_str);
        proof {
            lemma_render_write_char(c, in_str, w);
        }
    }
}

/// Reformat a flat diagnostic-notation byte sequence, indenting each
/// nesting level by `space_count` spaces. The result is exactly the
/// rendering described by `format_spec`; the precondition only keeps the
/// widest indentation run within the machine's address range. An empty
/// input yields an empty output.
pub fn pretty_print(input: &[u8], space_count: usize) -> (output: Vec<u8>)
    requires
        input@.len() * space_count <= usize::MAX,
    ensures
        output@ == format_spec(input@, space_count as nat),
{
    let ghost s = input@;
    let ghost w = space_count as nat;
    let mut output: Vec<u8> = Vec::new();
    let mut in_str = false;
    let mut indent_count: usize = 0;
    let n = input.len();
    let mut idx: usize = 0;
    assert(output@ =~= render(scan(s, 0).toks, w));
    while idx < n
        invariant
            n == s.len(),
            s == input@,
            idx <= n,
            s.len() * space_count <= usize::MAX,
            indent_count <= idx,
            in_str == scan(s, idx as int).in_str,
            indent_count as nat == scan(s, idx as int).depth,
            output@ == render(scan(s, idx as int).toks, w),
            w == space_count as nat,
        decreases n - idx,
    {
        let ghost st = scan(s, idx as int);
        let c = input[idx];
        let prev = if idx > 0 {
            Some(input[idx - 1])
        } else {
            None
        };
        let next = if idx + 1 < n {
            Some(input[idx + 1])
        } else {
            None
        };
        if c == QUOTE && (match prev {
            Some(p) => p != BACKSLASH,
            None => true,
        }) {
            in_str = !in_str;
        }
        assert(in_str == if toggles_string(c, prev) {
            !st.in_str
        } else {
            st.in_str
        });
        if in_str {
            write_char(&mut output, c, in_str);
            proof {
                lemma_render_write_char(c, true, w);
                lemma_render_app(st.toks, write_char_toks(c, true), w);
            }
        } else {
            proof {
                lemma_mul_inequality(indent_count as int + 1, n as int, space_count as int);
            }
            process_char(c, &mut output, &mut indent_count, space_count, prev, next, in_str);
            proof {
                let r = process_char_toks(c, st.depth, prev, next, false);
                lemma_render_app(st.toks, r.1, w);
                assert(r.0 <= st.depth + 1);
            }
        }
        proof {
            assert(scan(s, idx as int + 1).in_str == in_str);
            assert(scan(s, idx as int + 1).depth == indent_count as nat);
        }
        idx = idx + 1;
    }
    output
}

} // verus!
