//! Human-readable diagnostics: one message per scan failure, with the
//! file path, 1-based row and column, and a truncated, quoted preview of
//! the unconsumed input.

use vstd::prelude::*;
use vstd::string::StringSliceAdditionalSpecFns;

use crate::fast_integer::dec_u;
use crate::generate::{path_bytes, rust_lit};
use crate::scan::ParseError;
use crate::source::{column_at, column_of, line_at, line_of, starts_char, Source};

verus! {

/// The byte where the preview is cut: the start of the first character
/// past the 72nd one at or after `i`, if the text reaches that far.
pub open spec fn cut_point(t: Seq<u8>, i: int, count: int) -> Option<int>
    decreases t.len() - i,
    when 0 <= i <= t.len()
{
    if i >= t.len() {
        None
    } else if starts_char(t[i]) && count >= 72 {
        Some(i)
    } else {
        cut_point(t, i + 1, count + if starts_char(t[i]) {
            1int
        } else {
            0int
        })
    }
}

/// The quoted, possibly truncated preview of the text from `off` on.
pub open spec fn preview(t: Seq<u8>, off: int) -> Seq<u8> {
    match cut_point(t, off, 0) {
        Some(e) => seq![crate::chars::QUOT] + rust_lit(t.subrange(off, e)) + seq![
            crate::chars::QUOT,
        ] + "...".spec_bytes(),
        None => seq![crate::chars::QUOT] + rust_lit(t.subrange(off, t.len() as int)) + seq![
            crate::chars::QUOT,
        ],
    }
}

/// The rendered message of a scan failure.
pub open spec fn message_spec(srcs: Seq<Source>, err: ParseError) -> Seq<u8> {
    let text = crate::render::text_of(srcs, err.src as int);
    "Problems parsing template source \"".spec_bytes() + rust_lit(path_bytes(srcs, err.src as int))
        + "\" at row ".spec_bytes() + dec_u(line_at(text, err.offset as int) as nat)
        + ", column ".spec_bytes() + dec_u(column_at(text, err.offset as int) as nat)
        + " near:\n".spec_bytes() + preview(text, err.offset as int)
}

/// Render the message for a scan failure: file, 1-based row and column,
/// and a quoted preview of at most 72 characters with an ellipsis when
/// cut.
pub fn parse_error_message(sources: &Vec<Source>, err: &ParseError) -> (r: Vec<u8>)
    requires
        err.src < sources@.len(),
        err.offset <= sources@[err.src as int].text@.len(),
        sources@[err.src as int].text@.len() < usize::MAX,
    ensures
        r@ == message_spec(sources@, *err),
{
    let mut out: Vec<u8> = Vec::new();
    crate::generate::push_str_frag(&mut out, "Problems parsing template source \"");
    let src = &sources[err.src];
    match &src.path {
        Some(p) => {
            crate::generate::push_rust_lit(&mut out, p.as_slice());
        },
        None => {
            crate::generate::push_rust_lit(&mut out, "??".as_bytes());
            assert("??".spec_bytes() =~= path_bytes(sources@, err.src as int));
        },
    }
    crate::generate::push_str_frag(&mut out, "\" at row ");
    let text = src.text.as_slice();
    let row = line_of(text, err.offset);
    crate::generate::push_dec(&mut out, row);
    crate::generate::push_str_frag(&mut out, ", column ");
    let col = column_of(text, err.offset);
    crate::generate::push_dec(&mut out, col);
    crate::generate::push_str_frag(&mut out, " near:\n");

    let len = text.len();
    let mut i: usize = err.offset;
    let mut count: usize = 0;
    let mut cut: Option<usize> = None;
    assert(cut_point(text@, err.offset as int, 0) == cut_point(text@, i as int, count as int));
    while i < len
        invariant_except_break
            cut is None,
            cut_point(text@, err.offset as int, 0) == cut_point(text@, i as int, count as int),
        invariant
            err.offset <= i <= len,
            count <= i,
            len == text@.len(),
        ensures
            match cut {
                Some(e) => cut_point(text@, err.offset as int, 0) == Some(e as int)
                    && err.offset <= e <= len,
                None => i == len && cut_point(text@, err.offset as int, 0) is None,
            },
        decreases len - i,
    {
        let b = text[i];
        let is_start = b < 128 || b >= 192;
        if is_start && count >= 72 {
            cut = Some(i);
            break;
        }
        if is_start {
            count = count + 1;
        }
        i = i + 1;
    }
    out.push(crate::chars::QUOT);
    match cut {
        Some(e) => {
            crate::generate::push_rust_lit(
                &mut out,
                vstd::slice::slice_subrange(text, err.offset, e),
            );
            out.push(crate::chars::QUOT);
            crate::generate::push_str_frag(&mut out, "...");
        },
        None => {
            assert(cut_point(text@, err.offset as int, 0) is None);
            crate::generate::push_rust_lit(
                &mut out,
                vstd::slice::slice_subrange(text, err.offset, len),
            );
            out.push(crate::chars::QUOT);
        },
    }
    assert(out@ =~= message_spec(sources@, *err));
    out
}

} // verus!

verus! {

/// The file operation that failed.
#[derive(Clone, Copy, PartialEq, Eq, Structural, Debug)]
pub enum IoOp {
    /// Opening a template or output file.
    Open,
    /// Reading from a template file.
    Read,
    /// Writing a cache or debug-output file.
    Write,
}

/// The verb phrase of a failed file operation.
pub open spec fn io_op_text(op: IoOp) -> Seq<u8> {
    match op {
        IoOp::Open => "open".spec_bytes(),
        IoOp::Read => "read from".spec_bytes(),
        IoOp::Write => "write to".spec_bytes(),
    }
}

/// The rendered message of a failed file operation on `path`, with the
/// host's own description of the failure appended.
pub open spec fn io_error_message_spec(op: IoOp, path: Seq<u8>, err: Seq<u8>) -> Seq<u8> {
    "could not ".spec_bytes() + io_op_text(op) + " \"".spec_bytes() + rust_lit(path)
        + "\": ".spec_bytes() + err
}

/// Render the message for a failed file operation. The caller passes the
/// path as it should be shown — relativized where possible — and the
/// failure's own description.
pub fn io_error_message(op: IoOp, path: &[u8], err: &[u8]) -> (r: Vec<u8>)
    ensures
        r@ == io_error_message_spec(op, path@, err@),
{
    let mut out: Vec<u8> = Vec::new();
    crate::generate::push_str_frag(&mut out, "could not ");
    match op {
        IoOp::Open => {
            crate::generate::push_str_frag(&mut out, "open");
        },
        IoOp::Read => {
            crate::generate::push_str_frag(&mut out, "read from");
        },
        IoOp::Write => {
            crate::generate::push_str_frag(&mut out, "write to");
        },
    }
    crate::generate::push_str_frag(&mut out, " \"");
    crate::generate::push_rust_lit(&mut out, path);
    crate::generate::push_str_frag(&mut out, "\": ");
    crate::render::append_bytes(&mut out, err);
    assert(out@ =~= io_error_message_spec(op, path@, err@));
    out
}

} // verus!
