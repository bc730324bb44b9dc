use vstd::prelude::*;
use crate::split::{pieces, flushed_pieces, fed, lemma_fed};
use crate::text::{trim_end, trim, starts_with, parses_u32, u32_value, trimmed_end, trim_bytes, has_prefix, parse_u32, copy_range};

verus! {

/// The byte that ends a line.
pub const NEWLINE: u8 = 10;

/// `PROGRESS:`
pub open spec fn progress_tag() -> Seq<u8> {
    seq![80u8, 82, 79, 71, 82, 69, 83, 83, 58]
}

/// `TEMP_DIR:`
pub open spec fn temp_dir_tag() -> Seq<u8> {
    seq![84u8, 69, 77, 80, 95, 68, 73, 82, 58]
}

/// What a line of the worker's standard output means.
pub ghost enum LineModel {
    Progress(u32),
    TempDir(Seq<u8>),
    Text(Seq<u8>),
    Malformed,
}

/// A classified line of the worker's standard output.
#[derive(Debug, PartialEq, Eq)]
pub enum Line {
    /// A percentage of the work done.
    Progress(u32),
    /// The directory where the worker left its frames.
    TempDir(Vec<u8>),
    /// Any other line, trimmed of trailing whitespace.
    Text(Vec<u8>),
    /// A progress line whose payload is not a number; it carries no event.
    Malformed,
}

impl View for Line {
    type V = LineModel;

    open spec fn view(&self) -> LineModel {
        match self {
            Line::Progress(p) => LineModel::Progress(*p),
            Line::TempDir(d) => LineModel::TempDir(d@),
            Line::Text(t) => LineModel::Text(t@),
            Line::Malformed => LineModel::Malformed,
        }
    }
}

/// The meaning of a raw line (without its newline).
pub open spec fn classify(raw: Seq<u8>) -> LineModel {
    let l = trim_end(raw);
    if starts_with(l, progress_tag()) {
        let payload = trim(l.skip(9));
        if parses_u32(payload) {
            LineModel::Progress(u32_value(payload))
        } else {
            LineModel::Malformed
        }
    } else if starts_with(l, temp_dir_tag()) {
        LineModel::TempDir(trim(l.skip(9)))
    } else {
        LineModel::Text(l)
    }
}

/// The meanings of a sequence of raw lines.
pub open spec fn classify_all(lines: Seq<Seq<u8>>) -> Seq<LineModel> {
    lines.map_values(|l: Seq<u8>| classify(l))
}

/// The progress percentages that a sequence of lines announces, in order.
pub open spec fn progress_events(ms: Seq<LineModel>) -> Seq<u32>
    decreases ms.len(),
{
    if ms.len() == 0 {
        seq![]
    } else {
        match ms.last() {
            LineModel::Progress(p) => progress_events(ms.drop_last()).push(p),
            _ => progress_events(ms.drop_last()),
        }
    }
}

/// The directory that a sequence of lines announces last, if any.
pub open spec fn last_temp_dir(ms: Seq<LineModel>) -> Option<Seq<u8>>
    decreases ms.len(),
{
    if ms.len() == 0 {
        None
    } else {
        match ms.last() {
            LineModel::TempDir(d) => Some(d),
            _ => last_temp_dir(ms.drop_last()),
        }
    }
}

fn progress_tag_bytes() -> (r: Vec<u8>)
    ensures
        r@ == progress_tag(),
{
    let r: Vec<u8> = vec![80u8, 82, 79, 71, 82, 69, 83, 83, 58];
    assert(r@ =~= progress_tag());
    r
}

fn temp_dir_tag_bytes() -> (r: Vec<u8>)
    ensures
        r@ == temp_dir_tag(),
{
    let r: Vec<u8> = vec![84u8, 69, 77, 80, 95, 68, 73, 82, 58];
    assert(r@ =~= temp_dir_tag());
    r
}

/// Classifies one raw line: a progress report, an announced directory, or
/// plain text.
pub fn classify_line(raw: &[u8]) -> (r: Line)
    ensures
        r@ == classify(raw@),
{
    let hi = trimmed_end(raw);
    let l = copy_range(raw, 0, hi);
    let ghost lv = trim_end(raw@);
    assert(l@ == lv);
    let ptag = progress_tag_bytes();
    let ttag = temp_dir_tag_bytes();
    if has_prefix(l.as_slice(), ptag.as_slice()) {
        let tail = copy_range(l.as_slice(), 9, l.len());
        assert(tail@ =~= lv.skip(9));
        let payload = trim_bytes(tail.as_slice());
        match parse_u32(payload.as_slice()) {
            Some(p) => Line::Progress(p),
            None => Line::Malformed,
        }
    } else if has_prefix(l.as_slice(), ttag.as_slice()) {
        let tail = copy_range(l.as_slice(), 9, l.len());
        assert(tail@ =~= lv.skip(9));
        Line::TempDir(trim_bytes(tail.as_slice()))
    } else {
        Line::Text(l)
    }
}

/// The classified lines of a finished stream that arrived as `chunks`: what
/// the pushes handed out, then the remainder that the end flushed.
pub open spec fn stream_lines(chunks: Seq<Seq<u8>>) -> Seq<LineModel> {
    let whole = chunks.flatten();
    classify_all(fed(chunks, NEWLINE) + flushed_pieces(whole, NEWLINE).skip(
        pieces(whole, NEWLINE).len() as int,
    ))
}

/// The classified lines of a stream do not depend on where its chunk
/// boundaries fall, in the middle of a line or of a line terminator: two
/// splittings of the same bytes give the same lines in the same order, those of
/// the whole stream.
pub proof fn lemma_chunk_boundaries(x: Seq<Seq<u8>>, y: Seq<Seq<u8>>)
    requires
        x.flatten() == y.flatten(),
    ensures
        stream_lines(x) == stream_lines(y),
        stream_lines(x) == classify_all(flushed_pieces(x.flatten(), NEWLINE)),
{
    lemma_fed(x, NEWLINE);
    lemma_fed(y, NEWLINE);
    let whole = x.flatten();
    let p = pieces(whole, NEWLINE);
    let f = flushed_pieces(whole, NEWLINE);
    assert(p + f.skip(p.len() as int) =~= f);
}

} // verus!
