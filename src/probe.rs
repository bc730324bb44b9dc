use vstd::prelude::*;
use crate::split::{pieces, rest, all_pieces, views, Splitter};
use crate::text::{trim, parses_u32, u32_value, trim_bytes, parse_u32};

verus! {

/// The comma that separates the fields of the probe's reply.
pub const COMMA: u8 = 44;

/// The comma-separated fields of the probe's reply, once trimmed.
pub open spec fn reply_fields(out: Seq<u8>) -> Seq<Seq<u8>> {
    all_pieces(trim(out), COMMA)
}

/// The frame count that a field gives: its value, or 0 if it is not a number.
pub open spec fn frame_count(field: Seq<u8>) -> u32 {
    if parses_u32(field) {
        u32_value(field)
    } else {
        0
    }
}

/// The fields of a probe's reply: duration and frame rate as the worker wrote
/// them, and the total frame count.
#[derive(Debug, PartialEq, Eq)]
pub struct InfoFields {
    pub duration: Vec<u8>,
    pub fps: Vec<u8>,
    pub total_frames: u32,
}

/// Why a probe failed.
#[derive(Debug, PartialEq, Eq)]
pub enum ProbeError {
    /// The worker exited unsuccessfully; what it wrote to standard error.
    WorkerFailed(Vec<u8>),
    /// The reply holds fewer than three comma-separated fields.
    TooFewFields,
}

/// Splits `s` at every comma.
fn split_fields(s: &[u8]) -> (r: Vec<Vec<u8>>)
    ensures
        views(r@) == all_pieces(s@, COMMA),
{
    let mut sp = Splitter::new(COMMA);
    let mut fields = sp.push(s);
    assert(Seq::<u8>::empty() + s@ =~= s@);
    assert(pieces(Seq::<u8>::empty(), COMMA) + views(fields@) =~= views(fields@));
    let ghost before = views(fields@);
    match sp.finish() {
        Some(last) => {
            let ghost lv = last@;
            fields.push(last);
            assert(views(fields@) =~= before.push(lv));
        },
        None => {
            let v: Vec<u8> = Vec::new();
            fields.push(v);
            assert(views(fields@) =~= before.push(rest(s@, COMMA)));
        },
    }
    fields
}

/// Reads the worker's reply to an info request. A failed exit is an error
/// that carries standard error; so is a reply with fewer than three fields.
/// A frame count that is not a number counts as 0.
pub fn probe_reply(exited_ok: bool, stdout: &[u8], stderr: Vec<u8>) -> (r: Result<
    InfoFields,
    ProbeError,
>)
    ensures
        !exited_ok ==> r == Err::<InfoFields, ProbeError>(ProbeError::WorkerFailed(stderr)),
        exited_ok && reply_fields(stdout@).len() < 3 ==> r == Err::<InfoFields, ProbeError>(
            ProbeError::TooFewFields,
        ),
        exited_ok && reply_fields(stdout@).len() >= 3 ==> (r matches Ok(info) && {
            &&& info.duration@ == reply_fields(stdout@)[0]
            &&& info.fps@ == reply_fields(stdout@)[1]
            &&& info.total_frames == frame_count(reply_fields(stdout@)[2])
        }),
{
    if !exited_ok {
        return Err(ProbeError::WorkerFailed(stderr));
    }
    let out = trim_bytes(stdout);
    let mut fields = split_fields(out.as_slice());
    if fields.len() < 3 {
        return Err(ProbeError::TooFewFields);
    }
    let total_frames = match parse_u32(fields[2].as_slice()) {
        Some(n) => n,
        None => 0,
    };
    let fps = fields.remove(1);
    let duration = fields.remove(0);
    Ok(InfoFields { duration, fps, total_frames })
}

} // verus!
