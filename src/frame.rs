use vstd::prelude::*;
use vstd::slice::{slice_subrange, slice_to_vec};

use crate::error::FrameError;

verus! {

/// The number that four bytes denote, most significant first.
pub open spec fn be_u32(b: Seq<u8>) -> nat {
    b[0] as nat * 16777216 + b[1] as nat * 65536 + b[2] as nat * 256 + b[3] as nat
}

/// The records of a length-framed stream: each is a four-byte big-endian
/// length followed by that many payload bytes. `None` when the stream ends
/// inside a header or a payload.
pub open spec fn frames_of(s: Seq<u8>) -> Option<Seq<Seq<u8>>>
    decreases s.len(),
{
    if s.len() == 0 {
        Some(Seq::empty())
    } else if s.len() < 4 {
        None
    } else {
        let n = be_u32(s.subrange(0, 4)) as int;
        if s.len() < 4 + n {
            None
        } else {
            match frames_of(s.subrange(4 + n, s.len() as int)) {
                Some(rest) => Some(seq![s.subrange(4, 4 + n)] + rest),
                None => None,
            }
        }
    }
}

/// What the stream decompressed from gzip bytes holds.
pub uninterp spec fn gunzip_of(compressed: Seq<u8>) -> Seq<u8>;

/// Whether the gzip decoder accepts the bytes.
pub uninterp spec fn gunzip_ok(compressed: Seq<u8>) -> bool;

/// The records of a compressed file: `None` when the decoder refuses the
/// bytes or the decompressed stream is truncated.
pub open spec fn file_frames(compressed: Seq<u8>) -> Option<Seq<Seq<u8>>> {
    if gunzip_ok(compressed) {
        frames_of(gunzip_of(compressed))
    } else {
        None
    }
}

pub open spec fn frames_view(v: Seq<Vec<u8>>) -> Seq<Seq<u8>> {
    v.map_values(|f: Vec<u8>| f@)
}

spec fn after_prefix(done: Seq<Seq<u8>>, rest: Option<Seq<Seq<u8>>>) -> Option<Seq<Seq<u8>>> {
    match rest {
        Some(r) => Some(done + r),
        None => None,
    }
}

/// Relies on async_compression's `GzipDecoder` over an in-memory reader, read
/// to its end through futures' `read_to_end`: what it yields is determined by
/// the compressed bytes, and so is whether it accepts them.
#[verifier::external_body]
fn gunzip(compressed: &Vec<u8>) -> (r: Result<Vec<u8>, String>)
    ensures
        r is Ok <==> gunzip_ok(compressed@),
        r is Ok ==> r->Ok_0@ == gunzip_of(compressed@),
{
    let mut decoder = async_compression::futures::bufread::GzipDecoder::new(compressed.as_slice());
    let mut out: Vec<u8> = Vec::new();
    let read = futures::io::AsyncReadExt::read_to_end(&mut decoder, &mut out);
    match futures::executor::block_on(read) {
        Ok(_) => Ok(out),
        Err(e) => Err(e.to_string()),
    }
}

/// Splits a decompressed stream into its length-framed records, in order.
/// A stream that ends inside a header or a payload is refused as a whole.
pub fn split_frames(data: &Vec<u8>) -> (r: Result<Vec<Vec<u8>>, FrameError>)
    ensures
        match frames_of(data@) {
            Some(fs) => r is Ok && frames_view(r->Ok_0@) == fs,
            None => r == Err::<Vec<Vec<u8>>, FrameError>(FrameError::Truncated),
        },
{
    let len = data.len();
    let mut out: Vec<Vec<u8>> = Vec::new();
    let mut pos: usize = 0;
    assert(data@.subrange(0, len as int) =~= data@);
    assert(frames_view(out@) =~= Seq::<Seq<u8>>::empty());
    while pos < len
        invariant
            len == data@.len(),
            pos <= len,
            frames_of(data@) == after_prefix(
                frames_view(out@),
                frames_of(data@.subrange(pos as int, len as int)),
            ),
        decreases len - pos,
    {
        let ghost rest = data@.subrange(pos as int, len as int);
        if len - pos < 4 {
            return Err(FrameError::Truncated);
        }
        let n = data[pos] as u64 * 16777216 + data[pos + 1] as u64 * 65536 + data[pos + 2] as u64
            * 256 + data[pos + 3] as u64;
        assert(rest.subrange(0, 4) =~= data@.subrange(pos as int, pos + 4));
        assert(n == be_u32(rest.subrange(0, 4)));
        if ((len - pos - 4) as u64) < n {
            return Err(FrameError::Truncated);
        }
        let n = n as usize;
        let frame = slice_to_vec(slice_subrange(data.as_slice(), pos + 4, pos + 4 + n));
        proof {
            assert(rest.subrange(4, 4 + n) =~= frame@);
            assert(rest.subrange(4 + n, rest.len() as int) =~= data@.subrange(
                pos + 4 + n,
                len as int,
            ));
        }
        let ghost before = out@;
        out.push(frame);
        assert(frames_view(out@) =~= frames_view(before) + seq![frame@]);
        pos = pos + 4 + n;
        proof {
            match frames_of(data@.subrange(pos as int, len as int)) {
                Some(r) => {
                    assert(frames_view(before) + (seq![frame@] + r) =~= frames_view(out@) + r);
                },
                None => {},
            }
        }
    }
    assert(data@.subrange(pos as int, len as int) =~= Seq::<u8>::empty());
    assert(frames_view(out@) + Seq::<Seq<u8>>::empty() =~= frames_view(out@));
    Ok(out)
}

/// Decompresses a gzip file and splits it into its records. When the
/// decompressed stream is truncated, the file is refused with
/// `FrameError::Truncated`; when the gzip decoder refuses the bytes, with
/// `FrameError::Compression`.
pub fn decode_file(compressed: &Vec<u8>) -> (r: Result<Vec<Vec<u8>>, FrameError>)
    ensures
        !gunzip_ok(compressed@) ==> r is Err && r->Err_0 is Compression,
        gunzip_ok(compressed@) ==> match frames_of(gunzip_of(compressed@)) {
            Some(fs) => r is Ok && frames_view(r->Ok_0@) == fs,
            None => r == Err::<Vec<Vec<u8>>, FrameError>(FrameError::Truncated),
        },
{
    match gunzip(compressed) {
        Ok(data) => split_frames(&data),
        Err(message) => Err(FrameError::Compression(message)),
    }
}

} // verus!
