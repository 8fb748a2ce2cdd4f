//! The length of a WAV recording's PCM payload, found by scanning the RIFF chunks of
//! its bytes; the duration then follows from the fixed capture format.

use vstd::prelude::*;

verus! {

/// The little-endian `u32` stored at `b[p..p + 4]`.
pub open spec fn le32(b: Seq<u8>, p: int) -> nat {
    (b[p] as nat) + 256 * (b[p + 1] as nat) + 65536 * (b[p + 2] as nat) + 16777216 * (b[p
        + 3] as nat)
}

/// The `data` chunk's length, scanning chunks from `pos`: each chunk is a four-byte id
/// and a four-byte little-endian size, followed by its body and a pad byte when the
/// size is odd. The length is clamped to the bytes actually present.
pub open spec fn data_len_from(b: Seq<u8>, pos: int) -> Option<nat>
    decreases b.len() - pos,
{
    if pos < 0 || pos + 8 > b.len() {
        None
    } else if b.subrange(pos, pos + 4) == seq![100u8, 97, 116, 97] {
        let available = (b.len() - (pos + 8)) as nat;
        Some(if le32(b, pos + 4) <= available { le32(b, pos + 4) } else { available })
    } else {
        let next = pos + 8 + le32(b, pos + 4) + le32(b, pos + 4) % 2;
        if next > b.len() {
            None
        } else {
            data_len_from(b, next)
        }
    }
}

/// The `data` chunk length of a canonical RIFF/WAVE file: `RIFF` at 0 and `WAVE` at 8,
/// then chunks from byte 12; `None` when the header is absent or no `data` chunk is
/// found.
pub open spec fn wav_data_len_of(b: Seq<u8>) -> Option<nat> {
    if b.len() < 12 || b.subrange(0, 4) != seq![82u8, 73, 70, 70] || b.subrange(8, 12) != seq![
        87u8,
        65,
        86,
        69,
    ] {
        None
    } else {
        data_len_from(b, 12)
    }
}

fn bytes_at(b: &[u8], p: usize, w: [u8; 4]) -> (r: bool)
    requires
        p + 4 <= b@.len(),
    ensures
        r == (b@.subrange(p as int, p + 4) == w@),
{
    let r = b[p] == w[0] && b[p + 1] == w[1] && b[p + 2] == w[2] && b[p + 3] == w[3];
    if r {
        assert(b@.subrange(p as int, p + 4) =~= w@);
    } else {
        assert(b@.subrange(p as int, p + 4) != w@) by {
            if b@.subrange(p as int, p + 4) == w@ {
                assert(b@.subrange(p as int, p + 4)[0] == w@[0]);
                assert(b@.subrange(p as int, p + 4)[1] == w@[1]);
                assert(b@.subrange(p as int, p + 4)[2] == w@[2]);
                assert(b@.subrange(p as int, p + 4)[3] == w@[3]);
            }
        }
    }
    r
}

/// Find the `data` chunk's byte length in a canonical RIFF/WAVE file.
pub fn wav_data_len(bytes: &[u8]) -> (r: Option<u64>)
    ensures
        r matches Some(n) ==> wav_data_len_of(bytes@) == Some(n as nat),
        r is None ==> wav_data_len_of(bytes@) is None,
{
    let len = bytes.len();
    if len < 12 || !bytes_at(bytes, 0, [82u8, 73, 70, 70]) || !bytes_at(
        bytes,
        8,
        [87u8, 65, 86, 69],
    ) {
        assert([82u8, 73, 70, 70]@ =~= seq![82u8, 73, 70, 70]);
        assert([87u8, 65, 86, 69]@ =~= seq![87u8, 65, 86, 69]);
        return None;
    }
    assert([82u8, 73, 70, 70]@ =~= seq![82u8, 73, 70, 70]);
    assert([87u8, 65, 86, 69]@ =~= seq![87u8, 65, 86, 69]);
    let mut pos: usize = 12;
    while pos <= len && len - pos >= 8
        invariant
            len == bytes@.len(),
            12 <= pos,
            wav_data_len_of(bytes@) == data_len_from(bytes@, pos as int),
        decreases len - pos,
    {
        let size: u64 = bytes[pos + 4] as u64 + 256 * (bytes[pos + 5] as u64) + 65536 * (
        bytes[pos + 6] as u64) + 16777216 * (bytes[pos + 7] as u64);
        assert(size == le32(bytes@, pos + 4));
        let is_data = bytes_at(bytes, pos, [100u8, 97, 116, 97]);
        assert([100u8, 97, 116, 97]@ =~= seq![100u8, 97, 116, 97]);
        if is_data {
            let available = (len - (pos + 8)) as u64;
            return Some(if size <= available { size } else { available });
        }
        let pad: u64 = size % 2;
        let room = (len - (pos + 8)) as u64;
        if size + pad > room {
            assert(data_len_from(bytes@, pos + 8 + size + pad) is None);
            return None;
        }
        pos = pos + 8 + (size + pad) as usize;
    }
    None
}

} // verus!
