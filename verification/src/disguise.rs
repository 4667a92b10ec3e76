//! The self-contained byte-reversal disguise and its reveal transform.
//!
//! A disguised file starts with a fixed 16-byte container signature and
//! ends with a 4-byte little-endian length that must equal the fixed
//! payload length. The reveal reads the payload block just before the
//! trailer, reverses it, writes it over the start of the file, and cuts
//! the file back to its original length.

use vstd::prelude::*;

use crate::errors::EzzError;

verus! {

/// The fixed length of the disguise payload.
pub const SCHEME1_PAYLOAD_LEN: u32 = 0x11F0BD;

/// The container signature a disguised file starts with.
pub open spec fn scheme1_sig() -> Seq<u8> {
    seq![
        0x00u8,
        0x00u8,
        0x00u8,
        0x18u8,
        0x66u8,
        0x74u8,
        0x79u8,
        0x70u8,
        0x6Du8,
        0x70u8,
        0x34u8,
        0x32u8,
        0x00u8,
        0x00u8,
        0x00u8,
        0x00u8,
    ]
}

/// The signature as a byte vector.
fn scheme1_sig_vec() -> (v: Vec<u8>)
    ensures
        v@ == scheme1_sig(),
{
    let mut v: Vec<u8> = Vec::new();
    v.push(0x00);
    v.push(0x00);
    v.push(0x00);
    v.push(0x18);
    v.push(0x66);
    v.push(0x74);
    v.push(0x79);
    v.push(0x70);
    v.push(0x6D);
    v.push(0x70);
    v.push(0x34);
    v.push(0x32);
    v.push(0x00);
    v.push(0x00);
    v.push(0x00);
    v.push(0x00);
    proof {
        assert(v@ =~= scheme1_sig());
    }
    v
}

/// The value of four little-endian bytes starting at `i`.
pub open spec fn le32_at(data: Seq<u8>, i: int) -> nat {
    data[i] as nat + 256 * data[i + 1] as nat + 65536 * data[i + 2] as nat + 16777216 * data[i
        + 3] as nat
}

/// A value below 2^32 as four little-endian bytes.
pub open spec fn le32_bytes(v: nat) -> Seq<u8> {
    seq![
        (v % 256) as u8,
        (v / 256 % 256) as u8,
        (v / 65536 % 256) as u8,
        (v / 16777216 % 256) as u8,
    ]
}

/// Whether the disguise is present: the file starts with the signature
/// and its last four bytes encode exactly the fixed payload length.
pub open spec fn scheme1_applies(data: Seq<u8>) -> bool {
    &&& data.len() >= 20
    &&& data.subrange(0, 16) == scheme1_sig()
    &&& le32_at(data, data.len() - 4) == SCHEME1_PAYLOAD_LEN as nat
}

/// The bytes the reveal produces: the payload block before the trailer,
/// reversed, over the start of the file, cut to the original length.
pub open spec fn scheme1_result(data: Seq<u8>) -> Seq<u8> {
    let l = SCHEME1_PAYLOAD_LEN as int;
    let n = data.len() as int;
    (data.subrange(n - 4 - l, n - 4).reverse() + data.subrange(l, n)).take(n - l - 4)
}

/// Applies the reveal to a file's bytes: `Ok(None)` when the disguise is
/// not present (the caller falls through to the container-demux scheme),
/// `Ok(Some(bytes))` with the recovered bytes when it is, and an I/O
/// error when the trailer claims a payload the file is too short to
/// hold.
pub fn reveal_scheme1(data: &Vec<u8>) -> (r: Result<Option<Vec<u8>>, EzzError>)
    ensures
        r matches Ok(out) ==> (out matches Some(v) ==> scheme1_applies(data@) && data@.len()
            >= SCHEME1_PAYLOAD_LEN + 4 && v@ == scheme1_result(data@)),
        r matches Ok(out) ==> (out is None ==> !scheme1_applies(data@)),
        r is Err ==> r == Result::<Option<Vec<u8>>, EzzError>::Err(EzzError::Io)
            && scheme1_applies(data@) && data@.len() < SCHEME1_PAYLOAD_LEN + 4,
{
    let n = data.len();
    if n < 20 {
        return Ok(None);
    }
    let sig = scheme1_sig_vec();
    let mut i: usize = 0;
    while i < 16
        invariant
            0 <= i <= 16,
            n == data@.len() >= 20,
            sig@ == scheme1_sig(),
            forall|j: int| 0 <= j < i ==> data@[j] == scheme1_sig()[j],
        decreases 16 - i,
    {
        if data[i] != sig[i] {
            proof {
                if data@.subrange(0, 16) == scheme1_sig() {
                    assert(data@.subrange(0, 16)[i as int] == data@[i as int]);
                }
            }
            return Ok(None);
        }
        i = i + 1;
    }
    proof {
        assert(data@.subrange(0, 16) =~= scheme1_sig());
    }
    let trailer: u32 = data[n - 4] as u32 + 256 * (data[n - 3] as u32) + 65536 * (data[n
        - 2] as u32) + 16777216 * (data[n - 1] as u32);
    if trailer != SCHEME1_PAYLOAD_LEN {
        return Ok(None);
    }
    let l = SCHEME1_PAYLOAD_LEN as usize;
    if n < l + 4 {
        return Err(EzzError::Io);
    }
    let k = n - l - 4;
    let mut out: Vec<u8> = Vec::new();
    let mut j: usize = 0;
    while j < k
        invariant
            n == data@.len(),
            l == SCHEME1_PAYLOAD_LEN,
            n >= l + 4,
            k == n - l - 4,
            0 <= j <= k,
            out@.len() == j,
            forall|t: int|
                0 <= t < j ==> out@[t] == (if t < l {
                    data@[n - 5 - t]
                } else {
                    data@[t]
                }),
        decreases k - j,
    {
        if j < l {
            out.push(data[n - 5 - j]);
        } else {
            out.push(data[j]);
        }
        j = j + 1;
    }
    proof {
        let li = l as int;
        let ni = n as int;
        let payload = data@.subrange(ni - 4 - li, ni - 4);
        let spec_out = scheme1_result(data@);
        assert forall|t: int| 0 <= t < k implies out@[t] == spec_out[t] by {
            if t < li {
                assert(payload.reverse()[t] == payload[li - 1 - t]);
                assert(payload[li - 1 - t] == data@[ni - 5 - t]);
            } else {
                assert(data@.subrange(li, ni)[t - li] == data@[t]);
            }
        }
        assert(out@ =~= spec_out);
    }
    Ok(Some(out))
}

/// The disguised form of `orig` under cover `mask`: the mask covers the
/// file's start, the covered bytes move to the end reversed, and the
/// payload-length trailer closes the file.
pub open spec fn disguise_scheme1(orig: Seq<u8>, mask: Seq<u8>) -> Seq<u8> {
    let l = SCHEME1_PAYLOAD_LEN as int;
    mask + orig.subrange(l, orig.len() as int) + orig.subrange(0, l).reverse() + le32_bytes(
        SCHEME1_PAYLOAD_LEN as nat,
    )
}

/// The reveal undoes the disguise exactly: disguising a file and then
/// revealing it reproduces the original byte sequence.
pub proof fn lemma_scheme1_round_trip(orig: Seq<u8>, mask: Seq<u8>)
    requires
        mask.len() == SCHEME1_PAYLOAD_LEN as int,
        orig.len() >= SCHEME1_PAYLOAD_LEN as int,
        mask.subrange(0, 16) == scheme1_sig(),
    ensures
        scheme1_applies(disguise_scheme1(orig, mask)),
        disguise_scheme1(orig, mask).len() >= SCHEME1_PAYLOAD_LEN + 4,
        scheme1_result(disguise_scheme1(orig, mask)) == orig,
{
    let l = SCHEME1_PAYLOAD_LEN as int;
    let d = disguise_scheme1(orig, mask);
    let rl = orig.len() as int;
    let n = d.len() as int;
    assert(n == rl + l + 4);

    // The signature survives at the front.
    assert forall|j: int| 0 <= j < 16 implies d[j] == scheme1_sig()[j] by {
        assert(d[j] == mask[j]);
        assert(mask.subrange(0, 16)[j] == mask[j]);
    }
    assert(d.subrange(0, 16) =~= scheme1_sig());

    // The trailer encodes the payload length.
    let tr = le32_bytes(SCHEME1_PAYLOAD_LEN as nat);
    assert forall|j: int| 0 <= j < 4 implies d[n - 4 + j] == tr[j] by {
        assert(d[n - 4 + j] == tr[j]);
    }
    assert(le32_at(d, n - 4) == tr[0] as nat + 256 * tr[1] as nat + 65536 * tr[2] as nat + 16777216
        * tr[3] as nat);
    assert(tr[0] as nat + 256 * tr[1] as nat + 65536 * tr[2] as nat + 16777216 * tr[3] as nat
        == SCHEME1_PAYLOAD_LEN as nat);

    // The payload block is the reversed first part of the original.
    let payload = d.subrange(n - 4 - l, n - 4);
    let front = orig.subrange(0, l);
    assert forall|j: int| 0 <= j < l implies payload[j] == front.reverse()[j] by {
        assert(d[n - 4 - l + j] == front.reverse()[j]);
    }
    assert(payload =~= front.reverse());
    assert forall|j: int| 0 <= j < l implies payload.reverse()[j] == front[j] by {
        assert(payload.reverse()[j] == payload[l - 1 - j]);
        assert(front.reverse()[l - 1 - j] == front[j]);
    }
    assert(payload.reverse() =~= front);

    // Cutting back to the original length leaves exactly the original.
    let res = scheme1_result(d);
    assert forall|t: int| 0 <= t < rl implies res[t] == orig[t] by {
        if t < l {
            assert(res[t] == payload.reverse()[t]);
        } else {
            assert(res[t] == d.subrange(l, n)[t - l]);
            assert(d.subrange(l, n)[t - l] == d[t]);
            assert(d[t] == orig.subrange(l, rl)[t - l]);
        }
    }
    assert(res =~= orig);
}

} // verus!
