//! Splitting an interleaved RGBA buffer into independent per-channel
//! planes, and merging blurred planes back into an RGBA buffer with
//! alpha forced to opaque.
use vstd::prelude::*;

verus! {

/// The plane of channel `c` (0 = R, 1 = G, 2 = B, 3 = A) of an
/// interleaved RGBA buffer: one value per pixel, row-major.
pub open spec fn chan_seq(pix: Seq<u8>, c: int) -> Seq<u8> {
    Seq::new(pix.len() / 4, |i: int| pix[4 * i + c])
}

/// Three equal-length planes zipped back into an interleaved RGBA
/// buffer, with every alpha value set to 255.
pub open spec fn merged_seq(r: Seq<u8>, g: Seq<u8>, b: Seq<u8>) -> Seq<u8> {
    Seq::new(
        4 * r.len(),
        |j: int|
            if j % 4 == 0 {
                r[j / 4]
            } else if j % 4 == 1 {
                g[j / 4]
            } else if j % 4 == 2 {
                b[j / 4]
            } else {
                255u8
            },
    )
}

/// Split an interleaved RGBA buffer into owned R, G and B planes in one
/// linear scan; alpha is dropped (the merge step reinstates it as
/// opaque).
pub fn split_channels(pixels: &Vec<u8>) -> (planes: (Vec<u8>, Vec<u8>, Vec<u8>))
    requires
        pixels@.len() % 4 == 0,
    ensures
        planes.0@ == chan_seq(pixels@, 0),
        planes.1@ == chan_seq(pixels@, 1),
        planes.2@ == chan_seq(pixels@, 2),
{
    proof {
        assert(pixels@.len() == pixels.len());
    }
    let np: usize = pixels.len() / 4;
    let mut rp: Vec<u8> = Vec::new();
    let mut gp: Vec<u8> = Vec::new();
    let mut bp: Vec<u8> = Vec::new();
    let mut i: usize = 0;
    while i < np
        invariant
            pixels@.len() % 4 == 0,
            pixels@.len() <= usize::MAX,
            np == pixels@.len() / 4,
            4 * np == pixels@.len(),
            i <= np,
            rp@.len() == i,
            gp@.len() == i,
            bp@.len() == i,
            forall|k: int| 0 <= k < i ==> #[trigger] rp@[k] == pixels@[4 * k],
            forall|k: int| 0 <= k < i ==> #[trigger] gp@[k] == pixels@[4 * k + 1],
            forall|k: int| 0 <= k < i ==> #[trigger] bp@[k] == pixels@[4 * k + 2],
        decreases np - i,
    {
        rp.push(pixels[4 * i]);
        gp.push(pixels[4 * i + 1]);
        bp.push(pixels[4 * i + 2]);
        i += 1;
    }
    proof {
        assert(rp@ =~= chan_seq(pixels@, 0));
        assert(gp@ =~= chan_seq(pixels@, 1));
        assert(bp@ =~= chan_seq(pixels@, 2));
    }
    (rp, gp, bp)
}

/// Merge three blurred planes into an interleaved RGBA buffer, alpha
/// 255 on every pixel. The split invariant guarantees equal plane
/// lengths, but the merge step checks it defensively: unequal lengths
/// yield `None` and never a malformed buffer.
pub fn merge_channels(rp: &Vec<u8>, gp: &Vec<u8>, bp: &Vec<u8>) -> (out: Option<Vec<u8>>)
    requires
        4 * rp@.len() <= usize::MAX,
    ensures
        (rp@.len() == gp@.len() && rp@.len() == bp@.len()) <==> out is Some,
        out matches Some(v) ==> v@ == merged_seq(rp@, gp@, bp@),
{
    if rp.len() != gp.len() || rp.len() != bp.len() {
        return None;
    }
    proof {
        assert(rp@.len() == rp.len());
    }
    let np: usize = rp.len();
    let mut out: Vec<u8> = Vec::new();
    let mut i: usize = 0;
    while i < np
        invariant
            np == rp@.len(),
            np == gp@.len(),
            np == bp@.len(),
            4 * np <= usize::MAX,
            i <= np,
            out@.len() == 4 * i,
            forall|j: int| 0 <= j < 4 * i ==> out@[j] == #[trigger] merged_seq(rp@, gp@, bp@)[j],
        decreases np - i,
    {
        out.push(rp[i]);
        out.push(gp[i]);
        out.push(bp[i]);
        out.push(255u8);
        i += 1;
    }
    proof {
        assert(out@ =~= merged_seq(rp@, gp@, bp@));
    }
    Some(out)
}

} // verus!
