//! The indexed-colour palette: quads of (blue, green, red, alpha) bytes
//! stored at byte offset 54, present only for 8-bit documents.

use vstd::prelude::*;
use vstd::arithmetic::div_mod::lemma_fundamental_div_mod_converse;
use vstd::slice::slice_index_get;
use crate::bmp::error::BmpError;

verus! {

/// The colour table of a document: one (blue, green, red, alpha) quad per
/// palette entry, in the on-disk channel order. Empty for 24-bit documents.
pub struct BmpColourTable {
    pub data: Vec<(u8, u8, u8, u8)>,
}

/// Channel `j` of a palette quad, in the on-disk order blue, green, red,
/// alpha.
pub open spec fn quad_byte(q: (u8, u8, u8, u8), j: int) -> u8 {
    if j == 0 {
        q.0
    } else if j == 1 {
        q.1
    } else if j == 2 {
        q.2
    } else {
        q.3
    }
}

/// The bytes the palette occupies on disk: four bytes per entry, each quad
/// written blue, green, red, alpha.
pub open spec fn palette_bytes(p: Seq<(u8, u8, u8, u8)>) -> Seq<u8> {
    Seq::new((4 * p.len()) as nat, |k: int| quad_byte(p[k / 4], k % 4))
}

/// Byte `j` of quad `i` of the flattened palette is channel `j` of entry
/// `i`.
pub proof fn lemma_palette_bytes_index(p: Seq<(u8, u8, u8, u8)>, i: int, j: int)
    requires
        0 <= i < p.len(),
        0 <= j < 4,
    ensures
        palette_bytes(p)[4 * i + j] == quad_byte(p[i], j),
{
    lemma_fundamental_div_mod_converse(4 * i + j, 4, i, j);
    assert(0 <= 4 * i + j < 4 * p.len()) by (nonlinear_arith)
        requires
            0 <= i < p.len(),
            0 <= j < 4,
    ;
}

/// The stream is long enough for the palette the info header announces.
pub open spec fn palette_decode_ok(bytes: Seq<u8>, colours_used: u32) -> bool {
    54 + 4 * (colours_used as int) <= bytes.len()
}

/// The palette a successful decode of `bytes` yields: `colours_used` quads
/// read from byte offset 54.
pub open spec fn spec_palette_decode(bytes: Seq<u8>, colours_used: u32) -> Seq<(u8, u8, u8, u8)> {
    Seq::new(
        colours_used as nat,
        |i: int|
            (
                bytes[54 + 4 * i],
                bytes[54 + 4 * i + 1],
                bytes[54 + 4 * i + 2],
                bytes[54 + 4 * i + 3],
            ),
    )
}

impl BmpColourTable {
    /// The empty colour table of a fresh 24-bit document.
    pub fn new() -> (t: BmpColourTable)
        ensures
            t.data@ == Seq::<(u8, u8, u8, u8)>::empty(),
    {
        BmpColourTable { data: Vec::new() }
    }

    /// Reads `colours_used` quads from byte offset 54. Fails with
    /// `TruncatedHeader` when the stream ends inside the palette region.
    pub fn decode(bytes: &[u8], colours_used: u32) -> (r: Result<BmpColourTable, BmpError>)
        ensures
            match r {
                Ok(t) => palette_decode_ok(bytes@, colours_used) && t.data@
                    == spec_palette_decode(bytes@, colours_used),
                Err(e) => !palette_decode_ok(bytes@, colours_used) && e
                    == BmpError::TruncatedHeader,
            },
    {
        let n = bytes.len();
        if (n as u64) < 54u64 + 4u64 * (colours_used as u64) {
            return Err(BmpError::TruncatedHeader);
        }
        let mut data: Vec<(u8, u8, u8, u8)> = Vec::new();
        let mut i: u32 = 0;
        while i < colours_used
            invariant
                i <= colours_used,
                54 + 4 * (colours_used as int) <= bytes@.len(),
                bytes@.len() <= usize::MAX,
                data@.len() == i as int,
                forall|t: int|
                    0 <= t < i as int ==> data@[t] == spec_palette_decode(bytes@, colours_used)[t],
            decreases colours_used - i,
        {
            let off: usize = 54 + 4 * (i as usize);
            let q = (
                *slice_index_get(bytes, off),
                *slice_index_get(bytes, off + 1),
                *slice_index_get(bytes, off + 2),
                *slice_index_get(bytes, off + 3),
            );
            data.push(q);
            i = i + 1;
        }
        proof {
            assert(data@ =~= spec_palette_decode(bytes@, colours_used));
        }
        Ok(BmpColourTable { data })
    }

    /// Appends the palette's bytes to `out`: four bytes per entry, blue,
    /// green, red, alpha.
    pub fn encode_into(&self, out: &mut Vec<u8>)
        ensures
            final(out)@ == old(out)@ + palette_bytes(self.data@),
    {
        let ghost base = out@.len() as int;
        let n = self.data.len();
        let mut i: usize = 0;
        while i < n
            invariant
                i <= n,
                n == self.data@.len(),
                out@.len() == base + 4 * i,
                base == old(out)@.len(),
                forall|t: int| 0 <= t < base ==> out@[t] == old(out)@[t],
                forall|t: int|
                    base <= t < base + 4 * i ==> out@[t] == palette_bytes(self.data@)[t - base],
            decreases n - i,
        {
            let q = self.data[i];
            out.push(q.0);
            out.push(q.1);
            out.push(q.2);
            out.push(q.3);
            proof {
                lemma_palette_bytes_index(self.data@, i as int, 0);
                lemma_palette_bytes_index(self.data@, i as int, 1);
                lemma_palette_bytes_index(self.data@, i as int, 2);
                lemma_palette_bytes_index(self.data@, i as int, 3);
            }
            i = i + 1;
        }
        proof {
            assert(out@ =~= old(out)@ + palette_bytes(self.data@));
        }
    }
}

impl Clone for BmpColourTable {
    /// Deep-copies the palette: the clone shares no storage with the
    /// original.
    fn clone(&self) -> (r: Self)
        ensures
            r.data@ == self.data@,
    {
        BmpColourTable { data: vstd::slice::slice_to_vec(self.data.as_slice()) }
    }
}

} // verus!
