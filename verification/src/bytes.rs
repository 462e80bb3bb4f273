use vstd::prelude::*;

verus! {

/// The four bytes of a 32-bit word in big-endian order.
pub open spec fn be_bytes_of(w: u32) -> Seq<u8> {
    seq![
        (w / 0x1000000) as u8,
        (w / 0x10000 % 0x100) as u8,
        (w / 0x100 % 0x100) as u8,
        (w % 0x100) as u8,
    ]
}

/// The four bytes of a 32-bit word in little-endian order.
pub open spec fn le_bytes_of(w: u32) -> Seq<u8> {
    seq![
        (w % 0x100) as u8,
        (w / 0x100 % 0x100) as u8,
        (w / 0x10000 % 0x100) as u8,
        (w / 0x1000000) as u8,
    ]
}

/// Serializes a word to its big-endian bytes.
pub fn be32_bytes(w: u32) -> (v: Vec<u8>)
    ensures
        v@ == be_bytes_of(w),
        v@.len() == 4,
{
    let mut v: Vec<u8> = Vec::new();
    v.push((w / 0x1000000) as u8);
    v.push((w / 0x10000 % 0x100) as u8);
    v.push((w / 0x100 % 0x100) as u8);
    v.push((w % 0x100) as u8);
    proof {
        assert(v@ =~= be_bytes_of(w));
    }
    v
}

/// Appends the little-endian bytes of a word to a byte vector.
pub fn le32_push(out: &mut Vec<u8>, w: u32)
    ensures
        final(out)@ == old(out)@ + le_bytes_of(w),
{
    out.push((w % 0x100) as u8);
    out.push((w / 0x100 % 0x100) as u8);
    out.push((w / 0x10000 % 0x100) as u8);
    out.push((w / 0x1000000) as u8);
    proof {
        assert(out@ =~= old(out)@ + le_bytes_of(w));
    }
}

} // verus!
