//! The container of an asset bundle file: a header of five big-endian
//! words, the encoded bundle, and a closing word.

use vstd::prelude::*;

use crate::ids::FileType;

verus! {

/// Version of the container layout.
pub const GIA_SCHEMA_VERSION: u32 = 1;

/// Marker word that the loader expects in the header.
pub const GIA_HEADER_MARK: u32 = 0x0326;

/// Marker word that closes the file.
pub const GIA_TAIL_MARK: u32 = 0x0679;

/// Bytes before the encoded bundle.
pub const GIA_HEADER_LEN: usize = 20;

/// The four bytes of `x`, most significant first.
pub open spec fn be32(x: u32) -> Seq<u8> {
    seq![
        (x / 0x100_0000) as u8,
        ((x / 0x1_0000) % 0x100) as u8,
        ((x / 0x100) % 0x100) as u8,
        (x % 0x100) as u8,
    ]
}

/// `n` reduced to 32 bits, as a cast to `u32` does.
pub open spec fn low32(n: int) -> u32 {
    (n % 0x1_0000_0000) as u32
}

/// The whole file for the encoded bundle `data`: total size less four,
/// layout version, header mark, file type, length of `data`, `data`, and
/// the closing mark.
pub open spec fn gia_file(data: Seq<u8>) -> Seq<u8> {
    be32(low32(data.len() + 20int)) + be32(GIA_SCHEMA_VERSION) + be32(GIA_HEADER_MARK) + be32(
        FileType::AssetBundle.spec_code(),
    ) + be32(low32(data.len() as int)) + data + be32(GIA_TAIL_MARK)
}

/// The big-endian bytes of `x`.
pub fn be_bytes(x: u32) -> (r: [u8; 4])
    ensures
        r@ == be32(x),
{
    let b0 = (x / 0x100_0000) as u8;
    let b1 = ((x / 0x1_0000) % 0x100) as u8;
    let b2 = ((x / 0x100) % 0x100) as u8;
    let b3 = (x % 0x100) as u8;
    let r = [b0, b1, b2, b3];
    assert(r@ =~= be32(x));
    r
}

fn push_word(out: &mut Vec<u8>, x: u32)
    ensures
        final(out)@ == old(out)@ + be32(x),
{
    let b = be_bytes(x);
    out.push(b[0]);
    out.push(b[1]);
    out.push(b[2]);
    out.push(b[3]);
    assert(out@ =~= old(out)@ + be32(x));
}

/// The file that holds the encoded bundle `data`.
pub fn wrap_gia(data: &[u8]) -> (r: Vec<u8>)
    ensures
        r@ == gia_file(data@),
{
    let len = data.len() as u64;
    let low = len % 0x1_0000_0000;
    let total = ((low + 20) % 0x1_0000_0000) as u32;
    let plain = low as u32;
    assert((low + 20) % 0x1_0000_0000 == (len + 20) % 0x1_0000_0000) by (nonlinear_arith)
        requires
            low == len % 0x1_0000_0000,
    ;
    let mut out: Vec<u8> = Vec::new();
    push_word(&mut out, total);
    push_word(&mut out, GIA_SCHEMA_VERSION);
    push_word(&mut out, GIA_HEADER_MARK);
    push_word(&mut out, FileType::AssetBundle.code());
    push_word(&mut out, plain);
    let ghost head = out@;
    let mut i: usize = 0;
    while i < data.len()
        invariant
            i <= data@.len(),
            out@ == head + data@.subrange(0, i as int),
        decreases data@.len() - i,
    {
        out.push(data[i]);
        assert(data@.subrange(0, i + 1) =~= data@.subrange(0, i as int).push(data@[i as int]));
        i = i + 1;
    }
    assert(data@.subrange(0, data@.len() as int) =~= data@);
    push_word(&mut out, GIA_TAIL_MARK);
    assert(out@ =~= gia_file(data@));
    out
}

/// Whether the file must be written: it is missing, unreadable, or holds
/// other bytes than `new_bytes`. An unchanged file is left alone, so that
/// its modification time stays.
pub fn needs_write(existing: Option<&[u8]>, new_bytes: &[u8]) -> (r: bool)
    ensures
        r == (existing is None || existing.unwrap()@ != new_bytes@),
{
    match existing {
        None => true,
        Some(e) => {
            if e.len() != new_bytes.len() {
                return true;
            }
            let mut i: usize = 0;
            while i < e.len()
                invariant
                    existing == Some(e),
                    e@.len() == new_bytes@.len(),
                    i <= e@.len(),
                    e@.subrange(0, i as int) == new_bytes@.subrange(0, i as int),
                decreases e@.len() - i,
            {
                if e[i] != new_bytes[i] {
                    assert(e@[i as int] != new_bytes@[i as int]);
                    assert(e@ != new_bytes@);
                    return true;
                }
                assert(e@.subrange(0, i + 1) =~= e@.subrange(0, i as int).push(e@[i as int]));
                assert(new_bytes@.subrange(0, i + 1) =~= new_bytes@.subrange(0, i as int).push(
                    new_bytes@[i as int],
                ));
                i = i + 1;
            }
            assert(e@ =~= e@.subrange(0, i as int));
            assert(new_bytes@ =~= new_bytes@.subrange(0, i as int));
            false
        },
    }
}

} // verus!
