//! The PNG container for the app icon.
//!
//! Pixels are stored uncompressed: a zlib stream of stored deflate blocks,
//! checksummed with Adler-32, inside CRC-32-guarded PNG chunks.

use vstd::prelude::*;

verus! {

pub const PNG_SIGNATURE: [u8; 8] = [0x89, 0x50, 0x4e, 0x47, 0x0d, 0x0a, 0x1a, 0x0a];

/// The largest payload one stored deflate block can carry.
pub const BLOCK_MAX: usize = 65535;

pub const ADLER_MOD: u32 = 65521;

pub const CRC_POLY: u32 = 0xedb8_8320;

// ------------------------------------------------------------ byte order

/// Big-endian bytes of a 32-bit word.
pub open spec fn be32(x: u32) -> Seq<u8> {
    seq![
        (x / 0x100_0000) as u8,
        ((x / 0x1_0000) % 0x100) as u8,
        ((x / 0x100) % 0x100) as u8,
        (x % 0x100) as u8,
    ]
}

/// Little-endian bytes of a 16-bit word.
pub open spec fn le16(x: u16) -> Seq<u8> {
    seq![(x % 0x100) as u8, (x / 0x100) as u8]
}

fn push_be32(out: &mut Vec<u8>, x: u32)
    ensures
        final(out)@ == old(out)@ + be32(x),
{
    out.push((x / 0x100_0000) as u8);
    out.push(((x / 0x1_0000) % 0x100) as u8);
    out.push(((x / 0x100) % 0x100) as u8);
    out.push((x % 0x100) as u8);
    assert(out@ =~= old(out)@ + be32(x));
}

fn push_le16(out: &mut Vec<u8>, x: u16)
    ensures
        final(out)@ == old(out)@ + le16(x),
{
    out.push((x % 0x100) as u8);
    out.push((x / 0x100) as u8);
    assert(out@ =~= old(out)@ + le16(x));
}

fn push_all(out: &mut Vec<u8>, data: &[u8])
    ensures
        final(out)@ == old(out)@ + data@,
{
    let mut i: usize = 0;
    while i < data.len()
        invariant
            i <= data.len(),
            out@ == old(out)@ + data@.take(i as int),
        decreases data.len() - i,
    {
        out.push(data[i]);
        i += 1;
        assert(out@ =~= old(out)@ + data@.take(i as int));
    }
    assert(data@.take(data.len() as int) =~= data@);
}

// ------------------------------------------------------------ checksums

/// One bit of the reflected CRC-32 shift register.
pub open spec fn crc_shift(c: u32) -> u32 {
    if c & 1 != 0 {
        (c >> 1u32) ^ CRC_POLY
    } else {
        c >> 1u32
    }
}

/// `k` shifts of the register.
pub open spec fn crc_shifts(c: u32, k: nat) -> u32
    decreases k,
{
    if k == 0 {
        c
    } else {
        crc_shift(crc_shifts(c, (k - 1) as nat))
    }
}

/// The register after taking in one byte.
pub open spec fn crc_byte(c: u32, b: u8) -> u32 {
    crc_shifts(c ^ (b as u32), 8)
}

/// The register after taking in every byte, starting from `seed`.
pub open spec fn crc32_spec(seed: u32, data: Seq<u8>) -> u32
    decreases data.len(),
{
    if data.len() == 0 {
        seed
    } else {
        crc_byte(crc32_spec(seed, data.drop_last()), data.last())
    }
}

/// CRC-32 (reflected, polynomial 0xEDB88320) register update, without the
/// final inversion.
pub fn crc32(seed: u32, data: &[u8]) -> (crc: u32)
    ensures
        crc == crc32_spec(seed, data@),
{
    let mut crc = seed;
    let mut i: usize = 0;
    while i < data.len()
        invariant
            i <= data.len(),
            crc == crc32_spec(seed, data@.take(i as int)),
        decreases data.len() - i,
    {
        proof {
            assert(data@.take(i + 1).drop_last() =~= data@.take(i as int));
        }
        crc = crc ^ (data[i] as u32);
        let ghost start = crc;
        let mut k: u32 = 0;
        while k < 8
            invariant
                k <= 8,
                crc == crc_shifts(start, k as nat),
            decreases 8 - k,
        {
            crc = if crc & 1 != 0 {
                (crc >> 1) ^ CRC_POLY
            } else {
                crc >> 1
            };
            k += 1;
        }
        i += 1;
    }
    proof {
        assert(data@.take(data.len() as int) =~= data@);
    }
    crc
}

/// Adler-32's two running sums after every byte.
pub open spec fn adler_sums(data: Seq<u8>) -> (nat, nat)
    decreases data.len(),
{
    if data.len() == 0 {
        (1, 0)
    } else {
        let (a, b) = adler_sums(data.drop_last());
        let a2 = ((a + data.last()) % (ADLER_MOD as int)) as nat;
        (a2, (((b + a2) as int) % (ADLER_MOD as int)) as nat)
    }
}

/// The Adler-32 checksum: the second sum in the high half, the first in the
/// low half.
pub open spec fn adler32_spec(data: Seq<u8>) -> u32 {
    (adler_sums(data).1 * 0x1_0000 + adler_sums(data).0) as u32
}

proof fn lemma_adler_bounds(data: Seq<u8>)
    ensures
        adler_sums(data).0 < ADLER_MOD,
        adler_sums(data).1 < ADLER_MOD,
    decreases data.len(),
{
    if data.len() > 0 {
        lemma_adler_bounds(data.drop_last());
    }
}

/// The Adler-32 checksum zlib appends to its stream.
pub fn adler32(data: &[u8]) -> (r: u32)
    ensures
        r == adler32_spec(data@),
{
    let mut a: u32 = 1;
    let mut b: u32 = 0;
    let mut i: usize = 0;
    while i < data.len()
        invariant
            i <= data.len(),
            (a as nat, b as nat) == adler_sums(data@.take(i as int)),
            a < ADLER_MOD,
            b < ADLER_MOD,
        decreases data.len() - i,
    {
        proof {
            assert(data@.take(i + 1).drop_last() =~= data@.take(i as int));
        }
        a = (a + data[i] as u32) % ADLER_MOD;
        b = (b + a) % ADLER_MOD;
        i += 1;
    }
    proof {
        assert(data@.take(data.len() as int) =~= data@);
    }
    let r = (b << 16) | a;
    assert(r == b * 0x1_0000 + a) by (bit_vector)
        requires
            a < 65521,
            b < 65521,
            r == (b << 16) | a,
    ;
    r
}

// ------------------------------------------------------------ zlib

/// Stored deflate blocks carrying `data`: each block is a final-flag byte,
/// its length and the length's complement (little-endian), then up to
/// 65535 bytes of payload.
pub open spec fn stored_blocks(data: Seq<u8>) -> Seq<u8>
    decreases data.len(),
{
    if data.len() <= BLOCK_MAX {
        seq![1u8] + le16(data.len() as u16) + le16((0xffff - data.len()) as u16) + data
    } else {
        seq![0u8] + le16(0xffff) + le16(0) + data.take(BLOCK_MAX as int) + stored_blocks(
            data.skip(BLOCK_MAX as int),
        )
    }
}

/// A zlib stream of stored blocks: the header, the blocks, then the
/// Adler-32 of the data.
pub open spec fn zlib_stored_spec(data: Seq<u8>) -> Seq<u8> {
    seq![0x78u8, 0x01u8] + stored_blocks(data) + be32(adler32_spec(data))
}

/// Appends `data[from..to]`.
fn push_range(out: &mut Vec<u8>, data: &[u8], from: usize, to: usize)
    requires
        from <= to <= data.len(),
    ensures
        final(out)@ == old(out)@ + data@.subrange(from as int, to as int),
{
    let mut k = from;
    while k < to
        invariant
            from <= k <= to <= data.len(),
            out@ == old(out)@ + data@.subrange(from as int, k as int),
        decreases to - k,
    {
        out.push(data[k]);
        k += 1;
        assert(out@ =~= old(out)@ + data@.subrange(from as int, k as int));
    }
}

/// A zlib stream of stored (uncompressed) deflate blocks.
pub fn zlib_stored(data: &[u8]) -> (out: Vec<u8>)
    ensures
        out@ == zlib_stored_spec(data@),
{
    let mut out: Vec<u8> = vec![0x78, 0x01];
    let ghost head = seq![0x78u8, 0x01u8];
    let mut at: usize = 0;
    proof {
        assert(out@ =~= head);
        assert(data@.skip(0) =~= data@);
    }
    while data.len() - at > BLOCK_MAX
        invariant
            at <= data.len(),
            out@ + stored_blocks(data@.skip(at as int)) == head + stored_blocks(data@),
        decreases data.len() - at,
    {
        let ghost before = out@;
        let ghost rest = data@.skip(at as int);
        let end = at + BLOCK_MAX;
        out.push(0);
        push_le16(&mut out, 0xffff);
        push_le16(&mut out, 0);
        push_range(&mut out, data, at, end);
        proof {
            assert(rest.take(BLOCK_MAX as int) =~= data@.subrange(at as int, end as int));
            assert(rest.skip(BLOCK_MAX as int) =~= data@.skip(end as int));
            assert(out@ + stored_blocks(data@.skip(end as int)) =~= before + stored_blocks(rest));
        }
        at = end;
    }
    let ghost before = out@;
    let ghost rest = data@.skip(at as int);
    let left = data.len() - at;
    out.push(1);
    push_le16(&mut out, left as u16);
    push_le16(&mut out, (0xffff - left) as u16);
    push_range(&mut out, data, at, data.len());
    proof {
        assert(rest =~= data@.subrange(at as int, data.len() as int));
        assert(out@ =~= before + stored_blocks(rest));
    }
    let sum = adler32(data);
    push_be32(&mut out, sum);
    proof {
        assert(out@ =~= zlib_stored_spec(data@));
    }
    out
}

/// Reads stored deflate blocks back: each block's payload, up to and
/// including the one flagged final.
pub open spec fn unstored(s: Seq<u8>) -> Seq<u8>
    decreases s.len(),
{
    if s.len() < 5 {
        Seq::empty()
    } else {
        let len = s[1] + 0x100 * s[2];
        let payload = s.subrange(5, if 5 + len <= s.len() {
            5 + len
        } else {
            s.len() as int
        });
        if s[0] == 1 || 5 + len >= s.len() {
            payload
        } else {
            payload + unstored(s.skip(5 + len))
        }
    }
}

/// Stored blocks carry every byte: reading the blocks back gives the data,
/// whatever its length.
pub proof fn law_stored_blocks_carry_every_byte(data: Seq<u8>)
    ensures
        unstored(stored_blocks(data)) == data,
    decreases data.len(),
{
    let s = stored_blocks(data);
    if data.len() <= BLOCK_MAX {
        assert(s[1] + 0x100 * s[2] == data.len());
        assert(s.subrange(5, 5 + data.len() as int) =~= data);
    } else {
        law_stored_blocks_carry_every_byte(data.skip(BLOCK_MAX as int));
        assert(s[1] + 0x100 * s[2] == BLOCK_MAX);
        assert(s.subrange(5, 5 + BLOCK_MAX) =~= data.take(BLOCK_MAX as int));
        assert(s.skip(5 + BLOCK_MAX) =~= stored_blocks(data.skip(BLOCK_MAX as int)));
        assert(data.take(BLOCK_MAX as int) + data.skip(BLOCK_MAX as int) =~= data);
    }
}

/// Every block's length word is followed by its complement.
pub proof fn law_block_length_complement(data: Seq<u8>)
    ensures
        stored_blocks(data)[1] + 0x100 * stored_blocks(data)[2] + stored_blocks(data)[3] + 0x100
            * stored_blocks(data)[4] == 0xffff,
{
}

/// How many stored blocks `n` bytes take: one per 65535 bytes, rounded up,
/// and one even for no bytes at all.
pub open spec fn block_count(n: nat) -> nat {
    if n == 0 {
        1
    } else {
        ((n + BLOCK_MAX - 1) / BLOCK_MAX as int) as nat
    }
}

proof fn lemma_stored_blocks_len(data: Seq<u8>)
    ensures
        stored_blocks(data).len() == 5 * block_count(data.len()) + data.len(),
    decreases data.len(),
{
    let n = data.len() as int;
    if data.len() <= BLOCK_MAX {
        if n > 0 {
            assert((n + 65534) / 65535 == 1);
        }
    } else {
        let rest = data.skip(BLOCK_MAX as int);
        lemma_stored_blocks_len(rest);
        let m = rest.len() as int;
        assert(m == n - 65535);
        assert((m + 65534 + 65535) / 65535 == (m + 65534) / 65535 + 1) by (nonlinear_arith)
            requires
                m > 0,
        ;
    }
}

/// The layout of a stored zlib stream: the two header bytes, the stored
/// blocks, then the Adler-32 of the data big-endian. The first block is
/// flagged final exactly when the data fits in one block, carries
/// `min(len, 65535)` bytes and gives that length and its complement
/// little-endian; reading the blocks back gives the data; and the stream is
/// `2 + 5 * block_count + len + 4` bytes long.
pub proof fn law_zlib_layout(data: Seq<u8>)
    ensures
        zlib_stored_spec(data).take(2) == seq![0x78u8, 0x01u8],
        zlib_stored_spec(data).subrange(2, zlib_stored_spec(data).len() - 4) == stored_blocks(data),
        zlib_stored_spec(data).skip(zlib_stored_spec(data).len() - 4) == be32(adler32_spec(data)),
        stored_blocks(data)[0] == (if data.len() <= BLOCK_MAX {
            1u8
        } else {
            0u8
        }),
        stored_blocks(data)[1] + 0x100 * stored_blocks(data)[2] == (if data.len() <= BLOCK_MAX {
            data.len()
        } else {
            BLOCK_MAX as nat
        }),
        stored_blocks(data)[3] + 0x100 * stored_blocks(data)[4] + stored_blocks(data)[1] + 0x100
            * stored_blocks(data)[2] == 0xffff,
        unstored(stored_blocks(data)) == data,
        zlib_stored_spec(data).len() == 2 + 5 * block_count(data.len()) + data.len() + 4,
{
    lemma_stored_blocks_len(data);
    law_stored_blocks_carry_every_byte(data);
    law_block_length_complement(data);
    let z = zlib_stored_spec(data);
    let b = stored_blocks(data);
    assert(z.take(2) =~= seq![0x78u8, 0x01u8]);
    assert(z.subrange(2, z.len() - 4) =~= b);
    assert(z.skip(z.len() - 4) =~= be32(adler32_spec(data)));
}

// ------------------------------------------------------------ PNG

pub const IHDR: [u8; 4] = [0x49, 0x48, 0x44, 0x52];
pub const IDAT: [u8; 4] = [0x49, 0x44, 0x41, 0x54];
pub const IEND: [u8; 4] = [0x49, 0x45, 0x4e, 0x44];

/// A PNG chunk: the payload's length, the chunk type, the payload, and the
/// CRC-32 of type and payload.
pub open spec fn chunk_spec(kind: Seq<u8>, data: Seq<u8>) -> Seq<u8> {
    be32(data.len() as u32) + kind + data + be32(
        crc32_spec(crc32_spec(0xffff_ffff, kind), data) ^ 0xffff_ffffu32,
    )
}

fn chunk(out: &mut Vec<u8>, kind: &[u8; 4], data: &[u8])
    ensures
        final(out)@ == old(out)@ + chunk_spec(kind@, data@),
{
    let k: &[u8] = kind;
    push_be32(out, data.len() as u32);
    push_all(out, k);
    push_all(out, data);
    let mut crc = crc32(0xffff_ffff, k);
    crc = crc32(crc, data);
    push_be32(out, crc ^ 0xffff_ffff);
    assert(out@ =~= old(out)@ + chunk_spec(kind@, data@));
}

/// The scanlines: each row of `row` bytes prefixed with filter type 0.
pub open spec fn scanlines(rgba: Seq<u8>, row: nat, h: nat) -> Seq<u8>
    decreases h,
{
    if h == 0 {
        Seq::empty()
    } else {
        scanlines(rgba, row, (h - 1) as nat) + seq![0u8] + rgba.subrange(
            (h - 1) * row,
            (h * row) as int,
        )
    }
}

/// The image header: width, height, 8 bits per channel, colour type 6
/// (RGBA), default compression and filtering, no interlacing.
pub open spec fn ihdr_spec(w: u32, h: u32) -> Seq<u8> {
    be32(w) + be32(h) + seq![8u8, 6u8, 0u8, 0u8, 0u8]
}

/// A complete PNG of straight RGBA pixels, stored uncompressed.
pub open spec fn png_spec(rgba: Seq<u8>, w: u32, h: u32) -> Seq<u8> {
    PNG_SIGNATURE@ + chunk_spec(IHDR@, ihdr_spec(w, h)) + chunk_spec(
        IDAT@,
        zlib_stored_spec(scanlines(rgba, (w * 4) as nat, h as nat)),
    ) + chunk_spec(IEND@, Seq::empty())
}

fn scanlines_of(rgba: &[u8], row: usize, h: usize) -> (raw: Vec<u8>)
    requires
        rgba@.len() >= row * h,
        row * h <= usize::MAX,
    ensures
        raw@ == scanlines(rgba@, row as nat, h as nat),
{
    let mut raw: Vec<u8> = Vec::new();
    let mut y: usize = 0;
    while y < h
        invariant
            y <= h,
            rgba@.len() >= row * h,
            row * h <= usize::MAX,
            raw@ == scanlines(rgba@, row as nat, y as nat),
        decreases h - y,
    {
        assert(y * row + row <= h * row) by (nonlinear_arith)
            requires
                y < h,
        ;
        raw.push(0);
        push_range(&mut raw, rgba, y * row, y * row + row);
        proof {
            assert((y + 1) * row == y * row + row) by (nonlinear_arith);
        }
        y += 1;
    }
    raw
}

/// Encodes `w` x `h` RGBA pixels (row by row, 4 bytes each) as a PNG.
pub fn encode_png(rgba: &[u8], w: u32, h: u32) -> (out: Vec<u8>)
    requires
        rgba@.len() >= w as int * 4 * h as int,
        (w as int * 4 + 1) * h as int <= usize::MAX,
        w as int * 4 <= usize::MAX,
    ensures
        out@ == png_spec(rgba@, w, h),
{
    assert(w as int * 4 * h as int <= (w as int * 4 + 1) * h as int) by (nonlinear_arith);
    let row = (w as usize) * 4;
    let raw = scanlines_of(rgba, row, h as usize);
    let mut ihdr: Vec<u8> = Vec::new();
    push_be32(&mut ihdr, w);
    push_be32(&mut ihdr, h);
    ihdr.push(8);
    ihdr.push(6);
    ihdr.push(0);
    ihdr.push(0);
    ihdr.push(0);
    assert(ihdr@ =~= ihdr_spec(w, h));
    let mut out: Vec<u8> = Vec::new();
    let sig = PNG_SIGNATURE;
    let sig_slice: &[u8] = &sig;
    push_all(&mut out, sig_slice);
    chunk(&mut out, &IHDR, ihdr.as_slice());
    let z = zlib_stored(raw.as_slice());
    chunk(&mut out, &IDAT, z.as_slice());
    let empty: Vec<u8> = Vec::new();
    chunk(&mut out, &IEND, empty.as_slice());
    proof {
        assert(empty@ =~= Seq::<u8>::empty());
        assert(out@ =~= png_spec(rgba@, w, h));
    }
    out
}

} // verus!
