//! Encoders for the application icons: a solid-colour PNG built from stored
//! (uncompressed) deflate blocks, its CRC-32 and Adler-32 checksums, and the
//! raw RGBA pixels of the icons, and the ICO file that holds them (encoded by
//! the `ico` crate).
use vstd::prelude::*;

verus! {

/// Bytes of `pat` repeated `n` times.
pub open spec fn repeat_bytes(pat: Seq<u8>, n: nat) -> Seq<u8>
    decreases n,
{
    if n == 0 {
        Seq::empty()
    } else {
        repeat_bytes(pat, (n - 1) as nat) + pat
    }
}

/// The four bytes of `x`, most significant first.
pub open spec fn be32(x: u32) -> Seq<u8> {
    seq![(x >> 24u32) as u8, (x >> 16u32) as u8, (x >> 8u32) as u8, x as u8]
}

/// The two bytes of `x`, least significant first.
pub open spec fn le16(x: u16) -> Seq<u8> {
    seq![x as u8, (x >> 8u16) as u8]
}

// ---------------------------------------------------------------------------
// CRC-32 (reflected polynomial 0xEDB88320, as used by PNG)
// ---------------------------------------------------------------------------

/// One bit step of the reflected CRC-32 register.
pub open spec fn crc_bit_step(c: u32) -> u32 {
    if c & 1u32 != 0u32 {
        (c >> 1u32) ^ 0xEDB88320u32
    } else {
        c >> 1u32
    }
}

/// `n` bit steps of the CRC-32 register.
pub open spec fn crc_bit_steps(c: u32, n: nat) -> u32
    decreases n,
{
    if n == 0 {
        c
    } else {
        crc_bit_step(crc_bit_steps(c, (n - 1) as nat))
    }
}

/// The CRC-32 register after feeding `data`, starting from all ones.
pub open spec fn crc_register(data: Seq<u8>) -> u32
    decreases data.len(),
{
    if data.len() == 0 {
        0xFFFF_FFFFu32
    } else {
        crc_bit_steps(crc_register(data.drop_last()) ^ (data.last() as u32), 8)
    }
}

/// The CRC-32 checksum of `data`: the final register, inverted.
pub open spec fn crc32_of(data: Seq<u8>) -> u32 {
    crc_register(data) ^ 0xFFFF_FFFFu32
}

/// Computes the CRC-32 checksum of `data`.
pub fn crc32(data: &[u8]) -> (r: u32)
    ensures
        r == crc32_of(data@),
{
    let mut crc: u32 = 0xFFFF_FFFFu32;
    let mut i: usize = 0;
    while i < data.len()
        invariant
            i <= data@.len(),
            crc == crc_register(data@.take(i as int)),
        decreases data@.len() - i,
    {
        let byte = data[i];
        crc = crc ^ (byte as u32);
        let ghost start = crc;
        let mut k: u32 = 0;
        while k < 8
            invariant
                k <= 8,
                crc == crc_bit_steps(start, k as nat),
            decreases 8 - k,
        {
            if crc & 1 != 0 {
                crc = (crc >> 1) ^ 0xEDB88320u32;
            } else {
                crc = crc >> 1;
            }
            k = k + 1;
        }
        proof {
            assert(data@.take(i + 1).drop_last() =~= data@.take(i as int));
            assert(data@.take(i + 1).last() == byte);
        }
        i = i + 1;
    }
    proof {
        assert(data@.take(i as int) =~= data@);
    }
    crc ^ 0xFFFF_FFFFu32
}

// ---------------------------------------------------------------------------
// Adler-32
// ---------------------------------------------------------------------------

/// The Adler-32 sums `(a, b)` after feeding `data`.
pub open spec fn adler_sums(data: Seq<u8>) -> (u32, u32)
    decreases data.len(),
{
    if data.len() == 0 {
        (1u32, 0u32)
    } else {
        let (a, b) = adler_sums(data.drop_last());
        let a2 = ((a + data.last()) % 65521) as u32;
        let b2 = ((b + a2) % 65521) as u32;
        (a2, b2)
    }
}

/// The Adler-32 checksum of `data`: the sum `b` in the high half, `a` in
/// the low half.
pub open spec fn adler32_of(data: Seq<u8>) -> u32 {
    let (a, b) = adler_sums(data);
    (b << 16u32) | a
}

proof fn lemma_adler_sums_bound(data: Seq<u8>)
    ensures
        adler_sums(data).0 < 65521,
        adler_sums(data).1 < 65521,
    decreases data.len(),
{
    if data.len() > 0 {
        lemma_adler_sums_bound(data.drop_last());
    }
}

/// The Adler-32 checksum equals `b * 65536 + a`.
pub proof fn lemma_adler32_value(data: Seq<u8>)
    ensures
        adler32_of(data) == adler_sums(data).1 * 65536 + adler_sums(data).0,
{
    lemma_adler_sums_bound(data);
    let (a, b) = adler_sums(data);
    assert(a < 65536 && b < 65536 ==> (b << 16u32) | a == b * 65536 + a) by (bit_vector);
}

/// Computes the Adler-32 checksum of `data`.
pub fn adler32(data: &[u8]) -> (r: u32)
    ensures
        r == adler32_of(data@),
{
    let mut a: u32 = 1;
    let mut b: u32 = 0;
    let mut i: usize = 0;
    while i < data.len()
        invariant
            i <= data@.len(),
            (a, b) == adler_sums(data@.take(i as int)),
            a < 65521,
            b < 65521,
        decreases data@.len() - i,
    {
        let byte = data[i];
        a = (a + byte as u32) % 65521;
        b = (b + a) % 65521;
        proof {
            assert(data@.take(i + 1).drop_last() =~= data@.take(i as int));
            assert(data@.take(i + 1).last() == byte);
        }
        i = i + 1;
    }
    proof {
        assert(data@.take(i as int) =~= data@);
    }
    (b << 16) | a
}

// ---------------------------------------------------------------------------
// PNG assembly
// ---------------------------------------------------------------------------

/// The eight-byte PNG file signature.
pub open spec fn png_signature() -> Seq<u8> {
    seq![137u8, 80, 78, 71, 13, 10, 26, 10]
}

/// A PNG chunk: data length, type, data, CRC-32 of type and data. The
/// length field holds the data length truncated to 32 bits.
pub open spec fn png_chunk(chunk_type: Seq<u8>, data: Seq<u8>) -> Seq<u8> {
    be32(data.len() as u32) + chunk_type + data + be32(crc32_of(chunk_type + data))
}

/// Chunk type `IHDR`.
pub open spec fn ihdr_type() -> Seq<u8> {
    seq![73u8, 72, 68, 82]
}

/// Chunk type `IDAT`.
pub open spec fn idat_type() -> Seq<u8> {
    seq![73u8, 68, 65, 84]
}

/// Chunk type `IEND`.
pub open spec fn iend_type() -> Seq<u8> {
    seq![73u8, 69, 78, 68]
}

/// The colour of every pixel of the PNG icon, in RGBA order.
pub open spec fn png_pixel() -> Seq<u8> {
    seq![0x60u8, 0x34, 0x0F, 0xFF]
}

/// One image row: filter type 0 followed by `width` pixels.
pub open spec fn png_row(width: nat) -> Seq<u8> {
    seq![0u8] + repeat_bytes(png_pixel(), width)
}

/// The unfiltered image data: `height` rows.
pub open spec fn png_raw(width: nat, height: nat) -> Seq<u8> {
    repeat_bytes(png_row(width), height)
}

/// `raw` split into stored deflate blocks of at most 65535 bytes; each
/// block has a final-block flag byte, its length and the length's
/// complement, both least significant byte first. Empty input gives one
/// empty final block.
pub open spec fn stored_blocks(raw: Seq<u8>) -> Seq<u8>
    decreases raw.len(),
{
    if raw.len() <= 65535 {
        seq![1u8] + le16(raw.len() as u16) + le16(!(raw.len() as u16)) + raw
    } else {
        seq![0u8] + le16(65535u16) + le16(!65535u16) + raw.take(65535) + stored_blocks(
            raw.skip(65535),
        )
    }
}

/// The IHDR data: width, height, bit depth 8, colour type 6 (RGBA),
/// default compression, filter and interlace methods.
pub open spec fn ihdr_data(width: u32, height: u32) -> Seq<u8> {
    be32(width) + be32(height) + seq![8u8, 6, 0, 0, 0]
}

/// The whole PNG file for a `width` x `height` image of `png_pixel`.
pub open spec fn png_file(width: u32, height: u32) -> Seq<u8> {
    let raw = png_raw(width as nat, height as nat);
    png_signature() + png_chunk(ihdr_type(), ihdr_data(width, height)) + png_chunk(
        idat_type(),
        stored_blocks(raw) + be32(adler32_of(raw)),
    ) + png_chunk(iend_type(), Seq::empty())
}

/// The raw pixels of the ICO images: `height` rows of `width` pixels, each
/// pixel the bytes 0x0F, 0x34, 0x60, 0xFF.
pub open spec fn ico_rgba(width: nat, height: nat) -> Seq<u8> {
    repeat_bytes(repeat_bytes(seq![0x0Fu8, 0x34, 0x60, 0xFF], width), height)
}

/// A repeated pattern is as long as the pattern times the count.
pub proof fn lemma_repeat_len(pat: Seq<u8>, n: nat)
    ensures
        repeat_bytes(pat, n).len() == n * pat.len(),
    decreases n,
{
    if n > 0 {
        lemma_repeat_len(pat, (n - 1) as nat);
        assert(n * pat.len() == (n - 1) * pat.len() + pat.len()) by (nonlinear_arith);
    } else {
        assert(n * pat.len() == 0) by (nonlinear_arith)
            requires
                n == 0,
        ;
    }
}

/// The unfiltered PNG data holds `height` rows of `1 + 4 * width` bytes,
/// and the ICO pixels four bytes per pixel.
pub proof fn lemma_image_sizes(width: nat, height: nat)
    ensures
        png_raw(width, height).len() == height * (1 + 4 * width),
        ico_rgba(width, height).len() == 4 * width * height,
{
    lemma_repeat_len(png_pixel(), width);
    lemma_repeat_len(png_row(width), height);
    lemma_repeat_len(seq![0x0Fu8, 0x34, 0x60, 0xFF], width);
    lemma_repeat_len(repeat_bytes(seq![0x0Fu8, 0x34, 0x60, 0xFF], width), height);
    assert(width * 4 * height == 4 * width * height) by (nonlinear_arith);
    assert(height * (4 * width + 1) == height * (1 + 4 * width)) by (nonlinear_arith);
    assert(height * (width * 4) == 4 * width * height) by (nonlinear_arith);
}

/// Appends the bytes of `bytes` to `out`.
fn append_bytes(out: &mut Vec<u8>, bytes: &[u8])
    ensures
        final(out)@ == old(out)@ + bytes@,
{
    let mut i: usize = 0;
    while i < bytes.len()
        invariant
            i <= bytes@.len(),
            out@ == old(out)@ + bytes@.take(i as int),
        decreases bytes@.len() - i,
    {
        out.push(bytes[i]);
        i = i + 1;
        proof {
            assert(old(out)@ + bytes@.take(i as int) =~= (old(out)@ + bytes@.take(i - 1)).push(
                bytes@[i - 1],
            ));
        }
    }
    proof {
        assert(bytes@.take(i as int) =~= bytes@);
    }
}

/// Appends `x`, most significant byte first.
fn push_be32(out: &mut Vec<u8>, x: u32)
    ensures
        final(out)@ == old(out)@ + be32(x),
{
    out.push((x >> 24) as u8);
    out.push((x >> 16) as u8);
    out.push((x >> 8) as u8);
    out.push(x as u8);
    proof {
        assert(final(out)@ =~= old(out)@ + be32(x));
    }
}

/// Appends `x`, least significant byte first.
fn push_le16(out: &mut Vec<u8>, x: u16)
    ensures
        final(out)@ == old(out)@ + le16(x),
{
    out.push(x as u8);
    out.push((x >> 8) as u8);
    proof {
        assert(final(out)@ =~= old(out)@ + le16(x));
    }
}

/// Appends one PNG chunk of type `chunk_type` holding `chunk_data`.
pub fn write_chunk(data: &mut Vec<u8>, chunk_type: &[u8; 4], chunk_data: &[u8])
    ensures
        final(data)@ == old(data)@ + png_chunk(chunk_type@, chunk_data@),
{
    let length = chunk_data.len() as u32;
    push_be32(data, length);
    let mut crc_input: Vec<u8> = Vec::new();
    append_bytes(&mut crc_input, chunk_type.as_slice());
    append_bytes(&mut crc_input, chunk_data);
    let crc = crc32(crc_input.as_slice());
    append_bytes(data, chunk_type.as_slice());
    append_bytes(data, chunk_data);
    push_be32(data, crc);
    proof {
        assert(final(data)@ =~= old(data)@ + png_chunk(chunk_type@, chunk_data@));
    }
}

/// Appends `pat` to `out` `n` times.
fn push_repeated(out: &mut Vec<u8>, pat: &[u8], n: u32)
    ensures
        final(out)@ == old(out)@ + repeat_bytes(pat@, n as nat),
{
    let mut k: u32 = 0;
    while k < n
        invariant
            k <= n,
            out@ == old(out)@ + repeat_bytes(pat@, k as nat),
        decreases n - k,
    {
        append_bytes(out, pat);
        k = k + 1;
        proof {
            assert(old(out)@ + repeat_bytes(pat@, k as nat) =~= old(out)@ + repeat_bytes(
                pat@,
                (k - 1) as nat,
            ) + pat@);
        }
    }
}

/// Builds the unfiltered image data of a solid `width` x `height` image.
fn make_png_raw(width: u32, height: u32) -> (raw: Vec<u8>)
    ensures
        raw@ == png_raw(width as nat, height as nat),
{
    let pixel: [u8; 4] = [0x60u8, 0x34, 0x0F, 0xFF];
    let mut row: Vec<u8> = Vec::new();
    row.push(0u8);
    push_repeated(&mut row, pixel.as_slice(), width);
    proof {
        assert(pixel@ =~= png_pixel());
        assert(row@ =~= png_row(width as nat));
    }
    let mut raw: Vec<u8> = Vec::new();
    push_repeated(&mut raw, row.as_slice(), height);
    proof {
        assert(raw@ =~= png_raw(width as nat, height as nat));
    }
    raw
}

/// Appends `raw` as a sequence of stored deflate blocks.
fn push_stored_blocks(out: &mut Vec<u8>, raw: &[u8])
    ensures
        final(out)@ == old(out)@ + stored_blocks(raw@),
{
    let mut pos: usize = 0;
    let mut done = false;
    proof {
        assert(raw@.skip(0) =~= raw@);
    }
    while !done
        invariant
            pos <= raw@.len(),
            !done ==> out@ + stored_blocks(raw@.skip(pos as int)) == old(out)@ + stored_blocks(
                raw@,
            ),
            done ==> out@ == old(out)@ + stored_blocks(raw@),
        decreases raw@.len() - pos + (if done {
            0int
        } else {
            1int
        }),
    {
        let ghost before = out@;
        let rest = raw.len() - pos;
        let block_size: usize = if rest < 65535 {
            rest
        } else {
            65535
        };
        let is_final = block_size == rest;
        out.push(if is_final {
            1u8
        } else {
            0u8
        });
        let len = block_size as u16;
        push_le16(out, len);
        push_le16(out, !len);
        let ghost mid = out@;
        let mut j: usize = 0;
        while j < block_size
            invariant
                j <= block_size,
                pos + block_size <= raw@.len(),
                raw@.len() <= usize::MAX,
                out@ == mid + raw@.subrange(pos as int, pos + j),
            decreases block_size - j,
        {
            out.push(raw[pos + j]);
            j = j + 1;
            proof {
                assert(mid + raw@.subrange(pos as int, pos + j) =~= (mid + raw@.subrange(
                    pos as int,
                    pos + j - 1,
                )).push(raw@[pos + j - 1]));
            }
        }
        proof {
            let r = raw@.skip(pos as int);
            if is_final {
                assert(r.len() <= 65535);
                assert(raw@.subrange(pos as int, pos + block_size) =~= r);
                assert(out@ =~= before + stored_blocks(r));
            } else {
                assert(r.len() > 65535);
                assert(raw@.subrange(pos as int, pos + block_size) =~= r.take(65535));
                assert(r.skip(65535) =~= raw@.skip(pos + 65535));
                assert(before + stored_blocks(r) =~= out@ + stored_blocks(r.skip(65535)));
            }
        }
        pos = pos + block_size;
        if is_final {
            done = true;
        }
    }
}

/// Builds a PNG file of a `width` x `height` image in one solid colour,
/// stored without compression.
pub fn make_png_bytes(width: u32, height: u32) -> (png: Vec<u8>)
    requires
        1 + 4 * width <= usize::MAX,
        (1 + 4 * width) * height <= usize::MAX,
    ensures
        png@ == png_file(width, height),
{
    let mut png: Vec<u8> = Vec::new();
    let signature: [u8; 8] = [137u8, 80, 78, 71, 13, 10, 26, 10];
    append_bytes(&mut png, signature.as_slice());
    proof {
        assert(signature@ =~= png_signature());
    }

    let mut ihdr: Vec<u8> = Vec::new();
    push_be32(&mut ihdr, width);
    push_be32(&mut ihdr, height);
    ihdr.push(8u8);
    ihdr.push(6u8);
    ihdr.push(0u8);
    ihdr.push(0u8);
    ihdr.push(0u8);
    proof {
        assert(ihdr@ =~= ihdr_data(width, height));
    }
    let ihdr_tag: [u8; 4] = [73u8, 72, 68, 82];
    proof {
        assert(ihdr_tag@ =~= ihdr_type());
    }
    write_chunk(&mut png, &ihdr_tag, ihdr.as_slice());

    let raw = make_png_raw(width, height);
    let mut deflated: Vec<u8> = Vec::new();
    push_stored_blocks(&mut deflated, raw.as_slice());
    let adler = adler32(raw.as_slice());
    push_be32(&mut deflated, adler);
    proof {
        assert(deflated@ =~= stored_blocks(raw@) + be32(adler32_of(raw@)));
    }
    let idat_tag: [u8; 4] = [73u8, 68, 65, 84];
    proof {
        assert(idat_tag@ =~= idat_type());
    }
    write_chunk(&mut png, &idat_tag, deflated.as_slice());

    let iend_tag: [u8; 4] = [73u8, 69, 78, 68];
    let empty: Vec<u8> = Vec::new();
    proof {
        assert(iend_tag@ =~= iend_type());
        assert(empty@ =~= Seq::<u8>::empty());
    }
    write_chunk(&mut png, &iend_tag, empty.as_slice());
    proof {
        assert(png@ =~= png_file(width, height));
    }
    png
}

/// Builds the raw pixels of a `width` x `height` ICO image.
pub fn make_rgba_data(width: u32, height: u32) -> (data: Vec<u8>)
    requires
        width * height * 4 <= u32::MAX,
    ensures
        data@ == ico_rgba(width as nat, height as nat),
{
    let mut data: Vec<u8> = Vec::new();
    let pixel: [u8; 4] = [0x0Fu8, 0x34, 0x60, 0xFF];
    proof {
        assert(pixel@ =~= seq![0x0Fu8, 0x34, 0x60, 0xFF]);
        assert(data@ =~= ico_rgba(width as nat, 0));
    }
    let mut y: u32 = 0;
    while y < height
        invariant
            y <= height,
            pixel@ == seq![0x0Fu8, 0x34, 0x60, 0xFF],
            data@ == ico_rgba(width as nat, y as nat),
        decreases height - y,
    {
        push_repeated(&mut data, pixel.as_slice(), width);
        y = y + 1;
    }
    data
}

/// The ICO file that the `ico` crate writes for square images, each given by
/// its side and its RGBA pixels (each encoded as a PNG entry of an icon
/// directory, in order); `None` when the crate reports an error.
pub uninterp spec fn ico_file(images: Seq<(u32, Seq<u8>)>) -> Option<Seq<u8>>;

/// The values of a sequence of square images.
pub open spec fn images_view(images: Seq<(u32, Vec<u8>)>) -> Seq<(u32, Seq<u8>)> {
    images.map_values(|x: (u32, Vec<u8>)| (x.0, x.1@))
}

/// Encodes square images as one ICO file with the `ico` crate: an
/// `IconDir` of resource type `Icon`, one `IconDirEntry::encode_as_png`
/// entry per image, written with `IconDir::write`. The contract claims only
/// that the result is `ico_file` of the images, a value that depends on them
/// alone. `IconImage::from_rgba_data` panics unless a side is at least one
/// and the pixels are four bytes per pixel, hence the `requires`; an entry
/// made by `encode_as_png` from an image without a cursor hotspot is an
/// icon entry, so `add_entry` does not panic.
#[verifier::external_body]
fn encode_ico(images: &Vec<(u32, Vec<u8>)>) -> (r: Option<Vec<u8>>)
    requires
        forall|i: int|
            0 <= i < images@.len() ==> 1 <= (#[trigger] images@[i]).0 && images@[i].1@.len() == 4
                * images@[i].0 * images@[i].0,
    ensures
        r matches Some(bytes) ==> ico_file(images_view(images@)) == Some(bytes@),
        r is None ==> ico_file(images_view(images@)) is None,
{
    let mut dir = ico::IconDir::new(ico::ResourceType::Icon);
    for (side, rgba) in images.iter() {
        let image = ico::IconImage::from_rgba_data(*side, *side, rgba.clone());
        dir.add_entry(ico::IconDirEntry::encode_as_png(&image).ok()?);
    }
    let mut out: Vec<u8> = Vec::new();
    dir.write(&mut out).ok()?;
    Some(out)
}

/// The images of the application icon: one square image per side, each of
/// the solid colour of `make_rgba_data`.
pub open spec fn icon_images(sides: Seq<u32>) -> Seq<(u32, Seq<u8>)> {
    sides.map_values(|s: u32| (s, ico_rgba(s as nat, s as nat)))
}

/// The ICO file of the application icon with one image per side, as
/// encoded by the `ico` crate; `None` when the crate reports an error.
pub fn make_ico_bytes(sides: &Vec<u32>) -> (r: Option<Vec<u8>>)
    requires
        forall|i: int| 0 <= i < sides@.len() ==> 1 <= #[trigger] sides@[i] && sides@[i] * sides@[i] * 4 <= u32::MAX,
    ensures
        r matches Some(bytes) ==> ico_file(icon_images(sides@)) == Some(bytes@),
        r is None ==> ico_file(icon_images(sides@)) is None,
{
    let mut images: Vec<(u32, Vec<u8>)> = Vec::new();
    let mut i: usize = 0;
    while i < sides.len()
        invariant
            i <= sides@.len(),
            forall|j: int| 0 <= j < sides@.len() ==> 1 <= #[trigger] sides@[j] && sides@[j] * sides@[j] * 4 <= u32::MAX,
            images_view(images@) == icon_images(sides@).take(i as int),
            forall|j: int|
                0 <= j < images@.len() ==> 1 <= (#[trigger] images@[j]).0 && images@[j].1@.len()
                    == 4 * images@[j].0 * images@[j].0,
        decreases sides@.len() - i,
    {
        let side = sides[i];
        let rgba = make_rgba_data(side, side);
        proof {
            lemma_image_sizes(side as nat, side as nat);
        }
        let ghost before = images@;
        images.push((side, rgba));
        i = i + 1;
        proof {
            assert(images_view(images@) =~= images_view(before).push((side, rgba@)));
            assert(icon_images(sides@).take(i as int) =~= icon_images(sides@).take(i - 1).push(
                icon_images(sides@)[i - 1],
            ));
            assert(images_view(images@) =~= icon_images(sides@).take(i as int));
        }
    }
    proof {
        assert(icon_images(sides@).take(i as int) =~= icon_images(sides@));
    }
    encode_ico(&images)
}

} // verus!
