use vstd::prelude::*;

use vstd::arithmetic::div_mod::{lemma_div_denominator, lemma_fundamental_div_mod};

use crate::average::{ratio_to_bits, rounds_ratio};
use crate::codec::{
    base_level_len, base_payload_len, bc_blocks, codec_has_alpha, compress_image,
    mip_level_count, mip_policy_of, spec_mip_policy, WtxFormat,
};
use crate::errors::WtxError;
use crate::raster::{channel_sum, flipped_rows, lemma_flip_preserves_channel_sum, RawImage};

verus! {

/// The constant magic/version bytes at offset 0.
pub open spec fn magic_bytes() -> Seq<u8> {
    seq![0u8, 0u8, 0u8, 0u8, 0u8, 0u8, 0x12u8, 0u8]
}

/// The single-precision pattern of 1.0 in little-endian byte order: the
/// alpha average stored in every container.
pub open spec fn alpha_one_le() -> Seq<u8> {
    seq![0u8, 0u8, 0x80u8, 0x3Fu8]
}

/// A 16-bit value in little-endian byte order.
pub open spec fn u16_le(x: u16) -> Seq<u8> {
    seq![(x as int % 0x100) as u8, (x as int / 0x100) as u8]
}

/// A 32-bit value in little-endian byte order.
pub open spec fn u32_le(x: u32) -> Seq<u8> {
    seq![
        (x as int % 0x100) as u8,
        (x as int / 0x100 % 0x100) as u8,
        (x as int / 0x1_0000 % 0x100) as u8,
        (x as int / 0x100_0000) as u8,
    ]
}

/// The value a little-endian pair of bytes denotes.
pub open spec fn le16_value(s: Seq<u8>) -> int {
    s[0] + 0x100 * s[1]
}

/// The value a little-endian quadruple of bytes denotes.
pub open spec fn le32_value(s: Seq<u8>) -> int {
    s[0] + 0x100 * s[1] + 0x1_0000 * s[2] + 0x100_0000 * s[3]
}

/// The four ASCII tag bytes of a codec: "DXT1" or "DXT5".
pub open spec fn format_tag(format: WtxFormat) -> Seq<u8> {
    match format {
        WtxFormat::DXT1 => seq![0x44u8, 0x58u8, 0x54u8, 0x31u8],
        WtxFormat::DXT5 => seq![0x44u8, 0x58u8, 0x54u8, 0x35u8],
    }
}

/// The complete container: the fixed 44-byte header followed by the
/// payload.
pub open spec fn spec_container(
    width: u16,
    height: u16,
    levels: u16,
    flags: u8,
    red_bits: u32,
    green_bits: u32,
    blue_bits: u32,
    format: WtxFormat,
    payload: Seq<u8>,
) -> Seq<u8> {
    magic_bytes() + u32_le((32 + payload.len()) as u32) + u16_le(width) + u16_le(height) + u16_le(
        1,
    ) + u16_le(levels) + seq![flags, 0u8, 0u8, 0u8] + u32_le(red_bits) + u32_le(green_bits)
        + u32_le(blue_bits) + alpha_one_le() + format_tag(format) + payload
}

/// Reading back a 16-bit little-endian field yields the value written.
pub proof fn lemma_u16_le_value(x: u16)
    ensures
        le16_value(u16_le(x)) == x,
{
    lemma_fundamental_div_mod(x as int, 0x100);
}

/// Reading back a 32-bit little-endian field yields the value written.
pub proof fn lemma_u32_le_value(x: u32)
    ensures
        le32_value(u32_le(x)) == x,
{
    lemma_fundamental_div_mod(x as int, 0x100);
    lemma_fundamental_div_mod(x as int / 0x100, 0x100);
    lemma_fundamental_div_mod(x as int / 0x1_0000, 0x100);
    lemma_div_denominator(x as int, 0x100, 0x100);
    lemma_div_denominator(x as int, 0x1_0000, 0x100);
}

/// Field-by-field layout of a container: every fixed field sits at the
/// offset the format fixes for it, and the payload follows the 44-byte
/// header unchanged.
pub proof fn lemma_container_layout(
    c: Seq<u8>,
    width: u16,
    height: u16,
    levels: u16,
    flags: u8,
    red_bits: u32,
    green_bits: u32,
    blue_bits: u32,
    format: WtxFormat,
    payload: Seq<u8>,
)
    requires
        c == spec_container(width, height, levels, flags, red_bits, green_bits, blue_bits,
            format, payload),
    ensures
        c.len() == 44 + payload.len(),
        c.subrange(0, 8) == magic_bytes(),
        c.subrange(8, 12) == u32_le((32 + payload.len()) as u32),
        c.subrange(12, 14) == u16_le(width),
        c.subrange(14, 16) == u16_le(height),
        c.subrange(16, 18) == u16_le(1),
        c.subrange(18, 20) == u16_le(levels),
        c.subrange(20, 24) == seq![flags, 0u8, 0u8, 0u8],
        c.subrange(24, 28) == u32_le(red_bits),
        c.subrange(28, 32) == u32_le(green_bits),
        c.subrange(32, 36) == u32_le(blue_bits),
        c.subrange(36, 40) == alpha_one_le(),
        c.subrange(40, 44) == format_tag(format),
        c.subrange(44, c.len() as int) == payload,
{
    assert(c.subrange(0, 8) =~= magic_bytes());
    assert(c.subrange(8, 12) =~= u32_le((32 + payload.len()) as u32));
    assert(c.subrange(12, 14) =~= u16_le(width));
    assert(c.subrange(14, 16) =~= u16_le(height));
    assert(c.subrange(16, 18) =~= u16_le(1));
    assert(c.subrange(18, 20) =~= u16_le(levels));
    assert(c.subrange(20, 24) =~= seq![flags, 0u8, 0u8, 0u8]);
    assert(c.subrange(24, 28) =~= u32_le(red_bits));
    assert(c.subrange(28, 32) =~= u32_le(green_bits));
    assert(c.subrange(32, 36) =~= u32_le(blue_bits));
    assert(c.subrange(36, 40) =~= alpha_one_le());
    assert(c.subrange(40, 44) =~= format_tag(format));
    assert(c.subrange(44, c.len() as int) =~= payload);
}

/// Law: the total-length field holds 32 plus the payload length, for every
/// payload whose container fits the 32-bit field.
pub proof fn lemma_total_length_field(
    c: Seq<u8>,
    width: u16,
    height: u16,
    levels: u16,
    flags: u8,
    red_bits: u32,
    green_bits: u32,
    blue_bits: u32,
    format: WtxFormat,
    payload: Seq<u8>,
)
    requires
        c == spec_container(width, height, levels, flags, red_bits, green_bits, blue_bits,
            format, payload),
        32 + payload.len() <= 0xFFFF_FFFF,
    ensures
        le32_value(c.subrange(8, 12)) == 32 + payload.len(),
{
    lemma_container_layout(c, width, height, levels, flags, red_bits, green_bits, blue_bits,
        format, payload);
    lemma_u32_le_value((32 + payload.len()) as u32);
}

/// Law: the width and height fields hold the raster's dimensions exactly,
/// and the mip-count field the reported level count.
pub proof fn lemma_dimension_fields(
    c: Seq<u8>,
    width: u16,
    height: u16,
    levels: u16,
    flags: u8,
    red_bits: u32,
    green_bits: u32,
    blue_bits: u32,
    format: WtxFormat,
    payload: Seq<u8>,
)
    requires
        c == spec_container(width, height, levels, flags, red_bits, green_bits, blue_bits,
            format, payload),
    ensures
        le16_value(c.subrange(12, 14)) == width,
        le16_value(c.subrange(14, 16)) == height,
        le16_value(c.subrange(16, 18)) == 1,
        le16_value(c.subrange(18, 20)) == levels,
    {
    lemma_container_layout(c, width, height, levels, flags, red_bits, green_bits, blue_bits,
        format, payload);
    lemma_u16_le_value(width);
    lemma_u16_le_value(height);
    lemma_u16_le_value(1);
    lemma_u16_le_value(levels);
}

/// Law: the alpha-average field holds exactly 1.0, whatever the raster's
/// alpha content.
pub proof fn lemma_alpha_average_field(
    c: Seq<u8>,
    width: u16,
    height: u16,
    levels: u16,
    flags: u8,
    red_bits: u32,
    green_bits: u32,
    blue_bits: u32,
    format: WtxFormat,
    payload: Seq<u8>,
)
    requires
        c == spec_container(width, height, levels, flags, red_bits, green_bits, blue_bits,
            format, payload),
    ensures
        c.subrange(36, 40) == alpha_one_le(),
{
    lemma_container_layout(c, width, height, levels, flags, red_bits, green_bits, blue_bits,
        format, payload);
}

/// Law: the tag bytes read "DXT1" exactly when the opaque codec was
/// selected, and "DXT5" exactly when the alpha-blended codec was.
pub proof fn lemma_format_tag_field(
    c: Seq<u8>,
    width: u16,
    height: u16,
    levels: u16,
    flags: u8,
    red_bits: u32,
    green_bits: u32,
    blue_bits: u32,
    format: WtxFormat,
    payload: Seq<u8>,
)
    requires
        c == spec_container(width, height, levels, flags, red_bits, green_bits, blue_bits,
            format, payload),
    ensures
        c.subrange(40, 44) == format_tag(WtxFormat::DXT1) <==> format == WtxFormat::DXT1,
        c.subrange(40, 44) == format_tag(WtxFormat::DXT5) <==> format == WtxFormat::DXT5,
{
    lemma_container_layout(c, width, height, levels, flags, red_bits, green_bits, blue_bits,
        format, payload);
    assert(format_tag(WtxFormat::DXT1)[3] != format_tag(WtxFormat::DXT5)[3]);
}

/// Appends a 16-bit value in little-endian order.
fn push_u16_le(out: &mut Vec<u8>, x: u16)
    ensures
        final(out)@ == old(out)@ + u16_le(x),
{
    out.push((x % 0x100) as u8);
    out.push((x / 0x100) as u8);
    proof {
        assert(out@ =~= old(out)@ + u16_le(x));
    }
}

/// Appends a 32-bit value in little-endian order.
fn push_u32_le(out: &mut Vec<u8>, x: u32)
    ensures
        final(out)@ == old(out)@ + u32_le(x),
{
    out.push((x % 0x100) as u8);
    out.push((x / 0x100 % 0x100) as u8);
    out.push((x / 0x1_0000 % 0x100) as u8);
    out.push((x / 0x100_0000) as u8);
    proof {
        assert(out@ =~= old(out)@ + u32_le(x));
    }
}

/// Assembles the complete container file: the 44-byte header laid out as
/// `spec_container` fixes it, followed by the payload bytes.
pub fn build_container(
    width: u16,
    height: u16,
    levels: u16,
    flags: u8,
    red_bits: u32,
    green_bits: u32,
    blue_bits: u32,
    format: WtxFormat,
    payload: Vec<u8>,
) -> (out: Vec<u8>)
    requires
        32 + payload@.len() <= 0xFFFF_FFFF,
    ensures
        out@ == spec_container(width, height, levels, flags, red_bits, green_bits, blue_bits,
            format, payload@),
{
    let mut payload = payload;
    let ghost payload_in: Seq<u8> = payload@;
    let mut out: Vec<u8> = Vec::new();
    out.push(0);
    out.push(0);
    out.push(0);
    out.push(0);
    out.push(0);
    out.push(0);
    out.push(0x12);
    out.push(0);
    let total: u32 = 32 + (payload.len() as u32);
    push_u32_le(&mut out, total);
    push_u16_le(&mut out, width);
    push_u16_le(&mut out, height);
    push_u16_le(&mut out, 1);
    push_u16_le(&mut out, levels);
    out.push(flags);
    out.push(0);
    out.push(0);
    out.push(0);
    push_u32_le(&mut out, red_bits);
    push_u32_le(&mut out, green_bits);
    push_u32_le(&mut out, blue_bits);
    out.push(0);
    out.push(0);
    out.push(0x80);
    out.push(0x3F);
    match format {
        WtxFormat::DXT1 => {
            out.push(0x44);
            out.push(0x58);
            out.push(0x54);
            out.push(0x31);
        },
        WtxFormat::DXT5 => {
            out.push(0x44);
            out.push(0x58);
            out.push(0x54);
            out.push(0x35);
        },
    }
    out.append(&mut payload);
    proof {
        assert(out@ =~= spec_container(width, height, levels, flags, red_bits, green_bits,
            blue_bits, format, payload_in));
    }
    out
}

/// Everything a produced container satisfies: the header fields of
/// `spec_container` with the reported mip count, channel averages within
/// half an ulp of the raster's exact channel means, and exactly the block
/// encoding of the vertically flipped raster's base mip level as payload.
pub open spec fn valid_container(
    out: Seq<u8>,
    img: RawImage,
    gen_mipmaps: bool,
    format: WtxFormat,
    flags: u8,
) -> bool {
    let w = img.spec_width();
    let h = img.spec_height();
    let d = 255 * (w as int * h as int);
    let levels = mip_level_count(w, h, spec_mip_policy(gen_mipmaps)) as u16;
    let payload = bc_blocks(flipped_rows(img.bytes(), w as int, h as int), w, h,
        codec_has_alpha(format));
    &&& payload.len() == base_level_len(w, h, format)
    &&& exists|rb: u32, gb: u32, bb: u32|
        {
            &&& #[trigger] spec_container(w, h, levels, flags, rb, gb, bb, format, payload)
                == out
            &&& rounds_ratio(rb, channel_sum(img.bytes(), 0), d)
            &&& rounds_ratio(gb, channel_sum(img.bytes(), 1), d)
            &&& rounds_ratio(bb, channel_sum(img.bytes(), 2), d)
        }
}

/// Encodes a raster into a complete WTX container.
///
/// The raster is flipped to the container's bottom-up scanline order,
/// measured, compressed with the selected codec under the selected mip
/// policy, and serialized. Success is owed exactly when the base-level
/// payload fits the container's 32-bit total-length field.
pub fn generate_wtx_from_image(
    img: &RawImage,
    gen_mipmaps: bool,
    format: WtxFormat,
    flags: u8,
) -> (r: Result<Vec<u8>, WtxError>)
    requires
        img.wf(),
    ensures
        r matches Ok(out) ==> valid_container(out@, *img, gen_mipmaps, format, flags),
        (r is Err) <==> 32 + base_level_len(img.spec_width(), img.spec_height(), format)
            > 0xFFFF_FFFF,
        r matches Err(e) ==> e == WtxError::OversizedPayload,
{
    let width: u16 = img.width();
    let height: u16 = img.height();
    let base: u64 = base_payload_len(width, height, format);
    if base > 0xFFFF_FFFFu64 - 32 {
        return Err(WtxError::OversizedPayload);
    }
    let flipped = img.flip_vertical();
    let (sum_r, sum_g, sum_b) = flipped.channel_sums();
    proof {
        assert(1 <= width as int * height as int <= 0xFFFF_FFFF) by (nonlinear_arith)
            requires
                1 <= width <= 0xFFFF,
                1 <= height <= 0xFFFF,
        ;
    }
    let npix: u64 = (width as u64) * (height as u64);
    let d: u64 = 255 * npix;
    let red_bits: u32 = ratio_to_bits(sum_r, d);
    let green_bits: u32 = ratio_to_bits(sum_g, d);
    let blue_bits: u32 = ratio_to_bits(sum_b, d);
    let policy = mip_policy_of(gen_mipmaps);
    let (levels, payload) = compress_image(&flipped, format, policy);
    let out = build_container(width, height, levels, flags, red_bits, green_bits, blue_bits,
        format, payload);
    proof {
        crate::codec::lemma_mip_level_count_bounds(width, height, policy);
        assert(levels == mip_level_count(width, height, spec_mip_policy(gen_mipmaps)) as u16);
        lemma_flip_preserves_channel_sum(img.bytes(), width as int, height as int, 0);
        lemma_flip_preserves_channel_sum(img.bytes(), width as int, height as int, 1);
        lemma_flip_preserves_channel_sum(img.bytes(), width as int, height as int, 2);
        assert(valid_container(out@, *img, gen_mipmaps, format, flags));
    }
    Ok(out)
}

} // verus!
