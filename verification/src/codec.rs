use vstd::prelude::*;

use vstd::arithmetic::power2::{lemma2_to64, lemma_pow2_unfold, pow2};

use crate::errors::WtxError;
use crate::raster::RawImage;

verus! {

/// The two block codecs the container supports.
///
/// `DXT1` (BC1) encodes an opaque 4x4 block in 8 bytes; `DXT5` (BC3) adds
/// 8-bit alpha and takes 16 bytes per block.
#[derive(Clone, Copy, Debug, PartialEq, Eq, Structural)]
pub enum WtxFormat {
    DXT5,
    DXT1,
}

/// How many mip levels the compressor is asked for.
#[derive(Clone, Copy, Debug, PartialEq, Eq, Structural)]
pub enum MipPolicy {
    /// Exactly one level: the base resolution.
    SingleLevel,
    /// Every level down to the smallest the compressor supports.
    FullAutomaticChain,
}

/// The mip policy selected by the caller's generate-mipmaps flag.
pub open spec fn spec_mip_policy(gen_mipmaps: bool) -> MipPolicy {
    if gen_mipmaps {
        MipPolicy::FullAutomaticChain
    } else {
        MipPolicy::SingleLevel
    }
}

/// Maps the generate-mipmaps flag to the mip-chain policy.
pub fn mip_policy_of(gen_mipmaps: bool) -> (p: MipPolicy)
    ensures
        p == spec_mip_policy(gen_mipmaps),
{
    if gen_mipmaps {
        MipPolicy::FullAutomaticChain
    } else {
        MipPolicy::SingleLevel
    }
}

/// Bytes per compressed 4x4 block.
pub open spec fn block_bytes(format: WtxFormat) -> int {
    match format {
        WtxFormat::DXT1 => 8,
        WtxFormat::DXT5 => 16,
    }
}

/// Compressed size in bytes of the base mip level: one block for every
/// started 4x4 tile.
pub open spec fn base_level_len(width: u16, height: u16, format: WtxFormat) -> int {
    ((width + 3) / 4) * ((height + 3) / 4) * block_bytes(format)
}

/// Floor of the base-2 logarithm.
pub open spec fn floor_log2(n: int) -> int
    decreases n,
{
    if n <= 1 {
        0
    } else {
        1 + floor_log2(n / 2)
    }
}

/// `floor_log2` never goes negative.
pub proof fn lemma_floor_log2_nonneg(n: int)
    ensures
        floor_log2(n) >= 0,
    decreases n,
{
    if n > 1 {
        lemma_floor_log2_nonneg(n / 2);
    }
}

/// `floor_log2` is strictly below `k` on arguments below `2^k`.
pub proof fn lemma_floor_log2_below(n: int, k: nat)
    requires
        1 <= n < pow2(k),
        1 <= k,
    ensures
        floor_log2(n) < k,
    decreases n,
{
    if n > 1 {
        assert(pow2(k) == 2 * pow2((k - 1) as nat)) by {
            lemma_pow2_unfold(k);
        }
        assert(n / 2 < pow2((k - 1) as nat));
        assert(k >= 2) by {
            if k == 1 {
                assert(pow2(1) == 2) by {
                    lemma2_to64();
                }
            }
        }
        lemma_floor_log2_below(n / 2, (k - 1) as nat);
    }
}

/// The number of mip levels the compressor reports for a policy: one for a
/// single level, `floor(log2(max(width, height))) + 1` for the full chain.
pub open spec fn mip_level_count(width: u16, height: u16, policy: MipPolicy) -> int {
    match policy {
        MipPolicy::SingleLevel => 1,
        MipPolicy::FullAutomaticChain => 1 + floor_log2(if width >= height {
            width as int
        } else {
            height as int
        }),
    }
}

/// The reported level count lies in 1..=16 for 16-bit dimensions.
pub proof fn lemma_mip_level_count_bounds(width: u16, height: u16, policy: MipPolicy)
    requires
        1 <= width,
        1 <= height,
    ensures
        1 <= mip_level_count(width, height, policy) <= 16,
{
    let m: int = if width >= height {
        width as int
    } else {
        height as int
    };
    assert(pow2(16) == 0x10000) by {
        lemma2_to64();
    }
    lemma_floor_log2_below(m, 16);
    lemma_floor_log2_nonneg(m);
}

/// Selects the codec named by a configuration string: exactly "DXT1" and
/// "DXT5" are accepted.
pub fn parse_format(s: &str) -> (r: Result<WtxFormat, WtxError>)
    ensures
        s@ == "DXT1"@ ==> r == Ok::<WtxFormat, WtxError>(WtxFormat::DXT1),
        s@ == "DXT5"@ ==> r == Ok::<WtxFormat, WtxError>(WtxFormat::DXT5),
        s@ != "DXT1"@ && s@ != "DXT5"@ ==> r == Err::<WtxFormat, WtxError>(
            WtxError::UnknownFormat,
        ),
{
    proof {
        reveal_strlit("DXT1");
        reveal_strlit("DXT5");
    }
    if s.unicode_len() != 4 {
        return Err(WtxError::UnknownFormat);
    }
    let c0: char = s.get_char(0);
    let c1: char = s.get_char(1);
    let c2: char = s.get_char(2);
    let c3: char = s.get_char(3);
    if c0 == 'D' && c1 == 'X' && c2 == 'T' {
        if c3 == '1' {
            proof {
                assert(s@ =~= "DXT1"@);
            }
            return Ok(WtxFormat::DXT1);
        }
        if c3 == '5' {
            proof {
                assert(s@ =~= "DXT5"@);
            }
            return Ok(WtxFormat::DXT5);
        }
    }
    Err(WtxError::UnknownFormat)
}

/// Compressed base-level size as an executable value.
pub fn base_payload_len(width: u16, height: u16, format: WtxFormat) -> (n: u64)
    requires
        1 <= width,
        1 <= height,
    ensures
        n == base_level_len(width, height, format),
        n >= 1,
{
    let bw: u64 = (width as u64 + 3) / 4;
    let bh: u64 = (height as u64 + 3) / 4;
    let bb: u64 = match format {
        WtxFormat::DXT1 => 8,
        WtxFormat::DXT5 => 16,
    };
    proof {
        assert(bw * bh * bb <= 0x4000 * 0x4000 * 16 && 1 <= bw * bh * bb) by (nonlinear_arith)
            requires
                1 <= bw <= 0x4000,
                1 <= bh <= 0x4000,
                1 <= bb <= 16,
        ;
    }
    bw * bh * bb
}

/// The reported level count as an executable value.
pub fn mip_levels_for(width: u16, height: u16, policy: MipPolicy) -> (n: u16)
    requires
        1 <= width,
        1 <= height,
    ensures
        n == mip_level_count(width, height, policy),
{
    match policy {
        MipPolicy::SingleLevel => 1,
        MipPolicy::FullAutomaticChain => {
            let m: u16 = if width >= height {
                width
            } else {
                height
            };
            proof {
                assert(pow2(16) == 0x10000) by {
                    lemma2_to64();
                }
                lemma_floor_log2_below(m as int, 16);
                lemma_floor_log2_nonneg(m as int);
            }
            let mut v: u16 = m;
            let mut n: u16 = 1;
            while v > 1
                invariant
                    1 <= v,
                    1 <= n,
                    n + floor_log2(v as int) == 1 + floor_log2(m as int),
                    floor_log2(m as int) < 16,
                decreases v,
            {
                proof {
                    lemma_floor_log2_nonneg(v as int / 2);
                }
                v = v / 2;
                n = n + 1;
            }
            n
        },
    }
}

/// Whether a codec carries an 8-bit alpha channel (BC3) rather than the
/// opaque-only BC1.
pub open spec fn codec_has_alpha(format: WtxFormat) -> bool {
    format == WtxFormat::DXT5
}

/// The block encoding the external compressor produces for a raster: a
/// function of the pixel bytes, the dimensions and the codec alone.
pub uninterp spec fn bc_blocks(data: Seq<u8>, width: u16, height: u16, alpha: bool) -> Seq<u8>;

/// Relies on `texpresso::Format::compressed_size` and
/// `texpresso::Format::compress` with the BC1/BC3 block codecs and the fast
/// range-fit algorithm: the compressor reads only the pixel bytes and the
/// dimensions, emits one 8-byte (BC1) or 16-byte (BC3) block for every
/// started 4x4 tile of the raster, padding partial tiles, and fills exactly
/// `compressed_size(width, height)` output bytes.
#[verifier::external_body]
fn compress_base_level(width: u16, height: u16, data: &Vec<u8>, format: WtxFormat) -> (r: Vec<
    u8,
>)
    requires
        1 <= width,
        1 <= height,
        data@.len() == width * height * 4,
    ensures
        r@ == bc_blocks(data@, width, height, codec_has_alpha(format)),
        r@.len() == base_level_len(width, height, format),
{
    let f = match format {
        WtxFormat::DXT5 => texpresso::Format::Bc3,
        WtxFormat::DXT1 => texpresso::Format::Bc1,
    };
    let params = texpresso::Params {
        algorithm: texpresso::Algorithm::RangeFit,
        ..texpresso::Params::default()
    };
    let mut out = vec![0u8; f.compressed_size(width as usize, height as usize)];
    f.compress(data, width as usize, height as usize, params, &mut out);
    out
}

/// Compresses the raster's base mip level with the chosen codec and pairs
/// it with the level count the chosen policy reports.
///
/// Only the base level is ever materialized: the container never stores the
/// smaller levels, whatever the policy asked the compressor for.
pub fn compress_image(img: &RawImage, format: WtxFormat, policy: MipPolicy) -> (r: (u16, Vec<
    u8,
>))
    requires
        img.wf(),
    ensures
        r.0 == mip_level_count(img.spec_width(), img.spec_height(), policy),
        r.1@ == bc_blocks(img.bytes(), img.spec_width(), img.spec_height(), codec_has_alpha(
            format,
        )),
        r.1@.len() == base_level_len(img.spec_width(), img.spec_height(), format),
{
    let width: u16 = img.width();
    let height: u16 = img.height();
    let levels: u16 = mip_levels_for(width, height, policy);
    let bytes: Vec<u8> = compress_base_level(width, height, img.pixel_bytes(), format);
    (levels, bytes)
}

} // verus!
