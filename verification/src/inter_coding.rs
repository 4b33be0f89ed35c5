//! What is left to code of macroblocks that are predicted from other pictures.

use vstd::prelude::*;

use crate::bits::BitWriter;
use crate::cavlc_syntax::{
    block_numbers, chroma_written, interleave, interleaved, luma_written, write_chroma,
    write_luma_blocks, Written,
};
use crate::inter_predict::macroblock_sized;
use crate::inter_residual::{
    block_ints, inter_residual, reconstruct_inter_luma, select_inter_luma_residual,
    selected_levels, InterLumaResidual, LumaLevels,
};
use crate::intra_coding::{chroma_plane_coded, chroma_site_levels, code_chroma_plane};
use crate::neighbors::{counts_fit, rows};
use crate::picture::{planes_fit, Planes, Samples, Site, SiteModel};
use crate::plane::with_region;
use crate::reconstruct::corrected;
use crate::residual::{chroma_levels_fit, ChromaLevels, ChromaResidual};

verus! {

/// A macroblock after it is predicted from other pictures.
#[verifier::ext_equal]
pub struct InterCoded {
    /// The coded samples.
    pub planes: Samples,
    /// Its luma levels.
    pub luma: LumaLevels,
    /// Its blue-difference levels.
    pub cb: ChromaLevels,
    /// Its red-difference levels.
    pub cr: ChromaLevels,
}

/// The luma levels of a macroblock.
#[verifier::opaque]
pub open spec fn inter_luma_levels(
    site: SiteModel,
    prediction: Seq<u8>,
    transform_8x8_allowed: bool,
) -> LumaLevels {
    selected_levels(
        site.source.luma,
        16 * site.wide,
        site.x * 16,
        site.y * 16,
        prediction,
        site.qp,
        transform_8x8_allowed,
        site.bypass,
        site.preset,
    )
}

/// The luma plane after a macroblock.
#[verifier::opaque]
pub open spec fn inter_luma_plane(
    site: SiteModel,
    plane: Seq<u8>,
    prediction: Seq<u8>,
    levels: LumaLevels,
) -> Seq<u8> {
    with_region(
        plane,
        16 * site.wide,
        site.x * 16,
        site.y * 16,
        16,
        16,
        corrected(prediction, inter_residual(levels, site.qp, site.preset)),
    )
}

/// A macroblock after it is predicted from other pictures.
pub open spec fn inter_coded(
    site: SiteModel,
    planes: Samples,
    prediction: Samples,
    transform_8x8_allowed: bool,
) -> InterCoded {
    let luma = inter_luma_levels(site, prediction.luma, transform_8x8_allowed);
    let cb = chroma_site_levels(site, site.source.cb, prediction.cb, None, false);
    let cr = chroma_site_levels(site, site.source.cr, prediction.cr, None, false);
    InterCoded {
        planes: Samples {
            luma: inter_luma_plane(site, planes.luma, prediction.luma, luma),
            cb: chroma_plane_coded(site, planes.cb, prediction.cb, cb, None, false),
            cr: chroma_plane_coded(site, planes.cr, prediction.cr, cr, None, false),
        },
        luma,
        cb,
        cr,
    }
}

/// Codes the luma of a macroblock that is predicted from other pictures.
fn code_inter_luma(
    site: &Site<'_>,
    plane: &mut [u8],
    prediction: &[u8],
    transform_8x8_allowed: bool,
) -> (levels: InterLumaResidual)
    requires
        site.valid(),
        old(plane)@.len() == site.source.luma@.len(),
        prediction@.len() == 256,
    ensures
        levels@ == inter_luma_levels(site@, prediction@, transform_8x8_allowed),
        levels.fits(),
        final(plane)@ == inter_luma_plane(site@, old(plane)@, prediction@, levels@),
        final(plane)@.len() == old(plane)@.len(),
{
    reveal(inter_luma_levels);
    reveal(inter_luma_plane);
    proof {
        site.lemma_inside();
    }
    let stride: usize = site.wide * 16;
    let levels: InterLumaResidual = select_inter_luma_residual(
        site.source.luma.as_slice(),
        stride,
        site.x,
        site.y,
        prediction,
        site.qp,
        transform_8x8_allowed,
        site.bypass,
        site.preset,
    );
    reconstruct_inter_luma(
        plane,
        stride,
        site.x,
        site.y,
        prediction,
        &levels,
        site.qp,
        site.preset,
    );
    levels
}

/// Codes a macroblock that is predicted from other pictures.
pub fn code_inter(
    site: &Site<'_>,
    planes: &mut Planes,
    prediction: &Planes,
    transform_8x8_allowed: bool,
) -> (coded: (InterLumaResidual, [ChromaResidual; 2]))
    requires
        site.valid(),
        planes_fit(old(planes)@, site.wide as int, site.high as int),
        macroblock_sized(prediction@),
    ensures
        (InterCoded {
            planes: final(planes)@,
            luma: coded.0@,
            cb: coded.1@[0]@,
            cr: coded.1@[1]@,
        }) == inter_coded(site@, old(planes)@, prediction@, transform_8x8_allowed),
        planes_fit(final(planes)@, site.wide as int, site.high as int),
        coded.0.fits(),
        chroma_levels_fit(coded.1@[0]@),
        chroma_levels_fit(coded.1@[1]@),
{
    let luma: InterLumaResidual = code_inter_luma(
        site,
        planes.luma.as_mut_slice(),
        prediction.luma.as_slice(),
        transform_8x8_allowed,
    );
    let cb: ChromaResidual = code_chroma_plane(
        site,
        site.source.cb.as_slice(),
        planes.cb.as_mut_slice(),
        prediction.cb.as_slice(),
        None,
        false,
    );
    let cr: ChromaResidual = code_chroma_plane(
        site,
        site.source.cr.as_slice(),
        planes.cr.as_mut_slice(),
        prediction.cr.as_slice(),
        None,
        false,
    );
    (luma, [cb, cr])
}

/// The levels of sixteen blocks that carry the luma levels of a macroblock.
pub open spec fn luma_blocks(levels: LumaLevels) -> Seq<Seq<int>> {
    match levels {
        LumaLevels::FourByFour(blocks) => blocks,
        LumaLevels::BypassFourByFour(blocks) => blocks,
        LumaLevels::EightByEight(blocks) => interleaved(blocks),
    }
}

/// Writes the residual of a macroblock that is predicted from other pictures.
pub fn encode_inter_residuals(
    writer: &mut BitWriter,
    luma_levels: &InterLumaResidual,
    chroma_residuals: &[ChromaResidual; 2],
    luma_pattern: u8,
    chroma_pattern: u8,
    luma_nonzero: &mut Vec<[u8; 16]>,
    chroma_nonzero: &mut Vec<[u8; 8]>,
    address: usize,
    macroblocks_wide: usize,
)
    requires
        luma_levels.fits(),
        chroma_levels_fit(chroma_residuals@[0]@),
        chroma_levels_fit(chroma_residuals@[1]@),
        address < old(luma_nonzero)@.len(),
        address < old(chroma_nonzero)@.len(),
        0 < macroblocks_wide,
        counts_fit(rows(old(luma_nonzero)@)),
        counts_fit(rows(old(chroma_nonzero)@)),
    ensures
        (Written {
            bits: final(writer)@,
            luma: rows(final(luma_nonzero)@),
            chroma: rows(final(chroma_nonzero)@),
        }) == chroma_written(
            luma_written(
                Written {
                    bits: old(writer)@,
                    luma: rows(old(luma_nonzero)@),
                    chroma: rows(old(chroma_nonzero)@),
                },
                address as int,
                macroblocks_wide as int,
                luma_blocks(luma_levels@),
                luma_pattern as int,
                16,
            ),
            address as int,
            macroblocks_wide as int,
            chroma_residuals@[0]@,
            chroma_residuals@[1]@,
            chroma_pattern as int,
        ),
        counts_fit(rows(final(luma_nonzero)@)),
        counts_fit(rows(final(chroma_nonzero)@)),
        final(luma_nonzero)@.len() == old(luma_nonzero)@.len(),
        final(chroma_nonzero)@.len() == old(chroma_nonzero)@.len(),
{
    match luma_levels {
        InterLumaResidual::FourByFour(levels) | InterLumaResidual::BypassFourByFour(levels) => {
            assert(block_numbers((**levels)@) =~= block_ints((**levels)@));
            write_luma_blocks(
                writer,
                luma_nonzero,
                address,
                macroblocks_wide,
                &**levels,
                luma_pattern,
            );
        },
        InterLumaResidual::EightByEight(levels) => {
            let blocks: Box<[[i32; 16]; 16]> = interleave(&**levels);
            write_luma_blocks(
                writer,
                luma_nonzero,
                address,
                macroblocks_wide,
                &*blocks,
                luma_pattern,
            );
        },
    }
    write_chroma(
        writer,
        chroma_nonzero,
        address,
        macroblocks_wide,
        chroma_residuals,
        chroma_pattern,
    );
}

} // verus!
