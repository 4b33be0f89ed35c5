//! Choosing how intra macroblocks are predicted, and what is left to code of them.

use vstd::prelude::*;

use crate::intra::{
    block_distance, block_sad, intra4_predicted, intra4_prediction, intra8_predicted,
    intra8_prediction,
};
use crate::intra_select::{
    chroma_mode, chroma_predicted, luma16_mode, luma16_predicted, select_chroma_prediction,
    select_luma_prediction,
};
use crate::inter_residual::{block_ints, quarter_ints};
use crate::picture::{chroma_qp_of, encoder_chroma_qp, lemma_part_inside, Site, SiteModel};
use crate::plane::{copy_region, place_block, region, region_inside, with_region};
use crate::reconstruct::{
    ac_ints, chroma_residual, corrected, gathered_16, intra16_residuals, reconstruct_chroma,
    reconstruct_intra16_luma, reconstruct_intra4_luma_block, reconstruct_intra8_luma_block,
    residual_4x4, residual_8x8,
};
use crate::residual::{
    block_column, block_means, block_row, chroma_levels, chroma_levels_fit, difference,
    intra16_ac_levels, intra16_dc_levels, intra4_levels, levels_8x8, luma_block_position,
    quantize_chroma_residual, quantize_intra16_luma_ac, quantize_intra16_luma_dc,
    quantize_intra4_luma_block, quantize_intra8_luma_block, ChromaLevels, ChromaResidual,
};
use crate::scaling::{matrix_4x4, matrix_8x8};
use crate::transform::{ints, within};

verus! {

/// A block that is to be predicted from its neighbours.
pub struct BlockSite {
    /// Source samples.
    pub source: Seq<u8>,
    /// Samples that are coded so far.
    pub plane: Seq<u8>,
    /// How wide both planes are.
    pub stride: int,
    /// The first column of the block.
    pub x: int,
    /// The first row of the block.
    pub y: int,
    /// The side of the block: four or eight.
    pub side: int,
    /// The number of the block in its macroblock.
    pub block: int,
    /// Whether there is a macroblock above.
    pub top: bool,
    /// Whether there is a macroblock to the left.
    pub left: bool,
}

impl BlockSite {
    /// The block as a mode predicts it, if the mode is available.
    pub open spec fn predicted(self, mode: int) -> Option<Seq<u8>> {
        if self.side == 4 {
            intra4_predicted(
                self.plane,
                self.stride,
                self.x,
                self.y,
                self.block,
                mode,
                self.top,
                self.left,
            )
        } else {
            intra8_predicted(
                self.plane,
                self.stride,
                self.x,
                self.y,
                self.block,
                mode,
                self.top,
                self.left,
            )
        }
    }

    /// How far the source is from the prediction of a mode.
    pub open spec fn cost(self, mode: int) -> int {
        block_distance(
            self.source,
            self.stride,
            self.x,
            self.y,
            self.side,
            self.predicted(mode)->Some_0,
        )
    }

    /// The first mode below `count` that costs least among those that are available.
    pub open spec fn best(self, count: int) -> Option<int>
        decreases count,
    {
        if count <= 0 {
            None
        } else {
            let mode = count - 1;
            match (self.predicted(mode), self.best(mode)) {
                (None, earlier) => earlier,
                (Some(_), None) => Some(mode),
                (Some(_), Some(earlier)) => if self.cost(mode) < self.cost(earlier) {
                    Some(mode)
                } else {
                    Some(earlier)
                },
            }
        }
    }

    /// The mode in which the block is predicted.
    pub open spec fn mode(self) -> int {
        self.best(9)->Some_0
    }

    /// The block as it is predicted.
    pub open spec fn prediction(self) -> Seq<u8> {
        self.predicted(self.mode())->Some_0
    }
}

/// No mode below `count` that is available costs less than the chosen one, and none that costs as
/// little comes before it.
pub proof fn law_best_mode(site: BlockSite, count: int, mode: int)
    requires
        0 <= mode < count,
        site.predicted(mode) is Some,
    ensures
        site.best(count) matches Some(best) && 0 <= best < count && site.predicted(best) is Some
            && site.cost(best) <= site.cost(mode) && (mode < best ==> site.cost(best) < site.cost(
            mode,
        )),
    decreases count,
{
    lemma_best_range(site, count - 1);
    if mode < count - 1 {
        law_best_mode(site, count - 1, mode);
    }
}

proof fn lemma_best_range(site: BlockSite, count: int)
    ensures
        site.best(count) matches Some(best) ==> 0 <= best < count && site.predicted(best) is Some,
    decreases count,
{
    if count > 0 {
        lemma_best_range(site, count - 1);
    }
}

/// A mode is always chosen: the mean predicts every block.
pub proof fn lemma_mode_chosen(site: BlockSite)
    ensures
        site.best(9) is Some,
        0 <= site.mode() < 9,
        site.predicted(site.mode()) is Some,
{
    law_best_mode(site, 9, 2);
}

/// Luma of a macroblock that is coded block by block, after some blocks.
#[verifier::ext_equal]
pub struct LumaCoded {
    /// The coded plane.
    pub plane: Seq<u8>,
    /// The mode of each block.
    pub modes: Seq<u8>,
    /// The levels of each block.
    pub levels: Seq<Seq<int>>,
}

/// The four-by-four block number `block` of a macroblock, with what is coded before it.
pub open spec fn block_site_4(site: SiteModel, plane: Seq<u8>, block: int) -> BlockSite {
    BlockSite {
        source: site.source.luma,
        plane,
        stride: 16 * site.wide,
        x: site.x * 16 + block_column(block) * 4,
        y: site.y * 16 + block_row(block) * 4,
        side: 4,
        block,
        top: site.y > 0,
        left: site.x > 0,
    }
}

/// The levels of a four-by-four block.
pub open spec fn block_levels_4(site: SiteModel, spot: BlockSite) -> Seq<int> {
    intra4_levels(
        difference(spot.source, spot.stride, spot.x, spot.y, spot.prediction(), 4, 0, 0, 4),
        site.qp,
        site.bypass,
        spot.mode(),
        matrix_4x4(site.preset, true),
    )
}

/// The samples of a four-by-four block after coding.
pub open spec fn block_samples_4(site: SiteModel, spot: BlockSite) -> Seq<u8> {
    if site.bypass {
        region(spot.source, spot.stride, spot.x, spot.y, 4, 4)
    } else {
        corrected(
            spot.prediction(),
            residual_4x4(block_levels_4(site, spot), site.qp, matrix_4x4(site.preset, true)),
        )
    }
}

/// Luma after the first `count` four-by-four blocks of a macroblock.
pub open spec fn luma_coded_4(site: SiteModel, plane: Seq<u8>, count: int) -> LumaCoded
    decreases count,
{
    if count <= 0 {
        LumaCoded { plane, modes: Seq::empty(), levels: Seq::empty() }
    } else {
        let before = luma_coded_4(site, plane, count - 1);
        let spot = block_site_4(site, before.plane, count - 1);
        LumaCoded {
            plane: with_region(
                before.plane,
                spot.stride,
                spot.x,
                spot.y,
                4,
                4,
                block_samples_4(site, spot),
            ),
            modes: before.modes.push(spot.mode() as u8),
            levels: before.levels.push(block_levels_4(site, spot)),
        }
    }
}

/// Chooses the prediction of a four-by-four block.
fn choose_intra4(
    source: &[u8],
    plane: &[u8],
    stride: usize,
    x: usize,
    y: usize,
    block_index: usize,
    has_top: bool,
    has_left: bool,
) -> (choice: (u8, [u8; 16]))
    requires
        region_inside(source@.len() as int, stride as int, x as int, y as int, 4, 4),
        region_inside(plane@.len() as int, stride as int, x as int, y as int, 4, 4),
        has_top ==> y > 0,
        has_left ==> x > 0,
        x + 8 <= usize::MAX,
    ensures
        ({
            let spot = BlockSite {
                source: source@,
                plane: plane@,
                stride: stride as int,
                x: x as int,
                y: y as int,
                side: 4,
                block: block_index as int,
                top: has_top,
                left: has_left,
            };
            choice.0 == spot.mode() && choice.1@ == spot.prediction()
        }),
        choice.0 <= 8,
{
    let ghost spot = BlockSite {
        source: source@,
        plane: plane@,
        stride: stride as int,
        x: x as int,
        y: y as int,
        side: 4,
        block: block_index as int,
        top: has_top,
        left: has_left,
    };
    let mut best: u8 = 9;
    let mut best_prediction: [u8; 16] = [0u8; 16];
    let mut best_sad: u64 = 0;
    let mut mode: u8 = 0;
    while mode < 9
        invariant
            mode <= 9,
            region_inside(source@.len() as int, stride as int, x as int, y as int, 4, 4),
            region_inside(plane@.len() as int, stride as int, x as int, y as int, 4, 4),
            has_top ==> y > 0,
            has_left ==> x > 0,
            x + 8 <= usize::MAX,
            spot == (BlockSite {
                source: source@,
                plane: plane@,
                stride: stride as int,
                x: x as int,
                y: y as int,
                side: 4,
                block: block_index as int,
                top: has_top,
                left: has_left,
            }),
            match spot.best(mode as int) {
                None => best == 9,
                Some(chosen) => best == chosen && chosen < mode && spot.predicted(chosen) == Some(
                    best_prediction@,
                ) && best_sad == spot.cost(chosen),
            },
        decreases 9 - mode,
    {
        if let Some(prediction) = intra4_prediction(
            plane,
            stride,
            x,
            y,
            block_index,
            mode,
            has_top,
            has_left,
        ) {
            assert(spot.predicted(mode as int) == Some(prediction@));
            let sad: u64 = block_sad(source, stride, x, y, 4, prediction.as_slice());
            assert(sad == spot.cost(mode as int));
            if best == 9 || sad < best_sad {
                best = mode;
                best_prediction = prediction;
                best_sad = sad;
            }
        }
        mode = mode + 1;
    }
    proof {
        lemma_mode_chosen(spot);
    }
    (best, best_prediction)
}

/// Codes the luma of a macroblock in four-by-four blocks.
#[verifier::spinoff_prover]
#[verifier::rlimit(40)]
pub fn code_intra4_luma(site: &Site<'_>, plane: &mut [u8]) -> (coded: ([u8; 16], Box<
    [[i32; 16]; 16],
>))
    requires
        site.valid(),
        old(plane)@.len() == site.source.luma@.len(),
    ensures
        (LumaCoded { plane: final(plane)@, modes: coded.0@, levels: block_ints(coded.1@) })
            == luma_coded_4(site@, old(plane)@, 16),
        final(plane)@.len() == old(plane)@.len(),
        forall|b: int| 0 <= b < 16 ==> #[trigger] coded.0@[b] <= 8,
        forall|b: int| 0 <= b < 16 ==> within(ints((#[trigger] coded.1@[b])@), 0x10_0000),
{
    let ghost first = plane@;
    let ghost model = site@;
    proof {
        site.lemma_inside();
    }
    let stride: usize = site.wide * 16;
    let matrix: [u8; 16] = site.preset.four_by_four(true);
    let mut modes: [u8; 16] = [0u8; 16];
    let mut levels: Box<[[i32; 16]; 16]> = Box::new([[0i32; 16]; 16]);
    let mut block: usize = 0;
    while block < 16
        invariant
            block <= 16,
            site.valid(),
            model == site@,
            stride == 16 * site.wide,
            matrix@ == matrix_4x4(site.preset, true),
            crate::quantize::scaling_matrix(matrix@, 16),
            plane@.len() == site.source.luma@.len(),
            region_inside(
                plane@.len() as int,
                stride as int,
                site.x * 16,
                site.y * 16,
                16,
                16,
            ),
            site.x * 16 + 16 <= stride,
            site.y * 16 + 16 <= usize::MAX,
            plane@ == luma_coded_4(model, first, block as int).plane,
            luma_coded_4(model, first, block as int).modes.len() == block,
            luma_coded_4(model, first, block as int).levels.len() == block,
            forall|b: int|
                0 <= b < block ==> (#[trigger] modes@[b]) == luma_coded_4(
                    model,
                    first,
                    block as int,
                ).modes[b] && modes@[b] <= 8,
            forall|b: int|
                0 <= b < block ==> ints((#[trigger] levels@[b])@) == luma_coded_4(
                    model,
                    first,
                    block as int,
                ).levels[b] && within(ints(levels@[b]@), 0x10_0000),
        decreases 16 - block,
    {
        let ghost before = luma_coded_4(model, first, block as int);
        let (block_x, block_y) = luma_block_position(block);
        let x: usize = site.x * 16 + block_x * 4;
        let y: usize = site.y * 16 + block_y * 4;
        proof {
            lemma_part_inside(
                plane@.len() as int,
                stride as int,
                site.x * 16,
                site.y * 16,
                16,
                16,
                block_x * 4,
                block_y * 4,
                4,
                4,
            );
        }
        let (mode, prediction) = choose_intra4(
            site.source.luma.as_slice(),
            plane,
            stride,
            x,
            y,
            block,
            site.y > 0,
            site.x > 0,
        );
        let ghost spot = block_site_4(model, plane@, block as int);
        assert(mode == spot.mode() && prediction@ == spot.prediction());
        let found: [i32; 16] = quantize_intra4_luma_block(
            site.source.luma.as_slice(),
            stride,
            x,
            y,
            &prediction,
            site.qp,
            site.bypass,
            mode,
            &matrix,
        );
        if site.bypass {
            let samples: Vec<u8> = copy_region(site.source.luma.as_slice(), stride, x, y, 4, 4);
            place_block(plane, stride, x, y, 4, samples.as_slice());
        } else {
            reconstruct_intra4_luma_block(
                plane,
                stride,
                x,
                y,
                &prediction,
                &found,
                site.qp,
                &matrix,
            );
        }
        modes[block] = mode;
        levels[block] = found;
        proof {
            let after = luma_coded_4(model, first, block + 1);
            assert(ints(found@) == block_levels_4(model, spot));
            assert(after.modes == before.modes.push(mode));
            assert(after.levels == before.levels.push(ints(found@)));
            assert(after.plane == plane@);
        }
        block = block + 1;
    }
    proof {
        let after = luma_coded_4(model, first, 16);
        assert(modes@ =~= after.modes);
        assert(block_ints(levels@) =~= after.levels);
    }
    (modes, levels)
}

/// The eight-by-eight block number `group` of a macroblock, with what is coded before it.
pub open spec fn block_site_8(site: SiteModel, plane: Seq<u8>, group: int) -> BlockSite {
    BlockSite {
        source: site.source.luma,
        plane,
        stride: 16 * site.wide,
        x: site.x * 16 + group % 2 * 8,
        y: site.y * 16 + group / 2 * 8,
        side: 8,
        block: group,
        top: site.y > 0,
        left: site.x > 0,
    }
}

/// The levels of an eight-by-eight block.
pub open spec fn block_levels_8(site: SiteModel, spot: BlockSite) -> Seq<int> {
    levels_8x8(
        difference(spot.source, spot.stride, spot.x, spot.y, spot.prediction(), 8, 0, 0, 8),
        site.qp,
        matrix_8x8(site.preset, true),
    )
}

/// Luma after the first `count` eight-by-eight blocks of a macroblock.
pub open spec fn luma_coded_8(site: SiteModel, plane: Seq<u8>, count: int) -> LumaCoded
    decreases count,
{
    if count <= 0 {
        LumaCoded { plane, modes: Seq::empty(), levels: Seq::empty() }
    } else {
        let before = luma_coded_8(site, plane, count - 1);
        let spot = block_site_8(site, before.plane, count - 1);
        LumaCoded {
            plane: with_region(
                before.plane,
                spot.stride,
                spot.x,
                spot.y,
                8,
                8,
                corrected(
                    spot.prediction(),
                    residual_8x8(
                        block_levels_8(site, spot),
                        site.qp,
                        matrix_8x8(site.preset, true),
                    ),
                ),
            ),
            modes: before.modes.push(spot.mode() as u8),
            levels: before.levels.push(block_levels_8(site, spot)),
        }
    }
}

/// Chooses the prediction of a eight-by-eight block.
fn choose_intra8(
    source: &[u8],
    plane: &[u8],
    stride: usize,
    x: usize,
    y: usize,
    group: usize,
    has_top: bool,
    has_left: bool,
) -> (choice: (u8, [u8; 64]))
    requires
        region_inside(source@.len() as int, stride as int, x as int, y as int, 8, 8),
        region_inside(plane@.len() as int, stride as int, x as int, y as int, 8, 8),
        group / 2 > 0 || has_top ==> y > 0,
        group % 2 != 0 || has_left ==> x > 0,
        x + 16 <= usize::MAX,
    ensures
        ({
            let spot = BlockSite {
                source: source@,
                plane: plane@,
                stride: stride as int,
                x: x as int,
                y: y as int,
                side: 8,
                block: group as int,
                top: has_top,
                left: has_left,
            };
            choice.0 == spot.mode() && choice.1@ == spot.prediction()
        }),
        choice.0 <= 8,
{
    let ghost spot = BlockSite {
        source: source@,
        plane: plane@,
        stride: stride as int,
        x: x as int,
        y: y as int,
        side: 8,
        block: group as int,
        top: has_top,
        left: has_left,
    };
    let mut best: u8 = 9;
    let mut best_prediction: [u8; 64] = [0u8; 64];
    let mut best_sad: u64 = 0;
    let mut mode: u8 = 0;
    while mode < 9
        invariant
            mode <= 9,
            region_inside(source@.len() as int, stride as int, x as int, y as int, 8, 8),
            region_inside(plane@.len() as int, stride as int, x as int, y as int, 8, 8),
            group / 2 > 0 || has_top ==> y > 0,
            group % 2 != 0 || has_left ==> x > 0,
            x + 16 <= usize::MAX,
            spot == (BlockSite {
                source: source@,
                plane: plane@,
                stride: stride as int,
                x: x as int,
                y: y as int,
                side: 8,
                block: group as int,
                top: has_top,
                left: has_left,
            }),
            match spot.best(mode as int) {
                None => best == 9,
                Some(chosen) => best == chosen && chosen < mode && spot.predicted(chosen) == Some(
                    best_prediction@,
                ) && best_sad == spot.cost(chosen),
            },
        decreases 9 - mode,
    {
        if let Some(prediction) = intra8_prediction(
            plane,
            stride,
            x,
            y,
            group,
            mode,
            has_top,
            has_left,
        ) {
            assert(spot.predicted(mode as int) == Some(prediction@));
            let sad: u64 = block_sad(source, stride, x, y, 8, prediction.as_slice());
            assert(sad == spot.cost(mode as int));
            if best == 9 || sad < best_sad {
                best = mode;
                best_prediction = prediction;
                best_sad = sad;
            }
        }
        mode = mode + 1;
    }
    proof {
        lemma_mode_chosen(spot);
    }
    (best, best_prediction)
}

/// Codes the luma of a macroblock in eight-by-eight blocks.
pub fn code_intra8_luma(site: &Site<'_>, plane: &mut [u8]) -> (coded: ([u8; 4], Box<
    [[i32; 64]; 4],
>))
    requires
        site.valid(),
        old(plane)@.len() == site.source.luma@.len(),
    ensures
        (LumaCoded { plane: final(plane)@, modes: coded.0@, levels: quarter_ints(coded.1@) })
            == luma_coded_8(site@, old(plane)@, 4),
        final(plane)@.len() == old(plane)@.len(),
        forall|b: int| 0 <= b < 4 ==> #[trigger] coded.0@[b] <= 8,
        forall|b: int| 0 <= b < 4 ==> within(ints((#[trigger] coded.1@[b])@), 0x10_0000),
{
    let ghost first = plane@;
    let ghost model = site@;
    proof {
        site.lemma_inside();
    }
    let stride: usize = site.wide * 16;
    let matrix: [u8; 64] = site.preset.eight_by_eight(true);
    let mut modes: [u8; 4] = [0u8; 4];
    let mut levels: Box<[[i32; 64]; 4]> = Box::new([[0i32; 64]; 4]);
    let mut group: usize = 0;
    while group < 4
        invariant
            group <= 4,
            site.valid(),
            model == site@,
            stride == 16 * site.wide,
            matrix@ == matrix_8x8(site.preset, true),
            crate::quantize::scaling_matrix(matrix@, 64),
            plane@.len() == site.source.luma@.len(),
            region_inside(
                plane@.len() as int,
                stride as int,
                site.x * 16,
                site.y * 16,
                16,
                16,
            ),
            site.x * 16 + 16 <= stride,
            stride + 16 <= usize::MAX,
            site.y * 16 + 16 <= usize::MAX,
            plane@ == luma_coded_8(model, first, group as int).plane,
            luma_coded_8(model, first, group as int).modes.len() == group,
            luma_coded_8(model, first, group as int).levels.len() == group,
            forall|b: int|
                0 <= b < group ==> (#[trigger] modes@[b]) == luma_coded_8(
                    model,
                    first,
                    group as int,
                ).modes[b] && modes@[b] <= 8,
            forall|b: int|
                0 <= b < group ==> ints((#[trigger] levels@[b])@) == luma_coded_8(
                    model,
                    first,
                    group as int,
                ).levels[b] && within(ints(levels@[b]@), 0x10_0000),
        decreases 4 - group,
    {
        let ghost before = luma_coded_8(model, first, group as int);
        let x: usize = site.x * 16 + group % 2 * 8;
        let y: usize = site.y * 16 + group / 2 * 8;
        proof {
            lemma_part_inside(
                plane@.len() as int,
                stride as int,
                site.x * 16,
                site.y * 16,
                16,
                16,
                group % 2 * 8,
                group / 2 * 8,
                8,
                8,
            );
        }
        let (mode, prediction) = choose_intra8(
            site.source.luma.as_slice(),
            plane,
            stride,
            x,
            y,
            group,
            site.y > 0,
            site.x > 0,
        );
        let ghost spot = block_site_8(model, plane@, group as int);
        assert(mode == spot.mode() && prediction@ == spot.prediction());
        let found: [i32; 64] = quantize_intra8_luma_block(
            site.source.luma.as_slice(),
            stride,
            x,
            y,
            &prediction,
            site.qp,
            &matrix,
        );
        reconstruct_intra8_luma_block(plane, stride, x, y, &prediction, &found, site.qp, &matrix);
        modes[group] = mode;
        levels[group] = found;
        proof {
            let after = luma_coded_8(model, first, group + 1);
            assert(ints(found@) == block_levels_8(model, spot));
            assert(after.modes == before.modes.push(mode));
            assert(after.levels == before.levels.push(ints(found@)));
            assert(after.plane == plane@);
        }
        group = group + 1;
    }
    proof {
        let after = luma_coded_8(model, first, 4);
        assert(modes@ =~= after.modes);
        assert(quarter_ints(levels@) =~= after.levels);
    }
    (modes, levels)
}

/// Luma of a macroblock that is predicted as a whole.
#[verifier::ext_equal]
pub struct WholeCoded {
    /// The coded plane.
    pub plane: Seq<u8>,
    /// The prediction mode.
    pub mode: u8,
    /// The levels of the block means.
    pub dc: Seq<int>,
    /// The other levels of each block.
    pub ac: Seq<Seq<int>>,
}

/// Luma after a macroblock that is predicted as a whole.
pub open spec fn luma_coded_16(site: SiteModel, plane: Seq<u8>) -> WholeCoded {
    let stride = 16 * site.wide;
    let x = site.x * 16;
    let y = site.y * 16;
    let source = site.source.luma;
    let matrix = matrix_4x4(site.preset, true);
    let mode = luma16_mode(source, plane, stride, x, y, site.y > 0, site.x > 0);
    let prediction = luma16_predicted(plane, stride, x, y, site.y > 0, site.x > 0, mode);
    let dc = intra16_dc_levels(
        block_means(source, stride, x, y, prediction),
        site.qp,
        matrix,
    );
    let ac = Seq::new(
        16,
        |b: int| intra16_ac_levels(source, stride, x, y, prediction, site.qp, matrix, b),
    );
    WholeCoded {
        plane: with_region(
            plane,
            stride,
            x,
            y,
            16,
            16,
            corrected(prediction, gathered_16(intra16_residuals(dc, ac, site.qp, matrix))),
        ),
        mode: mode as u8,
        dc,
        ac,
    }
}

/// Codes the luma of a macroblock that is predicted as a whole.
pub fn code_intra16_luma(site: &Site<'_>, plane: &mut [u8]) -> (coded: (
    u8,
    [i32; 16],
    [[i32; 15]; 16],
))
    requires
        site.valid(),
        old(plane)@.len() == site.source.luma@.len(),
    ensures
        (WholeCoded {
            plane: final(plane)@,
            mode: coded.0,
            dc: ints(coded.1@),
            ac: ac_ints(coded.2@),
        }) == luma_coded_16(site@, old(plane)@),
        final(plane)@.len() == old(plane)@.len(),
        coded.0 <= 2,
        within(ints(coded.1@), 0x800_0000),
        forall|b: int| 0 <= b < 16 ==> within(ints((#[trigger] coded.2@[b])@), 0x10_0000),
{
    proof {
        site.lemma_inside();
    }
    let ghost first = plane@;
    let stride: usize = site.wide * 16;
    let matrix: [u8; 16] = site.preset.four_by_four(true);
    let (mode, prediction) = select_luma_prediction(
        site.source.luma.as_slice(),
        plane,
        stride,
        site.x,
        site.y,
    );
    let dc: [i32; 16] = quantize_intra16_luma_dc(
        site.source.luma.as_slice(),
        stride,
        site.x,
        site.y,
        prediction.as_slice(),
        site.qp,
        &matrix,
    );
    let ac: [[i32; 15]; 16] = quantize_intra16_luma_ac(
        site.source.luma.as_slice(),
        stride,
        site.x,
        site.y,
        prediction.as_slice(),
        site.qp,
        &matrix,
    );
    reconstruct_intra16_luma(
        plane,
        stride,
        site.x,
        site.y,
        prediction.as_slice(),
        &dc,
        &ac,
        site.qp,
        &matrix,
    );
    assert(ac_ints(ac@) =~= luma_coded_16(site@, first).ac);
    (mode, dc, ac)
}

/// Both chroma planes of an intra macroblock.
#[verifier::ext_equal]
pub struct ChromaCoded {
    /// The coded blue-difference plane.
    pub cb: Seq<u8>,
    /// The coded red-difference plane.
    pub cr: Seq<u8>,
    /// The prediction mode.
    pub mode: u8,
    /// Blue-difference levels.
    pub cb_levels: ChromaLevels,
    /// Red-difference levels.
    pub cr_levels: ChromaLevels,
}

/// A chroma plane after a macroblock of it is coded.
#[verifier::opaque]
pub open spec fn chroma_plane_coded(
    site: SiteModel,
    plane: Seq<u8>,
    prediction: Seq<u8>,
    levels: ChromaLevels,
    intra_mode: Option<u8>,
    intra: bool,
) -> Seq<u8> {
    with_region(
        plane,
        8 * site.wide,
        site.x * 8,
        site.y * 8,
        8,
        8,
        corrected(
            prediction,
            chroma_residual(
                levels,
                chroma_qp_of(site.qp),
                site.bypass,
                intra_mode,
                matrix_4x4(site.preset, intra),
            ),
        ),
    )
}

/// The levels of a chroma plane of a macroblock.
#[verifier::opaque]
pub open spec fn chroma_site_levels(
    site: SiteModel,
    source: Seq<u8>,
    prediction: Seq<u8>,
    intra_mode: Option<u8>,
    intra: bool,
) -> ChromaLevels {
    chroma_levels(
        source,
        8 * site.wide,
        site.x * 8,
        site.y * 8,
        prediction,
        chroma_qp_of(site.qp),
        site.bypass,
        intra_mode,
        matrix_4x4(site.preset, intra),
    )
}

/// Chroma after an intra macroblock.
pub open spec fn chroma_coded_intra(site: SiteModel, cb: Seq<u8>, cr: Seq<u8>) -> ChromaCoded {
    let stride = 8 * site.wide;
    let x = site.x * 8;
    let y = site.y * 8;
    let mode = chroma_mode(
        site.source.cb,
        site.source.cr,
        cb,
        cr,
        stride,
        x,
        y,
        site.y > 0,
        site.x > 0,
    );
    let cb_prediction = chroma_predicted(cb, stride, x, y, site.y > 0, site.x > 0, mode);
    let cr_prediction = chroma_predicted(cr, stride, x, y, site.y > 0, site.x > 0, mode);
    let intra_mode = Some(mode as u8);
    let cb_levels = chroma_site_levels(site, site.source.cb, cb_prediction, intra_mode, true);
    let cr_levels = chroma_site_levels(site, site.source.cr, cr_prediction, intra_mode, true);
    ChromaCoded {
        cb: chroma_plane_coded(site, cb, cb_prediction, cb_levels, intra_mode, true),
        cr: chroma_plane_coded(site, cr, cr_prediction, cr_levels, intra_mode, true),
        mode: mode as u8,
        cb_levels,
        cr_levels,
    }
}

/// Codes one chroma plane of a macroblock.
pub fn code_chroma_plane(
    site: &Site<'_>,
    source: &[u8],
    plane: &mut [u8],
    prediction: &[u8],
    intra_mode: Option<u8>,
    intra: bool,
) -> (levels: ChromaResidual)
    requires
        site.valid(),
        source@.len() == site.source.cb@.len(),
        old(plane)@.len() == site.source.cb@.len(),
        prediction@.len() == 64,
    ensures
        levels@ == chroma_site_levels(site@, source@, prediction@, intra_mode, intra),
        final(plane)@ == chroma_plane_coded(
            site@,
            old(plane)@,
            prediction@,
            levels@,
            intra_mode,
            intra,
        ),
        final(plane)@.len() == old(plane)@.len(),
        chroma_levels_fit(levels@),
{
    reveal(chroma_plane_coded);
    reveal(chroma_site_levels);
    proof {
        site.lemma_inside();
    }
    let stride: usize = site.wide * 8;
    let matrix: [u8; 16] = site.preset.four_by_four(intra);
    let qp: i32 = encoder_chroma_qp(site.qp);
    let levels: ChromaResidual = quantize_chroma_residual(
        source,
        stride,
        site.x,
        site.y,
        prediction,
        qp,
        site.bypass,
        intra_mode,
        &matrix,
    );
    reconstruct_chroma(
        plane,
        stride,
        site.x,
        site.y,
        prediction,
        &levels,
        qp,
        site.bypass,
        intra_mode,
        &matrix,
    );
    levels
}

/// Codes the chroma planes of an intra macroblock.
pub fn code_intra_chroma(site: &Site<'_>, cb: &mut [u8], cr: &mut [u8]) -> (coded: (
    u8,
    [ChromaResidual; 2],
))
    requires
        site.valid(),
        old(cb)@.len() == site.source.cb@.len(),
        old(cr)@.len() == site.source.cr@.len(),
    ensures
        (ChromaCoded {
            cb: final(cb)@,
            cr: final(cr)@,
            mode: coded.0,
            cb_levels: coded.1@[0]@,
            cr_levels: coded.1@[1]@,
        }) == chroma_coded_intra(site@, old(cb)@, old(cr)@),
        final(cb)@.len() == old(cb)@.len(),
        final(cr)@.len() == old(cr)@.len(),
        coded.0 <= 2,
        chroma_levels_fit(coded.1@[0]@),
        chroma_levels_fit(coded.1@[1]@),
{
    proof {
        site.lemma_inside();
    }
    let stride: usize = site.wide * 8;
    let (mode, cb_prediction, cr_prediction) = select_chroma_prediction(
        [site.source.cb.as_slice(), site.source.cr.as_slice()],
        [&*cb, &*cr],
        stride,
        site.x,
        site.y,
    );
    let cb_levels: ChromaResidual = code_chroma_plane(
        site,
        site.source.cb.as_slice(),
        cb,
        cb_prediction.as_slice(),
        Some(mode),
        true,
    );
    let cr_levels: ChromaResidual = code_chroma_plane(
        site,
        site.source.cr.as_slice(),
        cr,
        cr_prediction.as_slice(),
        Some(mode),
        true,
    );
    (mode, [cb_levels, cr_levels])
}

} // verus!
