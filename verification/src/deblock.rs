//! The in-loop deblocking filter.

use vstd::prelude::*;

use crate::error::{Error, Fault};
use crate::math::{
    absolute, absolute_wide, clamp, clamped, clip_sample, eighth, halved, lemma_place_inside,
    magnitude, quartered, sample_of, unit,
};

verus! {

/// Edge thresholds by quantizer index.
pub const ALPHA: [i32; 52] = [
    0, 0, 0, 0, 0, 0, 0, 0, 0, 0, 0, 0, 0, 0, 0, 0, 4, 4, 5, 6, 7, 8, 9, 10, 12, 13, 15, 17, 20,
    22, 25, 28, 32, 36, 40, 45, 50, 56, 63, 71, 80, 90, 101, 113, 127, 144, 162, 182, 203, 226,
    255, 255,
];

/// Side thresholds by quantizer index.
pub const BETA: [i32; 52] = [
    0, 0, 0, 0, 0, 0, 0, 0, 0, 0, 0, 0, 0, 0, 0, 0, 2, 2, 2, 3, 3, 3, 3, 4, 4, 4, 6, 6, 7, 7, 8, 8,
    9, 9, 10, 10, 11, 11, 12, 12, 13, 13, 14, 14, 15, 15, 16, 16, 17, 17, 18, 18,
];

/// Clipping bounds of the normal filter by strength and quantizer index.
pub const TC0: [[i32; 52]; 3] = [
    [
        0, 0, 0, 0, 0, 0, 0, 0, 0, 0, 0, 0, 0, 0, 0, 0, 0, 0, 0, 0, 0, 0, 0, 1, 1, 1, 1, 1, 1, 1,
        1, 1, 1, 2, 2, 2, 2, 3, 3, 3, 4, 4, 4, 5, 6, 6, 7, 8, 9, 10, 11, 13,
    ],
    [
        0, 0, 0, 0, 0, 0, 0, 0, 0, 0, 0, 0, 0, 0, 0, 0, 0, 0, 0, 0, 0, 1, 1, 1, 1, 1, 1, 1, 1, 1,
        1, 2, 2, 2, 2, 3, 3, 3, 4, 4, 5, 5, 6, 7, 8, 8, 10, 11, 12, 13, 15, 17,
    ],
    [
        0, 0, 0, 0, 0, 0, 0, 0, 0, 0, 0, 0, 0, 0, 0, 0, 0, 1, 1, 1, 1, 1, 1, 1, 1, 1, 1, 2, 2, 2,
        2, 3, 3, 3, 4, 4, 4, 5, 6, 6, 7, 8, 9, 10, 11, 13, 14, 16, 18, 20, 23, 25,
    ],
];

/// Chroma quantizers for the luma indices from thirty on.
pub const CHROMA_QP: [i32; 22] = [
    29, 30, 31, 32, 32, 33, 34, 34, 35, 35, 36, 36, 37, 37, 37, 38, 38, 38, 39, 39, 39, 39,
];

/// Threshold offsets of a slice.
#[derive(Clone, Copy, Debug, PartialEq, Eq, Structural)]
pub struct Parameters {
    /// Added to the quantizer for the edge threshold.
    pub offset_a: i32,
    /// Added to the quantizer for the side threshold.
    pub offset_b: i32,
}

/// How one macroblock is filtered.
#[derive(Clone, Copy, Debug, PartialEq, Eq, Structural)]
pub struct MacroblockParameters {
    /// Threshold offsets, or nothing where the filter is off.
    pub parameters: Option<Parameters>,
    /// The slice that holds the macroblock.
    pub slice_id: usize,
    /// Whether edges shared with other slices are filtered too.
    pub filter_across_slice_boundaries: bool,
}

/// Motion from one reference list.
#[derive(Clone, Copy, Debug, PartialEq, Eq, Structural)]
pub struct ReferenceMotion {
    /// Horizontal vector in quarter samples.
    pub x: i32,
    /// Vertical vector in quarter samples.
    pub y: i32,
    /// Index into the reference list.
    pub index: Option<u8>,
    /// Identity of the reference picture.
    pub reference: Option<i32>,
}

impl Default for ReferenceMotion {
    fn default() -> (motion: Self)
        ensures
            motion == (ReferenceMotion { x: 0, y: 0, index: None, reference: None }),
    {
        ReferenceMotion { x: 0, y: 0, index: None, reference: None }
    }
}

/// Motion of one four-by-four block.
#[derive(Clone, Copy, Debug, PartialEq, Eq, Structural)]
pub struct BlockMotion {
    /// Motion from the first list.
    pub list0: ReferenceMotion,
    /// Motion from the second list.
    pub list1: ReferenceMotion,
}

impl Default for BlockMotion {
    fn default() -> (motion: Self)
        ensures
            motion.list0 == (ReferenceMotion { x: 0, y: 0, index: None, reference: None }),
            motion.list1 == (ReferenceMotion { x: 0, y: 0, index: None, reference: None }),
    {
        BlockMotion { list0: ReferenceMotion::default(), list1: ReferenceMotion::default() }
    }
}

/// A picture to filter in place, with what the filter has to know of its macroblocks.
pub struct Picture<'a> {
    /// Luma samples.
    pub luma: &'a mut [u8],
    /// First chroma plane.
    pub cb: &'a mut [u8],
    /// Second chroma plane.
    pub cr: &'a mut [u8],
    /// Luma width in samples, and the distance between luma rows.
    pub coded_width: usize,
    /// Luma height in samples.
    pub coded_height: usize,
    /// Luma quantizer of each macroblock.
    pub luma_qp: &'a [i32],
    /// Quantizer offset of the first chroma plane.
    pub chroma_qp_offset_cb: i32,
    /// Quantizer offset of the second chroma plane.
    pub chroma_qp_offset_cr: i32,
    /// Which macroblocks are intra coded.
    pub macroblock_intra: &'a [bool],
    /// Which macroblocks use the eight-by-eight transform.
    pub transform_8x8: &'a [bool],
    /// Coefficient counts of the luma blocks.
    pub luma_nonzero: &'a [[u8; 16]],
    /// Motion of the luma blocks.
    pub motion: &'a [[BlockMotion; 16]],
}

/// Boundary strengths of the edges of one macroblock, by edge and segment.
#[derive(Clone, Copy, Debug, PartialEq, Eq)]
pub struct BoundaryStrengths {
    /// Strengths of the vertical edges.
    pub vertical: [[usize; 4]; 4],
    /// Strengths of the horizontal edges.
    pub horizontal: [[usize; 4]; 4],
}

/// What the filter knows of the macroblocks of a picture.
pub struct MacroblockMap {
    /// Macroblocks in a row.
    pub wide: int,
    /// Luma quantizers.
    pub luma_qp: Seq<i32>,
    /// Intra flags.
    pub intra: Seq<bool>,
    /// Eight-by-eight transform flags.
    pub transform_8x8: Seq<bool>,
    /// Coefficient counts.
    pub nonzero: Seq<[u8; 16]>,
    /// Block motion.
    pub motion: Seq<[BlockMotion; 16]>,
    /// Filter parameters.
    pub parameters: Seq<MacroblockParameters>,
}

impl MacroblockMap {
    /// Whether the map describes `count` macroblocks.
    pub open spec fn describes(self, count: int) -> bool {
        &&& self.luma_qp.len() == count
        &&& self.intra.len() == count
        &&& self.transform_8x8.len() == count
        &&& self.nonzero.len() == count
        &&& self.motion.len() == count
        &&& self.parameters.len() == count
    }

    /// Whether the filter is on in some macroblock.
    pub open spec fn filters(self) -> bool {
        exists|address: int|
            0 <= address < self.parameters.len() && (
            #[trigger] self.parameters[address]).parameters is Some
    }
}

impl Picture<'_> {
    /// What the filter knows of the macroblocks of this picture.
    pub open spec fn map(&self, parameters: Seq<MacroblockParameters>) -> MacroblockMap {
        MacroblockMap {
            wide: self.coded_width as int / 16,
            luma_qp: self.luma_qp@,
            intra: self.macroblock_intra@,
            transform_8x8: self.transform_8x8@,
            nonzero: self.luma_nonzero@,
            motion: self.motion@,
            parameters,
        }
    }

    /// The number of whole macroblocks in the picture.
    pub open spec fn macroblocks(&self) -> int {
        (self.coded_width as int / 16) * (self.coded_height as int / 16)
    }

    /// Whether the planes hold all rows of the whole macroblocks.
    pub open spec fn holds_samples(&self) -> bool {
        let high = self.coded_height as int / 16;
        let half_width = self.coded_width as int / 2;
        &&& 16 * high * self.coded_width <= self.luma@.len()
        &&& 8 * high * half_width <= self.cb@.len()
        &&& 8 * high * half_width <= self.cr@.len()
    }

    /// Whether everything but the samples is the same in `other`.
    pub open spec fn same_but_samples(&self, other: Picture<'_>) -> bool {
        &&& self.coded_width == other.coded_width
        &&& self.coded_height == other.coded_height
        &&& self.luma_qp == other.luma_qp
        &&& self.chroma_qp_offset_cb == other.chroma_qp_offset_cb
        &&& self.chroma_qp_offset_cr == other.chroma_qp_offset_cr
        &&& self.macroblock_intra == other.macroblock_intra
        &&& self.transform_8x8 == other.transform_8x8
        &&& self.luma_nonzero == other.luma_nonzero
        &&& self.motion == other.motion
    }
}

/// The four-by-four block at column `x` and row `y` of a macroblock, in coding order.
pub open spec fn block_at(x: int, y: int) -> int {
    (y / 2) * 8 + (x / 2) * 4 + (y % 2) * 2 + x % 2
}

/// The four-by-four block at column `x` and row `y` of a macroblock, in coding order.
pub fn luma_block_index(x: usize, y: usize) -> (index: usize)
    requires
        x < 4,
        y < 4,
    ensures
        index == block_at(x as int, y as int),
        index < 16,
{
    (y / 2) * 8 + (x / 2) * 4 + (y % 2) * 2 + x % 2
}

/// Whether two vectors are less than one sample apart in each direction.
pub open spec fn near(left: ReferenceMotion, right: ReferenceMotion) -> bool {
    magnitude(left.x - right.x) < 4 && magnitude(left.y - right.y) < 4
}

/// Whether two motions agree in list index and vector.
pub open spec fn same_index(left: ReferenceMotion, right: ReferenceMotion) -> bool {
    left.index == right.index && near(left, right)
}

/// Whether two motions agree in reference picture and vector.
pub open spec fn same_reference(left: ReferenceMotion, right: ReferenceMotion) -> bool {
    left.reference == right.reference && near(left, right)
}

/// Whether two blocks move together, whichever list their references stand in.
pub open spec fn same_motion(left: BlockMotion, right: BlockMotion) -> bool {
    if left.list1.reference is None && right.list1.reference is None {
        same_index(left.list0, right.list0)
    } else if left.list0.reference is None && right.list0.reference is None {
        same_index(left.list1, right.list1)
    } else {
        (same_reference(left.list0, right.list0) && same_reference(left.list1, right.list1)) || (
        same_reference(left.list0, right.list1) && same_reference(left.list1, right.list0))
    }
}

/// The two lists of a block exchanged.
pub open spec fn exchanged(motion: BlockMotion) -> BlockMotion {
    BlockMotion { list0: motion.list1, list1: motion.list0 }
}

/// Blocks that move together do so whichever is named first.
pub proof fn law_same_motion_symmetric(left: BlockMotion, right: BlockMotion)
    ensures
        same_motion(left, right) == same_motion(right, left),
{
}

/// Where both blocks use both lists, exchanging the lists of one of them changes nothing.
pub proof fn law_same_motion_exchanged(left: BlockMotion, right: BlockMotion)
    requires
        left.list0.reference is Some,
        left.list1.reference is Some,
        right.list0.reference is Some,
        right.list1.reference is Some,
    ensures
        same_motion(left, exchanged(right)) == same_motion(left, right),
{
}

/// Whether the edge between two macroblocks may be filtered.
pub open spec fn shared_edge_open(map: MacroblockMap, p_address: int, q_address: int) -> bool {
    map.parameters[q_address].filter_across_slice_boundaries || map.parameters[p_address].slice_id
        == map.parameters[q_address].slice_id
}

/// The macroblock on the far side of an edge.
pub open spec fn far_side(map: MacroblockMap, address: int, vertical: bool, edge: int) -> int {
    if edge != 0 {
        address
    } else if vertical {
        address - 1
    } else {
        address - map.wide
    }
}

/// Whether an edge of a macroblock is filtered at all.
pub open spec fn edge_open(map: MacroblockMap, address: int, vertical: bool, edge: int) -> bool {
    edge != 0 || ((if vertical {
        address % map.wide != 0
    } else {
        address / map.wide != 0
    }) && shared_edge_open(map, far_side(map, address, vertical, 0), address))
}

/// The boundary strength between two blocks.
pub open spec fn strength_between(
    map: MacroblockMap,
    p_address: int,
    p_block: int,
    q_address: int,
    q_block: int,
    macroblock_edge: bool,
) -> int {
    if map.intra[p_address] || map.intra[q_address] {
        if macroblock_edge {
            4
        } else {
            3
        }
    } else if map.nonzero[p_address][p_block] != 0 || map.nonzero[q_address][q_block] != 0 {
        2
    } else {
        unit(!same_motion(map.motion[p_address][p_block], map.motion[q_address][q_block]))
    }
}

/// The boundary strength of one segment of one edge; zero where the edge is not filtered.
pub open spec fn segment_strength(
    map: MacroblockMap,
    address: int,
    vertical: bool,
    edge: int,
    segment: int,
) -> int {
    let before = if edge == 0 {
        3
    } else {
        edge - 1
    };
    if !edge_open(map, address, vertical, edge) {
        0
    } else if vertical {
        strength_between(
            map,
            far_side(map, address, vertical, edge),
            block_at(before, segment),
            address,
            block_at(edge, segment),
            edge == 0,
        )
    } else {
        strength_between(
            map,
            far_side(map, address, vertical, edge),
            block_at(segment, before),
            address,
            block_at(segment, edge),
            edge == 0,
        )
    }
}

/// Whether `strengths` are the boundary strengths of a macroblock.
pub open spec fn strengths_are(strengths: BoundaryStrengths, map: MacroblockMap, address: int) -> bool {
    &&& forall|edge: int, segment: int|
        0 <= edge < 4 && 0 <= segment < 4 ==> #[trigger] strengths.vertical[edge][segment]
            == segment_strength(map, address, true, edge, segment)
    &&& forall|edge: int, segment: int|
        0 <= edge < 4 && 0 <= segment < 4 ==> #[trigger] strengths.horizontal[edge][segment]
            == segment_strength(map, address, false, edge, segment)
}

/// Three samples on one side of an edge after the strong filter; `near_side` and `far_side` are
/// four samples each, counted from the edge.
pub open spec fn strong_side(
    near_side: Seq<int>,
    far_side: Seq<int>,
    alpha: int,
    beta: int,
    chroma: bool,
) -> Seq<int> {
    let a = near_side;
    let b = far_side;
    if !chroma && magnitude(a[2] - a[0]) < beta && magnitude(a[0] - b[0]) < alpha / 4 + 2 {
        seq![
            (a[2] + 2 * a[1] + 2 * a[0] + 2 * b[0] + b[1] + 4) / 8,
            (a[2] + a[1] + a[0] + b[0] + 2) / 4,
            (2 * a[3] + 3 * a[2] + a[1] + a[0] + b[0] + 4) / 8,
        ]
    } else {
        seq![(2 * a[1] + a[0] + b[1] + 2) / 4, a[1], a[2]]
    }
}

/// How far the normal filter may move the samples at the edge.
pub open spec fn clip_bound(p: Seq<int>, q: Seq<int>, beta: int, tc0: int, chroma: bool) -> int {
    tc0 + if chroma {
        1
    } else {
        unit(magnitude(p[2] - p[0]) < beta) + unit(magnitude(q[2] - q[0]) < beta)
    }
}

/// How far the normal filter moves the samples at the edge towards each other.
pub open spec fn edge_delta(p: Seq<int>, q: Seq<int>, beta: int, tc0: int, chroma: bool) -> int {
    let bound = clip_bound(p, q, beta, tc0, chroma);
    clamped(((q[0] - p[0]) * 4 + (p[1] - q[1]) + 4) / 8, -bound, bound)
}

/// Three samples on one side of an edge after the normal filter.
pub open spec fn normal_side(
    near_side: Seq<int>,
    far_side: Seq<int>,
    delta: int,
    beta: int,
    tc0: int,
    chroma: bool,
) -> Seq<int> {
    let a = near_side;
    let b = far_side;
    seq![
        a[0] + delta,
        if !chroma && magnitude(a[2] - a[0]) < beta {
            a[1] + clamped((a[2] + (a[0] + b[0] + 1) / 2 - 2 * a[1]) / 2, -tc0, tc0)
        } else {
            a[1]
        },
        a[2],
    ]
}

/// The table index of a quantizer and an offset.
pub open spec fn table_index(qp: int, offset: int) -> int {
    clamped(qp + offset, 0, 51)
}

/// The samples of `plane` at `places`.
pub open spec fn samples_at(plane: Seq<u8>, places: Seq<int>) -> Seq<int> {
    Seq::new(places.len(), |k: int| plane[places[k]] as int)
}

/// Whether the samples across an edge are close enough to be filtered.
pub open spec fn edge_is_artifact(p: Seq<int>, q: Seq<int>, alpha: int, beta: int) -> bool {
    magnitude(p[0] - q[0]) < alpha && magnitude(p[1] - p[0]) < beta && magnitude(q[1] - q[0]) < beta
}

/// `plane` with three samples on each side of an edge replaced.
pub open spec fn replaced(
    plane: Seq<u8>,
    p_places: Seq<int>,
    q_places: Seq<int>,
    p: Seq<int>,
    q: Seq<int>,
) -> Seq<u8> {
    plane.update(p_places[0], sample_of(p[0])).update(q_places[0], sample_of(q[0])).update(
        p_places[1],
        sample_of(p[1]),
    ).update(q_places[1], sample_of(q[1])).update(p_places[2], sample_of(p[2])).update(
        q_places[2],
        sample_of(q[2]),
    )
}

/// `plane` after one line across an edge is filtered; `p_places` and `q_places` are the four places
/// on each side, counted from the edge.
pub open spec fn line_filtered(
    plane: Seq<u8>,
    p_places: Seq<int>,
    q_places: Seq<int>,
    qp: int,
    strength: int,
    chroma: bool,
    params: Parameters,
) -> Seq<u8> {
    let index_a = table_index(qp, params.offset_a as int);
    let alpha = ALPHA[index_a] as int;
    let beta = BETA[table_index(qp, params.offset_b as int)] as int;
    let p = samples_at(plane, p_places);
    let q = samples_at(plane, q_places);
    if !edge_is_artifact(p, q, alpha, beta) {
        plane
    } else if strength == 4 {
        replaced(
            plane,
            p_places,
            q_places,
            strong_side(p, q, alpha, beta, chroma),
            strong_side(q, p, alpha, beta, chroma),
        )
    } else {
        let tc0 = TC0[strength - 1][index_a] as int;
        let delta = edge_delta(p, q, beta, tc0, chroma);
        replaced(
            plane,
            p_places,
            q_places,
            normal_side(p, q, delta, beta, tc0, chroma),
            normal_side(q, p, -delta, beta, tc0, chroma),
        )
    }
}

/// Four places on the near side of an edge, or with a negative step on its far side.
pub open spec fn places_from(first: int, step: int) -> Seq<int> {
    seq![first, first + step, first + 2 * step, first + 3 * step]
}

/// `plane` after `length` lines across an edge are filtered. The first line crosses the edge just
/// before `first`, lines are `along` apart, and samples of a line are `step` apart.
pub open spec fn edge_filtered(
    plane: Seq<u8>,
    first: int,
    along: int,
    step: int,
    length: int,
    qp: int,
    strength: int,
    chroma: bool,
    params: Parameters,
) -> Seq<u8>
    decreases length,
{
    if strength == 0 || length <= 0 {
        plane
    } else {
        let earlier = edge_filtered(
            plane,
            first,
            along,
            step,
            length - 1,
            qp,
            strength,
            chroma,
            params,
        );
        let place = first + (length - 1) * along;
        line_filtered(
            earlier,
            places_from(place - step, -step),
            places_from(place, step),
            qp,
            strength,
            chroma,
            params,
        )
    }
}

/// The quantizer between two macroblocks, for luma or for chroma with an offset.
pub open spec fn edge_qp(map: MacroblockMap, p_address: int, q_address: int, chroma: Option<i32>) -> int {
    match chroma {
        None => (map.luma_qp[p_address] + map.luma_qp[q_address] + 1) / 2,
        Some(offset) => (chroma_quantizer(map.luma_qp[p_address] as int, offset as int)
            + chroma_quantizer(map.luma_qp[q_address] as int, offset as int) + 1) / 2,
    }
}

/// The chroma quantizer for a luma quantizer and an offset.
pub open spec fn chroma_quantizer(luma_qp: int, offset: int) -> int {
    let index = clamped(luma_qp + offset, 0, 51);
    if index < 30 {
        index
    } else {
        CHROMA_QP[index - 30] as int
    }
}

/// `plane` after the first `count` segments of an edge are filtered.
pub open spec fn segments_filtered(
    plane: Seq<u8>,
    stride: int,
    map: MacroblockMap,
    address: int,
    chroma: Option<i32>,
    params: Parameters,
    vertical: bool,
    edge: int,
    count: int,
) -> Seq<u8>
    decreases count,
{
    if count <= 0 {
        plane
    } else {
        let earlier = segments_filtered(
            plane,
            stride,
            map,
            address,
            chroma,
            params,
            vertical,
            edge,
            count - 1,
        );
        let size = if chroma is Some {
            8int
        } else {
            16int
        };
        let length = size / 4;
        let x = (address % map.wide) * size;
        let y = (address / map.wide) * size;
        let segment = count - 1;
        let strength_edge = if chroma is Some {
            edge * 2
        } else {
            edge
        };
        edge_filtered(
            earlier,
            if vertical {
                (y + segment * length) * stride + (x + edge * 4)
            } else {
                (y + edge * 4) * stride + (x + segment * length)
            },
            if vertical {
                stride
            } else {
                1
            },
            if vertical {
                1
            } else {
                stride
            },
            length,
            edge_qp(map, far_side(map, address, vertical, edge), address, chroma),
            segment_strength(map, address, vertical, strength_edge, segment),
            chroma is Some,
            params,
        )
    }
}

/// `plane` after the first `count` edges of a macroblock in one direction are filtered.
pub open spec fn edges_filtered(
    plane: Seq<u8>,
    stride: int,
    map: MacroblockMap,
    address: int,
    chroma: Option<i32>,
    params: Parameters,
    vertical: bool,
    count: int,
) -> Seq<u8>
    decreases count,
{
    if count <= 0 {
        plane
    } else {
        let earlier = edges_filtered(
            plane,
            stride,
            map,
            address,
            chroma,
            params,
            vertical,
            count - 1,
        );
        let edge = count - 1;
        if !edge_open(map, address, vertical, edge) || (chroma is None && map.transform_8x8[address]
            && edge % 2 == 1) {
            earlier
        } else {
            segments_filtered(earlier, stride, map, address, chroma, params, vertical, edge, 4)
        }
    }
}

/// `plane` after one macroblock is filtered: its vertical edges, then its horizontal ones.
pub open spec fn macroblock_filtered(
    plane: Seq<u8>,
    stride: int,
    map: MacroblockMap,
    address: int,
    chroma: Option<i32>,
    params: Parameters,
) -> Seq<u8> {
    let edges = if chroma is Some {
        2int
    } else {
        4int
    };
    edges_filtered(
        edges_filtered(plane, stride, map, address, chroma, params, true, edges),
        stride,
        map,
        address,
        chroma,
        params,
        false,
        edges,
    )
}

/// `plane` after the first `count` macroblocks of a picture are filtered.
pub open spec fn plane_filtered(
    plane: Seq<u8>,
    stride: int,
    map: MacroblockMap,
    chroma: Option<i32>,
    count: int,
) -> Seq<u8>
    decreases count,
{
    if count <= 0 {
        plane
    } else {
        let earlier = plane_filtered(plane, stride, map, chroma, count - 1);
        match map.parameters[count - 1].parameters {
            None => earlier,
            Some(params) => macroblock_filtered(earlier, stride, map, count - 1, chroma, params),
        }
    }
}

/// Whether two vectors are less than one sample apart in each direction.
pub fn vector_matches(left: ReferenceMotion, right: ReferenceMotion) -> (result: bool)
    ensures
        result == near(left, right),
{
    absolute_wide(left.x as i64 - right.x as i64) < 4 && absolute_wide(
        left.y as i64 - right.y as i64,
    ) < 4
}

/// Whether two optional list indices are the same.
fn same_optional_index(left: Option<u8>, right: Option<u8>) -> (result: bool)
    ensures
        result == (left == right),
{
    match (left, right) {
        (None, None) => true,
        (Some(a), Some(b)) => a == b,
        _ => false,
    }
}

/// Whether two optional picture identities are the same.
fn same_optional_reference(left: Option<i32>, right: Option<i32>) -> (result: bool)
    ensures
        result == (left == right),
{
    match (left, right) {
        (None, None) => true,
        (Some(a), Some(b)) => a == b,
        _ => false,
    }
}

/// Whether two motions agree in list index and vector.
pub fn indexed_motion_matches(left: ReferenceMotion, right: ReferenceMotion) -> (result: bool)
    ensures
        result == same_index(left, right),
{
    same_optional_index(left.index, right.index) && vector_matches(left, right)
}

/// Whether two motions agree in reference picture and vector.
pub fn motion_matches(left: ReferenceMotion, right: ReferenceMotion) -> (result: bool)
    ensures
        result == same_reference(left, right),
{
    same_optional_reference(left.reference, right.reference) && vector_matches(left, right)
}

/// Whether two blocks move together, whichever list their references stand in.
pub fn motion_pairs_match(left: BlockMotion, right: BlockMotion) -> (result: bool)
    ensures
        result == same_motion(left, right),
{
    if left.list1.reference.is_none() && right.list1.reference.is_none() {
        return indexed_motion_matches(left.list0, right.list0);
    }
    if left.list0.reference.is_none() && right.list0.reference.is_none() {
        return indexed_motion_matches(left.list1, right.list1);
    }
    let same_order = motion_matches(left.list0, right.list0) && motion_matches(
        left.list1,
        right.list1,
    );
    let swapped_order = motion_matches(left.list0, right.list1) && motion_matches(
        left.list1,
        right.list0,
    );
    same_order || swapped_order
}

/// Whether the edge between two macroblocks may be filtered.
pub fn external_edge_enabled(
    macroblock_parameters: &[MacroblockParameters],
    p_address: usize,
    q_address: usize,
) -> (result: bool)
    requires
        p_address < macroblock_parameters@.len(),
        q_address < macroblock_parameters@.len(),
    ensures
        forall|map: MacroblockMap|
            map.parameters == macroblock_parameters@ ==> result == #[trigger] shared_edge_open(
                map,
                p_address as int,
                q_address as int,
            ),
{
    let q = macroblock_parameters[q_address];
    q.filter_across_slice_boundaries || macroblock_parameters[p_address].slice_id == q.slice_id
}

/// The boundary strength between two blocks.
pub fn boundary_strength(
    macroblock_intra: &[bool],
    luma_nonzero: &[[u8; 16]],
    motion: &[[BlockMotion; 16]],
    p_address: usize,
    p_block: usize,
    q_address: usize,
    q_block: usize,
    macroblock_edge: bool,
) -> (strength: usize)
    requires
        p_address < macroblock_intra@.len(),
        q_address < macroblock_intra@.len(),
        luma_nonzero@.len() == macroblock_intra@.len(),
        motion@.len() == macroblock_intra@.len(),
        p_block < 16,
        q_block < 16,
    ensures
        forall|map: MacroblockMap|
            map.intra == macroblock_intra@ && map.nonzero == luma_nonzero@ && map.motion == motion@
                ==> strength == #[trigger] strength_between(
                map,
                p_address as int,
                p_block as int,
                q_address as int,
                q_block as int,
                macroblock_edge,
            ),
        strength <= 4,
{
    if macroblock_intra[p_address] || macroblock_intra[q_address] {
        return if macroblock_edge {
            4
        } else {
            3
        };
    }
    if luma_nonzero[p_address][p_block] != 0 || luma_nonzero[q_address][q_block] != 0 {
        return 2;
    }
    if motion_pairs_match(motion[p_address][p_block], motion[q_address][q_block]) {
        0
    } else {
        1
    }
}

/// The quantizer between two macroblocks.
pub fn average_qp(p: i32, q: i32) -> (qp: i32)
    ensures
        qp == (p + q + 1) / 2,
{
    halved(p as i64 + q as i64 + 1) as i32
}

/// The chroma quantizer for a luma quantizer and an offset.
pub fn chroma_qp(luma_qp: i32, offset: i32) -> (qp: i32)
    ensures
        qp == chroma_quantizer(luma_qp as int, offset as int),
        0 <= qp <= 39,
{
    let index: i64 = clamp(luma_qp as i64 + offset as i64, 0, 51);
    if index < 30 {
        index as i32
    } else {
        CHROMA_QP[(index - 30) as usize]
    }
}

/// The numbers in an array of four.
pub open spec fn numbers(values: [i32; 4]) -> Seq<int> {
    Seq::new(4, |k: int| values[k] as int)
}

/// Whether four numbers are samples.
pub open spec fn are_samples(values: [i32; 4]) -> bool {
    forall|k: int| 0 <= k < 4 ==> 0 <= #[trigger] values[k] <= 255
}

/// Whether an array of three holds the first three of `expected`.
pub open spec fn three_are(values: [i32; 3], expected: Seq<int>) -> bool {
    values[0] == expected[0] && values[1] == expected[1] && values[2] == expected[2]
}

/// Three samples on one side of an edge after the strong filter.
fn strong_filter_side(a: [i32; 4], b: [i32; 4], alpha: i32, beta: i32, chroma: bool) -> (side: [i32;
    3])
    requires
        are_samples(a),
        are_samples(b),
        0 <= alpha <= 255,
    ensures
        three_are(side, strong_side(numbers(a), numbers(b), alpha as int, beta as int, chroma)),
{
    assert(0 <= a[0] <= 255 && 0 <= a[1] <= 255 && 0 <= a[2] <= 255 && 0 <= a[3] <= 255);
    assert(0 <= b[0] <= 255 && 0 <= b[1] <= 255 && 0 <= b[2] <= 255 && 0 <= b[3] <= 255);
    let strong = !chroma && absolute(a[2] - a[0]) < beta && absolute(a[0] - b[0]) < quartered(
        alpha as i64,
    ) as i32 + 2;
    if strong {
        [
            eighth((a[2] + 2 * a[1] + 2 * a[0] + 2 * b[0] + b[1] + 4) as i64) as i32,
            quartered((a[2] + a[1] + a[0] + b[0] + 2) as i64) as i32,
            eighth((2 * a[3] + 3 * a[2] + a[1] + a[0] + b[0] + 4) as i64) as i32,
        ]
    } else {
        [quartered((2 * a[1] + a[0] + b[1] + 2) as i64) as i32, a[1], a[2]]
    }
}

/// The samples on both sides of an edge after the strong filter.
pub fn strong_filter(p: [i32; 4], q: [i32; 4], alpha: i32, beta: i32, chroma: bool) -> (result: (
    [i32; 3],
    [i32; 3],
))
    requires
        are_samples(p),
        are_samples(q),
        0 <= alpha <= 255,
    ensures
        three_are(result.0, strong_side(numbers(p), numbers(q), alpha as int, beta as int, chroma)),
        three_are(result.1, strong_side(numbers(q), numbers(p), alpha as int, beta as int, chroma)),
{
    (strong_filter_side(p, q, alpha, beta, chroma), strong_filter_side(q, p, alpha, beta, chroma))
}

/// The second sample on one side of an edge after the normal filter.
fn normal_filter_second(a: [i32; 4], b: [i32; 4], beta: i32, tc0: i32, chroma: bool) -> (second: i32)
    requires
        are_samples(a),
        are_samples(b),
        0 <= tc0 <= 25,
    ensures
        forall|delta: int|
            second == #[trigger] normal_side(
                numbers(a),
                numbers(b),
                delta,
                beta as int,
                tc0 as int,
                chroma,
            )[1],
{
    assert(0 <= a[0] <= 255 && 0 <= a[1] <= 255 && 0 <= a[2] <= 255);
    assert(0 <= b[0] <= 255);
    if !chroma && absolute(a[2] - a[0]) < beta {
        let middle: i64 = halved((a[0] + b[0] + 1) as i64);
        let shift: i64 = clamp(
            halved(a[2] as i64 + middle - 2 * a[1] as i64),
            -(tc0 as i64),
            tc0 as i64,
        );
        a[1] + shift as i32
    } else {
        a[1]
    }
}

/// The samples on both sides of an edge after the normal filter.
pub fn normal_filter(
    p: [i32; 4],
    q: [i32; 4],
    beta: i32,
    index_a: usize,
    boundary_strength: usize,
    chroma: bool,
) -> (result: ([i32; 3], [i32; 3]))
    requires
        are_samples(p),
        are_samples(q),
        index_a < 52,
        1 <= boundary_strength <= 3,
    ensures
        ({
            let tc0 = TC0[boundary_strength - 1][index_a as int] as int;
            let delta = edge_delta(numbers(p), numbers(q), beta as int, tc0, chroma);
            &&& three_are(
                result.0,
                normal_side(numbers(p), numbers(q), delta, beta as int, tc0, chroma),
            )
            &&& three_are(
                result.1,
                normal_side(numbers(q), numbers(p), -delta, beta as int, tc0, chroma),
            )
        }),
{
    let tc0: i32 = TC0[boundary_strength - 1][index_a];
    assert(0 <= tc0 <= 25);
    assert(0 <= p[0] <= 255 && 0 <= p[1] <= 255 && 0 <= p[2] <= 255);
    assert(0 <= q[0] <= 255 && 0 <= q[1] <= 255 && 0 <= q[2] <= 255);
    let mut bound: i32 = tc0;
    if chroma {
        bound = bound + 1;
    } else {
        if absolute(p[2] - p[0]) < beta {
            bound = bound + 1;
        }
        if absolute(q[2] - q[0]) < beta {
            bound = bound + 1;
        }
    }
    let step: i64 = eighth(((q[0] - p[0]) * 4 + (p[1] - q[1]) + 4) as i64);
    let delta: i32 = clamp(step, -(bound as i64), bound as i64) as i32;
    let second_p: i32 = normal_filter_second(p, q, beta, tc0, chroma);
    let second_q: i32 = normal_filter_second(q, p, beta, tc0, chroma);
    ([p[0] + delta, second_p, p[2]], [q[0] - delta, second_q, q[2]])
}

/// The places in an array of four.
pub open spec fn places(indices: [usize; 4]) -> Seq<int> {
    Seq::new(4, |k: int| indices[k] as int)
}

/// Whether four places lie inside a plane of the given length.
pub open spec fn places_inside(indices: [usize; 4], length: int) -> bool {
    forall|k: int| 0 <= k < 4 ==> #[trigger] indices[k] < length
}

/// Filters one line across an edge.
pub fn filter_samples(
    plane: &mut [u8],
    p_indices: [usize; 4],
    q_indices: [usize; 4],
    qp: i32,
    boundary_strength: usize,
    chroma: bool,
    params: Parameters,
)
    requires
        places_inside(p_indices, old(plane)@.len() as int),
        places_inside(q_indices, old(plane)@.len() as int),
        1 <= boundary_strength <= 4,
    ensures
        final(plane)@ == line_filtered(
            old(plane)@,
            places(p_indices),
            places(q_indices),
            qp as int,
            boundary_strength as int,
            chroma,
            params,
        ),
        final(plane)@.len() == old(plane)@.len(),
{
    let index_a: usize = clamp(qp as i64 + params.offset_a as i64, 0, 51) as usize;
    let index_b: usize = clamp(qp as i64 + params.offset_b as i64, 0, 51) as usize;
    let alpha: i32 = ALPHA[index_a];
    let beta: i32 = BETA[index_b];
    assert(0 <= alpha <= 255);
    assert(p_indices[0] < plane@.len() && p_indices[1] < plane@.len() && p_indices[2] < plane@.len()
        && p_indices[3] < plane@.len());
    assert(q_indices[0] < plane@.len() && q_indices[1] < plane@.len() && q_indices[2] < plane@.len()
        && q_indices[3] < plane@.len());
    let p: [i32; 4] = [
        plane[p_indices[0]] as i32,
        plane[p_indices[1]] as i32,
        plane[p_indices[2]] as i32,
        plane[p_indices[3]] as i32,
    ];
    let q: [i32; 4] = [
        plane[q_indices[0]] as i32,
        plane[q_indices[1]] as i32,
        plane[q_indices[2]] as i32,
        plane[q_indices[3]] as i32,
    ];
    assert(numbers(p) =~= samples_at(plane@, places(p_indices)));
    assert(numbers(q) =~= samples_at(plane@, places(q_indices)));
    if absolute(p[0] - q[0]) >= alpha || absolute(p[1] - p[0]) >= beta || absolute(q[1] - q[0])
        >= beta {
        return;
    }
    let (filtered_p, filtered_q) = if boundary_strength == 4 {
        strong_filter(p, q, alpha, beta, chroma)
    } else {
        normal_filter(p, q, beta, index_a, boundary_strength, chroma)
    };
    plane[p_indices[0]] = clip_sample(filtered_p[0]);
    plane[q_indices[0]] = clip_sample(filtered_q[0]);
    plane[p_indices[1]] = clip_sample(filtered_p[1]);
    plane[q_indices[1]] = clip_sample(filtered_q[1]);
    plane[p_indices[2]] = clip_sample(filtered_p[2]);
    plane[q_indices[2]] = clip_sample(filtered_q[2]);
}

/// Filters `length` lines across a vertical edge, downwards from `(x, y)`.
pub fn filter_vertical_edge(
    plane: &mut [u8],
    stride: usize,
    x: usize,
    y: usize,
    length: usize,
    qp: i32,
    boundary_strength: usize,
    chroma: bool,
    params: Parameters,
)
    requires
        boundary_strength <= 4,
        boundary_strength == 0 || length == 0 || (y * stride + x >= 4 && (y + length - 1) * stride
            + x + 3 < old(plane)@.len()),
    ensures
        final(plane)@ == edge_filtered(
            old(plane)@,
            y * stride + x,
            stride as int,
            1,
            length as int,
            qp as int,
            boundary_strength as int,
            chroma,
            params,
        ),
        final(plane)@.len() == old(plane)@.len(),
{
    if boundary_strength == 0 {
        return;
    }
    let ghost base = y * stride + x;
    let mut offset: usize = 0;
    while offset < length
        invariant
            base == y * stride + x,
            offset <= length,
            1 <= boundary_strength <= 4,
            length == 0 || (base >= 4 && (y + length - 1) * stride + x + 3 < old(plane)@.len()),
            plane@.len() == old(plane)@.len(),
            plane@ == edge_filtered(
                old(plane)@,
                base,
                stride as int,
                1,
                offset as int,
                qp as int,
                boundary_strength as int,
                chroma,
                params,
            ),
        decreases length - offset,
    {
        let limit: usize = plane.len();
        assert(0 <= y * stride && y * stride <= (y + offset) * stride && (y + offset) * stride <= (y
            + length - 1) * stride && (y + offset) * stride == y * stride + offset * stride)
            by (nonlinear_arith)
            requires
                0 <= offset < length,
                0 <= y,
                0 <= stride,
        ;
        assert((y + length - 1) * stride <= limit);
        let row: usize = offset_row(y, offset, stride);
        let q0: usize = row + x;
        let p_indices: [usize; 4] = [q0 - 1, q0 - 2, q0 - 3, q0 - 4];
        let q_indices: [usize; 4] = [q0, q0 + 1, q0 + 2, q0 + 3];
        assert(places(p_indices) =~= places_from(q0 - 1, -1));
        assert(places(q_indices) =~= places_from(q0 as int, 1));
        filter_samples(plane, p_indices, q_indices, qp, boundary_strength, chroma, params);
        offset = offset + 1;
    }
}

/// The start of row `y + offset`.
fn offset_row(y: usize, offset: usize, stride: usize) -> (row: usize)
    requires
        (y + offset) * stride <= usize::MAX,
    ensures
        row == (y + offset) * stride,
{
    if stride == 0 {
        assert((y + offset) * stride == 0) by (nonlinear_arith)
            requires
                stride == 0,
        ;
        return 0;
    }
    assert(y + offset <= (y + offset) * stride) by (nonlinear_arith)
        requires
            stride >= 1,
            0 <= y + offset,
    ;
    (y + offset) * stride
}

/// Filters `length` lines across a horizontal edge, rightwards from `(x, y)`.
pub fn filter_horizontal_edge(
    plane: &mut [u8],
    stride: usize,
    x: usize,
    y: usize,
    length: usize,
    qp: i32,
    boundary_strength: usize,
    chroma: bool,
    params: Parameters,
)
    requires
        boundary_strength <= 4,
        boundary_strength == 0 || length == 0 || (y * stride + x >= 4 * stride && y * stride + x
            + length - 1 + 3 * stride < old(plane)@.len()),
    ensures
        final(plane)@ == edge_filtered(
            old(plane)@,
            y * stride + x,
            1,
            stride as int,
            length as int,
            qp as int,
            boundary_strength as int,
            chroma,
            params,
        ),
        final(plane)@.len() == old(plane)@.len(),
{
    if boundary_strength == 0 {
        return;
    }
    let ghost base = y * stride + x;
    let mut offset: usize = 0;
    while offset < length
        invariant
            base == y * stride + x,
            offset <= length,
            1 <= boundary_strength <= 4,
            length == 0 || (base >= 4 * stride && base + length - 1 + 3 * stride < old(
                plane)@.len()),
            plane@.len() == old(plane)@.len(),
            plane@ == edge_filtered(
                old(plane)@,
                base,
                1,
                stride as int,
                offset as int,
                qp as int,
                boundary_strength as int,
                chroma,
                params,
            ),
        decreases length - offset,
    {
        let limit: usize = plane.len();
        assert(0 <= y * stride) by (nonlinear_arith)
            requires
                0 <= y,
                0 <= stride,
        ;
        let q0: usize = offset_row(y, 0, stride) + x + offset;
        let p_indices: [usize; 4] = [
            q0 - stride,
            q0 - 2 * stride,
            q0 - 3 * stride,
            q0 - 4 * stride,
        ];
        let q_indices: [usize; 4] = [q0, q0 + stride, q0 + 2 * stride, q0 + 3 * stride];
        assert(places(p_indices) =~= places_from(q0 - stride, -(stride as int)));
        assert(places(q_indices) =~= places_from(q0 as int, stride as int));
        filter_samples(plane, p_indices, q_indices, qp, boundary_strength, chroma, params);
        offset = offset + 1;
    }
}

proof fn lemma_address(address: int, wide: int, high: int)
    requires
        0 <= address < wide * high,
        0 < wide,
    ensures
        0 <= address % wide < wide,
        0 <= address / wide < high,
        address % wide != 0 ==> address >= 1,
        address / wide != 0 ==> address >= wide,
{
    assert(0 <= address % wide < wide && 0 <= address / wide < high && (address % wide != 0
        ==> address >= 1) && (address / wide != 0 ==> address >= wide)) by (nonlinear_arith)
        requires
            0 <= address < wide * high,
            0 < wide,
    ;
}

/// Derives the boundary strengths of one macroblock.
pub fn derive_boundary_strengths(
    picture: &Picture<'_>,
    address: usize,
    macroblocks_wide: usize,
    macroblock_parameters: &[MacroblockParameters],
) -> (strengths: BoundaryStrengths)
    requires
        macroblocks_wide == picture.coded_width / 16,
        0 < macroblocks_wide,
        address < macroblock_parameters@.len(),
        picture.map(macroblock_parameters@).describes(macroblock_parameters@.len() as int),
    ensures
        strengths_are(strengths, picture.map(macroblock_parameters@), address as int),
{
    let ghost map = picture.map(macroblock_parameters@);
    let macroblock_x: usize = address % macroblocks_wide;
    let macroblock_y: usize = address / macroblocks_wide;
    proof {
        assert(address < macroblocks_wide * (address + 1)) by (nonlinear_arith)
            requires
                macroblocks_wide >= 1,
                0 <= address,
        ;
        lemma_address(address as int, macroblocks_wide as int, address + 1);
    }
    let mut vertical: [[usize; 4]; 4] = [[0usize; 4]; 4];
    let mut horizontal: [[usize; 4]; 4] = [[0usize; 4]; 4];
    let mut edge: usize = 0;
    while edge < 4
        invariant
            edge <= 4,
            0 < macroblocks_wide == map.wide,
            map == picture.map(macroblock_parameters@),
            map.describes(macroblock_parameters@.len() as int),
            address < macroblock_parameters@.len(),
            macroblock_x == address % macroblocks_wide,
            macroblock_y == address / macroblocks_wide,
            macroblock_x != 0 ==> address >= 1,
            macroblock_y != 0 ==> address >= macroblocks_wide,
            forall|e: int, s: int|
                0 <= e < edge && 0 <= s < 4 ==> #[trigger] vertical[e][s] == segment_strength(
                    map,
                    address as int,
                    true,
                    e,
                    s,
                ),
            forall|e: int, s: int|
                0 <= e < edge && 0 <= s < 4 ==> #[trigger] horizontal[e][s] == segment_strength(
                    map,
                    address as int,
                    false,
                    e,
                    s,
                ),
        decreases 4 - edge,
    {
        let before: usize = if edge == 0 {
            3
        } else {
            edge - 1
        };
        let left_open = edge != 0 || (macroblock_x != 0 && external_edge_enabled(
            macroblock_parameters,
            address - 1,
            address,
        ));
        let top_open = edge != 0 || (macroblock_y != 0 && external_edge_enabled(
            macroblock_parameters,
            address - macroblocks_wide,
            address,
        ));
        assert(left_open == edge_open(map, address as int, true, edge as int));
        assert(top_open == edge_open(map, address as int, false, edge as int));
        let mut columns: [usize; 4] = [0usize; 4];
        let mut rows: [usize; 4] = [0usize; 4];
        let mut segment: usize = 0;
        while segment < 4
            invariant
                segment <= 4,
                edge < 4,
                before == if edge == 0 {
                    3
                } else {
                    edge - 1
                },
                0 < macroblocks_wide == map.wide,
                map == picture.map(macroblock_parameters@),
                map.describes(macroblock_parameters@.len() as int),
                address < macroblock_parameters@.len(),
                edge == 0 && left_open ==> address >= 1,
                edge == 0 && top_open ==> address >= macroblocks_wide,
                left_open == edge_open(map, address as int, true, edge as int),
                top_open == edge_open(map, address as int, false, edge as int),
                forall|s: int|
                    0 <= s < segment ==> #[trigger] columns[s] == segment_strength(
                        map,
                        address as int,
                        true,
                        edge as int,
                        s,
                    ),
                forall|s: int|
                    0 <= s < segment ==> #[trigger] rows[s] == segment_strength(
                        map,
                        address as int,
                        false,
                        edge as int,
                        s,
                    ),
            decreases 4 - segment,
        {
            if left_open {
                columns[segment] = boundary_strength(
                    picture.macroblock_intra,
                    picture.luma_nonzero,
                    picture.motion,
                    if edge == 0 {
                        address - 1
                    } else {
                        address
                    },
                    luma_block_index(before, segment),
                    address,
                    luma_block_index(edge, segment),
                    edge == 0,
                );
            } else {
                columns[segment] = 0;
            }
            if top_open {
                rows[segment] = boundary_strength(
                    picture.macroblock_intra,
                    picture.luma_nonzero,
                    picture.motion,
                    if edge == 0 {
                        address - macroblocks_wide
                    } else {
                        address
                    },
                    luma_block_index(segment, before),
                    address,
                    luma_block_index(segment, edge),
                    edge == 0,
                );
            } else {
                rows[segment] = 0;
            }
            segment = segment + 1;
        }
        vertical[edge] = columns;
        horizontal[edge] = rows;
        edge = edge + 1;
    }
    BoundaryStrengths { vertical, horizontal }
}

/// The side of a macroblock in luma, or in chroma.
pub open spec fn block_size(chroma: Option<i32>) -> int {
    if chroma is Some {
        8
    } else {
        16
    }
}

/// Filters the edges of one macroblock in one direction.
fn filter_macroblock_edges(
    plane: &mut [u8],
    stride: usize,
    address: usize,
    macroblocks_wide: usize,
    luma_qp: &[i32],
    transform_8x8: bool,
    macroblock_parameters: &[MacroblockParameters],
    params: Parameters,
    strengths: &BoundaryStrengths,
    chroma: Option<i32>,
    vertical: bool,
    map: Ghost<MacroblockMap>,
    high: Ghost<int>,
)
    requires
        0 < macroblocks_wide == map@.wide,
        luma_qp@ == map@.luma_qp,
        macroblock_parameters@ == map@.parameters,
        chroma is None ==> transform_8x8 == map@.transform_8x8[address as int],
        map@.describes(macroblocks_wide * high@),
        address < macroblocks_wide * high@,
        block_size(chroma) * macroblocks_wide <= stride,
        block_size(chroma) * high@ * stride <= old(plane)@.len(),
        strengths_are(*strengths, map@, address as int),
    ensures
        final(plane)@.len() == old(plane)@.len(),
        final(plane)@ == edges_filtered(
            old(plane)@,
            stride as int,
            map@,
            address as int,
            chroma,
            params,
            vertical,
            if chroma is Some {
                2
            } else {
                4
            },
        ),
{
    let ghost map = map@;
    let ghost high = high@;
    let ghost before = plane@;
    let limit: usize = plane.len();
    let size: usize = if chroma.is_some() {
        8
    } else {
        16
    };
    let length: usize = size / 4;
    let edges: usize = if chroma.is_some() {
        2
    } else {
        4
    };
    proof {
        lemma_address(address as int, macroblocks_wide as int, high);
    }
    let macroblock_x: usize = address % macroblocks_wide;
    let macroblock_y: usize = address / macroblocks_wide;
    proof {
        assert((macroblock_x + 1) * size <= size * macroblocks_wide && (macroblock_y + 1) * size
            <= size * high && size * high <= size * high * stride && (macroblock_x + 1) * size
            == macroblock_x * size + size && (macroblock_y + 1) * size == macroblock_y * size
            + size && 0 <= macroblock_x * size && 0 <= macroblock_y * size) by (nonlinear_arith)
            requires
                0 <= macroblock_x < macroblocks_wide,
                0 <= macroblock_y < high,
                8 <= size <= 16,
                1 <= stride,
        ;
    }
    let x: usize = macroblock_x * size;
    let y: usize = macroblock_y * size;
    let ghost rows = size * high;
    let mut edge: usize = 0;
    while edge < edges
        invariant
            edge <= edges,
            size == block_size(chroma),
            length == size / 4,
            edges == size / 4 || (edges == 4 && size == 16),
            edges == if chroma is Some {
                2int
            } else {
                4int
            },
            0 < macroblocks_wide == map.wide,
            luma_qp@ == map.luma_qp,
            macroblock_parameters@ == map.parameters,
            chroma is None ==> transform_8x8 == map.transform_8x8[address as int],
            map.describes(macroblocks_wide * high),
            address < macroblocks_wide * high,
            macroblock_x == address % macroblocks_wide,
            macroblock_y == address / macroblocks_wide,
            macroblock_x != 0 ==> address >= 1,
            macroblock_y != 0 ==> address >= macroblocks_wide,
            x == macroblock_x * size,
            y == macroblock_y * size,
            macroblock_x != 0 ==> x >= 8,
            macroblock_y != 0 ==> y >= 8,
            x + size <= stride,
            y + size <= rows,
            rows * stride <= limit,
            plane@.len() == limit,
            strengths_are(*strengths, map, address as int),
            plane@ == edges_filtered(
                before,
                stride as int,
                map,
                address as int,
                chroma,
                params,
                vertical,
                edge as int,
            ),
        decreases edges - edge,
    {
        let left_open = macroblock_x != 0 && external_edge_enabled(
            macroblock_parameters,
            if macroblock_x != 0 {
                address - 1
            } else {
                address
            },
            address,
        );
        let top_open = macroblock_y != 0 && external_edge_enabled(
            macroblock_parameters,
            if macroblock_y != 0 {
                address - macroblocks_wide
            } else {
                address
            },
            address,
        );
        let open = edge != 0 || (if vertical {
            left_open
        } else {
            top_open
        });
        assert(open == edge_open(map, address as int, vertical, edge as int));
        if open && !(chroma.is_none() && transform_8x8 && edge % 2 == 1) {
            let p_address: usize = if edge != 0 {
                address
            } else if vertical {
                address - 1
            } else {
                address - macroblocks_wide
            };
            let qp: i32 = match chroma {
                None => average_qp(luma_qp[p_address], luma_qp[address]),
                Some(offset) => average_qp(
                    chroma_qp(luma_qp[p_address], offset),
                    chroma_qp(luma_qp[address], offset),
                ),
            };
            let strength_edge: usize = if chroma.is_some() {
                edge * 2
            } else {
                edge
            };
            let ghost started = plane@;
            let mut segment: usize = 0;
            while segment < 4
                invariant
                    segment <= 4,
                    edge < edges,
                    size == block_size(chroma),
                    length == size / 4,
                    edges == if chroma is Some {
                        2int
                    } else {
                        4int
                    },
                    0 < macroblocks_wide == map.wide,
                    strength_edge == if chroma is Some {
                        edge * 2
                    } else {
                        edge as int
                    },
                    x == (address as int % map.wide) * size,
                    y == (address as int / map.wide) * size,
                    edge != 0 || (if vertical {
                        x >= 8
                    } else {
                        y >= 8
                    }),
                    x + size <= stride,
                    y + size <= rows,
                    rows * stride <= limit,
                    plane@.len() == limit,
                    strengths_are(*strengths, map, address as int),
                    qp == edge_qp(
                        map,
                        far_side(map, address as int, vertical, edge as int),
                        address as int,
                        chroma,
                    ),
                    plane@ == segments_filtered(
                        started,
                        stride as int,
                        map,
                        address as int,
                        chroma,
                        params,
                        vertical,
                        edge as int,
                        segment as int,
                    ),
                decreases 4 - segment,
            {
                if vertical {
                    let strength: usize = strengths.vertical[strength_edge][segment];
                    assert(strengths.vertical[strength_edge as int][segment as int]
                        == segment_strength(
                        map,
                        address as int,
                        true,
                        strength_edge as int,
                        segment as int,
                    ));
                    let column: usize = x + edge * 4;
                    let row: usize = y + segment * length;
                    proof {
                        lemma_place_inside(
                            row + length - 1,
                            column + 3,
                            stride as int,
                            rows,
                        );
                        lemma_place_inside(row as int, column as int, stride as int, rows);
                    }
                    filter_vertical_edge(
                        plane,
                        stride,
                        column,
                        row,
                        length,
                        qp,
                        strength,
                        chroma.is_some(),
                        params,
                    );
                } else {
                    let strength: usize = strengths.horizontal[strength_edge][segment];
                    assert(strengths.horizontal[strength_edge as int][segment as int]
                        == segment_strength(
                        map,
                        address as int,
                        false,
                        strength_edge as int,
                        segment as int,
                    ));
                    let column: usize = x + segment * length;
                    let row: usize = y + edge * 4;
                    proof {
                        lemma_place_inside(row + 3, column + length - 1, stride as int, rows);
                        assert((row + 3) * stride == row * stride + 3 * stride && row * stride >= 4
                            * stride) by (nonlinear_arith)
                            requires
                                row >= 4,
                                stride >= 0,
                        ;
                    }
                    filter_horizontal_edge(
                        plane,
                        stride,
                        column,
                        row,
                        length,
                        qp,
                        strength,
                        chroma.is_some(),
                        params,
                    );
                }
                segment = segment + 1;
            }
        }
        edge = edge + 1;
    }
}

/// Filters the luma edges of one macroblock.
pub fn filter_luma_macroblock(
    picture: &mut Picture<'_>,
    address: usize,
    macroblocks_wide: usize,
    macroblock_parameters: &[MacroblockParameters],
    params: Parameters,
    strengths: &BoundaryStrengths,
)
    requires
        macroblocks_wide == old(picture).coded_width / 16,
        address < old(picture).macroblocks(),
        old(picture).map(macroblock_parameters@).describes(old(picture).macroblocks()),
        16 * (old(picture).coded_height as int / 16) * old(picture).coded_width <= old(
            picture).luma@.len(),
        strengths_are(
            *strengths,
            old(picture).map(macroblock_parameters@),
            address as int,
        ),
    ensures
        final(picture).same_but_samples(*old(picture)),
        final(picture).cb == old(picture).cb,
        final(picture).cr == old(picture).cr,
        final(final(picture).luma)@ == final(old(picture).luma)@,
        final(picture).luma@.len() == old(picture).luma@.len(),
        final(picture).luma@ == macroblock_filtered(
            old(picture).luma@,
            old(picture).coded_width as int,
            old(picture).map(macroblock_parameters@),
            address as int,
            None,
            params,
        ),
{
    let ghost map = picture.map(macroblock_parameters@);
    let ghost high = picture.coded_height as int / 16;
    let stride: usize = picture.coded_width;
    let luma_qp = picture.luma_qp;
    proof {
        let wide = macroblocks_wide as int;
        assert(wide > 0 && high > 0) by (nonlinear_arith)
            requires
                0 < wide * high,
                0 <= wide,
                0 <= high,
        ;
    }
    let transform_8x8 = picture.transform_8x8[address];
    filter_macroblock_edges(
        picture.luma,
        stride,
        address,
        macroblocks_wide,
        luma_qp,
        transform_8x8,
        macroblock_parameters,
        params,
        strengths,
        None,
        true,
        Ghost(map),
        Ghost(high),
    );
    filter_macroblock_edges(
        picture.luma,
        stride,
        address,
        macroblocks_wide,
        luma_qp,
        transform_8x8,
        macroblock_parameters,
        params,
        strengths,
        None,
        false,
        Ghost(map),
        Ghost(high),
    );
}

/// Filters the edges of one macroblock in a chroma plane.
fn filter_chroma_macroblock(
    plane: &mut [u8],
    stride: usize,
    address: usize,
    macroblocks_wide: usize,
    luma_qp: &[i32],
    chroma_qp_offset: i32,
    macroblock_parameters: &[MacroblockParameters],
    params: Parameters,
    strengths: &BoundaryStrengths,
    map: Ghost<MacroblockMap>,
    high: Ghost<int>,
)
    requires
        0 < macroblocks_wide == map@.wide,
        luma_qp@ == map@.luma_qp,
        macroblock_parameters@ == map@.parameters,
        map@.describes(macroblocks_wide * high@),
        address < macroblocks_wide * high@,
        8 * macroblocks_wide <= stride,
        8 * high@ * stride <= old(plane)@.len(),
        strengths_are(*strengths, map@, address as int),
    ensures
        final(plane)@.len() == old(plane)@.len(),
        final(plane)@ == macroblock_filtered(
            old(plane)@,
            stride as int,
            map@,
            address as int,
            Some(chroma_qp_offset),
            params,
        ),
{
    filter_macroblock_edges(
        plane,
        stride,
        address,
        macroblocks_wide,
        luma_qp,
        false,
        macroblock_parameters,
        params,
        strengths,
        Some(chroma_qp_offset),
        true,
        map,
        high,
    );
    filter_macroblock_edges(
        plane,
        stride,
        address,
        macroblocks_wide,
        luma_qp,
        false,
        macroblock_parameters,
        params,
        strengths,
        Some(chroma_qp_offset),
        false,
        map,
        high,
    );
}

/// Filters a whole picture, macroblock by macroblock.
///
/// # Errors
///
/// Returns an error when the macroblock count overflows, or when a map does not hold one entry per
/// macroblock.
pub fn filter_picture(
    picture: &mut Picture<'_>,
    macroblock_parameters: &[MacroblockParameters],
) -> (result: Result<(), Error>)
    requires
        old(picture).map(macroblock_parameters@).describes(old(picture).macroblocks()) && old(
            picture).map(macroblock_parameters@).filters() ==> old(picture).holds_samples(),
    ensures
        final(picture).same_but_samples(*old(picture)),
        final(final(picture).luma)@ == final(old(picture).luma)@,
        final(final(picture).cb)@ == final(old(picture).cb)@,
        final(final(picture).cr)@ == final(old(picture).cr)@,
        ({
            let count = old(picture).macroblocks();
            let map = old(picture).map(macroblock_parameters@);
            if count > usize::MAX {
                &&& result == Err::<(), Error>(Error::InvalidData(Fault::MacroblockCount))
                &&& final(picture).luma@ == old(picture).luma@
                &&& final(picture).cb@ == old(picture).cb@
                &&& final(picture).cr@ == old(picture).cr@
            } else if !map.describes(count) {
                &&& result == Err::<(), Error>(Error::InvalidData(Fault::MacroblockMap))
                &&& final(picture).luma@ == old(picture).luma@
                &&& final(picture).cb@ == old(picture).cb@
                &&& final(picture).cr@ == old(picture).cr@
            } else {
                &&& result == Ok::<(), Error>(())
                &&& final(picture).luma@ == plane_filtered(
                    old(picture).luma@,
                    old(picture).coded_width as int,
                    map,
                    None,
                    count,
                )
                &&& final(picture).cb@ == plane_filtered(
                    old(picture).cb@,
                    old(picture).coded_width as int / 2,
                    map,
                    Some(old(picture).chroma_qp_offset_cb),
                    count,
                )
                &&& final(picture).cr@ == plane_filtered(
                    old(picture).cr@,
                    old(picture).coded_width as int / 2,
                    map,
                    Some(old(picture).chroma_qp_offset_cr),
                    count,
                )
            }
        }),
{
    let macroblocks_wide: usize = picture.coded_width / 16;
    let macroblocks_high: usize = picture.coded_height / 16;
    let expected: usize = match macroblocks_wide.checked_mul(macroblocks_high) {
        Some(expected) => expected,
        None => {
            return Err(Error::InvalidData(Fault::MacroblockCount));
        },
    };
    if picture.luma_qp.len() != expected || picture.macroblock_intra.len() != expected
        || picture.transform_8x8.len() != expected || picture.luma_nonzero.len() != expected
        || picture.motion.len() != expected || macroblock_parameters.len() != expected {
        return Err(Error::InvalidData(Fault::MacroblockMap));
    }
    let ghost map = picture.map(macroblock_parameters@);
    let ghost high = macroblocks_high as int;
    let stride: usize = picture.coded_width / 2;
    let mut address: usize = 0;
    while address < expected
        invariant
            address <= expected,
            expected == macroblocks_wide * macroblocks_high,
            expected == old(picture).macroblocks(),
            high == macroblocks_high,
            macroblocks_wide == old(picture).coded_width / 16,
            macroblocks_high == old(picture).coded_height / 16,
            stride == old(picture).coded_width / 2,
            map == old(picture).map(macroblock_parameters@),
            map.describes(expected as int),
            picture.same_but_samples(*old(picture)),
            final(picture.luma)@ == final(old(picture).luma)@,
            final(picture.cb)@ == final(old(picture).cb)@,
            final(picture.cr)@ == final(old(picture).cr)@,
            map.filters() ==> {
                &&& 16 * high * old(picture).coded_width <= picture.luma@.len()
                &&& 8 * high * stride <= picture.cb@.len()
                &&& 8 * high * stride <= picture.cr@.len()
            },
            picture.luma@ == plane_filtered(
                old(picture).luma@,
                old(picture).coded_width as int,
                map,
                None,
                address as int,
            ),
            picture.cb@ == plane_filtered(
                old(picture).cb@,
                stride as int,
                map,
                Some(old(picture).chroma_qp_offset_cb),
                address as int,
            ),
            picture.cr@ == plane_filtered(
                old(picture).cr@,
                stride as int,
                map,
                Some(old(picture).chroma_qp_offset_cr),
                address as int,
            ),
        decreases expected - address,
    {
        if let Some(params) = macroblock_parameters[address].parameters {
            proof {
                assert(map.parameters[address as int].parameters is Some);
                let wide = macroblocks_wide as int;
                assert(wide > 0) by (nonlinear_arith)
                    requires
                        0 < wide * high,
                        0 <= wide,
                ;
            }
            let strengths = derive_boundary_strengths(
                picture,
                address,
                macroblocks_wide,
                macroblock_parameters,
            );
            filter_luma_macroblock(
                picture,
                address,
                macroblocks_wide,
                macroblock_parameters,
                params,
                &strengths,
            );
            let luma_qp = picture.luma_qp;
            let offset_cb: i32 = picture.chroma_qp_offset_cb;
            let offset_cr: i32 = picture.chroma_qp_offset_cr;
            filter_chroma_macroblock(
                picture.cb,
                stride,
                address,
                macroblocks_wide,
                luma_qp,
                offset_cb,
                macroblock_parameters,
                params,
                &strengths,
                Ghost(map),
                Ghost(high),
            );
            filter_chroma_macroblock(
                picture.cr,
                stride,
                address,
                macroblocks_wide,
                luma_qp,
                offset_cr,
                macroblock_parameters,
                params,
                &strengths,
                Ghost(map),
                Ghost(high),
            );
        }
        address = address + 1;
    }
    Ok(())
}

/// Where the thresholds are zero, a line is left as it is.
pub proof fn law_zero_threshold(
    plane: Seq<u8>,
    p_places: Seq<int>,
    q_places: Seq<int>,
    qp: int,
    strength: int,
    chroma: bool,
    params: Parameters,
)
    requires
        qp + params.offset_a < 16 || qp + params.offset_b < 16,
    ensures
        line_filtered(plane, p_places, q_places, qp, strength, chroma, params) == plane,
{
}

/// A picture in which the filter is off everywhere keeps its samples.
pub proof fn law_filter_off(
    plane: Seq<u8>,
    stride: int,
    map: MacroblockMap,
    chroma: Option<i32>,
    count: int,
)
    requires
        forall|address: int|
            0 <= address < count ==> (#[trigger] map.parameters[address]).parameters is None,
    ensures
        plane_filtered(plane, stride, map, chroma, count) == plane,
    decreases count,
{
    if count > 0 {
        law_filter_off(plane, stride, map, chroma, count - 1);
    }
}

} // verus!
