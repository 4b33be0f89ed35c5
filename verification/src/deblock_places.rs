//! Where edges are filtered, and where not.

use vstd::prelude::*;

use crate::deblock::{
    edge_filtered, edge_open, edges_filtered, far_side, line_filtered, places_from, plane_filtered, replaced,
    segment_strength, segments_filtered, strength_between, MacroblockMap, Parameters,
};

verus! {

/// The outer edges of a macroblock are filtered where there is a macroblock on the other side of
/// them, if it belongs to the same part of the picture or edges between parts are filtered too; the
/// inner ones always.
pub proof fn law_open_edges(map: MacroblockMap, address: int, edge: int)
    requires
        0 < map.wide,
        0 <= address,
        0 <= edge < 4,
    ensures
        ({
            let own = map.parameters[address];
            let joined = |other: int|
                own.filter_across_slice_boundaries || map.parameters[other].slice_id
                    == own.slice_id;
            &&& edge > 0 ==> edge_open(map, address, true, edge) && edge_open(
                map,
                address,
                false,
                edge,
            )
            &&& edge == 0 ==> (edge_open(map, address, true, edge) <==> address % map.wide > 0
                && joined(address - 1))
            &&& edge == 0 ==> (edge_open(map, address, false, edge) <==> address >= map.wide
                && joined(address - map.wide))
        }),
{
    let wide = map.wide;
    assert(address / wide != 0 <==> address >= wide) by (nonlinear_arith)
        requires
            0 < wide,
            0 <= address,
    ;
}

/// The strength of a piece of an edge is that between the blocks on both sides of it: for upright
/// edges the blocks before and after it in its row, for level ones those above and below it in its
/// column; across an outer edge lies the last block of the macroblock beside.
pub proof fn law_blocks_at_edge(map: MacroblockMap, address: int, edge: int, piece: int)
    requires
        0 <= edge < 4,
        0 <= piece < 4,
        edge_open(map, address, true, edge),
        edge_open(map, address, false, edge),
    ensures
        ({
            let block = |column: int, row: int|
                8 * (row / 2) + 4 * (column / 2) + 2 * (row % 2) + column % 2;
            let upright = segment_strength(map, address, true, edge, piece);
            let level = segment_strength(map, address, false, edge, piece);
            &&& edge > 0 ==> upright == strength_between(
                map,
                address,
                block(edge - 1, piece),
                address,
                block(edge, piece),
                false,
            )
            &&& edge > 0 ==> level == strength_between(
                map,
                address,
                block(piece, edge - 1),
                address,
                block(piece, edge),
                false,
            )
            &&& edge == 0 ==> upright == strength_between(
                map,
                address - 1,
                block(3, piece),
                address,
                block(0, piece),
                true,
            )
            &&& edge == 0 ==> level == strength_between(
                map,
                address - map.wide,
                block(piece, 3),
                address,
                block(piece, 0),
                true,
            )
        }),
{
}

/// Where blocks are eight samples wide, only every other luma edge is filtered.
pub proof fn law_large_blocks(
    plane: Seq<u8>,
    stride: int,
    map: MacroblockMap,
    address: int,
    params: Parameters,
    vertical: bool,
)
    requires
        map.transform_8x8[address],
    ensures
        edges_filtered(plane, stride, map, address, None, params, vertical, 2) == edges_filtered(
            plane,
            stride,
            map,
            address,
            None,
            params,
            vertical,
            1,
        ),
        edges_filtered(plane, stride, map, address, None, params, vertical, 4) == edges_filtered(
            plane,
            stride,
            map,
            address,
            None,
            params,
            vertical,
            3,
        ),
{
}

/// An edge that is not open is left.
pub proof fn law_closed_edge(
    plane: Seq<u8>,
    stride: int,
    map: MacroblockMap,
    address: int,
    chroma: Option<i32>,
    params: Parameters,
    vertical: bool,
)
    requires
        !edge_open(map, address, vertical, 0),
    ensures
        edges_filtered(plane, stride, map, address, chroma, params, vertical, 1) == plane,
{
    reveal_with_fuel(edges_filtered, 2);
}

/// A piece of an edge without strength is left; the second chroma edge has the strengths of the third
/// luma edge.
pub proof fn law_no_strength(
    plane: Seq<u8>,
    stride: int,
    map: MacroblockMap,
    address: int,
    chroma: Option<i32>,
    params: Parameters,
    vertical: bool,
    edge: int,
    luma_edge: int,
    count: int,
)
    requires
        0 <= count <= 4,
        luma_edge == if chroma is Some {
            2 * edge
        } else {
            edge
        },
        forall|piece: int|
            0 <= piece < 4 ==> #[trigger] segment_strength(
                map,
                address,
                vertical,
                luma_edge,
                piece,
            ) == 0,
    ensures
        segments_filtered(plane, stride, map, address, chroma, params, vertical, edge, count)
            == plane,
    decreases count,
{
    if count > 0 {
        law_no_strength(
            plane,
            stride,
            map,
            address,
            chroma,
            params,
            vertical,
            edge,
            luma_edge,
            count - 1,
        );
    }
}

/// Place `k` of line `line` across an edge, counted from the edge.
pub open spec fn spot(first: int, along: int, step: int, line: int, k: int) -> int {
    first + line * along + k * step
}

/// Whether place `place` is one of the three on each side of an edge on some of its lines.
pub open spec fn beside(
    place: int,
    first: int,
    along: int,
    step: int,
    length: int,
) -> bool {
    exists|line: int, k: int|
        0 <= line < length && -3 <= k <= 2 && place == #[trigger] spot(first, along, step, line, k)
}

/// Filtering a line changes no sample but those three on each side.
proof fn lemma_line_keeps(
    plane: Seq<u8>,
    place: int,
    first: int,
    step: int,
    qp: int,
    strength: int,
    chroma: bool,
    params: Parameters,
)
    requires
        0 <= place < plane.len(),
        forall|k: int| -3 <= k <= 2 ==> 0 <= #[trigger] spot(first, 0, step, 0, k) < plane.len(),
        forall|k: int| -3 <= k <= 2 ==> place != #[trigger] spot(first, 0, step, 0, k),
    ensures
        ({
            let after = line_filtered(
                plane,
                places_from(first - step, -step),
                places_from(first, step),
                qp,
                strength,
                chroma,
                params,
            );
            after.len() == plane.len() && after[place] == plane[place]
        }),
{
    let p = places_from(first - step, -step);
    let q = places_from(first, step);
    assert(spot(first, 0, step, 0, -1) == p[0]);
    assert(spot(first, 0, step, 0, -2) == p[1]);
    assert(spot(first, 0, step, 0, -3) == p[2]);
    assert(spot(first, 0, step, 0, 0) == q[0]);
    assert(spot(first, 0, step, 0, 1) == q[1]);
    assert(spot(first, 0, step, 0, 2) == q[2]);
    assert forall|a: Seq<int>, b: Seq<int>| #[trigger]
        replaced(plane, p, q, a, b).len() == plane.len() && replaced(plane, p, q, a, b)[place]
            == plane[place] by {}
}

/// Filtering an edge changes no sample but those three on each side of it.
pub proof fn law_edge_keeps(
    plane: Seq<u8>,
    place: int,
    first: int,
    along: int,
    step: int,
    length: int,
    qp: int,
    strength: int,
    chroma: bool,
    params: Parameters,
)
    requires
        0 <= place < plane.len(),
        forall|line: int, k: int|
            0 <= line < length && -3 <= k <= 2 ==> 0 <= #[trigger] spot(first, along, step, line, k)
                < plane.len(),
        !beside(place, first, along, step, length),
    ensures
        ({
            let after = edge_filtered(
                plane,
                first,
                along,
                step,
                length,
                qp,
                strength,
                chroma,
                params,
            );
            after.len() == plane.len() && after[place] == plane[place]
        }),
    decreases length,
{
    if strength != 0 && length > 0 {
        assert forall|line: int, k: int|
            0 <= line < length - 1 && -3 <= k <= 2 implies place != #[trigger] spot(
            first,
            along,
            step,
            line,
            k,
        ) by {}
        law_edge_keeps(
            plane,
            place,
            first,
            along,
            step,
            length - 1,
            qp,
            strength,
            chroma,
            params,
        );
        let earlier = edge_filtered(
            plane,
            first,
            along,
            step,
            length - 1,
            qp,
            strength,
            chroma,
            params,
        );
        let start = first + (length - 1) * along;
        assert forall|k: int| -3 <= k <= 2 implies 0 <= #[trigger] spot(start, 0, step, 0, k)
            < earlier.len() && place != spot(start, 0, step, 0, k) by {
            assert(spot(start, 0, step, 0, k) == spot(first, along, step, length - 1, k));
        }
        lemma_line_keeps(earlier, place, start, step, qp, strength, chroma, params);
    }
}

proof fn lemma_same_place(row: int, column: int, other_row: int, other_column: int, stride: int)
    requires
        0 <= column < stride,
        0 <= other_column < stride,
        row * stride + column == other_row * stride + other_column,
    ensures
        row == other_row,
        column == other_column,
{
    vstd::arithmetic::div_mod::lemma_fundamental_div_mod_converse(
        row * stride + column,
        stride,
        row,
        column,
    );
    vstd::arithmetic::div_mod::lemma_fundamental_div_mod_converse(
        other_row * stride + other_column,
        stride,
        other_row,
        other_column,
    );
}

/// Filtering an upright edge of a macroblock, four columns after the one before it, changes no sample
/// but those in its rows that are at most three columns away from it.
pub proof fn law_upright_edge_keeps(
    plane: Seq<u8>,
    stride: int,
    map: MacroblockMap,
    address: int,
    chroma: Option<i32>,
    params: Parameters,
    edge: int,
    count: int,
    column: int,
    row: int,
    x: int,
    y: int,
    high: int,
)
    requires
        0 <= count <= 4,
        0 <= edge < 4,
        x == address % map.wide * (if chroma is Some {
            8int
        } else {
            16int
        }),
        y == address / map.wide * (if chroma is Some {
            8int
        } else {
            16int
        }),
        3 <= x + 4 * edge,
        x + 4 * edge + 2 < stride,
        0 <= y,
        y + (if chroma is Some {
            8int
        } else {
            16int
        }) <= high,
        0 <= column < stride,
        0 <= row < high,
        high * stride <= plane.len(),
        !({
            &&& y <= row < y + (if chroma is Some {
                8int
            } else {
                16int
            })
            &&& x + 4 * edge - 3 <= column <= x + 4 * edge + 2
        }),
    ensures
        ({
            let after = segments_filtered(
                plane,
                stride,
                map,
                address,
                chroma,
                params,
                true,
                edge,
                count,
            );
            after.len() == plane.len() && after[row * stride + column] == plane[row * stride
                + column]
        }),
    decreases count,
{
    let size: int = if chroma is Some {
        8
    } else {
        16
    };
    let place = row * stride + column;
    assert(0 <= place < plane.len()) by (nonlinear_arith)
        requires
            place == row * stride + column,
            0 <= column < stride,
            0 <= row < high,
            high * stride <= plane.len(),
    ;
    if count > 0 {
        law_upright_edge_keeps(
            plane,
            stride,
            map,
            address,
            chroma,
            params,
            edge,
            count - 1,
            column,
            row,
            x,
            y,
            high,
        );
        let earlier = segments_filtered(
            plane,
            stride,
            map,
            address,
            chroma,
            params,
            true,
            edge,
            count - 1,
        );
        let length = size / 4;
        assert(size == 4 * length && length >= 2);
        assert(0 <= (count - 1) * length && (count - 1) * length + length <= size)
            by (nonlinear_arith)
            requires
                1 <= count <= 4,
                size == 4 * length,
                length >= 2,
        ;
        let top = y + (count - 1) * length;
        let left = x + edge * 4;
        let first = top * stride + left;
        assert forall|line: int, k: int| 0 <= line < length && -3 <= k <= 2 implies 0
            <= #[trigger] spot(first, stride, 1, line, k) < plane.len() && place != spot(
            first,
            stride,
            1,
            line,
            k,
        ) by {
            let other_row = top + line;
            let other_column = left + k;
            assert(first + line * stride + k * 1 == other_row * stride + other_column)
                by (nonlinear_arith)
                requires
                    first == top * stride + left,
                    other_row == top + line,
                    other_column == left + k,
            ;
            assert(0 <= other_row < high);
            assert(0 <= other_row * stride + other_column < plane.len()) by (nonlinear_arith)
                requires
                    0 <= other_column < stride,
                    0 <= other_row < high,
                    high * stride <= plane.len(),
            ;
            if place == other_row * stride + other_column {
                lemma_same_place(row, column, other_row, other_column, stride);
            }
        }
        assert(!beside(place, first, stride, 1, length));
        let strength_edge = if chroma is Some {
            edge * 2
        } else {
            edge
        };
        law_edge_keeps(
            earlier,
            place,
            first,
            stride,
            1,
            length,
            crate::deblock::edge_qp(map, far_side(map, address, true, edge), address, chroma),
            segment_strength(map, address, true, strength_edge, count - 1),
            chroma is Some,
            params,
        );
    }
}

/// Filtering a level edge of a macroblock, four rows after the one before it, changes no sample but
/// those in its columns that are at most three rows away from it.
pub proof fn law_level_edge_keeps(
    plane: Seq<u8>,
    stride: int,
    map: MacroblockMap,
    address: int,
    chroma: Option<i32>,
    params: Parameters,
    edge: int,
    count: int,
    column: int,
    row: int,
    x: int,
    y: int,
    high: int,
)
    requires
        0 <= count <= 4,
        0 <= edge < 4,
        x == address % map.wide * (if chroma is Some {
            8int
        } else {
            16int
        }),
        y == address / map.wide * (if chroma is Some {
            8int
        } else {
            16int
        }),
        0 <= x,
        x + (if chroma is Some {
            8int
        } else {
            16int
        }) <= stride,
        3 <= y + 4 * edge,
        y + 4 * edge + 2 < high,
        0 <= column < stride,
        0 <= row < high,
        high * stride <= plane.len(),
        !({
            &&& x <= column < x + (if chroma is Some {
                8int
            } else {
                16int
            })
            &&& y + 4 * edge - 3 <= row <= y + 4 * edge + 2
        }),
    ensures
        ({
            let after = segments_filtered(
                plane,
                stride,
                map,
                address,
                chroma,
                params,
                false,
                edge,
                count,
            );
            after.len() == plane.len() && after[row * stride + column] == plane[row * stride
                + column]
        }),
    decreases count,
{
    let size: int = if chroma is Some {
        8
    } else {
        16
    };
    let place = row * stride + column;
    assert(0 <= place < plane.len()) by (nonlinear_arith)
        requires
            place == row * stride + column,
            0 <= column < stride,
            0 <= row < high,
            high * stride <= plane.len(),
    ;
    if count > 0 {
        law_level_edge_keeps(
            plane,
            stride,
            map,
            address,
            chroma,
            params,
            edge,
            count - 1,
            column,
            row,
            x,
            y,
            high,
        );
        let earlier = segments_filtered(
            plane,
            stride,
            map,
            address,
            chroma,
            params,
            false,
            edge,
            count - 1,
        );
        let length = size / 4;
        assert(size == 4 * length && length >= 2);
        assert(0 <= (count - 1) * length && (count - 1) * length + length <= size)
            by (nonlinear_arith)
            requires
                1 <= count <= 4,
                size == 4 * length,
                length >= 2,
        ;
        let top = y + edge * 4;
        let left = x + (count - 1) * length;
        let first = top * stride + left;
        assert forall|line: int, k: int| 0 <= line < length && -3 <= k <= 2 implies 0
            <= #[trigger] spot(first, 1, stride, line, k) < plane.len() && place != spot(
            first,
            1,
            stride,
            line,
            k,
        ) by {
            let other_row = top + k;
            let other_column = left + line;
            assert(first + line * 1 + k * stride == other_row * stride + other_column)
                by (nonlinear_arith)
                requires
                    first == top * stride + left,
                    other_row == top + k,
                    other_column == left + line,
            ;
            assert(0 <= other_column < stride);
            assert(0 <= other_row * stride + other_column < plane.len()) by (nonlinear_arith)
                requires
                    0 <= other_column < stride,
                    0 <= other_row < high,
                    high * stride <= plane.len(),
            ;
            if place == other_row * stride + other_column {
                lemma_same_place(row, column, other_row, other_column, stride);
            }
        }
        assert(!beside(place, first, 1, stride, length));
        let strength_edge = if chroma is Some {
            edge * 2
        } else {
            edge
        };
        law_edge_keeps(
            earlier,
            place,
            first,
            1,
            stride,
            length,
            crate::deblock::edge_qp(map, far_side(map, address, false, edge), address, chroma),
            segment_strength(map, address, false, strength_edge, count - 1),
            chroma is Some,
            params,
        );
    }
}

/// A picture is filtered macroblock by macroblock, where the filter is on; of a macroblock first the
/// upright edges are filtered, from left to right, and then the level ones, from top to bottom: four
/// of them in luma, and two in chroma.
pub proof fn law_macroblocks_in_turn(
    plane: Seq<u8>,
    stride: int,
    map: MacroblockMap,
    chroma: Option<i32>,
    address: int,
)
    requires
        0 <= address,
    ensures
        ({
            let before = plane_filtered(plane, stride, map, chroma, address);
            let after = plane_filtered(plane, stride, map, chroma, address + 1);
            let edges: int = if chroma is Some {
                2
            } else {
                4
            };
            match map.parameters[address].parameters {
                None => after == before,
                Some(params) => after == edges_filtered(
                    edges_filtered(before, stride, map, address, chroma, params, true, edges),
                    stride,
                    map,
                    address,
                    chroma,
                    params,
                    false,
                    edges,
                ),
            }
        }),
        plane_filtered(plane, stride, map, chroma, 0) == plane,
{
}

/// Each open edge is filtered in four pieces, one after the other, but for every other luma edge of
/// large blocks.
pub proof fn law_edges_in_turn(
    plane: Seq<u8>,
    stride: int,
    map: MacroblockMap,
    address: int,
    chroma: Option<i32>,
    params: Parameters,
    vertical: bool,
    edge: int,
)
    requires
        0 <= edge,
        edge_open(map, address, vertical, edge),
        chroma is Some || !map.transform_8x8[address] || edge % 2 == 0,
    ensures
        edges_filtered(plane, stride, map, address, chroma, params, vertical, edge + 1)
            == segments_filtered(
            edges_filtered(plane, stride, map, address, chroma, params, vertical, edge),
            stride,
            map,
            address,
            chroma,
            params,
            vertical,
            edge,
            4,
        ),
        edges_filtered(plane, stride, map, address, chroma, params, vertical, 0) == plane,
{
}

/// A piece of an edge is a quarter of it: four lines in luma, two in chroma, across the edge that
/// starts four samples after the one before it.
pub proof fn law_pieces_in_turn(
    plane: Seq<u8>,
    stride: int,
    map: MacroblockMap,
    address: int,
    chroma: Option<i32>,
    params: Parameters,
    edge: int,
    piece: int,
)
    requires
        0 <= piece,
    ensures
        ({
            let size: int = if chroma is Some {
                8
            } else {
                16
            };
            let length: int = if chroma is Some {
                2
            } else {
                4
            };
            let luma_edge: int = if chroma is Some {
                2 * edge
            } else {
                edge
            };
            let x = size * (address % map.wide);
            let y = size * (address / map.wide);
            let after = |vertical: bool, count: int|
                segments_filtered(
                    plane,
                    stride,
                    map,
                    address,
                    chroma,
                    params,
                    vertical,
                    edge,
                    count,
                );
            &&& after(true, piece + 1) == edge_filtered(
                after(true, piece),
                (y + length * piece) * stride + x + 4 * edge,
                stride,
                1,
                length,
                crate::deblock::edge_qp(map, far_side(map, address, true, edge), address, chroma),
                segment_strength(map, address, true, luma_edge, piece),
                chroma is Some,
                params,
            )
            &&& after(false, piece + 1) == edge_filtered(
                after(false, piece),
                (y + 4 * edge) * stride + x + length * piece,
                1,
                stride,
                length,
                crate::deblock::edge_qp(map, far_side(map, address, false, edge), address, chroma),
                segment_strength(map, address, false, luma_edge, piece),
                chroma is Some,
                params,
            )
            &&& after(true, 0) == plane && after(false, 0) == plane
        }),
{
    let size: int = if chroma is Some {
        8
    } else {
        16
    };
    let length: int = if chroma is Some {
        2
    } else {
        4
    };
    assert(size / 4 == length);
    assert(length * piece == piece * length && size * (address % map.wide) == (address % map.wide)
        * size && size * (address / map.wide) == (address / map.wide) * size) by (nonlinear_arith);
    let x = size * (address % map.wide);
    let y = size * (address / map.wide);
    assert((y + length * piece) * stride + (x + edge * 4) == (y + length * piece) * stride + x + 4
        * edge);
    assert((y + edge * 4) * stride + (x + piece * length) == (y + 4 * edge) * stride + x + length
        * piece);
}

/// The lines of a piece are filtered one after the other, each with the four samples before the edge,
/// counted from it, and the four behind it.
pub proof fn law_lines_in_turn(
    plane: Seq<u8>,
    first: int,
    along: int,
    step: int,
    line: int,
    qp: int,
    strength: int,
    chroma: bool,
    params: Parameters,
)
    requires
        0 <= line,
        1 <= strength,
    ensures
        ({
            let after = |count: int|
                edge_filtered(
                    plane,
                    first,
                    along,
                    step,
                    count,
                    qp,
                    strength,
                    chroma,
                    params,
                );
            let start = first + line * along;
            &&& after(line + 1) == line_filtered(
                after(line),
                seq![start - step, start - 2 * step, start - 3 * step, start - 4 * step],
                seq![start, start + step, start + 2 * step, start + 3 * step],
                qp,
                strength,
                chroma,
                params,
            )
            &&& after(0) == plane
        }),
{
    let start = first + line * along;
    assert(places_from(start - step, -step) =~= seq![
        start - step,
        start - 2 * step,
        start - 3 * step,
        start - 4 * step,
    ]);
}

} // verus!
