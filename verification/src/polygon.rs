//! Scan-line polygon rasterization with even-odd fill.
//!
//! The outline is the closed chain of lines between consecutive vertices.
//! The fill walks every row between the polygon's top and bottom, collects
//! the rational x-intersections of the row with every edge that straddles
//! it, keeps them sorted, and paints the spans between alternating pairs.

use crate::color::Color;
use crate::coord::Coord;
use crate::coord::trunc_div;
use crate::drawing::Graphics;
use crate::drawing::gfx_wf;
use crate::drawing::line_seq;
use crate::drawing::paint;
use crate::drawing::row_pts;
use crate::drawing::lemma_paint_config;
use crate::shapes::DrawType;
use vstd::prelude::*;

verus! {

/// A rational x-coordinate `num / den` with a positive denominator.
pub open spec fn node_le(a: (int, int), b: (int, int)) -> bool {
    a.0 * b.1 <= b.0 * a.1
}

/// Insert a rational into a sorted node list, before the first node it is
/// not greater than.
pub open spec fn insert_sorted(nodes: Seq<(int, int)>, v: (int, int)) -> Seq<(int, int)>
    decreases nodes.len(),
{
    if nodes.len() == 0 {
        seq![v]
    } else if node_le(v, nodes[0]) {
        seq![v] + nodes
    } else {
        seq![nodes[0]] + insert_sorted(nodes.drop_first(), v)
    }
}

/// The rational intersection of row `y` with the edge from vertex `i` to
/// its predecessor, when the edge straddles the row.
pub open spec fn edge_node(pts: Seq<Coord>, y: int, i: int) -> Option<(int, int)> {
    let j = if i == 0 {
        pts.len() - 1
    } else {
        i - 1
    };
    let pi = pts[i];
    let pj = pts[j];
    if (pi.y < y && pj.y >= y) || (pj.y < y && pi.y >= y) {
        let den = pj.y - pi.y;
        let num = pi.x * den + (y - pi.y) * (pj.x - pi.x);
        if den > 0 {
            Option::Some((num, den))
        } else {
            Option::Some((-num, -den))
        }
    } else {
        Option::None
    }
}

/// The sorted intersections of row `y`, collected edge by edge from
/// vertex `i` into the accumulator.
pub open spec fn row_nodes_acc(pts: Seq<Coord>, y: int, i: int, acc: Seq<(int, int)>) -> Seq<
    (int, int),
>
    decreases pts.len() - i,
    when 0 <= i <= pts.len()
{
    if i >= pts.len() {
        acc
    } else {
        let acc2 = match edge_node(pts, y, i) {
            Option::Some(v) => insert_sorted(acc, v),
            Option::None => acc,
        };
        row_nodes_acc(pts, y, i + 1, acc2)
    }
}

/// The buffer after painting the alternating spans of a sorted node list,
/// taking pairs from index `k`: each span covers the columns strictly
/// after the first node's integer part up to the second node's.
pub open spec fn spans_buf(
    g: Graphics,
    buf: Seq<u8>,
    nodes: Seq<(int, int)>,
    k: int,
    y: int,
    color: Color,
) -> Seq<u8>
    decreases nodes.len() - k,
    when k >= 0
{
    if k + 1 >= nodes.len() {
        buf
    } else {
        let a = trunc_div(nodes[k].0, nodes[k].1);
        let b0 = trunc_div(nodes[k + 1].0, nodes[k + 1].1);
        let b = if b0 < a {
            a
        } else {
            b0
        };
        spans_buf(g, paint(g, buf, row_pts(y, a + 1, b), color), nodes, k + 2, y, color)
    }
}

/// The buffer after filling every row from `y` up to `yend`.
pub open spec fn poly_fill_buf(
    g: Graphics,
    buf: Seq<u8>,
    pts: Seq<Coord>,
    y: int,
    yend: int,
    color: Color,
) -> Seq<u8>
    decreases yend - y,
    when y <= yend
{
    if y >= yend {
        buf
    } else {
        poly_fill_buf(
            g,
            spans_buf(g, buf, row_nodes_acc(pts, y, 0, Seq::empty()), 0, y, color),
            pts,
            y + 1,
            yend,
            color,
        )
    }
}

/// The buffer after drawing the closed outline from edge `i` on: the line
/// from each vertex to the next, then from the last back to the first.
pub open spec fn poly_outline_buf(
    g: Graphics,
    buf: Seq<u8>,
    pts: Seq<Coord>,
    i: int,
    color: Color,
) -> Seq<u8>
    decreases pts.len() - i,
    when 0 <= i && pts.len() >= 1
{
    if i >= pts.len() - 1 {
        paint(g, buf, line_seq(pts[pts.len() - 1], pts[0]), color)
    } else {
        poly_outline_buf(g, paint(g, buf, line_seq(pts[i], pts[i + 1]), color), pts, i + 1, color)
    }
}

/// The smallest vertex row.
pub open spec fn min_y(pts: Seq<Coord>) -> int
    decreases pts.len(),
{
    if pts.len() == 0 {
        0
    } else if pts.len() == 1 {
        pts[0].y as int
    } else {
        let rest = min_y(pts.drop_first());
        if pts[0].y < rest {
            pts[0].y as int
        } else {
            rest
        }
    }
}

/// The largest vertex row.
pub open spec fn max_y(pts: Seq<Coord>) -> int
    decreases pts.len(),
{
    if pts.len() == 0 {
        0
    } else if pts.len() == 1 {
        pts[0].y as int
    } else {
        let rest = max_y(pts.drop_first());
        if pts[0].y > rest {
            pts[0].y as int
        } else {
            rest
        }
    }
}

/// All vertices within the coordinate range the scan-line arithmetic
/// supports.
pub open spec fn poly_coords_bounded(pts: Seq<Coord>) -> bool {
    forall|i: int|
        0 <= i < pts.len() ==> -0x4000_0000 <= (#[trigger] pts[i]).x <= 0x4000_0000
            && -0x4000_0000 <= pts[i].y <= 0x4000_0000
}

fn trunc_div_exec(n: i128, d: i128) -> (r: i128)
    requires
        d > 0,
        -0x1_0000_0000_0000_0000_0000_0000_0000 <= n <= 0x1_0000_0000_0000_0000_0000_0000_0000,
    ensures
        r == trunc_div(n as int, d as int),
{
    if n >= 0 {
        n / d
    } else {
        -((-n) / d)
    }
}

/// Draw a polygon over the given vertices: the closed outline always, and
/// for a fill additionally every even-odd interior span, row by row.
pub fn polygon_draw(graphics: &mut Graphics, points: &Vec<Coord>, draw_type: DrawType)
    requires
        gfx_wf(*old(graphics)),
        points@.len() >= 1,
        poly_coords_bounded(points@),
    ensures
        gfx_wf(*final(graphics)),
        *final(graphics) == (Graphics { buffer: final(graphics).buffer, ..*old(graphics) }),
        final(graphics).buffer@ == (if draw_type is Fill {
            poly_fill_buf(
                *old(graphics),
                poly_outline_buf(
                    *old(graphics),
                    old(graphics).buffer@,
                    points@,
                    0,
                    draw_type.spec_color(),
                ),
                points@,
                min_y(points@),
                max_y(points@),
                draw_type.spec_color(),
            )
        } else {
            poly_outline_buf(
                *old(graphics),
                old(graphics).buffer@,
                points@,
                0,
                draw_type.spec_color(),
            )
        }),
{
    let color = draw_type.color();
    let n = points.len();
    let mut i: usize = 0;
    while i < n - 1
        invariant
            n == points@.len(),
            n >= 1,
            i <= n - 1,
            color == draw_type.spec_color(),
            poly_coords_bounded(points@),
            gfx_wf(*graphics),
            *graphics == (Graphics { buffer: graphics.buffer, ..*old(graphics) }),
            poly_outline_buf(
                *old(graphics),
                old(graphics).buffer@,
                points@,
                0,
                draw_type.spec_color(),
            ) == poly_outline_buf(
                *old(graphics),
                graphics.buffer@,
                points@,
                i as int,
                draw_type.spec_color(),
            ),
        decreases n - i,
    {
        let ghost pre = *graphics;
        graphics.draw_line(points[i], points[i + 1], color);
        proof {
            lemma_paint_config(
                *old(graphics),
                pre,
                pre.buffer@,
                line_seq(points@[i as int], points@[i as int + 1]),
                color,
            );
            assert(graphics.buffer@ == paint(
                *old(graphics),
                pre.buffer@,
                line_seq(points@[i as int], points@[i as int + 1]),
                draw_type.spec_color(),
            ));
            assert(poly_outline_buf(
                *old(graphics),
                pre.buffer@,
                points@,
                i as int,
                draw_type.spec_color(),
            ) == poly_outline_buf(
                *old(graphics),
                graphics.buffer@,
                points@,
                i as int + 1,
                draw_type.spec_color(),
            ));
        }
        i += 1;
    }
    let ghost pre = *graphics;
    graphics.draw_line(points[n - 1], points[0], color);
    proof {
        lemma_paint_config(
            *old(graphics),
            pre,
            pre.buffer@,
            line_seq(points@[n - 1], points@[0]),
            color,
        );
    }
    let is_fill = match draw_type {
        DrawType::Fill(_) => true,
        DrawType::Stroke(_) => false,
    };
    if !is_fill {
        return ;
    }
    let ghost outlined = graphics.buffer@;
    // row range
    let mut top: isize = points[0].y;
    let mut bottom: isize = points[0].y;
    let mut k: usize = 1;
    while k < n
        invariant
            1 <= k <= n,
            n == points@.len(),
            poly_coords_bounded(points@),
            top as int == min_y(points@.take(k as int)),
            bottom as int == max_y(points@.take(k as int)),
            -0x4000_0000 <= top <= 0x4000_0000,
            -0x4000_0000 <= bottom <= 0x4000_0000,
        decreases n - k,
    {
        proof {
            lemma_min_max_y_snoc(points@, k as int);
        }
        if points[k].y < top {
            top = points[k].y;
        }
        if points[k].y > bottom {
            bottom = points[k].y;
        }
        k += 1;
    }
    proof {
        assert(points@.take(n as int) =~= points@);
    }
    let ghost fill_start = graphics.buffer@;
    let mut y: isize = top;
    while y < bottom
        invariant
            top <= y,
            y <= bottom || y == top,
            bottom as int == max_y(points@),
            -0x4000_0000 <= y <= 0x4000_0000,
            -0x4000_0000 <= bottom <= 0x4000_0000,
            n == points@.len(),
            n >= 1,
            color == draw_type.spec_color(),
            poly_coords_bounded(points@),
            gfx_wf(*graphics),
            *graphics == (Graphics { buffer: graphics.buffer, ..*old(graphics) }),
            poly_fill_buf(
                *old(graphics),
                fill_start,
                points@,
                top as int,
                bottom as int,
                draw_type.spec_color(),
            ) == poly_fill_buf(
                *old(graphics),
                graphics.buffer@,
                points@,
                y as int,
                bottom as int,
                draw_type.spec_color(),
            ),
        decreases bottom - y,
    {
        // collect the sorted intersections of this row
        let mut nodes: Vec<(i128, i128)> = Vec::new();
        proof {
            assert(node_pairs(nodes@) =~= row_nodes_acc_partial(points@, y as int, 0));
        }
        let mut e: usize = 0;
        while e < n
            invariant
                e <= n,
                n == points@.len(),
                n >= 1,
                poly_coords_bounded(points@),
                -0x4000_0000 <= y <= 0x4000_0000,
                node_pairs(nodes@) == row_nodes_acc_partial(points@, y as int, e as int),
                forall|t: int|
                    0 <= t < nodes@.len() ==> (#[trigger] nodes@[t]).1 > 0 && in_node_range(
                        nodes@[t].0 as int,
                    ) && 0 < nodes@[t].1 <= 0x1_0000_0000,
            decreases n - e,
        {
            let j = if e == 0 {
                n - 1
            } else {
                e - 1
            };
            let pi = points[e];
            let pj = points[j];
            if (pi.y < y && pj.y >= y) || (pj.y < y && pi.y >= y) {
                let den: i128 = pj.y as i128 - pi.y as i128;
                proof {
                    assert(-0x8000_0000_0000_0000 <= (pi.x as int) * (den as int) + ((y as int)
                        - pi.y) * (pj.x - pi.x) <= 0x8000_0000_0000_0000 && (pi.x as int) * (
                    den as int) + ((y as int) - pi.y) * (pj.x - pi.x) == -((-(pi.x as int)) * (
                    den as int) - ((y as int) - pi.y) * (pj.x - pi.x)) && -0x4_0000_0000_0000_0000
                        <= (pi.x as int) * (den as int) <= 0x4_0000_0000_0000_0000
                        && -0x4_0000_0000_0000_0000 <= ((y as int) - pi.y) * (pj.x - pi.x)
                        <= 0x4_0000_0000_0000_0000) by (nonlinear_arith)
                        requires
                            -0x4000_0000 <= pi.x <= 0x4000_0000 && -0x4000_0000 <= pi.y
                                <= 0x4000_0000 && -0x4000_0000 <= pj.x <= 0x4000_0000
                                && -0x4000_0000 <= pj.y <= 0x4000_0000 && -0x4000_0000 <= y
                                <= 0x4000_0000 && den == pj.y - pi.y,
                    ;
                }
                let num: i128 = pi.x as i128 * den + (y as i128 - pi.y as i128) * (pj.x as i128
                    - pi.x as i128);
                let v: (i128, i128) = if den > 0 {
                    (num, den)
                } else {
                    (-num, -den)
                };
                // insert into the sorted list
                let mut pos: usize = 0;
                while pos < nodes.len() && node_less(nodes[pos], v)
                    invariant
                        pos <= nodes@.len(),
                        v.1 > 0,
                        forall|t: int|
                            0 <= t < nodes@.len() ==> (#[trigger] nodes@[t]).1 > 0
                                && in_node_range(nodes@[t].0 as int) && 0 < nodes@[t].1
                                <= 0x1_0000_0000,
                        in_node_range(v.0 as int),
                        0 < v.1 <= 0x1_0000_0000,
                        forall|t: int|
                            0 <= t < pos ==> !node_le(
                                (v.0 as int, v.1 as int),
                                ((#[trigger] nodes@[t]).0 as int, nodes@[t].1 as int),
                            ),
                    decreases nodes@.len() - pos,
                {
                    pos += 1;
                }
                let ghost prenodes = nodes@;
                nodes.insert(pos, v);
                proof {
                    lemma_insert_sorted_at(
                        node_pairs(prenodes),
                        (v.0 as int, v.1 as int),
                        pos as int,
                    );
                    assert(node_pairs(nodes@) =~= node_pairs(prenodes).insert(
                        pos as int,
                        (v.0 as int, v.1 as int),
                    ));
                    lemma_row_nodes_acc_step(points@, y as int, e as int);
                }
            } else {
                proof {
                    lemma_row_nodes_acc_step(points@, y as int, e as int);
                }
            }
            e += 1;
        }
        proof {
            lemma_row_nodes_partial_full(points@, y as int, 0, Seq::empty());
        }
        // paint the alternating spans
        let ghost rownodes = node_pairs(nodes@);
        let ghost row_start = graphics.buffer@;
        let cnt = nodes.len();
        let mut s: usize = 0;
        while cnt >= 2 && s < cnt - 1
            invariant
                cnt == nodes@.len(),
                s <= nodes@.len() + 1,
                color == draw_type.spec_color(),
                rownodes == node_pairs(nodes@),
                forall|t: int|
                    0 <= t < nodes@.len() ==> (#[trigger] nodes@[t]).1 > 0 && in_node_range(
                        nodes@[t].0 as int,
                    ) && 0 < nodes@[t].1 <= 0x1_0000_0000,
                gfx_wf(*graphics),
                *graphics == (Graphics { buffer: graphics.buffer, ..*old(graphics) }),
                spans_buf(
                    *old(graphics),
                    row_start,
                    rownodes,
                    0,
                    y as int,
                    draw_type.spec_color(),
                ) == spans_buf(
                    *old(graphics),
                    graphics.buffer@,
                    rownodes,
                    s as int,
                    y as int,
                    draw_type.spec_color(),
                ),
            decreases nodes@.len() - s,
        {
            let a = trunc_div_exec(nodes[s].0, nodes[s].1);
            let b0 = trunc_div_exec(nodes[s + 1].0, nodes[s + 1].1);
            let b = if b0 < a {
                a
            } else {
                b0
            };
            proof {
                assert(rownodes[s as int] == (nodes@[s as int].0 as int, nodes@[s as int].1 as int));
                assert(rownodes[s as int + 1] == (nodes@[s as int + 1].0 as int, nodes@[
                    s as int + 1].1 as int));
            }
            let ghost pre2 = *graphics;
            fill_row_wide(graphics, a + 1, b, y, color);
            proof {
                lemma_paint_config(
                    *old(graphics),
                    pre2,
                    pre2.buffer@,
                    row_pts(y as int, a as int + 1, b as int),
                    color,
                );
                assert(graphics.buffer@ == paint(
                    *old(graphics),
                    pre2.buffer@,
                    row_pts(y as int, a as int + 1, b as int),
                    draw_type.spec_color(),
                ));
                assert(spans_buf(
                    *old(graphics),
                    pre2.buffer@,
                    rownodes,
                    s as int,
                    y as int,
                    draw_type.spec_color(),
                ) == spans_buf(
                    *old(graphics),
                    graphics.buffer@,
                    rownodes,
                    s as int + 2,
                    y as int,
                    draw_type.spec_color(),
                ));
            }
            s += 2;
        }
        proof {
            assert(spans_buf(
                *old(graphics),
                graphics.buffer@,
                rownodes,
                s as int,
                y as int,
                draw_type.spec_color(),
            ) == graphics.buffer@);
        }
        y += 1;
    }
}

/// The node list collected after the first `e` edges, as mathematical
/// pairs.
pub open spec fn row_nodes_acc_partial(pts: Seq<Coord>, y: int, e: int) -> Seq<(int, int)>
    decreases e,
    when e >= 0
{
    if e <= 0 {
        Seq::empty()
    } else {
        match edge_node(pts, y, e - 1) {
            Option::Some(v) => insert_sorted(row_nodes_acc_partial(pts, y, e - 1), v),
            Option::None => row_nodes_acc_partial(pts, y, e - 1),
        }
    }
}

/// One edge extends the partial node list as the edge dictates.
proof fn lemma_row_nodes_acc_step(pts: Seq<Coord>, y: int, e: int)
    requires
        0 <= e < pts.len(),
    ensures
        row_nodes_acc_partial(pts, y, e + 1) == (match edge_node(pts, y, e) {
            Option::Some(v) => insert_sorted(row_nodes_acc_partial(pts, y, e), v),
            Option::None => row_nodes_acc_partial(pts, y, e),
        }),
{
}

/// The fully collected partial list is the accumulator run from the
/// start.
proof fn lemma_row_nodes_partial_full(pts: Seq<Coord>, y: int, i: int, acc: Seq<(int, int)>)
    requires
        0 <= i <= pts.len(),
        acc == row_nodes_acc_partial(pts, y, i),
    ensures
        row_nodes_acc(pts, y, i, acc) == row_nodes_acc_partial(pts, y, pts.len() as int),
    decreases pts.len() - i,
{
    if i < pts.len() {
        lemma_row_nodes_acc_step(pts, y, i);
        match edge_node(pts, y, i) {
            Option::Some(v) => {
                lemma_row_nodes_partial_full(pts, y, i + 1, insert_sorted(acc, v));
            },
            Option::None => {
                lemma_row_nodes_partial_full(pts, y, i + 1, acc);
            },
        }
    }
}

/// The integer pairs a node vector denotes.
pub open spec fn node_pairs(s: Seq<(i128, i128)>) -> Seq<(int, int)> {
    Seq::new(s.len(), |t: int| (s[t].0 as int, s[t].1 as int))
}

/// Numerators stay within the range the comparisons support.
pub open spec fn in_node_range(n: int) -> bool {
    -0x8000_0000_0000_0000 <= n <= 0x8000_0000_0000_0000
}

fn node_less(a: (i128, i128), b: (i128, i128)) -> (r: bool)
    requires
        a.1 > 0,
        b.1 > 0,
        in_node_range(a.0 as int),
        in_node_range(b.0 as int),
        0 < a.1 <= 0x1_0000_0000,
        0 < b.1 <= 0x1_0000_0000,
    ensures
        r == !node_le((b.0 as int, b.1 as int), (a.0 as int, a.1 as int)),
{
    proof {
        assert(-0x8000_0000_0000_0000_0000_0000 <= (a.0 as int) * (b.1 as int)
            <= 0x8000_0000_0000_0000_0000_0000 && -0x8000_0000_0000_0000_0000_0000 <= (b.0 as int)
            * (a.1 as int) <= 0x8000_0000_0000_0000_0000_0000) by (nonlinear_arith)
            requires
                in_node_range(a.0 as int) && in_node_range(b.0 as int) && 0 < a.1 <= 0x1_0000_0000
                    && 0 < b.1 <= 0x1_0000_0000,
        ;
    }
    a.0 * b.1 < b.0 * a.1
}

/// Inserting before the first not-smaller node is the sorted insertion.
proof fn lemma_insert_sorted_at(nodes: Seq<(int, int)>, v: (int, int), pos: int)
    requires
        0 <= pos <= nodes.len(),
        forall|t: int| 0 <= t < pos ==> !node_le(v, #[trigger] nodes[t]),
        pos < nodes.len() ==> node_le(v, nodes[pos]),
    ensures
        insert_sorted(nodes, v) == nodes.insert(pos, v),
    decreases nodes.len(),
{
    if nodes.len() == 0 {
        assert(insert_sorted(nodes, v) =~= nodes.insert(0, v));
    } else if node_le(v, nodes[0]) {
        assert(pos == 0);
        assert(insert_sorted(nodes, v) =~= nodes.insert(0, v));
    } else {
        assert(pos >= 1);
        assert forall|t: int| 0 <= t < pos - 1 implies !node_le(v, #[trigger] nodes.drop_first()[t]) by {
            assert(nodes.drop_first()[t] == nodes[t + 1]);
        }
        assert(pos - 1 < nodes.drop_first().len() ==> node_le(v, nodes.drop_first()[pos - 1]));
        lemma_insert_sorted_at(nodes.drop_first(), v, pos - 1);
        assert(insert_sorted(nodes, v) =~= nodes.insert(pos, v));
    }
}

/// One more vertex extends the running vertical extent.
proof fn lemma_min_max_y_snoc(pts: Seq<Coord>, k: int)
    requires
        1 <= k < pts.len(),
    ensures
        min_y(pts.take(k + 1)) == (if pts[k].y < min_y(pts.take(k)) {
            pts[k].y as int
        } else {
            min_y(pts.take(k))
        }),
        max_y(pts.take(k + 1)) == (if pts[k].y > max_y(pts.take(k)) {
            pts[k].y as int
        } else {
            max_y(pts.take(k))
        }),
    decreases k,
{
    if k == 1 {
        assert(pts.take(2)[0] == pts[0]);
        assert(pts.take(2).drop_first() =~= seq![pts[1]]);
        assert(pts.take(1) =~= seq![pts[0]]);
        assert(min_y(seq![pts[1]]) == pts[1].y as int);
        assert(max_y(seq![pts[1]]) == pts[1].y as int);
        assert(min_y(pts.take(1)) == pts[0].y as int);
        assert(max_y(pts.take(1)) == pts[0].y as int);
        assert(pts.take(2).len() == 2);
    } else {
        lemma_min_max_y_snoc(pts.drop_first(), k - 1);
        assert(pts.take(k + 1)[0] == pts[0]);
        assert(pts.take(k)[0] == pts[0]);
        assert(pts.take(k + 1).drop_first() =~= pts.drop_first().take(k));
        assert(pts.take(k).drop_first() =~= pts.drop_first().take(k - 1));
        assert(pts.drop_first()[k - 1] == pts[k]);
    }
}

/// Paint one horizontal run through the pipeline, at wide coordinates.
fn fill_row_wide(graphics: &mut Graphics, x0: i128, x1: i128, y: isize, color: Color)
    requires
        gfx_wf(*old(graphics)),
        x0 <= x1 + 1,
        -0x8000_0000_0000_0000_0000_0000_0000 <= x0 <= 0x8000_0000_0000_0000_0000_0000_0000,
        -0x8000_0000_0000_0000_0000_0000_0000 <= x1 <= 0x8000_0000_0000_0000_0000_0000_0000,
    ensures
        gfx_wf(*final(graphics)),
        *final(graphics) == (Graphics { buffer: final(graphics).buffer, ..*old(graphics) }),
        final(graphics).buffer@ == paint(
            *old(graphics),
            old(graphics).buffer@,
            row_pts(y as int, x0 as int, x1 as int),
            color,
        ),
{
    let mut x = x0;
    while x <= x1
        invariant
            x0 <= x,
            x <= x1 + 1 || x == x0,
            -0x8000_0000_0000_0000_0000_0000_0000 <= x0,
            x1 <= 0x8000_0000_0000_0000_0000_0000_0000,
            gfx_wf(*graphics),
            *graphics == (Graphics { buffer: graphics.buffer, ..*old(graphics) }),
            paint(*old(graphics), old(graphics).buffer@, row_pts(y as int, x0 as int, x1 as int), color)
                == paint(
                *old(graphics),
                graphics.buffer@,
                row_pts(y as int, x as int, x1 as int),
                color,
            ),
        decreases x1 + 1 - x,
    {
        let ghost pre = *graphics;
        graphics.update_pixel_wide(x, y as i128, color);
        proof {
            let rest = row_pts(y as int, x as int, x1 as int);
            assert(rest.len() > 0);
            assert(rest[0] == (x as int, y as int));
            assert(rest.drop_first() =~= row_pts(y as int, x as int + 1, x1 as int));
            crate::drawing::lemma_upd_buf_config(
                *old(graphics),
                pre,
                pre.buffer@,
                x as int,
                y as int,
                color,
            );
        }
        x = x + 1;
    }
    proof {
        assert(row_pts(y as int, x as int, x1 as int).len() == 0);
    }
}

/// Draw a triangle: its closed outline, and for a fill the even-odd
/// interior spans by the same scan-line rule as any other polygon.
///
/// Interiors match a flat-top/flat-bottom split of the triangle; only
/// pixels right on an edge can differ from such a split, which steps
/// the two edge slopes instead of intersecting each row exactly.
pub fn triangle_draw(graphics: &mut Graphics, points: [Coord; 3], draw_type: DrawType)
    requires
        gfx_wf(*old(graphics)),
        poly_coords_bounded(points@),
    ensures
        gfx_wf(*final(graphics)),
        *final(graphics) == (Graphics { buffer: final(graphics).buffer, ..*old(graphics) }),
        final(graphics).buffer@ == (if draw_type is Fill {
            poly_fill_buf(
                *old(graphics),
                poly_outline_buf(
                    *old(graphics),
                    old(graphics).buffer@,
                    points@,
                    0,
                    draw_type.spec_color(),
                ),
                points@,
                min_y(points@),
                max_y(points@),
                draw_type.spec_color(),
            )
        } else {
            poly_outline_buf(
                *old(graphics),
                old(graphics).buffer@,
                points@,
                0,
                draw_type.spec_color(),
            )
        }),
{
    let mut pts: Vec<Coord> = Vec::new();
    pts.push(points[0]);
    pts.push(points[1]);
    pts.push(points[2]);
    proof {
        assert(pts@ =~= points@);
    }
    polygon_draw(graphics, &pts, draw_type)
}

impl Graphics {
    /// Draw a polygon shape.
    pub fn draw_polygon(&mut self, points: &Vec<Coord>, draw_type: DrawType)
        requires
            gfx_wf(*old(self)),
            points@.len() >= 1,
            poly_coords_bounded(points@),
        ensures
            gfx_wf(*final(self)),
            *final(self) == (Graphics { buffer: final(self).buffer, ..*old(self) }),
            final(self).buffer@ == (if draw_type is Fill {
                poly_fill_buf(
                    *old(self),
                    poly_outline_buf(
                        *old(self),
                        old(self).buffer@,
                        points@,
                        0,
                        draw_type.spec_color(),
                    ),
                    points@,
                    min_y(points@),
                    max_y(points@),
                    draw_type.spec_color(),
                )
            } else {
                poly_outline_buf(
                    *old(self),
                    old(self).buffer@,
                    points@,
                    0,
                    draw_type.spec_color(),
                )
            }),
    {
        polygon_draw(self, points, draw_type)
    }

    /// Draw a triangle shape.
    pub fn draw_triangle(&mut self, points: [Coord; 3], draw_type: DrawType)
        requires
            gfx_wf(*old(self)),
            poly_coords_bounded(points@),
        ensures
            gfx_wf(*final(self)),
            *final(self) == (Graphics { buffer: final(self).buffer, ..*old(self) }),
            final(self).buffer@ == (if draw_type is Fill {
                poly_fill_buf(
                    *old(self),
                    poly_outline_buf(
                        *old(self),
                        old(self).buffer@,
                        points@,
                        0,
                        draw_type.spec_color(),
                    ),
                    points@,
                    min_y(points@),
                    max_y(points@),
                    draw_type.spec_color(),
                )
            } else {
                poly_outline_buf(
                    *old(self),
                    old(self).buffer@,
                    points@,
                    0,
                    draw_type.spec_color(),
                )
            }),
    {
        triangle_draw(self, points, draw_type)
    }
}

/// The span painting depends only on the surface configuration, not on
/// the buffer the graphics value happens to hold.
pub proof fn lemma_spans_buf_config(
    g1: Graphics,
    g2: Graphics,
    buf: Seq<u8>,
    nodes: Seq<(int, int)>,
    k: int,
    y: int,
    color: Color,
)
    requires
        g1.width == g2.width,
        g1.height == g2.height,
        g1.translate == g2.translate,
        g1.clip == g2.clip,
        k >= 0,
    ensures
        spans_buf(g1, buf, nodes, k, y, color) == spans_buf(g2, buf, nodes, k, y, color),
    decreases nodes.len() - k,
{
    if k + 1 < nodes.len() {
        let a = trunc_div(nodes[k].0, nodes[k].1);
        let b0 = trunc_div(nodes[k + 1].0, nodes[k + 1].1);
        let b = if b0 < a {
            a
        } else {
            b0
        };
        lemma_paint_config(g1, g2, buf, row_pts(y, a + 1, b), color);
        lemma_spans_buf_config(
            g1,
            g2,
            paint(g1, buf, row_pts(y, a + 1, b), color),
            nodes,
            k + 2,
            y,
            color,
        );
    }
}

/// The polygon fill depends only on the surface configuration.
pub proof fn lemma_poly_fill_buf_config(
    g1: Graphics,
    g2: Graphics,
    buf: Seq<u8>,
    pts: Seq<Coord>,
    y: int,
    yend: int,
    color: Color,
)
    requires
        g1.width == g2.width,
        g1.height == g2.height,
        g1.translate == g2.translate,
        g1.clip == g2.clip,
        y <= yend,
    ensures
        poly_fill_buf(g1, buf, pts, y, yend, color) == poly_fill_buf(g2, buf, pts, y, yend, color),
    decreases yend - y,
{
    if y < yend {
        let nodes = row_nodes_acc(pts, y, 0, Seq::empty());
        lemma_spans_buf_config(g1, g2, buf, nodes, 0, y, color);
        lemma_poly_fill_buf_config(
            g1,
            g2,
            spans_buf(g1, buf, nodes, 0, y, color),
            pts,
            y + 1,
            yend,
            color,
        );
    }
}

/// The polygon outline depends only on the surface configuration.
pub proof fn lemma_poly_outline_buf_config(
    g1: Graphics,
    g2: Graphics,
    buf: Seq<u8>,
    pts: Seq<Coord>,
    i: int,
    color: Color,
)
    requires
        g1.width == g2.width,
        g1.height == g2.height,
        g1.translate == g2.translate,
        g1.clip == g2.clip,
        0 <= i,
        pts.len() >= 1,
    ensures
        poly_outline_buf(g1, buf, pts, i, color) == poly_outline_buf(g2, buf, pts, i, color),
    decreases pts.len() - i,
{
    if i >= pts.len() - 1 {
        lemma_paint_config(g1, g2, buf, line_seq(pts[pts.len() - 1], pts[0]), color);
    } else {
        lemma_paint_config(g1, g2, buf, line_seq(pts[i], pts[i + 1]), color);
        lemma_poly_outline_buf_config(
            g1,
            g2,
            paint(g1, buf, line_seq(pts[i], pts[i + 1]), color),
            pts,
            i + 1,
            color,
        );
    }
}

/// A nonempty vertex list's least row never exceeds its greatest.
pub proof fn lemma_min_max_y_order(pts: Seq<Coord>)
    requires
        pts.len() >= 1,
    ensures
        min_y(pts) <= max_y(pts),
    decreases pts.len(),
{
    if pts.len() > 1 {
        lemma_min_max_y_order(pts.drop_first());
    }
}

} // verus!
