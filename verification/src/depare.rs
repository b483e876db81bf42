//! Depth areas: the filled regions of a chart that share a depth range.

use vstd::prelude::*;
use crate::color::Color;
use crate::extent::{extent_of, LayerExtent, Point};
use crate::geometry::{
    close_ring, cut_at, get_vertices_extent, is_accepted, is_outline, kind_is_outline, points_of,
    positions, push_triangle_vertices, triangle_vertices, vertex_positions, Feature, GeometryPart,
    Layer, Polygon, Triangle, Vertex,
};

verus! {

/// A depth range in millimetres.
#[derive(Clone, Copy, Debug, PartialEq, Eq, Structural)]
pub struct DepthRange {
    pub shallow: i64,
    pub deep: i64,
}

/// One region of a depth area: its vertices, its colour and its depth
/// range.
#[derive(Clone, Debug, PartialEq, Eq)]
pub struct DepareLayer {
    pub vertices: Vec<Vertex>,
    pub color: Color,
    pub depth: DepthRange,
}

impl DepareLayer {
    pub fn new(vertices: Vec<Vertex>, color: Color, depth: DepthRange) -> (layer: DepareLayer)
        ensures
            layer.vertices == vertices,
            layer.color == color,
            layer.depth == depth,
    {
        DepareLayer { vertices, color, depth }
    }
}

/// All depth areas of one chart: the regions, the vertices to draw and the
/// box around them.
#[allow(clippy::upper_case_acronyms)]
#[derive(Clone, Debug, PartialEq, Eq)]
pub struct DEPARE {
    pub layers: Vec<DepareLayer>,
    pub vertices: Vec<Vertex>,
    pub extent: LayerExtent,
}

/// The vertices of the first `n` regions, in order.
pub open spec fn layer_vertices(layers: Seq<DepareLayer>, n: int) -> Seq<Vertex>
    decreases n,
{
    if n <= 0 {
        Seq::empty()
    } else {
        layer_vertices(layers, n - 1) + layers[n - 1].vertices@
    }
}

impl DEPARE {
    /// Appends the vertices of every region to the chart's vertices.
    pub fn sum_vertices(&mut self)
        ensures
            final(self).layers == old(self).layers,
            final(self).extent == old(self).extent,
            final(self).vertices@ == old(self).vertices@ + layer_vertices(
                old(self).layers@,
                old(self).layers@.len() as int,
            ),
    {
        let ghost start = self.vertices@;
        let mut l: usize = 0;
        proof {
            assert(self.vertices@ =~= start + layer_vertices(self.layers@, 0));
        }
        while l < self.layers.len()
            invariant
                l <= self.layers.len(),
                self.layers == old(self).layers,
                self.extent == old(self).extent,
                self.vertices@ == start + layer_vertices(self.layers@, l as int),
            decreases self.layers.len() - l,
        {
            let ghost before = self.vertices@;
            let mut k: usize = 0;
            while k < self.layers[l].vertices.len()
                invariant
                    l < self.layers.len(),
                    k <= self.layers[l as int].vertices.len(),
                    self.layers == old(self).layers,
                    self.extent == old(self).extent,
                    self.vertices@ == before + self.layers[l as int].vertices@.take(k as int),
                decreases self.layers[l as int].vertices.len() - k,
            {
                let v = self.layers[l].vertices[k];
                self.vertices.push(v);
                proof {
                    assert(self.vertices@ =~= before + self.layers[l as int].vertices@.take(k + 1));
                }
                k += 1;
            }
            proof {
                assert(self.layers[l as int].vertices@.take(k as int)
                    =~= self.layers[l as int].vertices@);
                assert(self.vertices@ =~= start + layer_vertices(self.layers@, l + 1));
            }
            l += 1;
        }
    }
}

/// A depth in millionths of a foot, from one in millimetres: a metre is
/// 3.281 feet.
pub open spec fn feet_from_metres(depth: i64) -> int {
    depth * 3281
}

/// The fill colour of water with the given shallow depth, in millionths of
/// a foot: pale beyond 19 feet, a middle blue beyond 6.5 feet, and a strong
/// blue at 6.5 feet or less.
pub open spec fn depth_color(feet: int) -> Color {
    if feet > 19_000_000 {
        Color { r: 212, g: 234, b: 238, a: 255 }
    } else if feet > 6_500_000 {
        Color { r: 186, g: 213, b: 225, a: 255 }
    } else {
        Color { r: 115, g: 182, b: 239, a: 255 }
    }
}

/// Converts a depth in millimetres to millionths of a foot.
pub fn metres_to_feet(depth: i64) -> (feet: i128)
    ensures
        feet == feet_from_metres(depth),
{
    (depth as i128) * 3281
}

/// The fill colour for a depth in millionths of a foot.
pub fn get_color_for_depth(depth: i128) -> (color: Color)
    ensures
        color == depth_color(depth as int),
{
    if depth > 19_000_000 {
        Color::rgb(212, 234, 238)
    } else if depth > 6_500_000 {
        Color::rgb(186, 213, 225)
    } else {
        Color::rgb(115, 182, 239)
    }
}

/// A ring of a depth area with the depth range of its feature.
#[derive(Clone, Debug, PartialEq, Eq)]
pub struct DepareRing {
    pub polygon: Polygon,
    pub depth: DepthRange,
}

/// The depth rings read from a layer, and how many features gave none.
#[derive(Clone, Debug, PartialEq, Eq)]
pub struct DepareRings {
    pub rings: Vec<DepareRing>,
    /// Features that have no geometry.
    pub without_geometry: usize,
    /// Features that have geometry but lack a bound of the depth range.
    pub without_depth: usize,
}

/// Ring and depth range of each depth ring.
pub open spec fn ring_views(rings: Seq<DepareRing>) -> Seq<(Seq<Point>, DepthRange)> {
    Seq::new(rings.len(), |i: int| (rings[i].polygon@, rings[i].depth))
}

/// The closed rings of the outlines among the first `n` parts, each with
/// the given depth range.
pub open spec fn part_depth_rings(parts: Seq<GeometryPart>, depth: DepthRange, n: int) -> Seq<
    (Seq<Point>, DepthRange),
>
    decreases n,
{
    if n <= 0 {
        Seq::empty()
    } else if is_outline(parts[n - 1].kind) {
        part_depth_rings(parts, depth, n - 1).push(
            (close_ring(positions(parts[n - 1].points@)), depth),
        )
    } else {
        part_depth_rings(parts, depth, n - 1)
    }
}

/// The depth rings of a feature: none unless it has geometry and both bounds
/// of its depth range.
pub open spec fn depth_rings_of_feature(feature: Feature) -> Seq<(Seq<Point>, DepthRange)> {
    match (feature.geometry, feature.drval1, feature.drval2) {
        (Some(g), Some(low), Some(high)) => part_depth_rings(
            g.parts@,
            DepthRange { shallow: low, deep: high },
            g.parts@.len() as int,
        ),
        _ => Seq::empty(),
    }
}

/// The depth rings of the first `n` features.
pub open spec fn depth_rings(features: Seq<Feature>, n: int) -> Seq<(Seq<Point>, DepthRange)>
    decreases n,
{
    if n <= 0 {
        Seq::empty()
    } else {
        depth_rings(features, n - 1) + depth_rings_of_feature(features[n - 1])
    }
}

/// How many of the first `n` features have no geometry.
pub open spec fn count_without_geometry(features: Seq<Feature>, n: int) -> nat
    decreases n,
{
    if n <= 0 {
        0
    } else if features[n - 1].geometry is None {
        count_without_geometry(features, n - 1) + 1
    } else {
        count_without_geometry(features, n - 1)
    }
}

/// How many of the first `n` features have geometry but lack a bound of the
/// depth range.
pub open spec fn count_without_depth(features: Seq<Feature>, n: int) -> nat
    decreases n,
{
    if n <= 0 {
        0
    } else if features[n - 1].geometry is Some && (features[n - 1].drval1 is None || features[n
        - 1].drval2 is None) {
        count_without_depth(features, n - 1) + 1
    } else {
        count_without_depth(features, n - 1)
    }
}

fn push_part_depth_rings(rings: &mut Vec<DepareRing>, parts: &Vec<GeometryPart>, depth: DepthRange)
    ensures
        ring_views(final(rings)@) == ring_views(old(rings)@) + part_depth_rings(
            parts@,
            depth,
            parts@.len() as int,
        ),
{
    let ghost start = ring_views(rings@);
    let mut i: usize = 0;
    proof {
        assert(ring_views(rings@) =~= start + part_depth_rings(parts@, depth, 0));
    }
    while i < parts.len()
        invariant
            i <= parts.len(),
            ring_views(rings@) == start + part_depth_rings(parts@, depth, i as int),
        decreases parts.len() - i,
    {
        let part = &parts[i];
        if kind_is_outline(part.kind) {
            let polygon = Polygon::new(points_of(&part.points));
            let ghost before = ring_views(rings@);
            let ghost ring = polygon@;
            rings.push(DepareRing { polygon, depth });
            proof {
                assert(ring_views(rings@) =~= before.push((ring, depth)));
                assert(ring_views(rings@) =~= start + part_depth_rings(parts@, depth, i + 1));
            }
        }
        i += 1;
    }
}

/// Reads the rings of a layer of depth areas.
///
/// A feature gives its outlines as closed rings, each with the feature's
/// depth range. A feature without geometry, or without one of the two
/// bounds of the range, gives none and is counted.
pub fn depare_rings(layer: &Layer) -> (out: DepareRings)
    ensures
        ring_views(out.rings@) == depth_rings(layer.features@, layer.features@.len() as int),
        out.without_geometry == count_without_geometry(
            layer.features@,
            layer.features@.len() as int,
        ),
        out.without_depth == count_without_depth(layer.features@, layer.features@.len() as int),
{
    let mut rings: Vec<DepareRing> = Vec::new();
    let mut without_geometry: usize = 0;
    let mut without_depth: usize = 0;
    let mut f: usize = 0;
    proof {
        assert(ring_views(rings@) =~= depth_rings(layer.features@, 0));
    }
    while f < layer.features.len()
        invariant
            f <= layer.features.len(),
            ring_views(rings@) == depth_rings(layer.features@, f as int),
            without_geometry == count_without_geometry(layer.features@, f as int),
            without_depth == count_without_depth(layer.features@, f as int),
            without_geometry <= f,
            without_depth <= f,
        decreases layer.features.len() - f,
    {
        let feature = &layer.features[f];
        let ghost before = ring_views(rings@);
        match &feature.geometry {
            None => {
                without_geometry += 1;
            },
            Some(g) => {
                match (feature.drval1, feature.drval2) {
                    (Some(low), Some(high)) => {
                        push_part_depth_rings(&mut rings, &g.parts, DepthRange { shallow: low, deep: high });
                    },
                    _ => {
                        without_depth += 1;
                    },
                }
            },
        }
        proof {
            assert(ring_views(rings@) =~= before + depth_rings_of_feature(*feature));
        }
        f += 1;
    }
    DepareRings { rings, without_geometry, without_depth }
}

/// The vertices of the first `n` depth rings: for each ring with enough
/// points the corners of its cut, in the colour of its shallow depth.
pub open spec fn depare_vertices(
    rings: Seq<(Seq<Point>, DepthRange)>,
    cuts: Seq<Vec<Triangle>>,
    n: int,
) -> Seq<Vertex>
    decreases n,
{
    if n <= 0 {
        Seq::empty()
    } else if is_accepted(rings[n - 1].0) {
        depare_vertices(rings, cuts, n - 1) + triangle_vertices(
            cut_at(cuts, n - 1),
            depth_color(feet_from_metres(rings[n - 1].1.shallow)),
        )
    } else {
        depare_vertices(rings, cuts, n - 1)
    }
}

/// What a region holds: its vertices, its colour and its depth range.
pub struct Region {
    pub vertices: Seq<Vertex>,
    pub color: Color,
    pub depth: DepthRange,
}

/// The region of a ring with the given cut: the corners of the cut's
/// triangles, in the colour of the shallow end of the ring's depth range.
pub open spec fn region_of(depth: DepthRange, cut: Seq<Triangle>) -> Region {
    let color = depth_color(feet_from_metres(depth.shallow));
    Region { vertices: triangle_vertices(cut, color), color, depth }
}

/// The regions of the first `n` depth rings: one for each ring that has
/// enough points, in order.
pub open spec fn depare_regions(
    rings: Seq<(Seq<Point>, DepthRange)>,
    cuts: Seq<Vec<Triangle>>,
    n: int,
) -> Seq<Region>
    decreases n,
{
    if n <= 0 {
        Seq::empty()
    } else if is_accepted(rings[n - 1].0) {
        depare_regions(rings, cuts, n - 1).push(region_of(rings[n - 1].1, cut_at(cuts, n - 1)))
    } else {
        depare_regions(rings, cuts, n - 1)
    }
}

/// How many of the first `n` depth rings have too few points.
pub open spec fn count_rejected(rings: Seq<(Seq<Point>, DepthRange)>, n: int) -> nat
    decreases n,
{
    if n <= 0 {
        0
    } else if is_accepted(rings[n - 1].0) {
        count_rejected(rings, n - 1)
    } else {
        count_rejected(rings, n - 1) + 1
    }
}

/// What each region holds.
pub open spec fn region_views(layers: Seq<DepareLayer>) -> Seq<Region> {
    Seq::new(
        layers.len(),
        |i: int| Region { vertices: layers[i].vertices@, color: layers[i].color, depth: layers[i].depth },
    )
}

/// The depth areas of a chart, and what was left out on the way.
#[derive(Clone, Debug, PartialEq, Eq)]
pub struct DepareLoad {
    pub depare: DEPARE,
    /// Features that have no geometry.
    pub without_geometry: usize,
    /// Features that have geometry but lack a bound of the depth range.
    pub without_depth: usize,
    /// Rings with fewer than four points.
    pub rejected: usize,
}

/// A list of corner triples holds a multiple of three vertices.
pub proof fn lemma_depare_vertices_in_threes(
    rings: Seq<(Seq<Point>, DepthRange)>,
    cuts: Seq<Vec<Triangle>>,
    n: int,
)
    ensures
        depare_vertices(rings, cuts, n).len() % 3 == 0,
    decreases n,
{
    if n > 0 {
        lemma_depare_vertices_in_threes(rings, cuts, n - 1);
    }
}

/// The vertices of the first `n` regions depend on those regions alone.
proof fn lemma_layer_vertices_prefix(a: Seq<DepareLayer>, b: Seq<DepareLayer>, n: int)
    requires
        0 <= n <= a.len(),
        n <= b.len(),
        forall|i: int| 0 <= i < n ==> a[i] == b[i],
    ensures
        layer_vertices(a, n) == layer_vertices(b, n),
    decreases n,
{
    if n > 0 {
        lemma_layer_vertices_prefix(a, b, n - 1);
    }
}

/// Builds the depth areas of a chart from its `DEPARE` layer.
///
/// The layer's depth rings are those that `depare_rings` returns, and
/// `cuts[k]` holds the triangles that ring `k` was cut into. A ring with
/// fewer than four points is left out and counted; its cut is not looked
/// at. Every other ring gives one region: the corners of its triangles,
/// coloured by the shallow end of its depth range, with that colour and
/// range. The chart's vertices are those of its regions, one region after
/// the other, and the box is that of all the vertices.
pub fn get_depare_from_layer(layer: &Layer, cuts: &Vec<Vec<Triangle>>) -> (load: DepareLoad)
    ensures
        region_views(load.depare.layers@) == depare_regions(
            depth_rings(layer.features@, layer.features@.len() as int),
            cuts@,
            depth_rings(layer.features@, layer.features@.len() as int).len() as int,
        ),
        forall|j: int|
            0 <= j < load.depare.layers@.len() ==> (#[trigger] load.depare.layers@[j]).color
                == depth_color(feet_from_metres(load.depare.layers@[j].depth.shallow)),
        load.depare.vertices@ == layer_vertices(
            load.depare.layers@,
            load.depare.layers@.len() as int,
        ),
        load.depare.vertices@ == depare_vertices(
            depth_rings(layer.features@, layer.features@.len() as int),
            cuts@,
            depth_rings(layer.features@, layer.features@.len() as int).len() as int,
        ),
        load.depare.vertices@.len() % 3 == 0,
        load.depare.extent == extent_of(vertex_positions(load.depare.vertices@)),
        load.without_geometry == count_without_geometry(
            layer.features@,
            layer.features@.len() as int,
        ),
        load.without_depth == count_without_depth(layer.features@, layer.features@.len() as int),
        load.rejected == count_rejected(
            depth_rings(layer.features@, layer.features@.len() as int),
            depth_rings(layer.features@, layer.features@.len() as int).len() as int,
        ),
{
    let found = depare_rings(layer);
    let ghost rings = ring_views(found.rings@);
    let mut depare_layers: Vec<DepareLayer> = Vec::new();
    let mut rejected: usize = 0;
    let mut k: usize = 0;
    proof {
        assert(region_views(depare_layers@) =~= depare_regions(rings, cuts@, 0));
    }
    while k < found.rings.len()
        invariant
            k <= found.rings.len(),
            rings == ring_views(found.rings@),
            region_views(depare_layers@) == depare_regions(rings, cuts@, k as int),
            layer_vertices(depare_layers@, depare_layers@.len() as int) == depare_vertices(
                rings,
                cuts@,
                k as int,
            ),
            rejected == count_rejected(rings, k as int),
            rejected <= k,
        decreases found.rings.len() - k,
    {
        let ring = &found.rings[k];
        proof {
            assert(rings[k as int] == (ring.polygon@, ring.depth));
        }
        if !ring.polygon.has_enough_points() {
            rejected += 1;
        } else {
            let color = get_color_for_depth(metres_to_feet(ring.depth.shallow));
            let mut vertices: Vec<Vertex> = Vec::new();
            if k < cuts.len() {
                push_triangle_vertices(&mut vertices, &cuts[k], color);
            }
            proof {
                assert(vertices@ =~= triangle_vertices(cut_at(cuts@, k as int), color));
            }
            let ghost before = depare_layers@;
            let ghost seen = region_views(depare_layers@);
            let region = DepareLayer::new(vertices, color, ring.depth);
            depare_layers.push(region);
            proof {
                assert(region_views(depare_layers@) =~= seen.push(
                    region_of(ring.depth, cut_at(cuts@, k as int)),
                ));
                lemma_layer_vertices_prefix(depare_layers@, before, before.len() as int);
            }
        }
        k += 1;
    }
    let mut d = DEPARE { layers: depare_layers, vertices: Vec::new(), extent: LayerExtent::empty() };
    d.sum_vertices();
    proof {
        assert(d.vertices@ =~= layer_vertices(d.layers@, d.layers@.len() as int));
        lemma_depare_vertices_in_threes(rings, cuts@, rings.len() as int);
        assert forall|j: int| 0 <= j < d.layers@.len() implies (#[trigger] d.layers@[j]).color
            == depth_color(feet_from_metres(d.layers@[j].depth.shallow)) by {
            let view = region_views(d.layers@)[j];
            lemma_region_colors(rings, cuts@, rings.len() as int, j);
            assert(view.color == d.layers@[j].color && view.depth == d.layers@[j].depth);
        }
    }
    d.extent = get_vertices_extent(&d.vertices);
    DepareLoad {
        depare: d,
        without_geometry: found.without_geometry,
        without_depth: found.without_depth,
        rejected,
    }
}

/// Every region has the colour of the shallow end of its depth range, and
/// its vertices come in threes of that colour.
pub proof fn lemma_region_colors(
    rings: Seq<(Seq<Point>, DepthRange)>,
    cuts: Seq<Vec<Triangle>>,
    n: int,
    j: int,
)
    requires
        0 <= j < depare_regions(rings, cuts, n).len(),
    ensures
        depare_regions(rings, cuts, n)[j].color == depth_color(
            feet_from_metres(depare_regions(rings, cuts, n)[j].depth.shallow),
        ),
        depare_regions(rings, cuts, n)[j].vertices.len() % 3 == 0,
        forall|i: int|
            0 <= i < depare_regions(rings, cuts, n)[j].vertices.len() ==> (
            #[trigger] depare_regions(rings, cuts, n)[j].vertices[i]).color == depare_regions(
                rings,
                cuts,
                n,
            )[j].color,
    decreases n,
{
    if n > 0 {
        let shorter = depare_regions(rings, cuts, n - 1);
        if j < shorter.len() {
            lemma_region_colors(rings, cuts, n - 1, j);
        }
    }
}

} // verus!
