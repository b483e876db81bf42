//! Rings, triangles and coloured vertices, and the features they are read
//! from.

use vstd::prelude::*;
use crate::color::Color;
use crate::extent::{extent_of, LayerExtent, Point};

verus! {

/// A corner of a filled triangle.
#[derive(Clone, Copy, Debug, PartialEq, Eq, Structural)]
pub struct Vertex {
    pub position: Point,
    pub color: Color,
}

/// Three corners.
#[derive(Clone, Copy, Debug, PartialEq, Eq, Structural)]
pub struct Triangle(pub Point, pub Point, pub Point);

/// What kind of geometry a part of a feature is.
#[derive(Clone, Copy, Debug, PartialEq, Eq, Structural)]
pub enum GeometryKind {
    LinearRing,
    LineString,
    Polygon,
    Point25D,
    MultiPoint25D,
    MultiPointZM,
    Other,
}

/// One part of a feature's geometry: its kind and its points, each with a
/// horizontal position, a vertical position and a depth.
#[derive(Clone, Debug, PartialEq, Eq)]
pub struct GeometryPart {
    pub kind: GeometryKind,
    pub points: Vec<(i64, i64, i64)>,
}

/// The geometry of a feature.
#[derive(Clone, Debug, PartialEq, Eq)]
pub struct Geometry {
    pub parts: Vec<GeometryPart>,
}

/// A chart feature: its geometry, if it has one, and the lower and upper
/// bound of its depth range in millimetres, where the chart gives them.
#[derive(Clone, Debug, PartialEq, Eq)]
pub struct Feature {
    pub geometry: Option<Geometry>,
    pub drval1: Option<i64>,
    pub drval2: Option<i64>,
}

/// A named layer of a chart.
#[derive(Clone, Debug, PartialEq, Eq)]
pub struct Layer {
    pub name: String,
    pub features: Vec<Feature>,
}

/// A chart.
#[derive(Clone, Debug, PartialEq, Eq)]
pub struct Dataset {
    pub layers: Vec<Layer>,
}

/// A ring is closed when it ends where it starts.
pub open spec fn is_closed(ring: Seq<Point>) -> bool {
    ring.len() == 0 || ring.first() == ring.last()
}

/// The ring with its first point added at the end, unless it ends there
/// already.
pub open spec fn close_ring(points: Seq<Point>) -> Seq<Point> {
    if is_closed(points) {
        points
    } else {
        points.push(points.first())
    }
}

/// The horizontal and vertical position of each point.
pub open spec fn positions(points: Seq<(i64, i64, i64)>) -> Seq<Point> {
    Seq::new(points.len(), |i: int| Point { x: points[i].0, y: points[i].1 })
}

/// Lines, rings and polygons are outlines.
pub open spec fn is_outline(kind: GeometryKind) -> bool {
    kind is LinearRing || kind is LineString || kind is Polygon
}

/// A ring needs four points, the closing one counted, to enclose anything.
pub open spec fn is_accepted(ring: Seq<Point>) -> bool {
    ring.len() >= 4
}

/// A closed ring without holes.
#[derive(Debug, PartialEq, Eq)]
pub struct Polygon {
    ring: Vec<Point>,
}

impl View for Polygon {
    type V = Seq<Point>;

    closed spec fn view(&self) -> Seq<Point> {
        self.ring@
    }
}

impl Polygon {
    #[verifier::type_invariant]
    spec fn ring_is_closed(self) -> bool {
        is_closed(self.ring@)
    }

    /// The polygon whose ring is `points`, closed if it was open.
    pub fn new(points: Vec<Point>) -> (polygon: Polygon)
        ensures
            polygon@ == close_ring(points@),
    {
        let mut ring = points;
        let n = ring.len();
        if n > 0 {
            let first = ring[0];
            let last = ring[n - 1];
            if first.x != last.x || first.y != last.y {
                ring.push(first);
            }
        }
        Polygon { ring }
    }

    /// The ring, which is closed.
    pub fn exterior(&self) -> (ring: &Vec<Point>)
        ensures
            ring@ == self@,
            is_closed(ring@),
    {
        proof {
            use_type_invariant(self);
        }
        &self.ring
    }

    /// The number of points of the ring, the closing one counted.
    pub fn coords_count(&self) -> (n: usize)
        ensures
            n == self@.len(),
    {
        self.ring.len()
    }

    /// Whether the ring has the four points it needs.
    pub fn has_enough_points(&self) -> (ok: bool)
        ensures
            ok == is_accepted(self@),
    {
        self.ring.len() >= 4
    }
}

impl Clone for Polygon {
    fn clone(&self) -> (copy: Polygon)
        ensures
            copy@ == self@,
    {
        proof {
            use_type_invariant(self);
        }
        let mut ring: Vec<Point> = Vec::new();
        let mut i: usize = 0;
        while i < self.ring.len()
            invariant
                i <= self.ring@.len(),
                ring@ == self.ring@.take(i as int),
            decreases self.ring.len() - i,
        {
            ring.push(self.ring[i]);
            proof {
                assert(ring@ =~= self.ring@.take(i + 1));
            }
            i += 1;
        }
        proof {
            assert(self.ring@.take(i as int) =~= self.ring@);
        }
        Polygon { ring }
    }
}

/// The rings of a list of polygons.
pub open spec fn rings_of(polygons: Seq<Polygon>) -> Seq<Seq<Point>> {
    Seq::new(polygons.len(), |i: int| polygons[i]@)
}

/// The corner of a triangle with the given number, 0 to 2.
pub open spec fn corner(triangle: Triangle, k: int) -> Point {
    if k == 0 {
        triangle.0
    } else if k == 1 {
        triangle.1
    } else {
        triangle.2
    }
}

/// The corners of the triangles, three for each, in one colour.
pub open spec fn triangle_vertices(triangles: Seq<Triangle>, color: Color) -> Seq<Vertex> {
    Seq::new(
        3 * triangles.len(),
        |i: int| Vertex { position: corner(triangles[i / 3], i % 3), color },
    )
}

/// The positions of a list of vertices.
pub open spec fn vertex_positions(vertices: Seq<Vertex>) -> Seq<Point> {
    Seq::new(vertices.len(), |i: int| vertices[i].position)
}

/// Adds one more triangle to a vertex list.
pub proof fn lemma_triangle_vertices_push(triangles: Seq<Triangle>, t: Triangle, color: Color)
    ensures
        triangle_vertices(triangles.push(t), color) == triangle_vertices(triangles, color).push(
            Vertex { position: t.0, color },
        ).push(Vertex { position: t.1, color }).push(Vertex { position: t.2, color }),
{
    let longer = triangle_vertices(triangles.push(t), color);
    let built = triangle_vertices(triangles, color).push(Vertex { position: t.0, color }).push(
        Vertex { position: t.1, color },
    ).push(Vertex { position: t.2, color });
    assert(longer.len() == built.len());
    assert forall|i: int| 0 <= i < longer.len() implies longer[i] == built[i] by {
        let n = triangles.len() as int;
        if i < 3 * n {
            assert(i / 3 < n);
            assert(triangles.push(t)[i / 3] == triangles[i / 3]);
        } else {
            assert(i / 3 == n);
            assert(i % 3 == i - 3 * n);
            assert(triangles.push(t)[n] == t);
        }
    }
    assert(longer =~= built);
}

/// Appends the three corners of each triangle, in the given colour.
pub fn push_triangle_vertices(vertices: &mut Vec<Vertex>, triangles: &Vec<Triangle>, color: Color)
    ensures
        final(vertices)@ == old(vertices)@ + triangle_vertices(triangles@, color),
        final(vertices)@.len() == old(vertices)@.len() + 3 * triangles@.len(),
{
    let ghost start = vertices@;
    let mut i: usize = 0;
    proof {
        assert(triangle_vertices(triangles@.take(0), color) =~= Seq::<Vertex>::empty());
        assert(vertices@ =~= start + triangle_vertices(triangles@.take(0), color));
    }
    while i < triangles.len()
        invariant
            i <= triangles.len(),
            vertices@ == start + triangle_vertices(triangles@.take(i as int), color),
        decreases triangles.len() - i,
    {
        let t = triangles[i];
        proof {
            assert(triangles@.take(i + 1) =~= triangles@.take(i as int).push(t));
            lemma_triangle_vertices_push(triangles@.take(i as int), t, color);
        }
        let ghost so_far = triangle_vertices(triangles@.take(i as int), color);
        vertices.push(Vertex { position: t.0, color });
        vertices.push(Vertex { position: t.1, color });
        vertices.push(Vertex { position: t.2, color });
        proof {
            assert(vertices@ =~= start + so_far.push(Vertex { position: t.0, color }).push(
                Vertex { position: t.1, color },
            ).push(Vertex { position: t.2, color }));
        }
        i += 1;
    }
    proof {
        assert(triangles@.take(i as int) =~= triangles@);
    }
}

/// The triangles cut from polygon `i`, none if no cut was handed in for it.
pub open spec fn cut_at(cuts: Seq<Vec<Triangle>>, i: int) -> Seq<Triangle> {
    if 0 <= i < cuts.len() {
        cuts[i]@
    } else {
        Seq::empty()
    }
}

/// The triangles of the first `n` polygons: for each polygon with enough
/// points its cut, in order.
pub open spec fn kept_triangles(polygons: Seq<Polygon>, cuts: Seq<Vec<Triangle>>, n: int) -> Seq<
    Triangle,
>
    decreases n,
{
    if n <= 0 {
        Seq::empty()
    } else if is_accepted(polygons[n - 1]@) {
        kept_triangles(polygons, cuts, n - 1) + cut_at(cuts, n - 1)
    } else {
        kept_triangles(polygons, cuts, n - 1)
    }
}

/// How many of the first `n` polygons have too few points.
pub open spec fn rejected_count(polygons: Seq<Polygon>, n: int) -> nat
    decreases n,
{
    if n <= 0 {
        0
    } else if is_accepted(polygons[n - 1]@) {
        rejected_count(polygons, n - 1)
    } else {
        rejected_count(polygons, n - 1) + 1
    }
}

/// The triangles of a list of polygons, and how many polygons were left out.
#[derive(Clone, Debug, PartialEq, Eq)]
pub struct Triangulation {
    pub triangles: Vec<Triangle>,
    pub rejected: usize,
}

/// Collects the triangles of the polygons.
///
/// `cuts[i]` holds the triangles that polygon `i` was cut into. A polygon
/// whose ring has fewer than four points is left out and counted; its cut is
/// not looked at.
pub fn triangles_from_scaled_polygons(polygons: &Vec<Polygon>, cuts: &Vec<Vec<Triangle>>) -> (out:
    Triangulation)
    ensures
        out.triangles@ == kept_triangles(polygons@, cuts@, polygons@.len() as int),
        out.rejected == rejected_count(polygons@, polygons@.len() as int),
{
    let mut triangles: Vec<Triangle> = Vec::new();
    let mut rejected: usize = 0;
    let mut i: usize = 0;
    while i < polygons.len()
        invariant
            i <= polygons.len(),
            triangles@ == kept_triangles(polygons@, cuts@, i as int),
            rejected == rejected_count(polygons@, i as int),
            rejected <= i,
        decreases polygons.len() - i,
    {
        if !polygons[i].has_enough_points() {
            rejected += 1;
        } else if i < cuts.len() {
            let cut = &cuts[i];
            let ghost before = triangles@;
            let mut k: usize = 0;
            while k < cut.len()
                invariant
                    k <= cut.len(),
                    triangles@ == before + cut@.take(k as int),
                decreases cut.len() - k,
            {
                triangles.push(cut[k]);
                proof {
                    assert(cut@.take(k + 1) =~= cut@.take(k as int).push(cut@[k as int]));
                    assert(triangles@ =~= before + cut@.take(k + 1));
                }
                k += 1;
            }
            proof {
                assert(cut@.take(k as int) =~= cut@);
            }
        } else {
            proof {
                assert(triangles@ + Seq::<Triangle>::empty() =~= triangles@);
            }
        }
        i += 1;
    }
    Triangulation { triangles, rejected }
}

/// A layer's polygons with the triangles they were cut into and the
/// vertices to draw.
#[derive(Clone, Debug, PartialEq, Eq)]
pub struct PlotGeometry {
    pub polygons: Vec<Polygon>,
    pub triangles: Vec<Triangle>,
    pub color: Color,
    pub layer_name: String,
    pub vertex_vec: Vec<Vertex>,
}

impl PlotGeometry {
    pub fn new(
        polygons: Vec<Polygon>,
        triangles: Vec<Triangle>,
        color: Color,
        layer_name: String,
        vertex_vec: Vec<Vertex>,
    ) -> (plot: PlotGeometry)
        ensures
            plot.polygons == polygons,
            plot.triangles == triangles,
            plot.color == color,
            plot.layer_name == layer_name,
            plot.vertex_vec == vertex_vec,
    {
        PlotGeometry { polygons, triangles, color, layer_name, vertex_vec }
    }

    /// Takes the triangles that the polygons were cut into (`cuts[i]` for
    /// polygon `i`) and lists their corners in the layer's colour. Returns
    /// how many polygons had too few points and were left out.
    pub fn triangulate_and_scale(&mut self, cuts: &Vec<Vec<Triangle>>) -> (rejected: usize)
        ensures
            final(self).polygons == old(self).polygons,
            final(self).color == old(self).color,
            final(self).layer_name == old(self).layer_name,
            final(self).triangles@ == kept_triangles(
                old(self).polygons@,
                cuts@,
                old(self).polygons@.len() as int,
            ),
            final(self).vertex_vec@ == triangle_vertices(final(self).triangles@, old(self).color),
            final(self).vertex_vec@.len() == 3 * final(self).triangles@.len(),
            rejected == rejected_count(old(self).polygons@, old(self).polygons@.len() as int),
    {
        let out = triangles_from_scaled_polygons(&self.polygons, cuts);
        let mut vertex_vec: Vec<Vertex> = Vec::new();
        push_triangle_vertices(&mut vertex_vec, &out.triangles, self.color);
        proof {
            assert(Seq::<Vertex>::empty() + triangle_vertices(out.triangles@, self.color)
                =~= triangle_vertices(out.triangles@, self.color));
        }
        self.triangles = out.triangles;
        self.vertex_vec = vertex_vec;
        out.rejected
    }
}

/// The bounding box of the vertices; the empty box when there are none.
pub fn get_vertices_extent(vertices: &Vec<Vertex>) -> (e: LayerExtent)
    ensures
        e == extent_of(vertex_positions(vertices@)),
{
    let mut e = LayerExtent::empty();
    let mut i: usize = 0;
    while i < vertices.len()
        invariant
            i <= vertices.len(),
            e == extent_of(vertex_positions(vertices@.take(i as int))),
        decreases vertices.len() - i,
    {
        proof {
            assert(vertex_positions(vertices@.take(i + 1)).drop_last() =~= vertex_positions(
                vertices@.take(i as int),
            ));
        }
        e = e.with_point(vertices[i].position);
        i += 1;
    }
    proof {
        assert(vertices@.take(i as int) =~= vertices@);
    }
    e
}

/// Whether two texts are the same.
fn same_text(a: &str, b: &str) -> (same: bool)
    ensures
        same == (a@ == b@),
{
    a.to_owned() == b.to_owned()
}

/// The texts of a list of names.
pub open spec fn texts(names: Seq<&str>) -> Seq<Seq<char>> {
    Seq::new(names.len(), |j: int| names[j]@)
}

/// `name` is one of `names`.
pub open spec fn is_listed(name: Seq<char>, names: Seq<Seq<char>>) -> bool {
    exists|j: int| 0 <= j < names.len() && #[trigger] names[j] == name
}

/// Those of the first `n` layers whose name is listed, in order.
pub open spec fn named_layers(layers: Seq<Layer>, names: Seq<Seq<char>>, n: int) -> Seq<Layer>
    decreases n,
{
    if n <= 0 {
        Seq::empty()
    } else if is_listed(layers[n - 1].name@, names) {
        named_layers(layers, names, n - 1).push(layers[n - 1])
    } else {
        named_layers(layers, names, n - 1)
    }
}

/// The layers that a selection refers to.
pub open spec fn layers_of(picked: Seq<&Layer>) -> Seq<Layer> {
    Seq::new(picked.len(), |i: int| *picked[i])
}

fn name_is_listed(name: &String, names: &Vec<&str>) -> (listed: bool)
    ensures
        listed == is_listed(name@, texts(names@)),
{
    let mut j: usize = 0;
    while j < names.len()
        invariant
            j <= names.len(),
            forall|k: int| 0 <= k < j ==> #[trigger] texts(names@)[k] != name@,
        decreases names.len() - j,
    {
        if same_text(name.as_str(), names[j]) {
            assert(texts(names@)[j as int] == name@);
            return true;
        }
        j += 1;
    }
    false
}

/// The layers of the chart whose name is one of `names`, in the chart's
/// order.
pub fn get_layers<'a>(ds: &'a Dataset, names: Vec<&'a str>) -> (layers: Vec<&'a Layer>)
    ensures
        layers_of(layers@) == named_layers(ds.layers@, texts(names@), ds.layers@.len() as int),
{
    let mut layers: Vec<&Layer> = Vec::new();
    let mut l: usize = 0;
    proof {
        assert(layers_of(layers@) =~= named_layers(ds.layers@, texts(names@), 0));
    }
    while l < ds.layers.len()
        invariant
            l <= ds.layers.len(),
            layers_of(layers@) == named_layers(ds.layers@, texts(names@), l as int),
        decreases ds.layers.len() - l,
    {
        let layer = &ds.layers[l];
        if name_is_listed(&layer.name, &names) {
            let ghost before = layers_of(layers@);
            layers.push(layer);
            proof {
                assert(layers_of(layers@) =~= before.push(*layer));
            }
        }
        l += 1;
    }
    layers
}

/// The last of the chart's layers that has the given name.
pub open spec fn last_layer_named(layers: Seq<Layer>, name: Seq<char>) -> Option<Layer> {
    let named = named_layers(layers, seq![name], layers.len() as int);
    if named.len() > 0 {
        Some(named.last())
    } else {
        None
    }
}

fn get_last_layer<'a>(ds: &'a Dataset, name: &'a str) -> (layer: Option<&'a Layer>)
    ensures
        match layer {
            Some(l) => last_layer_named(ds.layers@, name@) == Some(*l),
            None => last_layer_named(ds.layers@, name@) is None,
        },
{
    let mut names: Vec<&str> = Vec::new();
    names.push(name);
    proof {
        assert(texts(names@) =~= seq![name@]);
    }
    let mut layers = get_layers(ds, names);
    let ghost picked = layers@;
    let layer = layers.pop();
    proof {
        if picked.len() > 0 {
            assert(layers_of(picked).last() == *picked[picked.len() - 1]);
        }
    }
    layer
}

/// The chart's layer of depth soundings, named `SOUNDG`: the last one if
/// there are several, nothing if there is none.
pub fn get_soundg_layer(ds: &Dataset) -> (layer: Option<&Layer>)
    ensures
        match layer {
            Some(l) => last_layer_named(ds.layers@, "SOUNDG"@) == Some(*l),
            None => last_layer_named(ds.layers@, "SOUNDG"@) is None,
        },
{
    get_last_layer(ds, "SOUNDG")
}

/// The chart's layer of depth areas, named `DEPARE`: the last one if there
/// are several, nothing if there is none.
pub fn get_depare_layer(ds: &Dataset) -> (layer: Option<&Layer>)
    ensures
        match layer {
            Some(l) => last_layer_named(ds.layers@, "DEPARE"@) == Some(*l),
            None => last_layer_named(ds.layers@, "DEPARE"@) is None,
        },
{
    get_last_layer(ds, "DEPARE")
}

/// The positions of the points, without their depths.
pub fn points_of(points: &Vec<(i64, i64, i64)>) -> (flat: Vec<Point>)
    ensures
        flat@ == positions(points@),
{
    let mut flat: Vec<Point> = Vec::new();
    let mut i: usize = 0;
    while i < points.len()
        invariant
            i <= points.len(),
            flat@ == positions(points@.take(i as int)),
        decreases points.len() - i,
    {
        let p = points[i];
        flat.push(Point { x: p.0, y: p.1 });
        proof {
            assert(flat@ =~= positions(points@.take(i + 1)));
        }
        i += 1;
    }
    proof {
        assert(points@.take(i as int) =~= points@);
    }
    flat
}

/// Whether a part is a line, a ring or a polygon.
pub fn kind_is_outline(kind: GeometryKind) -> (outline: bool)
    ensures
        outline == is_outline(kind),
{
    match kind {
        GeometryKind::LinearRing | GeometryKind::LineString | GeometryKind::Polygon => true,
        _ => false,
    }
}

/// The closed rings of the outlines among the first `n` parts.
pub open spec fn part_rings(parts: Seq<GeometryPart>, n: int) -> Seq<Seq<Point>>
    decreases n,
{
    if n <= 0 {
        Seq::empty()
    } else if is_outline(parts[n - 1].kind) {
        part_rings(parts, n - 1).push(close_ring(positions(parts[n - 1].points@)))
    } else {
        part_rings(parts, n - 1)
    }
}

/// The rings of a feature; none where it has no geometry.
pub open spec fn rings_of_feature(feature: Feature) -> Seq<Seq<Point>> {
    match feature.geometry {
        Some(g) => part_rings(g.parts@, g.parts@.len() as int),
        None => Seq::empty(),
    }
}

/// The rings of the first `n` features.
pub open spec fn feature_rings(features: Seq<Feature>, n: int) -> Seq<Seq<Point>>
    decreases n,
{
    if n <= 0 {
        Seq::empty()
    } else {
        feature_rings(features, n - 1) + rings_of_feature(features[n - 1])
    }
}

/// The rings of the first `n` layers.
pub open spec fn layer_rings(layers: Seq<Layer>, n: int) -> Seq<Seq<Point>>
    decreases n,
{
    if n <= 0 {
        Seq::empty()
    } else {
        layer_rings(layers, n - 1) + feature_rings(
            layers[n - 1].features@,
            layers[n - 1].features@.len() as int,
        )
    }
}

/// Adds the rings of the outlines of a geometry as polygons.
fn push_part_polygons(polygons: &mut Vec<Polygon>, parts: &Vec<GeometryPart>)
    ensures
        rings_of(final(polygons)@) == rings_of(old(polygons)@) + part_rings(
            parts@,
            parts@.len() as int,
        ),
{
    let ghost start = rings_of(polygons@);
    let mut i: usize = 0;
    proof {
        assert(rings_of(polygons@) =~= start + part_rings(parts@, 0));
    }
    while i < parts.len()
        invariant
            i <= parts.len(),
            rings_of(polygons@) == start + part_rings(parts@, i as int),
        decreases parts.len() - i,
    {
        let part = &parts[i];
        if kind_is_outline(part.kind) {
            let polygon = Polygon::new(points_of(&part.points));
            let ghost before = rings_of(polygons@);
            polygons.push(polygon);
            proof {
                assert(rings_of(polygons@) =~= before.push(polygon@));
                assert(rings_of(polygons@) =~= start + part_rings(parts@, i + 1));
            }
        }
        i += 1;
    }
}

/// The outlines of the layers' features as closed polygons: layer by layer,
/// feature by feature, part by part. Features without geometry and parts
/// that are no outlines give none.
pub fn get_merc_polygons_from_layers(layers: &Vec<&Layer>) -> (polygons: Vec<Polygon>)
    ensures
        rings_of(polygons@) == layer_rings(layers_of(layers@), layers@.len() as int),
{
    let mut polygons: Vec<Polygon> = Vec::new();
    let mut l: usize = 0;
    proof {
        assert(rings_of(polygons@) =~= layer_rings(layers_of(layers@), 0));
    }
    while l < layers.len()
        invariant
            l <= layers.len(),
            rings_of(polygons@) == layer_rings(layers_of(layers@), l as int),
        decreases layers.len() - l,
    {
        let layer = layers[l];
        let ghost start = rings_of(polygons@);
        let mut f: usize = 0;
        proof {
            assert(layers_of(layers@)[l as int] == *layer);
            assert(rings_of(polygons@) =~= start + feature_rings(layer.features@, 0));
        }
        while f < layer.features.len()
            invariant
                f <= layer.features.len(),
                rings_of(polygons@) == start + feature_rings(layer.features@, f as int),
            decreases layer.features.len() - f,
        {
            let ghost before = rings_of(polygons@);
            match &layer.features[f].geometry {
                Some(g) => {
                    push_part_polygons(&mut polygons, &g.parts);
                },
                None => {},
            }
            proof {
                assert(rings_of(polygons@) =~= before + rings_of_feature(layer.features@[f as int]));
                assert(rings_of(polygons@) =~= start + feature_rings(layer.features@, f + 1));
            }
            f += 1;
        }
        l += 1;
    }
    polygons
}

/// The polygons of the chart's layers named `layer_name`, with the colour
/// they are to be filled in. Triangles and vertices are still to come.
pub fn get_plotgeo_from_layer_in_dataset(layer_name: &String, ds: &Dataset, color: Color) -> (plot:
    PlotGeometry)
    ensures
        rings_of(plot.polygons@) == layer_rings(
            named_layers(ds.layers@, seq![layer_name@], ds.layers@.len() as int),
            named_layers(ds.layers@, seq![layer_name@], ds.layers@.len() as int).len() as int,
        ),
        plot.triangles@.len() == 0,
        plot.vertex_vec@.len() == 0,
        plot.color == color,
        plot.layer_name@ == layer_name@,
{
    let mut names: Vec<&str> = Vec::new();
    names.push(layer_name.as_str());
    proof {
        assert(texts(names@) =~= seq![layer_name@]);
    }
    let layers = get_layers(ds, names);
    let polygons = get_merc_polygons_from_layers(&layers);
    PlotGeometry::new(polygons, Vec::new(), color, layer_name.clone(), Vec::new())
}

} // verus!
