//! What to draw: viewport culling, the density throttle, sounding labels
//! and the initial zoom.

use vstd::prelude::*;
use crate::color::Color;
use crate::depare::DEPARE;
use crate::extent::{extent_of, get_extent_area, LayerExtent, Point};
use crate::geometry::{get_vertices_extent, vertex_positions, PlotGeometry, Vertex};
use crate::soundings::{depth_in_feet, feet_label, label_text, signed_decimal, DepthLayer};

verus! {

/// The part of the plane that the window shows: a centre, a width and a
/// height.
#[derive(Clone, Copy, Debug, PartialEq, Eq, Structural)]
pub struct Viewport {
    pub center: Point,
    pub width: u64,
    pub height: u64,
}

impl Viewport {
    /// The view's left edge: the centre less half the width, rounded down.
    pub open spec fn left(self) -> int {
        self.center.x - self.width / 2
    }

    pub open spec fn right(self) -> int {
        self.center.x + self.width / 2
    }

    pub open spec fn top(self) -> int {
        self.center.y - self.height / 2
    }

    pub open spec fn bottom(self) -> int {
        self.center.y + self.height / 2
    }

    /// The box lies neither wholly above, below, left nor right of the
    /// view.
    pub open spec fn sees(self, e: LayerExtent) -> bool {
        !(e.MinY > self.bottom() || e.MaxY < self.top() || e.MaxX < self.left() || e.MinX
            > self.right())
    }

    /// Width times height.
    pub open spec fn area(self) -> nat {
        (self.width * self.height) as nat
    }
}

/// Soundings are drawn while the view is at most this many times as large
/// as the box around them.
pub const SOUNDING_DENSITY_LIMIT: u64 = 10;

/// Point markers are drawn while the view is at most this many times as
/// large as the box around them.
pub const MARKER_DENSITY_LIMIT: u64 = 40;

/// The view is more than `limit` times as large as the object.
pub open spec fn is_too_dense(view_area: nat, object_area: nat, limit: nat) -> bool {
    view_area > limit * object_area
}

/// Whether a box is in view.
pub fn is_extent_in_view(view: &Viewport, extent: &LayerExtent) -> (visible: bool)
    ensures
        visible == view.sees(*extent),
{
    let half_width: i128 = (view.width / 2) as i128;
    let half_height: i128 = (view.height / 2) as i128;
    let left: i128 = view.center.x as i128 - half_width;
    let right: i128 = view.center.x as i128 + half_width;
    let top: i128 = view.center.y as i128 - half_height;
    let bottom: i128 = view.center.y as i128 + half_height;
    if extent.MinY as i128 > bottom {
        return false;
    }
    if (extent.MaxY as i128) < top {
        return false;
    }
    if (extent.MaxX as i128) < left {
        return false;
    }
    if extent.MinX as i128 > right {
        return false;
    }
    true
}

/// A view whose edges are positions of the grid sees a box exactly when
/// the box of the view collides with it.
pub proof fn lemma_sees_is_collision(view: Viewport, e: LayerExtent)
    requires
        i64::MIN <= view.left(),
        view.right() <= i64::MAX,
        i64::MIN <= view.top(),
        view.bottom() <= i64::MAX,
    ensures
        view.sees(e) == crate::extent::collides(
            LayerExtent {
                MinX: view.left() as i64,
                MaxX: view.right() as i64,
                MinY: view.top() as i64,
                MaxY: view.bottom() as i64,
            },
            e,
        ),
{
}

/// Whether the view is more than `limit` times as large as the box.
pub fn exceeds_density(view: &Viewport, extent: &LayerExtent, limit: u64) -> (dense: bool)
    ensures
        dense == is_too_dense(view.area(), extent.area(), limit as nat),
{
    assert(view.width * view.height <= 0xffff_ffff_ffff_ffff * 0xffff_ffff_ffff_ffff)
        by (nonlinear_arith)
        requires
            view.width <= 0xffff_ffff_ffff_ffff,
            view.height <= 0xffff_ffff_ffff_ffff,
    ;
    let view_area: u128 = (view.width as u128) * (view.height as u128);
    let object_area: u128 = get_extent_area(extent);
    if object_area == 0 {
        assert(limit * object_area == 0) by (nonlinear_arith)
            requires
                object_area == 0,
        ;
        view_area > 0
    } else {
        let times = view_area / object_area;
        let rest = view_area % object_area;
        proof {
            let a = view_area as int;
            let b = object_area as int;
            let l = limit as int;
            assert(a == b * (a / b) + a % b && 0 <= a % b < b) by (nonlinear_arith)
                requires
                    b > 0,
                    a >= 0,
            ;
            assert((a > l * b) <==> (a / b > l || (a / b == l && a % b > 0))) by (nonlinear_arith)
                requires
                    b > 0,
                    a == b * (a / b) + a % b,
                    0 <= a % b < b,
            ;
        }
        times > limit as u128 || (times == limit as u128 && rest > 0)
    }
}

fn copy_vertices(vertices: &Vec<Vertex>) -> (copy: Vec<Vertex>)
    ensures
        copy@ == vertices@,
{
    let mut copy: Vec<Vertex> = Vec::new();
    let mut i: usize = 0;
    while i < vertices.len()
        invariant
            i <= vertices.len(),
            copy@ == vertices@.take(i as int),
        decreases vertices.len() - i,
    {
        copy.push(vertices[i]);
        proof {
            assert(copy@ =~= vertices@.take(i + 1));
        }
        i += 1;
    }
    proof {
        assert(vertices@.take(i as int) =~= vertices@);
    }
    copy
}

/// The vertices to hand to the screen: all of them where the box around
/// them is in view, none where it is not.
pub fn draw_vertex_vector(vertices: &Vec<Vertex>, vertex_extent: &LayerExtent, view: &Viewport) -> (drawn:
    Vec<Vertex>)
    ensures
        drawn@ == if view.sees(*vertex_extent) {
            vertices@
        } else {
            Seq::<Vertex>::empty()
        },
{
    if !is_extent_in_view(view, vertex_extent) {
        return Vec::new();
    }
    copy_vertices(vertices)
}

/// What an object hands to the screen.
#[derive(Clone, Debug, PartialEq, Eq)]
pub enum Drawing {
    /// Corners of filled triangles, three for each.
    Triangles(Vec<Vertex>),
    /// Depths to write.
    Labels(Vec<SoundingLabel>),
}

/// Something that can be drawn.
pub trait Plotable {
    /// What to draw of the object in the given view.
    fn render(&self, view: &Viewport) -> Drawing;
}

impl Plotable for PlotGeometry {
    /// The layer's vertices, where the box around them is in view.
    fn render(&self, view: &Viewport) -> (drawing: Drawing)
        ensures
            drawing matches Drawing::Triangles(drawn) && drawn@ == if view.sees(
                extent_of(vertex_positions(self.vertex_vec@)),
            ) {
                self.vertex_vec@
            } else {
                Seq::<Vertex>::empty()
            },
    {
        let extent = get_vertices_extent(&self.vertex_vec);
        Drawing::Triangles(draw_vertex_vector(&self.vertex_vec, &extent, view))
    }
}

impl Plotable for DEPARE {
    /// The chart's vertices, where its box is in view.
    fn render(&self, view: &Viewport) -> (drawing: Drawing)
        ensures
            drawing matches Drawing::Triangles(drawn) && drawn@ == if view.sees(self.extent) {
                self.vertices@
            } else {
                Seq::<Vertex>::empty()
            },
    {
        Drawing::Triangles(draw_vertex_vector(&self.vertices, &self.extent, view))
    }
}

impl Plotable for DepthLayer {
    /// The labels of the soundings, under the density limit for soundings.
    fn render(&self, view: &Viewport) -> (drawing: Drawing)
        ensures
            drawing matches Drawing::Labels(labels) && (!soundings_shown(
                *self,
                *view,
                SOUNDING_DENSITY_LIMIT,
            ) ==> labels@.len() == 0) && (soundings_shown(*self, *view, SOUNDING_DENSITY_LIMIT)
                ==> labels@.len() == self.coordinates@.len() && forall|i: int|
                0 <= i < labels@.len() ==> is_label_of(#[trigger] labels@[i], self.coordinates@[i])),
    {
        Drawing::Labels(render_soundg(self, view, SOUNDING_DENSITY_LIMIT))
    }
}

/// A depth to write on the chart.
#[derive(Clone, Debug, PartialEq, Eq)]
pub struct SoundingLabel {
    pub position: Point,
    /// The depth in whole feet.
    pub feet: i64,
    /// The depth in whole feet, in decimal digits.
    pub text: String,
    pub color: Color,
}

/// The label of a sounding is at its position, reads its depth in feet and
/// is white.
pub open spec fn is_label_of(label: SoundingLabel, sounding: (i64, i64, i64)) -> bool {
    &&& label.position == Point { x: sounding.0, y: sounding.1 }
    &&& label.feet == feet_label(sounding.2)
    &&& label.text@ == signed_decimal(feet_label(sounding.2))
    &&& label.color == Color::white()
}

/// The soundings are drawn: their box is in view, and the view is not more
/// than `limit` times as large as the box.
pub open spec fn soundings_shown(soundings: DepthLayer, view: Viewport, limit: u64) -> bool {
    view.sees(soundings.extent_spec()) && !is_too_dense(
        view.area(),
        soundings.extent_spec().area(),
        limit as nat,
    )
}

/// The labels to draw for a layer of soundings.
///
/// None when the box around the soundings is out of view, and none when
/// the view is more than `limit` times as large as that box: so many
/// labels so close together could not be read. Otherwise one label for
/// each sounding, in order.
pub fn render_soundg(depth_soundings: &DepthLayer, view: &Viewport, limit: u64) -> (labels: Vec<
    SoundingLabel,
>)
    ensures
        !soundings_shown(*depth_soundings, *view, limit) ==> labels@.len() == 0,
        soundings_shown(*depth_soundings, *view, limit) ==> labels@.len()
            == depth_soundings.coordinates@.len() && forall|i: int|
            0 <= i < labels@.len() ==> is_label_of(
                #[trigger] labels@[i],
                depth_soundings.coordinates@[i],
            ),
{
    let mut labels: Vec<SoundingLabel> = Vec::new();
    let extent = depth_soundings.extent();
    if !is_extent_in_view(view, &extent) {
        return labels;
    }
    if exceeds_density(view, &extent, limit) {
        return labels;
    }
    let mut i: usize = 0;
    while i < depth_soundings.coordinates.len()
        invariant
            i <= depth_soundings.coordinates.len(),
            labels@.len() == i,
            forall|k: int|
                0 <= k < i ==> is_label_of(#[trigger] labels@[k], depth_soundings.coordinates@[k]),
        decreases depth_soundings.coordinates.len() - i,
    {
        let sounding = depth_soundings.coordinates[i];
        let feet = depth_in_feet(sounding.2);
        labels.push(
            SoundingLabel {
                position: Point { x: sounding.0, y: sounding.1 },
                feet,
                text: label_text(feet),
                color: Color::rgb(255, 255, 255),
            },
        );
        i += 1;
    }
    labels
}

/// Point markers with the box around them.
#[derive(Clone, Debug, PartialEq, Eq)]
pub struct BuoyLayer {
    pub vertices: Vec<Vertex>,
    pub extent: LayerExtent,
}

/// The markers to draw: all of the layer's, unless the view is more than
/// `limit` times as large as the box around them.
pub fn render_buoy(buoy: &BuoyLayer, view: &Viewport, limit: u64) -> (markers: Vec<Vertex>)
    ensures
        markers@ == if is_too_dense(view.area(), buoy.extent.area(), limit as nat) {
            Seq::<Vertex>::empty()
        } else {
            buoy.vertices@
        },
{
    if exceeds_density(view, &buoy.extent, limit) {
        Vec::new()
    } else {
        copy_vertices(&buoy.vertices)
    }
}

/// The smallest box that covers both, where neither is empty.
pub open spec fn join(a: LayerExtent, b: LayerExtent) -> LayerExtent {
    LayerExtent {
        MinX: if b.MinX < a.MinX {
            b.MinX
        } else {
            a.MinX
        },
        MaxX: if b.MaxX > a.MaxX {
            b.MaxX
        } else {
            a.MaxX
        },
        MinY: if b.MinY < a.MinY {
            b.MinY
        } else {
            a.MinY
        },
        MaxY: if b.MaxY > a.MaxY {
            b.MaxY
        } else {
            a.MaxY
        },
    }
}

/// The box around the boxes of those of the first `n` charts that have
/// geometry.
pub open spec fn joined_extent(depare_layers: Seq<(DEPARE, String)>, n: int) -> LayerExtent
    decreases n,
{
    if n <= 0 {
        LayerExtent::nothing()
    } else if depare_layers[n - 1].0.extent.is_empty() {
        joined_extent(depare_layers, n - 1)
    } else {
        join(joined_extent(depare_layers, n - 1), depare_layers[n - 1].0.extent)
    }
}

/// The centre of a box and how often its height fits into the view's, if
/// the box has a height.
pub open spec fn zoom_onto(e: LayerExtent, view: Viewport) -> Option<(Point, u64)> {
    if e.is_empty() || e.MinY == e.MaxY {
        None
    } else {
        Some(
            (
                Point {
                    x: (e.MinX + (e.MaxX - e.MinX) / 2) as i64,
                    y: (e.MinY + (e.MaxY - e.MinY) / 2) as i64,
                },
                (view.height as int / (e.MaxY - e.MinY)) as u64,
            ),
        )
    }
}

/// Where to look first: the centre of the box around all depth areas, and
/// the factor by which to enlarge so that the box fills the view's height,
/// rounded down. Nothing when no chart has geometry or the box has no
/// height.
pub fn get_zoom(depare_layers: &Vec<(DEPARE, String)>, view: &Viewport) -> (zoom: Option<(Point, u64)>)
    ensures
        zoom == zoom_onto(joined_extent(depare_layers@, depare_layers@.len() as int), *view),
{
    let mut e = LayerExtent::empty();
    let mut i: usize = 0;
    while i < depare_layers.len()
        invariant
            i <= depare_layers.len(),
            e == joined_extent(depare_layers@, i as int),
        decreases depare_layers.len() - i,
    {
        let other = &depare_layers[i].0.extent;
        if !other.has_no_points() {
            e = LayerExtent {
                MinX: if other.MinX < e.MinX {
                    other.MinX
                } else {
                    e.MinX
                },
                MaxX: if other.MaxX > e.MaxX {
                    other.MaxX
                } else {
                    e.MaxX
                },
                MinY: if other.MinY < e.MinY {
                    other.MinY
                } else {
                    e.MinY
                },
                MaxY: if other.MaxY > e.MaxY {
                    other.MaxY
                } else {
                    e.MaxY
                },
            };
        }
        i += 1;
    }
    if e.has_no_points() || e.MinY == e.MaxY {
        return None;
    }
    let width: i128 = e.MaxX as i128 - e.MinX as i128;
    let height: i128 = e.MaxY as i128 - e.MinY as i128;
    let x_el: i128 = e.MinX as i128 + width / 2;
    let y_el: i128 = e.MinY as i128 + height / 2;
    let y_zoom: u128 = (view.height as u128) / (height as u128);
    Some((Point { x: x_el as i64, y: y_el as i64 }, y_zoom as u64))
}

} // verus!
