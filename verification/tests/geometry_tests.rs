use chart_geometry::color::Color;
use chart_geometry::extent::{LayerExtent, Point};
use chart_geometry::geometry::{
    get_depare_layer, get_layers, get_merc_polygons_from_layers, get_plotgeo_from_layer_in_dataset,
    get_soundg_layer, get_vertices_extent, kind_is_outline, points_of, push_triangle_vertices,
    triangles_from_scaled_polygons, Dataset, Feature, Geometry, GeometryKind, GeometryPart, Layer,
    PlotGeometry, Polygon, Triangle, Vertex,
};

fn p(x: i64, y: i64) -> Point {
    Point { x, y }
}

fn tri(a: (i64, i64), b: (i64, i64), c: (i64, i64)) -> Triangle {
    Triangle(p(a.0, a.1), p(b.0, b.1), p(c.0, c.1))
}

fn square() -> Polygon {
    Polygon::new(vec![p(0, 0), p(10, 0), p(10, 10), p(0, 10)])
}

fn part(kind: GeometryKind, points: Vec<(i64, i64, i64)>) -> GeometryPart {
    GeometryPart { kind, points }
}

fn feature(parts: Vec<GeometryPart>) -> Feature {
    Feature { geometry: Some(Geometry { parts }), drval1: None, drval2: None }
}

fn layer(name: &str, features: Vec<Feature>) -> Layer {
    Layer { name: name.to_string(), features }
}

const RED: Color = Color { r: 255, g: 0, b: 0, a: 255 };

#[test]
fn open_ring_is_closed() {
    let polygon = Polygon::new(vec![p(0, 0), p(10, 0), p(10, 10)]);
    assert_eq!(polygon.exterior(), &vec![p(0, 0), p(10, 0), p(10, 10), p(0, 0)]);
    assert_eq!(polygon.coords_count(), 4);
    assert!(polygon.has_enough_points());
}

#[test]
fn closed_ring_is_kept() {
    let ring = vec![p(0, 0), p(10, 0), p(10, 10), p(0, 0)];
    let polygon = Polygon::new(ring.clone());
    assert_eq!(polygon.exterior(), &ring);
    assert_eq!(polygon.coords_count(), 4);
}

#[test]
fn rings_with_few_points_are_not_accepted() {
    let none = Polygon::new(vec![]);
    assert_eq!(none.coords_count(), 0);
    assert!(!none.has_enough_points());
    let one = Polygon::new(vec![p(1, 1)]);
    assert_eq!(one.coords_count(), 1);
    assert!(!one.has_enough_points());
    let two = Polygon::new(vec![p(1, 1), p(2, 2)]);
    assert_eq!(two.exterior(), &vec![p(1, 1), p(2, 2), p(1, 1)]);
    assert!(!two.has_enough_points());
    let same = Polygon::new(vec![p(1, 1), p(1, 1)]);
    assert_eq!(same.coords_count(), 2);
    assert!(!same.has_enough_points());
    let back = Polygon::new(vec![p(1, 1), p(2, 2), p(1, 1)]);
    assert_eq!(back.coords_count(), 3);
    assert!(!back.has_enough_points());
}

#[test]
fn cloned_polygon_has_the_same_ring() {
    let polygon = square();
    let copy = polygon.clone();
    assert_eq!(copy, polygon);
    assert_eq!(copy.exterior(), polygon.exterior());
}

#[test]
fn three_vertices_for_each_triangle() {
    let triangles = vec![tri((0, 0), (1, 0), (0, 1)), tri((5, 5), (6, 5), (5, 6))];
    let mut vertices = vec![Vertex { position: p(9, 9), color: RED }];
    let blue = Color { r: 0, g: 0, b: 255, a: 255 };
    push_triangle_vertices(&mut vertices, &triangles, blue);
    assert_eq!(vertices.len(), 1 + 3 * triangles.len());
    assert_eq!(
        vertices,
        vec![
            Vertex { position: p(9, 9), color: RED },
            Vertex { position: p(0, 0), color: blue },
            Vertex { position: p(1, 0), color: blue },
            Vertex { position: p(0, 1), color: blue },
            Vertex { position: p(5, 5), color: blue },
            Vertex { position: p(6, 5), color: blue },
            Vertex { position: p(5, 6), color: blue },
        ]
    );
}

#[test]
fn no_triangles_give_no_vertices() {
    let mut vertices = vec![];
    push_triangle_vertices(&mut vertices, &vec![], RED);
    assert!(vertices.is_empty());
}

#[test]
fn triangles_of_accepted_polygons_are_collected() {
    let polygons = vec![square(), Polygon::new(vec![p(0, 0), p(1, 1)]), square()];
    let cuts = vec![
        vec![tri((0, 0), (10, 0), (10, 10)), tri((0, 0), (10, 10), (0, 10))],
        vec![tri((9, 9), (9, 9), (9, 9))],
        vec![tri((1, 1), (2, 2), (3, 3))],
    ];
    let out = triangles_from_scaled_polygons(&polygons, &cuts);
    assert_eq!(
        out.triangles,
        vec![
            tri((0, 0), (10, 0), (10, 10)),
            tri((0, 0), (10, 10), (0, 10)),
            tri((1, 1), (2, 2), (3, 3)),
        ]
    );
    assert_eq!(out.rejected, 1);
}

#[test]
fn missing_cut_counts_as_no_triangles() {
    let polygons = vec![square(), square()];
    let cuts = vec![vec![tri((0, 0), (10, 0), (10, 10))]];
    let out = triangles_from_scaled_polygons(&polygons, &cuts);
    assert_eq!(out.triangles, vec![tri((0, 0), (10, 0), (10, 10))]);
    assert_eq!(out.rejected, 0);
}

#[test]
fn degenerate_input_gives_no_triangles() {
    let out = triangles_from_scaled_polygons(&vec![], &vec![]);
    assert!(out.triangles.is_empty());
    assert_eq!(out.rejected, 0);
    let out = triangles_from_scaled_polygons(&vec![Polygon::new(vec![])], &vec![vec![]]);
    assert!(out.triangles.is_empty());
    assert_eq!(out.rejected, 1);
}

#[test]
fn plot_geometry_is_triangulated_and_coloured() {
    let green = Color { r: 0, g: 255, b: 0, a: 255 };
    let mut plot = PlotGeometry::new(
        vec![square(), Polygon::new(vec![p(3, 3)])],
        vec![],
        green,
        "LNDARE".to_string(),
        vec![],
    );
    let cuts = vec![vec![tri((0, 0), (10, 0), (10, 10)), tri((0, 0), (10, 10), (0, 10))], vec![]];
    let rejected = plot.triangulate_and_scale(&cuts);
    assert_eq!(rejected, 1);
    assert_eq!(plot.triangles, cuts[0]);
    assert_eq!(plot.vertex_vec.len(), 3 * plot.triangles.len());
    assert_eq!(
        plot.vertex_vec,
        vec![
            Vertex { position: p(0, 0), color: green },
            Vertex { position: p(10, 0), color: green },
            Vertex { position: p(10, 10), color: green },
            Vertex { position: p(0, 0), color: green },
            Vertex { position: p(10, 10), color: green },
            Vertex { position: p(0, 10), color: green },
        ]
    );
    assert_eq!(plot.color, green);
    assert_eq!(plot.layer_name, "LNDARE");
    assert_eq!(plot.polygons.len(), 2);
}

#[test]
fn extent_of_vertices() {
    let vertices = vec![
        Vertex { position: p(3, -4), color: RED },
        Vertex { position: p(-7, 9), color: RED },
        Vertex { position: p(12, 0), color: RED },
    ];
    assert_eq!(
        get_vertices_extent(&vertices),
        LayerExtent { MinX: -7, MaxX: 12, MinY: -4, MaxY: 9 }
    );
    assert_eq!(get_vertices_extent(&vec![]), LayerExtent::empty());
}

#[test]
fn outlines_are_lines_rings_and_polygons() {
    assert!(kind_is_outline(GeometryKind::LinearRing));
    assert!(kind_is_outline(GeometryKind::LineString));
    assert!(kind_is_outline(GeometryKind::Polygon));
    assert!(!kind_is_outline(GeometryKind::Point25D));
    assert!(!kind_is_outline(GeometryKind::MultiPoint25D));
    assert!(!kind_is_outline(GeometryKind::MultiPointZM));
    assert!(!kind_is_outline(GeometryKind::Other));
}

#[test]
fn positions_drop_the_depth() {
    assert_eq!(points_of(&vec![(1, 2, 3), (4, 5, 6)]), vec![p(1, 2), p(4, 5)]);
    assert!(points_of(&vec![]).is_empty());
}

fn chart() -> Dataset {
    Dataset {
        layers: vec![
            layer(
                "LNDARE",
                vec![
                    feature(vec![
                        part(GeometryKind::Polygon, vec![(0, 0, 0), (4, 0, 0), (4, 4, 0)]),
                        part(GeometryKind::Point25D, vec![(9, 9, 9)]),
                        part(GeometryKind::LinearRing, vec![(1, 1, 0), (2, 2, 0)]),
                    ]),
                    Feature { geometry: None, drval1: None, drval2: None },
                ],
            ),
            layer("SOUNDG", vec![feature(vec![part(GeometryKind::MultiPoint25D, vec![(1, 1, 5)])])]),
            layer(
                "COALNE",
                vec![feature(vec![part(GeometryKind::LineString, vec![(7, 7, 0), (8, 8, 0)])])],
            ),
            layer("SOUNDG", vec![]),
            layer(
                "LNDARE",
                vec![feature(vec![part(
                    GeometryKind::LineString,
                    vec![(5, 5, 0), (6, 5, 0), (6, 6, 0), (5, 5, 0)],
                )])],
            ),
        ],
    }
}

#[test]
fn layers_are_picked_by_name_in_order() {
    let ds = chart();
    let picked = get_layers(&ds, vec!["LNDARE"]);
    assert_eq!(picked.len(), 2);
    assert!(std::ptr::eq(picked[0], &ds.layers[0]));
    assert!(std::ptr::eq(picked[1], &ds.layers[4]));
    let picked = get_layers(&ds, vec!["COALNE", "SOUNDG"]);
    assert_eq!(picked.len(), 3);
    assert!(std::ptr::eq(picked[0], &ds.layers[1]));
    assert!(std::ptr::eq(picked[1], &ds.layers[2]));
    assert!(std::ptr::eq(picked[2], &ds.layers[3]));
    assert!(get_layers(&ds, vec!["DEPARE"]).is_empty());
    assert!(get_layers(&ds, vec![]).is_empty());
}

#[test]
fn sounding_layer_is_the_last_of_that_name() {
    let ds = chart();
    let found = get_soundg_layer(&ds).unwrap();
    assert!(std::ptr::eq(found, &ds.layers[3]));
}

#[test]
fn missing_layers_are_none() {
    let ds = chart();
    assert!(get_depare_layer(&ds).is_none());
    let empty = Dataset { layers: vec![] };
    assert!(get_soundg_layer(&empty).is_none());
    assert!(get_depare_layer(&empty).is_none());
}

#[test]
fn depth_area_layer_is_found() {
    let ds = Dataset { layers: vec![layer("SOUNDG", vec![]), layer("DEPARE", vec![])] };
    assert!(std::ptr::eq(get_depare_layer(&ds).unwrap(), &ds.layers[1]));
    assert!(std::ptr::eq(get_soundg_layer(&ds).unwrap(), &ds.layers[0]));
}

#[test]
fn outlines_become_closed_polygons() {
    let ds = chart();
    let layers = get_layers(&ds, vec!["LNDARE", "COALNE"]);
    let polygons = get_merc_polygons_from_layers(&layers);
    let rings: Vec<Vec<Point>> = polygons.iter().map(|g| g.exterior().clone()).collect();
    assert_eq!(
        rings,
        vec![
            vec![p(0, 0), p(4, 0), p(4, 4), p(0, 0)],
            vec![p(1, 1), p(2, 2), p(1, 1)],
            vec![p(7, 7), p(8, 8), p(7, 7)],
            vec![p(5, 5), p(6, 5), p(6, 6), p(5, 5)],
        ]
    );
}

#[test]
fn no_layers_give_no_polygons() {
    assert!(get_merc_polygons_from_layers(&vec![]).is_empty());
}

#[test]
fn plot_geometry_of_a_layer_starts_without_triangles() {
    let ds = chart();
    let plot = get_plotgeo_from_layer_in_dataset(&"LNDARE".to_string(), &ds, RED);
    assert_eq!(plot.layer_name, "LNDARE");
    assert_eq!(plot.color, RED);
    assert!(plot.triangles.is_empty());
    assert!(plot.vertex_vec.is_empty());
    let rings: Vec<Vec<Point>> = plot.polygons.iter().map(|g| g.exterior().clone()).collect();
    assert_eq!(
        rings,
        vec![
            vec![p(0, 0), p(4, 0), p(4, 4), p(0, 0)],
            vec![p(1, 1), p(2, 2), p(1, 1)],
            vec![p(5, 5), p(6, 5), p(6, 6), p(5, 5)],
        ]
    );
}
