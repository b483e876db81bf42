use chart_geometry::color::Color;
use chart_geometry::depare::{
    depare_rings, get_color_for_depth, get_depare_from_layer, metres_to_feet, DepareLayer,
    DepthRange, DEPARE,
};
use chart_geometry::extent::{LayerExtent, Point};
use chart_geometry::geometry::{
    Feature, Geometry, GeometryKind, GeometryPart, Layer, Triangle, Vertex,
};

fn p(x: i64, y: i64) -> Point {
    Point { x, y }
}

fn tri(a: (i64, i64), b: (i64, i64), c: (i64, i64)) -> Triangle {
    Triangle(p(a.0, a.1), p(b.0, b.1), p(c.0, c.1))
}

fn part(kind: GeometryKind, points: Vec<(i64, i64, i64)>) -> GeometryPart {
    GeometryPart { kind, points }
}

const DEEP: Color = Color { r: 212, g: 234, b: 238, a: 255 };
const SAFE: Color = Color { r: 186, g: 213, b: 225, a: 255 };
const SHALLOW: Color = Color { r: 115, g: 182, b: 239, a: 255 };
const WHITE: Color = Color { r: 255, g: 255, b: 255, a: 255 };

#[test]
fn metres_become_feet() {
    assert_eq!(metres_to_feet(1000), 3_281_000);
    assert_eq!(metres_to_feet(5000), 16_405_000);
    assert_eq!(metres_to_feet(-2), -6562);
    assert_eq!(metres_to_feet(i64::MAX), i64::MAX as i128 * 3281);
}

#[test]
fn depth_colours_by_band() {
    assert_eq!(get_color_for_depth(19_000_001), DEEP);
    assert_eq!(get_color_for_depth(19_000_000), SAFE);
    assert_eq!(get_color_for_depth(6_500_001), SAFE);
    assert_eq!(get_color_for_depth(6_500_000), SHALLOW);
    assert_eq!(get_color_for_depth(0), SHALLOW);
    assert_eq!(get_color_for_depth(-5), SHALLOW);
    assert_eq!(get_color_for_depth(i128::MAX), DEEP);
    assert_eq!(get_color_for_depth(i128::MIN), SHALLOW);
}

#[test]
fn sum_vertices_appends_every_region() {
    let a = Vertex { position: p(1, 1), color: DEEP };
    let b = Vertex { position: p(2, 2), color: SAFE };
    let c = Vertex { position: p(3, 3), color: SHALLOW };
    let range = DepthRange { shallow: 0, deep: 1 };
    let mut d = DEPARE {
        layers: vec![
            DepareLayer::new(vec![a, b], WHITE, range),
            DepareLayer::new(vec![], WHITE, range),
            DepareLayer::new(vec![c], WHITE, range),
        ],
        vertices: vec![c],
        extent: LayerExtent::empty(),
    };
    d.sum_vertices();
    assert_eq!(d.vertices, vec![c, a, b, c]);
    assert_eq!(d.layers.len(), 3);
    assert_eq!(d.extent, LayerExtent::empty());
}

fn depth_layer() -> Layer {
    Layer {
        name: "DEPARE".to_string(),
        features: vec![
            // 0: two outlines at 10 m, one point part
            Feature {
                geometry: Some(Geometry {
                    parts: vec![
                        part(GeometryKind::Polygon, vec![(0, 0, 0), (10, 0, 0), (10, 10, 0)]),
                        part(GeometryKind::Point25D, vec![(1, 1, 1)]),
                        part(GeometryKind::LinearRing, vec![(1, 1, 0), (2, 2, 0)]),
                    ],
                }),
                drval1: Some(10_000),
                drval2: Some(20_000),
            },
            // 1: no geometry
            Feature { geometry: None, drval1: Some(1), drval2: Some(2) },
            // 2: no shallow bound
            Feature {
                geometry: Some(Geometry {
                    parts: vec![part(
                        GeometryKind::Polygon,
                        vec![(0, 0, 0), (1, 0, 0), (1, 1, 0)],
                    )],
                }),
                drval1: None,
                drval2: Some(2),
            },
            // 3: no deep bound
            Feature {
                geometry: Some(Geometry { parts: vec![] }),
                drval1: Some(2),
                drval2: None,
            },
            // 4: one outline at 1 m
            Feature {
                geometry: Some(Geometry {
                    parts: vec![part(
                        GeometryKind::LineString,
                        vec![(20, 20, 0), (30, 20, 0), (30, 30, 0), (20, 20, 0)],
                    )],
                }),
                drval1: Some(1000),
                drval2: Some(5000),
            },
            // 5: no geometry, no depth
            Feature { geometry: None, drval1: None, drval2: None },
        ],
    }
}

#[test]
fn depth_rings_of_a_layer() {
    let out = depare_rings(&depth_layer());
    assert_eq!(out.without_geometry, 2);
    assert_eq!(out.without_depth, 2);
    let rings: Vec<(Vec<Point>, DepthRange)> =
        out.rings.iter().map(|r| (r.polygon.exterior().clone(), r.depth)).collect();
    assert_eq!(
        rings,
        vec![
            (
                vec![p(0, 0), p(10, 0), p(10, 10), p(0, 0)],
                DepthRange { shallow: 10_000, deep: 20_000 }
            ),
            (vec![p(1, 1), p(2, 2), p(1, 1)], DepthRange { shallow: 10_000, deep: 20_000 }),
            (
                vec![p(20, 20), p(30, 20), p(30, 30), p(20, 20)],
                DepthRange { shallow: 1000, deep: 5000 }
            ),
        ]
    );
}

#[test]
fn depth_areas_of_a_layer() {
    let cuts = vec![
        vec![tri((0, 0), (10, 0), (10, 10))],
        vec![tri((99, 99), (99, 99), (99, 99))],
        vec![tri((20, 20), (30, 20), (30, 30)), tri((20, 20), (30, 30), (25, 40))],
    ];
    let load = get_depare_from_layer(&depth_layer(), &cuts);
    assert_eq!(load.without_geometry, 2);
    assert_eq!(load.without_depth, 2);
    assert_eq!(load.rejected, 1);
    // 10 m is 32.81 feet: deep; 1 m is 3.281 feet: shallow
    assert_eq!(
        load.depare.vertices,
        vec![
            Vertex { position: p(0, 0), color: DEEP },
            Vertex { position: p(10, 0), color: DEEP },
            Vertex { position: p(10, 10), color: DEEP },
            Vertex { position: p(20, 20), color: SHALLOW },
            Vertex { position: p(30, 20), color: SHALLOW },
            Vertex { position: p(30, 30), color: SHALLOW },
            Vertex { position: p(20, 20), color: SHALLOW },
            Vertex { position: p(30, 30), color: SHALLOW },
            Vertex { position: p(25, 40), color: SHALLOW },
        ]
    );
    assert_eq!(load.depare.vertices.len() % 3, 0);
    assert_eq!(
        load.depare.layers,
        vec![
            DepareLayer::new(
                vec![
                    Vertex { position: p(0, 0), color: DEEP },
                    Vertex { position: p(10, 0), color: DEEP },
                    Vertex { position: p(10, 10), color: DEEP },
                ],
                DEEP,
                DepthRange { shallow: 10_000, deep: 20_000 }
            ),
            DepareLayer::new(
                vec![
                    Vertex { position: p(20, 20), color: SHALLOW },
                    Vertex { position: p(30, 20), color: SHALLOW },
                    Vertex { position: p(30, 30), color: SHALLOW },
                    Vertex { position: p(20, 20), color: SHALLOW },
                    Vertex { position: p(30, 30), color: SHALLOW },
                    Vertex { position: p(25, 40), color: SHALLOW },
                ],
                SHALLOW,
                DepthRange { shallow: 1000, deep: 5000 }
            ),
        ]
    );
    let summed: Vec<Vertex> =
        load.depare.layers.iter().flat_map(|region| region.vertices.clone()).collect();
    assert_eq!(load.depare.vertices, summed);
    assert_eq!(load.depare.extent, LayerExtent { MinX: 0, MaxX: 30, MinY: 0, MaxY: 40 });
}

#[test]
fn middle_band_colour() {
    let layer = Layer {
        name: "DEPARE".to_string(),
        features: vec![Feature {
            geometry: Some(Geometry {
                parts: vec![part(GeometryKind::Polygon, vec![(0, 0, 0), (1, 0, 0), (1, 1, 0)])],
            }),
            // 5 m is 16.405 feet
            drval1: Some(5000),
            drval2: Some(9000),
        }],
    };
    let load = get_depare_from_layer(&layer, &vec![vec![tri((0, 0), (1, 0), (1, 1))]]);
    assert_eq!(load.depare.vertices.len(), 3);
    assert!(load.depare.vertices.iter().all(|v| v.color == SAFE));
    assert_eq!(load.depare.layers.len(), 1);
    assert_eq!(load.depare.layers[0].color, SAFE);
    assert_eq!(load.depare.layers[0].vertices, load.depare.vertices);
    assert_eq!(load.depare.layers[0].depth, DepthRange { shallow: 5000, deep: 9000 });
}

#[test]
fn layer_without_features_gives_empty_depth_areas() {
    let layer = Layer { name: "DEPARE".to_string(), features: vec![] };
    let load = get_depare_from_layer(&layer, &vec![]);
    assert!(load.depare.vertices.is_empty());
    assert!(load.depare.layers.is_empty());
    assert_eq!(load.depare.extent, LayerExtent::empty());
    assert!(load.depare.extent.has_no_points());
    assert_eq!((load.without_geometry, load.without_depth, load.rejected), (0, 0, 0));
}

#[test]
fn missing_cuts_give_regions_without_vertices() {
    let load = get_depare_from_layer(&depth_layer(), &vec![]);
    assert!(load.depare.vertices.is_empty());
    assert_eq!(
        load.depare.layers,
        vec![
            DepareLayer::new(vec![], DEEP, DepthRange { shallow: 10_000, deep: 20_000 }),
            DepareLayer::new(vec![], SHALLOW, DepthRange { shallow: 1000, deep: 5000 }),
        ]
    );
    assert_eq!(load.rejected, 1);
    assert_eq!(load.depare.extent, LayerExtent::empty());
}
