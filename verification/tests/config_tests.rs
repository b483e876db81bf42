use chart_geometry::color::Color;
use chart_geometry::config::{
    get_chart_directory, get_color_for_layer, get_config, get_layers, get_merc_scaling_size,
    get_resolution, try_get_chart_directory, try_get_layers, try_get_resolution, ColorWarning,
    ConfigError,
};

const DOCUMENT: &str = r#"
resolution_1 = 1280
resolution_2 = 720
merc_scaling_1 = 4096
merc_scaling_2 = 2048
layers = ["LNDARE", "COALNE"]
chart_directory = "./charts"

[LNDARE]
color = [201, 185, 122]

[COALNE]
color = "yeLLow"

[DEPCNT]
color = [1, 2, 3, 4]

[BUAARE]
color = "mauve"

[LAKARE]
color = [1, 2, 3, 4, 5]

[RIVERS]
color = 7

[ROADS]
color = [1, 2]

[TRACKS]
width = 3

[PIERS]
color = [1, "x", 3]
"#;

#[test]
fn resolution_is_read() {
    let c = get_config(DOCUMENT).unwrap();
    assert_eq!(get_resolution(&c), (1280, 720));
    assert_eq!(try_get_resolution(&c), Some((1280, 720)));
    assert_eq!(get_merc_scaling_size(&c), Some((4096, 2048)));
}

#[test]
fn resolution_missing_is_none() {
    let c = get_config("resolution_1 = 5\n").unwrap();
    assert_eq!(try_get_resolution(&c), None);
    let c = get_config("resolution_2 = 5\n").unwrap();
    assert_eq!(try_get_resolution(&c), None);
    let c = get_config("resolution_1 = 5\nresolution_2 = \"x\"\n").unwrap();
    assert_eq!(try_get_resolution(&c), None);
}

#[test]
fn resolution_is_cut_to_32_bits() {
    let c = get_config("resolution_1 = 4294967297\nresolution_2 = -1\n").unwrap();
    assert_eq!(get_resolution(&c), (1, 4294967295));
    assert_eq!(try_get_resolution(&c), Some((1, 4294967295)));
}

#[test]
fn layers_are_read_in_order() {
    let c = get_config(DOCUMENT).unwrap();
    assert_eq!(get_layers(&c), vec!["LNDARE".to_string(), "COALNE".to_string()]);
    assert_eq!(try_get_layers(&c), Some(vec!["LNDARE".to_string(), "COALNE".to_string()]));
}

#[test]
fn layers_with_a_number_is_none() {
    let c = get_config("layers = [\"A\", 3]\n").unwrap();
    assert_eq!(try_get_layers(&c), None);
    let c = get_config("layers = 3\n").unwrap();
    assert_eq!(try_get_layers(&c), None);
    let c = get_config("x = 3\n").unwrap();
    assert_eq!(try_get_layers(&c), None);
    let c = get_config("layers = []\n").unwrap();
    assert_eq!(try_get_layers(&c), Some(vec![]));
    assert_eq!(get_layers(&c), Vec::<String>::new());
}

#[test]
fn chart_directory_is_read() {
    let c = get_config(DOCUMENT).unwrap();
    assert_eq!(get_chart_directory(&c), "./charts");
    assert_eq!(try_get_chart_directory(&c), Some("./charts".to_string()));
    let c = get_config("chart_directory = 4\n").unwrap();
    assert_eq!(try_get_chart_directory(&c), None);
    let c = get_config("x = 4\n").unwrap();
    assert_eq!(try_get_chart_directory(&c), None);
}

#[test]
fn broken_document_is_a_syntax_error() {
    assert_eq!(get_config("resolution_1 = = 3").err(), Some(ConfigError::Syntax));
}

#[test]
fn colors_from_arrays() {
    let c = get_config(DOCUMENT).unwrap();
    assert_eq!(
        get_color_for_layer(&c, "LNDARE"),
        Ok((Color { r: 201, g: 185, b: 122, a: 255 }, None))
    );
    assert_eq!(get_color_for_layer(&c, "DEPCNT"), Ok((Color { r: 1, g: 2, b: 3, a: 4 }, None)));
}

#[test]
fn colors_from_names_ignore_case() {
    let c = get_config(DOCUMENT).unwrap();
    assert_eq!(
        get_color_for_layer(&c, "COALNE"),
        Ok((Color { r: 255, g: 255, b: 0, a: 255 }, None))
    );
}

#[test]
fn every_named_color() {
    let names = [
        ("red", Color { r: 255, g: 0, b: 0, a: 255 }),
        ("Green", Color { r: 0, g: 255, b: 0, a: 255 }),
        ("BLUE", Color { r: 0, g: 0, b: 255, a: 255 }),
        ("yellow", Color { r: 255, g: 255, b: 0, a: 255 }),
        ("magenta", Color { r: 255, g: 0, b: 255, a: 255 }),
        ("cyan", Color { r: 0, g: 255, b: 255, a: 255 }),
        ("transparent", Color { r: 0, g: 0, b: 0, a: 0 }),
    ];
    for (name, color) in names {
        let text = format!("[L]\ncolor = \"{}\"\n", name);
        let c = get_config(&text).unwrap();
        assert_eq!(get_color_for_layer(&c, "L"), Ok((color, None)));
    }
}

#[test]
fn fallback_is_red_with_a_warning() {
    let c = get_config(DOCUMENT).unwrap();
    let red = Color { r: 255, g: 0, b: 0, a: 255 };
    assert_eq!(get_color_for_layer(&c, "BUAARE"), Ok((red, Some(ColorWarning::UnknownName))));
    assert_eq!(
        get_color_for_layer(&c, "LAKARE"),
        Ok((red, Some(ColorWarning::WrongComponentCount)))
    );
    assert_eq!(get_color_for_layer(&c, "RIVERS"), Ok((red, Some(ColorWarning::UnsupportedValue))));
}

#[test]
fn color_errors() {
    let c = get_config(DOCUMENT).unwrap();
    assert_eq!(get_color_for_layer(&c, "NOSUCH"), Err(ConfigError::MissingLayer));
    assert_eq!(get_color_for_layer(&c, "resolution_1"), Err(ConfigError::MissingLayer));
    assert_eq!(get_color_for_layer(&c, "TRACKS"), Err(ConfigError::MissingColor));
    assert_eq!(get_color_for_layer(&c, "ROADS"), Err(ConfigError::BadComponent));
    assert_eq!(get_color_for_layer(&c, "PIERS"), Err(ConfigError::BadComponent));
    let c = get_config("[L]\ncolor = [1, 2, 3, \"x\"]\n").unwrap();
    assert_eq!(get_color_for_layer(&c, "L"), Err(ConfigError::BadComponent));
}

#[test]
fn color_components_are_cut_to_eight_bits() {
    let c = get_config("[L]\ncolor = [256, 257, -1]\n").unwrap();
    assert_eq!(get_color_for_layer(&c, "L"), Ok((Color { r: 0, g: 1, b: 255, a: 255 }, None)));
}

#[test]
fn layers_keep_order_and_duplicates() {
    let c = get_config("layers = [\"B\", \"A\", \"B\", \"\"]\n").unwrap();
    let expected =
        vec!["B".to_string(), "A".to_string(), "B".to_string(), String::new()];
    assert_eq!(get_layers(&c), expected);
}

#[test]
fn chart_directory_is_taken_as_written() {
    let c = get_config("chart_directory = \" ./a/../b/ \"\n").unwrap();
    assert_eq!(get_chart_directory(&c), " ./a/../b/ ");
}

#[test]
fn first_resolution_entry_is_the_width() {
    let c = get_config("resolution_2 = 7\nresolution_1 = 9\n").unwrap();
    assert_eq!(get_resolution(&c), (9, 7));
}
