//! Settings read from a TOML document.
//!
//! The document is parsed by the `toml` crate. What the parser returns is
//! described here by [`Entry`], and the functions of this module say what
//! they return in terms of it.

use vstd::prelude::*;
use crate::color::Color;

verus! {

/// `toml::map::Map`, the type of a parsed table. Nothing is known of its
/// inside but what `table_entries` names.
#[verifier::external_type_specification]
#[verifier::external_body]
#[verifier::reject_recursive_types(K)]
#[verifier::reject_recursive_types(V)]
pub struct ExTomlMap<K, V>(toml::map::Map<K, V>);

/// `toml::Value`, the type of a parsed value. Nothing is known of its
/// inside but what `value_entry` names.
#[verifier::external_type_specification]
#[verifier::external_body]
pub struct ExTomlValue(toml::Value);

/// `toml::de::Error`, the parser's error. It is only passed on.
#[verifier::external_type_specification]
#[verifier::external_body]
pub struct ExTomlError(toml::de::Error);

/// What a TOML value holds, as far as the settings read it.
pub enum Entry {
    Text(Seq<char>),
    Integer(i64),
    List(Seq<Entry>),
    Table(Map<Seq<char>, Entry>),
    /// A float, a boolean or a date.
    Other,
}

/// What a parsed value holds: the variant of `toml::Value` and its payload.
pub uninterp spec fn value_entry(v: toml::Value) -> Entry;

/// The entries of a parsed table, by key.
pub uninterp spec fn table_entries(t: toml::Table) -> Map<Seq<char>, Entry>;

/// The table that the parser reads from a text, if it reads one.
pub uninterp spec fn parsed_document(text: Seq<char>) -> Option<Map<Seq<char>, Entry>>;

/// The upper-case form of a text, as `str::to_uppercase` gives it.
pub uninterp spec fn uppercased(text: Seq<char>) -> Seq<char>;

/// `toml::from_str` at type `toml::Table`: parsing depends on the text alone,
/// so the table that comes back is the one that `parsed_document` names, and
/// an error comes back exactly when it names none.
#[verifier::external_body]
fn parse_table(text: &str) -> (parsed: Result<toml::Table, toml::de::Error>)
    ensures
        match parsed {
            Ok(t) => parsed_document(text@) == Some(table_entries(t)),
            Err(_) => parsed_document(text@) is None,
        },
{
    toml::from_str::<toml::Table>(text)
}

/// `toml::map::Map::get`: the value stored under `key`, if there is one.
#[verifier::external_body]
fn table_get<'a>(table: &'a toml::Table, key: &str) -> (found: Option<&'a toml::Value>)
    ensures
        match found {
            Some(v) => table_entries(*table).contains_key(key@) && table_entries(*table)[key@]
                == value_entry(*v),
            None => !table_entries(*table).contains_key(key@),
        },
{
    table.get(key)
}

/// `str::to_uppercase`: the result depends on the text alone.
#[verifier::external_body]
fn to_upper(text: &str) -> (upper: String)
    ensures
        upper@ == uppercased(text@),
{
    text.to_uppercase()
}

/// `toml::Value::as_integer` returns the number of an integer value and
/// nothing for any other value.
pub assume_specification[ toml::Value::as_integer ](v: &toml::Value) -> (r: Option<i64>)
    ensures
        r == (match value_entry(*v) {
            Entry::Integer(i) => Some(i),
            _ => None,
        }),
;

/// `toml::Value::as_str` returns the text of a string value and nothing for
/// any other value.
pub assume_specification<'a>[ toml::Value::as_str ](v: &'a toml::Value) -> (r: Option<&'a str>)
    ensures
        match value_entry(*v) {
            Entry::Text(s) => r is Some && r.unwrap()@ == s,
            _ => r is None,
        },
;

/// `toml::Value::as_array` returns the items of an array value, in order,
/// and nothing for any other value.
pub assume_specification<'a>[ toml::Value::as_array ](v: &'a toml::Value) -> (r: Option<
    &'a Vec<toml::Value>,
>)
    ensures
        match value_entry(*v) {
            Entry::List(items) => r is Some && r.unwrap()@.len() == items.len() && forall|i: int|
                0 <= i < items.len() ==> value_entry(#[trigger] r.unwrap()@[i]) == items[i],
            _ => r is None,
        },
;

/// `toml::Value::as_table` returns the table of a table value and nothing
/// for any other value.
pub assume_specification<'a>[ toml::Value::as_table ](v: &'a toml::Value) -> (r: Option<
    &'a toml::Table,
>)
    ensures
        match value_entry(*v) {
            Entry::Table(entries) => r is Some && table_entries(*r.unwrap()) == entries,
            _ => r is None,
        },
;

/// Why a setting could not be read.
#[derive(Clone, Copy, Debug, PartialEq, Eq, Structural)]
pub enum ConfigError {
    /// The text is not a TOML document.
    Syntax,
    /// The document has no table for the layer.
    MissingLayer,
    /// The layer's table has no `color` entry.
    MissingColor,
    /// A colour array has fewer than three items, or one of its first three
    /// (or the fourth of four) is not an integer.
    BadComponent,
}

/// Why a layer is drawn in the fallback colour.
#[derive(Clone, Copy, Debug, PartialEq, Eq, Structural)]
pub enum ColorWarning {
    /// A colour array with more than four items.
    WrongComponentCount,
    /// A colour name that is not known.
    UnknownName,
    /// A `color` entry that is neither an array nor a string.
    UnsupportedValue,
}

/// The integer stored under `key`.
pub open spec fn integer_at(entries: Map<Seq<char>, Entry>, key: Seq<char>) -> Option<i64> {
    if entries.contains_key(key) {
        match entries[key] {
            Entry::Integer(i) => Some(i),
            _ => None,
        }
    } else {
        None
    }
}

/// The text stored under `key`.
pub open spec fn text_at(entries: Map<Seq<char>, Entry>, key: Seq<char>) -> Option<Seq<char>> {
    if entries.contains_key(key) {
        match entries[key] {
            Entry::Text(s) => Some(s),
            _ => None,
        }
    } else {
        None
    }
}

/// The pair of integers stored under two keys, each cut to 32 bits.
pub open spec fn pair_at(entries: Map<Seq<char>, Entry>, first: Seq<char>, second: Seq<char>)
    -> Option<(u32, u32)> {
    match (integer_at(entries, first), integer_at(entries, second)) {
        (Some(a), Some(b)) => Some((a as u32, b as u32)),
        _ => None,
    }
}

/// Every item is a string.
pub open spec fn all_text(items: Seq<Entry>) -> bool {
    forall|i: int| 0 <= i < items.len() ==> #[trigger] items[i] is Text
}

/// The texts of a list of strings.
pub open spec fn texts_of(items: Seq<Entry>) -> Seq<Seq<char>> {
    Seq::new(items.len(), |i: int| items[i]->Text_0)
}

/// The list of strings stored under `key`.
pub open spec fn text_list_at(entries: Map<Seq<char>, Entry>, key: Seq<char>) -> Option<
    Seq<Seq<char>>,
> {
    if entries.contains_key(key) {
        match entries[key] {
            Entry::List(items) => if all_text(items) {
                Some(texts_of(items))
            } else {
                None
            },
            _ => None,
        }
    } else {
        None
    }
}

/// The views of a vector of strings.
pub open spec fn views_of(names: Seq<String>) -> Seq<Seq<char>> {
    Seq::new(names.len(), |i: int| names[i]@)
}

/// The colour that a name stands for, once in upper case.
pub open spec fn named_color(upper: Seq<char>) -> Option<Color> {
    if upper == "RED"@ {
        Some(Color::red())
    } else if upper == "GREEN"@ {
        Some(Color::green())
    } else if upper == "BLUE"@ {
        Some(Color::blue())
    } else if upper == "YELLOW"@ {
        Some(Color::yellow())
    } else if upper == "MAGENTA"@ {
        Some(Color::magenta())
    } else if upper == "CYAN"@ {
        Some(Color::cyan())
    } else if upper == "TRANSPARENT"@ {
        Some(Color::transparent())
    } else {
        None
    }
}

/// The integer that an item of a colour array holds, cut to eight bits.
pub open spec fn component(items: Seq<Entry>, i: int) -> Option<u8> {
    if 0 <= i < items.len() {
        match items[i] {
            Entry::Integer(n) => Some(n as u8),
            _ => None,
        }
    } else {
        None
    }
}

/// The colour that a `color` entry stands for.
///
/// An array gives red, green and blue, and with a fourth item the opacity.
/// A string gives a named colour, whatever its case. Anything else, an
/// unknown name and a longer array give opaque red with a warning.
pub open spec fn color_of_entry(entry: Entry) -> Result<(Color, Option<ColorWarning>), ConfigError> {
    match entry {
        Entry::List(items) => match (
            component(items, 0),
            component(items, 1),
            component(items, 2),
        ) {
            (Some(r), Some(g), Some(b)) => if items.len() == 3 {
                Ok((Color { r, g, b, a: 255 }, None))
            } else if items.len() == 4 {
                match component(items, 3) {
                    Some(a) => Ok((Color { r, g, b, a }, None)),
                    None => Err(ConfigError::BadComponent),
                }
            } else {
                Ok((Color::red(), Some(ColorWarning::WrongComponentCount)))
            },
            _ => Err(ConfigError::BadComponent),
        },
        Entry::Text(name) => match named_color(uppercased(name)) {
            Some(c) => Ok((c, None)),
            None => Ok((Color::red(), Some(ColorWarning::UnknownName))),
        },
        _ => Ok((Color::red(), Some(ColorWarning::UnsupportedValue))),
    }
}

/// The colour that the document gives to a layer.
pub open spec fn layer_color(entries: Map<Seq<char>, Entry>, layer: Seq<char>) -> Result<
    (Color, Option<ColorWarning>),
    ConfigError,
> {
    if entries.contains_key(layer) {
        match entries[layer] {
            Entry::Table(settings) => if settings.contains_key("color"@) {
                color_of_entry(settings["color"@])
            } else {
                Err(ConfigError::MissingColor)
            },
            _ => Err(ConfigError::MissingLayer),
        }
    } else {
        Err(ConfigError::MissingLayer)
    }
}

/// Parses the text of a settings document.
pub fn get_config(contents: &str) -> (config: Result<toml::Table, ConfigError>)
    ensures
        match config {
            Ok(t) => parsed_document(contents@) == Some(table_entries(t)),
            Err(e) => e == ConfigError::Syntax && parsed_document(contents@) is None,
        },
{
    match parse_table(contents) {
        Ok(t) => Ok(t),
        Err(_) => Err(ConfigError::Syntax),
    }
}

fn get_integer(c: &toml::Table, key: &str) -> (n: Option<i64>)
    ensures
        n == integer_at(table_entries(*c), key@),
{
    match table_get(c, key) {
        Some(v) => v.as_integer(),
        None => None,
    }
}

fn get_pair(c: &toml::Table, first: &str, second: &str) -> (pair: Option<(u32, u32)>)
    ensures
        pair == pair_at(table_entries(*c), first@, second@),
{
    match (get_integer(c, first), get_integer(c, second)) {
        (Some(a), Some(b)) => Some((#[verifier::truncate] (a as u32), #[verifier::truncate] (b as u32))),
        _ => None,
    }
}

/// The window's width and height in pixels: the integers under
/// `resolution_1` and `resolution_2`, each cut to 32 bits.
///
/// Both entries must be there and be integers; `try_get_resolution` asks
/// first.
pub fn get_resolution(c: &toml::Table) -> (resolution: (u32, u32))
    requires
        pair_at(table_entries(*c), "resolution_1"@, "resolution_2"@) is Some,
    ensures
        Some(resolution) == pair_at(table_entries(*c), "resolution_1"@, "resolution_2"@),
{
    get_pair(c, "resolution_1", "resolution_2").unwrap()
}

/// The window's width and height in pixels, or nothing when one of
/// `resolution_1` and `resolution_2` is missing or not an integer.
pub fn try_get_resolution(c: &toml::Table) -> (resolution: Option<(u32, u32)>)
    ensures
        resolution == pair_at(table_entries(*c), "resolution_1"@, "resolution_2"@),
{
    if get_pair(c, "resolution_1", "resolution_2").is_some() {
        Some(get_resolution(c))
    } else {
        None
    }
}

/// The width and height of the projection plane: the integers under
/// `merc_scaling_1` and `merc_scaling_2`, each cut to 32 bits.
pub fn get_merc_scaling_size(c: &toml::Table) -> (scale: Option<(u32, u32)>)
    ensures
        scale == pair_at(table_entries(*c), "merc_scaling_1"@, "merc_scaling_2"@),
{
    get_pair(c, "merc_scaling_1", "merc_scaling_2")
}

/// The names of the layers to draw: the strings of the array under `layers`,
/// in order, as many as there are and each as it is written.
///
/// The entry must be there and be an array of strings; `try_get_layers`
/// asks first.
pub fn get_layers(c: &toml::Table) -> (layers: Vec<String>)
    requires
        text_list_at(table_entries(*c), "layers"@) is Some,
    ensures
        Some(views_of(layers@)) == text_list_at(table_entries(*c), "layers"@),
        layers@.len() == text_list_at(table_entries(*c), "layers"@).unwrap().len(),
{
    read_layers(c).unwrap()
}

/// The names of the layers to draw, or nothing when the entry `layers` is
/// missing, is not an array, or holds anything but strings.
pub fn try_get_layers(c: &toml::Table) -> (layers: Option<Vec<String>>)
    ensures
        match text_list_at(table_entries(*c), "layers"@) {
            Some(names) => layers is Some && views_of(layers.unwrap()@) == names,
            None => layers is None,
        },
{
    if read_layers(c).is_some() {
        Some(get_layers(c))
    } else {
        None
    }
}

fn read_layers(c: &toml::Table) -> (layers: Option<Vec<String>>)
    ensures
        match text_list_at(table_entries(*c), "layers"@) {
            Some(names) => layers is Some && views_of(layers.unwrap()@) == names,
            None => layers is None,
        },
{
    let items = match table_get(c, "layers") {
        Some(v) => match v.as_array() {
            Some(items) => items,
            None => {
                return None;
            },
        },
        None => {
            return None;
        },
    };
    let ghost entries = table_entries(*c)["layers"@]->List_0;
    let mut layers_vec: Vec<String> = Vec::new();
    let mut i: usize = 0;
    while i < items.len()
        invariant
            i <= items.len(),
            table_entries(*c).contains_key("layers"@),
            table_entries(*c)["layers"@] == Entry::List(entries),
            items@.len() == entries.len(),
            forall|k: int| 0 <= k < entries.len() ==> value_entry(#[trigger] items@[k]) == entries[k],
            layers_vec@.len() == i,
            forall|k: int| 0 <= k < i ==> entries[k] == Entry::Text(#[trigger] layers_vec@[k]@),
        decreases items.len() - i,
    {
        match items[i].as_str() {
            Some(s) => {
                layers_vec.push(s.to_owned());
            },
            None => {
                assert(!(entries[i as int] is Text));
                return None;
            },
        }
        i += 1;
    }
    proof {
        assert forall|k: int| 0 <= k < entries.len() implies #[trigger] entries[k] is Text by {
            assert(entries[k] == Entry::Text(layers_vec@[k]@));
        }
        assert(views_of(layers_vec@) =~= texts_of(entries));
    }
    Some(layers_vec)
}

/// The directory that holds the charts: the string under
/// `chart_directory`, character for character.
///
/// The entry must be there and be a string; `try_get_chart_directory` asks
/// first.
pub fn get_chart_directory(c: &toml::Table) -> (directory: String)
    requires
        text_at(table_entries(*c), "chart_directory"@) is Some,
    ensures
        Some(directory@) == text_at(table_entries(*c), "chart_directory"@),
{
    read_chart_directory(c).unwrap()
}

/// The directory that holds the charts, or nothing when the entry
/// `chart_directory` is missing or not a string.
pub fn try_get_chart_directory(c: &toml::Table) -> (directory: Option<String>)
    ensures
        match text_at(table_entries(*c), "chart_directory"@) {
            Some(path) => directory is Some && directory.unwrap()@ == path,
            None => directory is None,
        },
{
    if read_chart_directory(c).is_some() {
        Some(get_chart_directory(c))
    } else {
        None
    }
}

fn read_chart_directory(c: &toml::Table) -> (directory: Option<String>)
    ensures
        match text_at(table_entries(*c), "chart_directory"@) {
            Some(path) => directory is Some && directory.unwrap()@ == path,
            None => directory is None,
        },
{
    match table_get(c, "chart_directory") {
        Some(v) => match v.as_str() {
            Some(s) => Some(s.to_owned()),
            None => None,
        },
        None => None,
    }
}

fn get_component(items: &Vec<toml::Value>, i: usize, Ghost(entries): Ghost<Seq<Entry>>) -> (c:
    Option<u8>)
    requires
        items@.len() == entries.len(),
        forall|k: int| 0 <= k < entries.len() ==> value_entry(#[trigger] items@[k]) == entries[k],
    ensures
        c == component(entries, i as int),
{
    if i < items.len() {
        match items[i].as_integer() {
            Some(n) => Some(#[verifier::truncate] (n as u8)),
            None => None,
        }
    } else {
        None
    }
}

fn text_is(text: &String, word: &str) -> (same: bool)
    ensures
        same == (text@ == word@),
{
    *text == word.to_owned()
}

/// The colour that a name stands for.
fn color_by_name(name: &str) -> (found: Option<Color>)
    ensures
        found == named_color(uppercased(name@)),
{
    let upper = to_upper(name);
    if text_is(&upper, "RED") {
        Some(Color::rgb(255, 0, 0))
    } else if text_is(&upper, "GREEN") {
        Some(Color::rgb(0, 255, 0))
    } else if text_is(&upper, "BLUE") {
        Some(Color::rgb(0, 0, 255))
    } else if text_is(&upper, "YELLOW") {
        Some(Color::rgb(255, 255, 0))
    } else if text_is(&upper, "MAGENTA") {
        Some(Color::rgb(255, 0, 255))
    } else if text_is(&upper, "CYAN") {
        Some(Color::rgb(0, 255, 255))
    } else if text_is(&upper, "TRANSPARENT") {
        Some(Color::rgba(0, 0, 0, 0))
    } else {
        None
    }
}

/// The colour that a `color` entry stands for, and the warning that goes
/// with a fallback.
pub fn color_from_value(v: &toml::Value) -> (choice: Result<
    (Color, Option<ColorWarning>),
    ConfigError,
>)
    ensures
        choice == color_of_entry(value_entry(*v)),
{
    if let Some(items) = v.as_array() {
        let ghost entries = value_entry(*v)->List_0;
        let r = get_component(items, 0, Ghost(entries));
        let g = get_component(items, 1, Ghost(entries));
        let b = get_component(items, 2, Ghost(entries));
        match (r, g, b) {
            (Some(r), Some(g), Some(b)) => {
                if items.len() == 3 {
                    Ok((Color::rgb(r, g, b), None))
                } else if items.len() == 4 {
                    match get_component(items, 3, Ghost(entries)) {
                        Some(a) => Ok((Color::rgba(r, g, b, a), None)),
                        None => Err(ConfigError::BadComponent),
                    }
                } else {
                    Ok((Color::rgb(255, 0, 0), Some(ColorWarning::WrongComponentCount)))
                }
            },
            _ => Err(ConfigError::BadComponent),
        }
    } else if let Some(name) = v.as_str() {
        match color_by_name(name) {
            Some(c) => Ok((c, None)),
            None => Ok((Color::rgb(255, 0, 0), Some(ColorWarning::UnknownName))),
        }
    } else {
        Ok((Color::rgb(255, 0, 0), Some(ColorWarning::UnsupportedValue)))
    }
}

/// The colour of a layer: the `color` entry of the table stored under the
/// layer's name.
///
/// Fails when the layer has no table, the table has no `color` entry, or a
/// colour array is too short or holds something other than integers.
/// Otherwise the colour comes with a warning exactly when it is the
/// fallback, opaque red.
pub fn get_color_for_layer(c: &toml::Table, layer_name: &str) -> (choice: Result<
    (Color, Option<ColorWarning>),
    ConfigError,
>)
    ensures
        choice == layer_color(table_entries(*c), layer_name@),
{
    let settings = match table_get(c, layer_name) {
        Some(v) => match v.as_table() {
            Some(t) => t,
            None => {
                return Err(ConfigError::MissingLayer);
            },
        },
        None => {
            return Err(ConfigError::MissingLayer);
        },
    };
    match table_get(settings, "color") {
        Some(v) => color_from_value(v),
        None => Err(ConfigError::MissingColor),
    }
}

} // verus!
