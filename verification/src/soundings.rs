//! Depth soundings: points with a measured depth.

use vstd::prelude::*;
use vstd::string::StringExecFns;
use crate::extent::{LayerExtent, Point};
use crate::geometry::{Feature, GeometryKind, GeometryPart, Layer};

verus! {

/// The soundings of one chart.
///
/// Each coordinate holds a horizontal position, a vertical position and a
/// depth in millimetres. The two scales hold the least and the greatest
/// horizontal and vertical position projected so far; before the first
/// projection the least is the top of the range and the greatest its
/// bottom.
#[derive(Debug, PartialEq, Eq)]
pub struct DepthLayer {
    pub coordinates: Vec<(i64, i64, i64)>,
    pub longitude_scale: (i64, i64),
    pub latitude_scale: (i64, i64),
}

/// Points with a depth are soundings.
pub open spec fn is_sounding(kind: GeometryKind) -> bool {
    kind is MultiPointZM || kind is MultiPoint25D || kind is Point25D
}

/// The points of the soundings among the first `n` parts.
pub open spec fn part_soundings(parts: Seq<GeometryPart>, n: int) -> Seq<(i64, i64, i64)>
    decreases n,
{
    if n <= 0 {
        Seq::empty()
    } else if is_sounding(parts[n - 1].kind) {
        part_soundings(parts, n - 1) + parts[n - 1].points@
    } else {
        part_soundings(parts, n - 1)
    }
}

/// The soundings of a feature; none where it has no geometry.
pub open spec fn soundings_of_feature(feature: Feature) -> Seq<(i64, i64, i64)> {
    match feature.geometry {
        Some(g) => part_soundings(g.parts@, g.parts@.len() as int),
        None => Seq::empty(),
    }
}

/// The soundings of the first `n` features.
pub open spec fn feature_soundings(features: Seq<Feature>, n: int) -> Seq<(i64, i64, i64)>
    decreases n,
{
    if n <= 0 {
        Seq::empty()
    } else {
        feature_soundings(features, n - 1) + soundings_of_feature(features[n - 1])
    }
}

/// The box stretched by each point in turn.
pub open spec fn stretch_all(e: LayerExtent, points: Seq<Point>) -> LayerExtent
    decreases points.len(),
{
    if points.len() == 0 {
        e
    } else {
        stretch_all(e, points.drop_last()).stretch(points.last())
    }
}

/// The coordinates with their positions replaced, depths kept.
pub open spec fn moved_to(coordinates: Seq<(i64, i64, i64)>, projected: Seq<Point>) -> Seq<
    (i64, i64, i64),
> {
    Seq::new(coordinates.len(), |i: int| (projected[i].x, projected[i].y, coordinates[i].2))
}

/// Stretching a box by points never pulls a bound inwards.
pub proof fn lemma_stretch_all_covers(e: LayerExtent, points: Seq<Point>)
    ensures
        stretch_all(e, points).covers(e),
        forall|i: int| 0 <= i < points.len() ==> stretch_all(e, points).contains(#[trigger] points[i]),
    decreases points.len(),
{
    if points.len() > 0 {
        let front = points.drop_last();
        lemma_stretch_all_covers(e, front);
        assert forall|i: int| 0 <= i < points.len() implies stretch_all(e, points).contains(
            #[trigger] points[i],
        ) by {
            if i < front.len() {
                assert(front[i] == points[i]);
                assert(stretch_all(e, front).contains(front[i]));
            }
        }
    }
}

fn kind_is_sounding(kind: GeometryKind) -> (sounding: bool)
    ensures
        sounding == is_sounding(kind),
{
    match kind {
        GeometryKind::MultiPointZM | GeometryKind::MultiPoint25D | GeometryKind::Point25D => true,
        _ => false,
    }
}

fn push_part_soundings(points: &mut Vec<(i64, i64, i64)>, parts: &Vec<GeometryPart>)
    ensures
        final(points)@ == old(points)@ + part_soundings(parts@, parts@.len() as int),
{
    let ghost start = points@;
    let mut i: usize = 0;
    proof {
        assert(points@ =~= start + part_soundings(parts@, 0));
    }
    while i < parts.len()
        invariant
            i <= parts.len(),
            points@ == start + part_soundings(parts@, i as int),
        decreases parts.len() - i,
    {
        let part = &parts[i];
        if kind_is_sounding(part.kind) {
            let ghost before = points@;
            let mut k: usize = 0;
            while k < part.points.len()
                invariant
                    k <= part.points.len(),
                    points@ == before + part.points@.take(k as int),
                decreases part.points.len() - k,
            {
                points.push(part.points[k]);
                proof {
                    assert(points@ =~= before + part.points@.take(k + 1));
                }
                k += 1;
            }
            proof {
                assert(part.points@.take(k as int) =~= part.points@);
                assert(points@ =~= start + part_soundings(parts@, i + 1));
            }
        }
        i += 1;
    }
}

/// Collects the soundings of a `SOUNDG` layer: the points of every part
/// that is a point or a set of points with depth, feature by feature.
/// Nothing has been projected yet, so the scales are at their far ends.
pub fn get_soundg_coords(soundg_layer: &Layer) -> (soundings: DepthLayer)
    ensures
        soundings.coordinates@ == feature_soundings(
            soundg_layer.features@,
            soundg_layer.features@.len() as int,
        ),
        soundings.longitude_scale == (i64::MAX, i64::MIN),
        soundings.latitude_scale == (i64::MAX, i64::MIN),
        soundings.extent_spec() == LayerExtent::nothing(),
{
    let mut final_points: Vec<(i64, i64, i64)> = Vec::new();
    let mut f: usize = 0;
    proof {
        assert(final_points@ =~= feature_soundings(soundg_layer.features@, 0));
    }
    while f < soundg_layer.features.len()
        invariant
            f <= soundg_layer.features.len(),
            final_points@ == feature_soundings(soundg_layer.features@, f as int),
        decreases soundg_layer.features.len() - f,
    {
        let ghost before = final_points@;
        match &soundg_layer.features[f].geometry {
            Some(g) => {
                push_part_soundings(&mut final_points, &g.parts);
            },
            None => {
                proof {
                    assert(before + Seq::<(i64, i64, i64)>::empty() =~= before);
                }
            },
        }
        f += 1;
    }
    DepthLayer {
        coordinates: final_points,
        longitude_scale: (i64::MAX, i64::MIN),
        latitude_scale: (i64::MAX, i64::MIN),
    }
}

impl DepthLayer {
    /// The box that the two scales describe.
    pub open spec fn extent_spec(self) -> LayerExtent {
        LayerExtent {
            MinX: self.longitude_scale.0,
            MaxX: self.longitude_scale.1,
            MinY: self.latitude_scale.0,
            MaxY: self.latitude_scale.1,
        }
    }

    /// The box around the positions projected so far.
    pub fn extent(&self) -> (e: LayerExtent)
        ensures
            e == self.extent_spec(),
    {
        LayerExtent {
            MinX: self.longitude_scale.0,
            MaxX: self.longitude_scale.1,
            MinY: self.latitude_scale.0,
            MaxY: self.latitude_scale.1,
        }
    }

    /// Replaces the position of each sounding by its projection and
    /// stretches the scales to hold it.
    ///
    /// `projected[i]` is the projected position of sounding `i`. Where the
    /// two lists differ in length nothing changes and the answer is `false`.
    pub fn project_coords(&mut self, projected: &Vec<Point>) -> (done: bool)
        ensures
            done == (projected@.len() == old(self).coordinates@.len()),
            !done ==> *final(self) == *old(self),
            done ==> final(self).coordinates@ == moved_to(old(self).coordinates@, projected@),
            done ==> final(self).extent_spec() == stretch_all(old(self).extent_spec(), projected@),
            final(self).extent_spec().covers(old(self).extent_spec()),
    {
        if projected.len() != self.coordinates.len() {
            return false;
        }
        let ghost start = self.extent_spec();
        let mut final_points: Vec<(i64, i64, i64)> = Vec::new();
        let mut i: usize = 0;
        while i < projected.len()
            invariant
                i <= projected.len(),
                projected@.len() == self.coordinates@.len(),
                self.coordinates == old(self).coordinates,
                final_points@ == moved_to(self.coordinates@, projected@).take(i as int),
                self.extent_spec() == stretch_all(start, projected@.take(i as int)),
            decreases projected.len() - i,
        {
            let Point { x, y } = projected[i];
            final_points.push((x, y, self.coordinates[i].2));
            if x < self.longitude_scale.0 {
                self.longitude_scale.0 = x;
            }
            if x > self.longitude_scale.1 {
                self.longitude_scale.1 = x;
            }
            if y < self.latitude_scale.0 {
                self.latitude_scale.0 = y;
            }
            if y > self.latitude_scale.1 {
                self.latitude_scale.1 = y;
            }
            proof {
                assert(projected@.take(i + 1).drop_last() =~= projected@.take(i as int));
                assert(final_points@ =~= moved_to(self.coordinates@, projected@).take(i + 1));
            }
            i += 1;
        }
        proof {
            assert(projected@.take(i as int) =~= projected@);
            assert(final_points@ =~= moved_to(self.coordinates@, projected@));
            lemma_stretch_all_covers(start, projected@);
        }
        self.coordinates = final_points;
        true
    }
}

/// The digit with the given value.
pub open spec fn digit_char(d: int) -> char {
    if d == 0 {
        '0'
    } else if d == 1 {
        '1'
    } else if d == 2 {
        '2'
    } else if d == 3 {
        '3'
    } else if d == 4 {
        '4'
    } else if d == 5 {
        '5'
    } else if d == 6 {
        '6'
    } else if d == 7 {
        '7'
    } else if d == 8 {
        '8'
    } else {
        '9'
    }
}

/// The decimal digits of a number, without leading zeros.
pub open spec fn decimal(n: nat) -> Seq<char>
    decreases n,
{
    if n < 10 {
        seq![digit_char(n as int)]
    } else {
        decimal(n / 10).push(digit_char((n % 10) as int))
    }
}

/// The decimal digits of a number, after a minus sign where it is negative.
pub open spec fn signed_decimal(n: int) -> Seq<char> {
    if n < 0 {
        seq!['-'] + decimal((-n) as nat)
    } else {
        decimal(n as nat)
    }
}

/// A count of millionths rounded to the nearest whole, a half to the even
/// neighbour.
pub open spec fn rounded_millionths(m: nat) -> nat {
    let whole = m / 1_000_000;
    let rest = m % 1_000_000;
    if rest > 500_000 || (rest == 500_000 && whole % 2 == 1) {
        whole + 1
    } else {
        whole
    }
}

/// The depth in whole feet of a depth in millimetres: a metre is 3.281
/// feet, and the result is rounded to the nearest foot.
pub open spec fn feet_label(depth: i64) -> int {
    let feet = depth * 3281;
    if feet >= 0 {
        rounded_millionths(feet as nat) as int
    } else {
        -(rounded_millionths((-feet) as nat) as int)
    }
}

/// The depth in whole feet of a depth in millimetres.
pub fn depth_in_feet(depth: i64) -> (feet: i64)
    ensures
        feet == feet_label(depth),
{
    let scaled: i128 = (depth as i128) * 3281;
    let size: u128 = if scaled < 0 {
        (-scaled) as u128
    } else {
        scaled as u128
    };
    let whole: u128 = size / 1_000_000;
    let rest: u128 = size % 1_000_000;
    let rounded: u128 = if rest > 500_000 || (rest == 500_000 && whole % 2 == 1) {
        whole + 1
    } else {
        whole
    };
    if scaled < 0 {
        (-(rounded as i128)) as i64
    } else {
        rounded as i64
    }
}

fn digit_text(d: u64) -> (text: &'static str)
    requires
        d < 10,
    ensures
        text@ == seq![digit_char(d as int)],
{
    proof {
        reveal_strlit("0");
        reveal_strlit("1");
        reveal_strlit("2");
        reveal_strlit("3");
        reveal_strlit("4");
        reveal_strlit("5");
        reveal_strlit("6");
        reveal_strlit("7");
        reveal_strlit("8");
        reveal_strlit("9");
    }
    let text = if d == 0 {
        "0"
    } else if d == 1 {
        "1"
    } else if d == 2 {
        "2"
    } else if d == 3 {
        "3"
    } else if d == 4 {
        "4"
    } else if d == 5 {
        "5"
    } else if d == 6 {
        "6"
    } else if d == 7 {
        "7"
    } else if d == 8 {
        "8"
    } else {
        "9"
    };
    proof {
        assert(text@ =~= seq![digit_char(d as int)]);
    }
    text
}

fn push_decimal(text: &mut String, n: u64)
    ensures
        final(text)@ == old(text)@ + decimal(n as nat),
    decreases n,
{
    if n >= 10 {
        push_decimal(text, n / 10);
    }
    let ghost before = text@;
    text.append(digit_text(n % 10));
    proof {
        if n >= 10 {
            assert(text@ =~= old(text)@ + decimal((n / 10) as nat).push(
                digit_char((n % 10) as int),
            ));
        } else {
            assert(text@ =~= old(text)@ + seq![digit_char(n as int)]);
        }
    }
}

/// A whole number in decimal digits.
pub fn label_text(feet: i64) -> (text: String)
    ensures
        text@ == signed_decimal(feet as int),
{
    let mut text = String::new();
    if feet < 0 {
        proof {
            reveal_strlit("-");
        }
        text.append("-");
        proof {
            assert(text@ =~= seq!['-']);
        }
        push_decimal(&mut text, (-(feet as i128)) as u64);
    } else {
        push_decimal(&mut text, feet as u64);
        proof {
            assert(Seq::<char>::empty() + decimal(feet as nat) =~= decimal(feet as nat));
        }
    }
    text
}

} // verus!
