use vstd::prelude::*;

use crate::binary32::{
    lemma_channel_differences, lemma_channel_order, lemma_channel_quotients,
    lemma_channel_remainders, lemma_quotient_of_zero, lemma_small_integers, lemma_difference_self,
    lemma_difference_nonzero, lemma_product_shape, lemma_square_sign, lemma_sum_nonnegative,
    lemma_sign_against_zero, lemma_hue_gaps, lemma_zero_less_two_thirds, negated, single_of,
    difference, difference_of, from_integer, from_u64, is_less, is_single, larger, largest_single,
    lemma_single_powers, less_than, magnitude, max, min, product, product_of, quotient,
    quotient_of, rem_euclid, rem_euclid_six, smaller, sum, sum_of, zero, Single,
};
use crate::named_color::{declaration_index, named_at, named_packed, named_rgb_value, NamedColor};
use crate::rgb_color::RgbColor;

verus! {

/// The colour of a component, either one of the sixteen legacy names or an arbitrary
/// 24-bit value.
///
/// The distinction survives until serialization, because clients older than 1.16 accept
/// only names and everything else has to be reduced with [`TextColor::to_named`].
#[derive(Debug, Clone, Copy, PartialEq, Eq, Structural, Hash)]
pub enum TextColor {
    Named(NamedColor),
    Rgb(RgbColor),
}

/// The channels of a colour.
pub open spec fn text_color_rgb(color: TextColor) -> RgbColor {
    match color {
        TextColor::Named(named) => crate::named_color::named_rgb_value(named),
        TextColor::Rgb(rgb) => rgb,
    }
}

pub open spec fn color_rgb(color: TextColor) -> int {
    match color {
        TextColor::Named(named) => named_packed(named),
        TextColor::Rgb(rgb) => rgb.red * 65536 + rgb.green * 256 + rgb.blue,
    }
}

/// A colour's hue, saturation and value in single precision: the hue in turns, the
/// other two between 0 and 1.
#[derive(Clone, Copy)]
pub struct Hsv {
    pub hue: Single,
    pub saturation: Single,
    pub value: Single,
}

/// A channel as a fraction of full intensity: `channel / 255`.
pub open spec fn channel_fraction(channel: u8) -> Single {
    quotient_of(from_integer(channel as int), from_integer(255))
}

/// The HSV coordinates of a colour, computed in single precision.
///
/// The hue is read from the largest channel, red first, then green, then blue, in sixths
/// of a turn, and is zero for a grey; the saturation is zero for black.
pub open spec fn hsv_of(rgb: RgbColor) -> Hsv {
    let red = channel_fraction(rgb.red);
    let green = channel_fraction(rgb.green);
    let blue = channel_fraction(rgb.blue);
    let top = larger(larger(red, green), blue);
    let bottom = smaller(smaller(red, green), blue);
    let span = difference_of(top, bottom);
    let sixths = if span.significand == 0 {
        zero()
    } else if top == red {
        rem_euclid_six(quotient_of(difference_of(green, blue), span))
    } else if top == green {
        sum_of(quotient_of(difference_of(blue, red), span), from_integer(2))
    } else {
        sum_of(quotient_of(difference_of(red, green), span), from_integer(4))
    };
    Hsv {
        hue: quotient_of(sixths, from_integer(6)),
        saturation: if top.significand == 0 {
            zero()
        } else {
            quotient_of(span, top)
        },
        value: top,
    }
}

/// The squared distance between two HSV colours, in single precision, with the hue gap
/// taken the short way round and weighted three times.
pub open spec fn distance_of(left: Hsv, right: Hsv) -> Single {
    let hue_gap = magnitude(difference_of(left.hue, right.hue));
    let hue_distance = product_of(
        from_integer(3),
        smaller(hue_gap, difference_of(from_integer(1), hue_gap)),
    );
    let saturation_gap = difference_of(left.saturation, right.saturation);
    let value_gap = difference_of(left.value, right.value);
    sum_of(
        sum_of(product_of(hue_distance, hue_distance), product_of(saturation_gap, saturation_gap)),
        product_of(value_gap, value_gap),
    )
}

/// The named colour nearest `target` among those from `index` on, given the best found
/// before it: a later candidate wins only when strictly nearer.
pub open spec fn nearest_from(target: Hsv, index: int, best: NamedColor, best_distance: Single) -> NamedColor
    decreases 16 - index,
{
    if index < 0 || index >= 16 {
        best
    } else {
        let candidate = named_at(index);
        let distance = distance_of(target, hsv_of(named_rgb_value(candidate)));
        if less_than(distance, best_distance) {
            nearest_from(target, index + 1, candidate, distance)
        } else {
            nearest_from(target, index + 1, best, best_distance)
        }
    }
}

/// The named colour an arbitrary colour reduces to: the nearest in HSV, the first in
/// declaration order among those equally near.
pub open spec fn reduced_named(rgb: RgbColor) -> NamedColor {
    nearest_from(hsv_of(rgb), 0, NamedColor::Black, largest_single())
}

/// The named colour a colour is written as for a client that knows only names.
pub open spec fn named_reduction(color: TextColor) -> NamedColor {
    match color {
        TextColor::Named(named) => named,
        TextColor::Rgb(rgb) => reduced_named(rgb),
    }
}

/// Whether an HSV colour's parts are singles with moderate exponents.
pub open spec fn moderate(hsv: Hsv) -> bool {
    &&& is_single(hsv.hue) && -3000 <= hsv.hue.exponent <= 3000
    &&& is_single(hsv.saturation) && -3000 <= hsv.saturation.exponent <= 3000
    &&& is_single(hsv.value) && -3000 <= hsv.value.exponent <= 3000
}

fn channel(value: u8) -> (fraction: Single)
    ensures
        fraction == channel_fraction(value),
        is_single(fraction),
        -160 <= fraction.exponent <= 140,
{
    quotient(from_u64(value as u64), from_u64(255))
}

fn hue_sixths(red: Single, green: Single, blue: Single, top: Single, span: Single) -> (sixths: Single)
    requires
        is_single(red) && -160 <= red.exponent <= 140,
        is_single(green) && -160 <= green.exponent <= 140,
        is_single(blue) && -160 <= blue.exponent <= 140,
        is_single(top),
        is_single(span) && -200 <= span.exponent <= 250,
    ensures
        sixths == (if span.significand == 0 {
            zero()
        } else if top == red {
            rem_euclid_six(quotient_of(difference_of(green, blue), span))
        } else if top == green {
            sum_of(quotient_of(difference_of(blue, red), span), from_integer(2))
        } else {
            sum_of(quotient_of(difference_of(red, green), span), from_integer(4))
        }),
        is_single(sixths),
        -2000 <= sixths.exponent <= 2000,
{
    if span.significand == 0 {
        Single { negative: false, significand: 0, exponent: 0 }
    } else if top == red {
        rem_euclid(quotient(difference(green, blue), span))
    } else if top == green {
        sum(quotient(difference(blue, red), span), from_u64(2))
    } else {
        sum(quotient(difference(red, green), span), from_u64(4))
    }
}

fn hsv(rgb: RgbColor) -> (coordinates: Hsv)
    ensures
        coordinates == hsv_of(rgb),
        moderate(coordinates),
{
    let red = channel(rgb.red);
    let green = channel(rgb.green);
    let blue = channel(rgb.blue);
    let top = max(max(red, green), blue);
    let bottom = min(min(red, green), blue);
    let span = difference(top, bottom);
    let sixths = hue_sixths(red, green, blue, top, span);
    let saturation = if top.significand == 0 {
        Single { negative: false, significand: 0, exponent: 0 }
    } else {
        quotient(span, top)
    };
    Hsv { hue: quotient(sixths, from_u64(6)), saturation, value: top }
}

/// Whether a single's exponent lies within `bound` either way.
pub open spec fn within(x: Single, bound: int) -> bool {
    is_single(x) && -bound <= x.exponent <= bound
}

/// The hue part of the distance: three times the hue gap taken the short way round.
fn hue_distance(left: Single, right: Single) -> (distance: Single)
    requires
        within(left, 3000),
        within(right, 3000),
    ensures
        distance == product_of(
            from_integer(3),
            smaller(
                magnitude(difference_of(left, right)),
                difference_of(from_integer(1), magnitude(difference_of(left, right))),
            ),
        ),
        within(distance, 4000),
{
    let gap = difference(left, right);
    let hue_gap = Single { negative: false, ..gap };
    let one = from_u64(1);
    let other_way = difference(one, hue_gap);
    let short_gap = min(hue_gap, other_way);
    product(from_u64(3), short_gap)
}

/// The square of a single.
fn square(x: Single) -> (squared: Single)
    requires
        within(x, 4000),
    ensures
        squared == product_of(x, x),
        within(squared, 9000),
{
    product(x, x)
}

/// The square of the gap between two singles.
fn gap_squared(left: Single, right: Single) -> (squared: Single)
    requires
        within(left, 3000),
        within(right, 3000),
    ensures
        squared == product_of(difference_of(left, right), difference_of(left, right)),
        within(squared, 9000),
{
    square(difference(left, right))
}

fn distance(left: Hsv, right: Hsv) -> (distance: Single)
    requires
        moderate(left),
        moderate(right),
    ensures
        distance == distance_of(left, right),
        is_single(distance),
{
    let hue_distance = hue_distance(left.hue, right.hue);
    let hue_part = square(hue_distance);
    let saturation_part = gap_squared(left.saturation, right.saturation);
    let value_part = gap_squared(left.value, right.value);
    sum(sum(hue_part, saturation_part), value_part)
}

fn nearest_named(rgb: RgbColor) -> (best: NamedColor)
    ensures
        best == reduced_named(rgb),
{
    let target = hsv(rgb);
    let candidates = NamedColor::all();
    let mut best = NamedColor::Black;
    let mut best_distance = Single { negative: false, significand: 0xff_ffff, exponent: 104 };
    proof {
        lemma_single_powers();
    }
    let mut index: usize = 0;
    while index < candidates.len()
        invariant
            0 <= index <= candidates@.len(),
            candidates@.len() == 16,
            forall|i: int| 0 <= i < 16 ==> #[trigger] candidates@[i] == named_at(i),
            target == hsv_of(rgb),
            moderate(target),
            is_single(best_distance),
            nearest_from(target, 0, NamedColor::Black, largest_single()) == nearest_from(
                target,
                index as int,
                best,
                best_distance,
            ),
        decreases candidates@.len() - index,
    {
        let candidate = candidates[index];
        let candidate_distance = distance(target, hsv(candidate.rgb()));
        if is_less(candidate_distance, best_distance) {
            best = candidate;
            best_distance = candidate_distance;
        }
        index += 1;
    }
    best
}

/// The HSV coordinates of each named colour's own value, as single precision gives them.
pub open spec fn named_hsv(color: NamedColor) -> Hsv {
    match color {
        NamedColor::Black => Hsv { hue: zero(), saturation: zero(), value: zero() },
        NamedColor::DarkBlue => Hsv { hue: single_of(0xaaaaab, -24), saturation: single_of(0x800000, -23), value: single_of(0xaaaaab, -24) },
        NamedColor::DarkGreen => Hsv { hue: single_of(0xaaaaab, -25), saturation: single_of(0x800000, -23), value: single_of(0xaaaaab, -24) },
        NamedColor::DarkAqua => Hsv { hue: single_of(0x800000, -24), saturation: single_of(0x800000, -23), value: single_of(0xaaaaab, -24) },
        NamedColor::DarkRed => Hsv { hue: zero(), saturation: single_of(0x800000, -23), value: single_of(0xaaaaab, -24) },
        NamedColor::DarkPurple => Hsv { hue: single_of(0xd55555, -24), saturation: single_of(0x800000, -23), value: single_of(0xaaaaab, -24) },
        NamedColor::Gold => Hsv { hue: single_of(0xe38e39, -27), saturation: single_of(0x800000, -23), value: single_of(0x800000, -23) },
        NamedColor::Gray => Hsv { hue: zero(), saturation: zero(), value: single_of(0xaaaaab, -24) },
        NamedColor::DarkGray => Hsv { hue: zero(), saturation: zero(), value: single_of(0xaaaaab, -25) },
        NamedColor::Blue => Hsv { hue: single_of(0xaaaaab, -24), saturation: single_of(0xaaaaaa, -24), value: single_of(0x800000, -23) },
        NamedColor::Green => Hsv { hue: single_of(0xaaaaab, -25), saturation: single_of(0xaaaaaa, -24), value: single_of(0x800000, -23) },
        NamedColor::Aqua => Hsv { hue: single_of(0x800000, -24), saturation: single_of(0xaaaaaa, -24), value: single_of(0x800000, -23) },
        NamedColor::Red => Hsv { hue: zero(), saturation: single_of(0xaaaaaa, -24), value: single_of(0x800000, -23) },
        NamedColor::LightPurple => Hsv { hue: single_of(0xd55555, -24), saturation: single_of(0xaaaaaa, -24), value: single_of(0x800000, -23) },
        NamedColor::Yellow => Hsv { hue: single_of(0xaaaaab, -26), saturation: single_of(0xaaaaaa, -24), value: single_of(0x800000, -23) },
        NamedColor::White => Hsv { hue: zero(), saturation: zero(), value: single_of(0x800000, -23) },
    }
}

/// Each named colour's value has the coordinates [`named_hsv`] lists.
pub proof fn lemma_named_hsv(color: NamedColor)
    ensures
        hsv_of(named_rgb_value(color)) == named_hsv(color),
        moderate(named_hsv(color)),
{
    lemma_small_integers();
    lemma_channel_quotients();
    lemma_channel_differences();
    lemma_zero_less_two_thirds();
    lemma_channel_remainders();
    lemma_channel_order();
    lemma_single_powers();
    lemma_quotient_of_zero(single_of(0xaaaaab, -25));
    match color {
        NamedColor::Black => {
            assert(hsv_of(named_rgb_value(color)) == named_hsv(color));
        },
        NamedColor::DarkBlue => {
            assert(hsv_of(named_rgb_value(color)) == named_hsv(color));
        },
        NamedColor::DarkGreen => {
            assert(hsv_of(named_rgb_value(color)) == named_hsv(color));
        },
        NamedColor::DarkAqua => {
            assert(hsv_of(named_rgb_value(color)) == named_hsv(color));
        },
        NamedColor::DarkRed => {
            assert(hsv_of(named_rgb_value(color)) == named_hsv(color));
        },
        NamedColor::DarkPurple => {
            assert(hsv_of(named_rgb_value(color)) == named_hsv(color));
        },
        NamedColor::Gold => {
            assert(hsv_of(named_rgb_value(color)) == named_hsv(color));
        },
        NamedColor::Gray => {
            assert(hsv_of(named_rgb_value(color)) == named_hsv(color));
        },
        NamedColor::DarkGray => {
            assert(hsv_of(named_rgb_value(color)) == named_hsv(color));
        },
        NamedColor::Blue => {
            assert(hsv_of(named_rgb_value(color)) == named_hsv(color));
        },
        NamedColor::Green => {
            assert(hsv_of(named_rgb_value(color)) == named_hsv(color));
        },
        NamedColor::Aqua => {
            assert(hsv_of(named_rgb_value(color)) == named_hsv(color));
        },
        NamedColor::Red => {
            assert(hsv_of(named_rgb_value(color)) == named_hsv(color));
        },
        NamedColor::LightPurple => {
            assert(hsv_of(named_rgb_value(color)) == named_hsv(color));
        },
        NamedColor::Yellow => {
            assert(hsv_of(named_rgb_value(color)) == named_hsv(color));
        },
        NamedColor::White => {
            assert(hsv_of(named_rgb_value(color)) == named_hsv(color));
        },
    }
}

/// Whether two HSV colours differ in value or saturation, or in hue by a gap that is not
/// a whole turn.
pub open spec fn apart(left: Hsv, right: Hsv) -> bool {
    ||| left.value != right.value
    ||| left.saturation != right.saturation
    ||| (left.hue != right.hue && magnitude(difference_of(left.hue, right.hue)) != from_integer(1))
}

/// The squared gap between two coordinates: a single, never negative, zero exactly when
/// they are equal.
proof fn lemma_gap_square(left: Single, right: Single)
    requires
        within(left, 3000),
        within(right, 3000),
    ensures
        within(product_of(difference_of(left, right), difference_of(left, right)), 6400),
        !product_of(difference_of(left, right), difference_of(left, right)).negative,
        (product_of(difference_of(left, right), difference_of(left, right)).significand == 0) <==> (left
            == right),
        left == right ==> product_of(difference_of(left, right), difference_of(left, right)) == zero(),
{
    let gap = difference_of(left, right);
    if left == right {
        lemma_difference_self(left);
    } else {
        lemma_difference_nonzero(left, right);
    }
    lemma_square_sign(gap);
    lemma_product_shape(gap, gap);
}

/// The hue part of a distance, squared: a single, never negative, zero when the hues are
/// equal and not zero when they are apart by less than a whole turn.
proof fn lemma_hue_square(left: Single, right: Single)
    requires
        within(left, 3000),
        within(right, 3000),
    ensures
        ({
            let hue_gap = magnitude(difference_of(left, right));
            let hue_distance = product_of(
                from_integer(3),
                smaller(hue_gap, difference_of(from_integer(1), hue_gap)),
            );
            let square = product_of(hue_distance, hue_distance);
            &&& within(square, 6800)
            &&& !square.negative
            &&& left == right ==> square == zero()
            &&& (left != right && hue_gap != from_integer(1)) ==> square.significand != 0
        }),
{
    lemma_small_integers();
    lemma_channel_differences();
    lemma_channel_order();
    lemma_single_powers();
    let raw = difference_of(left, right);
    if left == right {
        lemma_difference_self(left);
    } else {
        lemma_difference_nonzero(left, right);
    }
    let hue_gap = magnitude(raw);
    let one = from_integer(1);
    let other = difference_of(one, hue_gap);
    if hue_gap == one {
        lemma_difference_self(one);
    } else {
        lemma_difference_nonzero(one, hue_gap);
    }
    let short = smaller(hue_gap, other);
    let three = from_integer(3);
    lemma_product_shape(three, short);
    let hue_distance = product_of(three, short);
    lemma_square_sign(hue_distance);
    lemma_product_shape(hue_distance, hue_distance);
}

/// The distance between two HSV colours is a single that is never negative, zero between a
/// colour and itself, and not zero between colours that are apart.
pub proof fn lemma_distance_sign(left: Hsv, right: Hsv)
    requires
        moderate(left),
        moderate(right),
    ensures
        is_single(distance_of(left, right)),
        !distance_of(left, right).negative,
        left == right ==> distance_of(left, right) == zero(),
        apart(left, right) ==> distance_of(left, right).significand != 0,
{
    lemma_hue_square(left.hue, right.hue);
    lemma_gap_square(left.saturation, right.saturation);
    lemma_gap_square(left.value, right.value);
    let hue_gap = magnitude(difference_of(left.hue, right.hue));
    let hue_distance = product_of(
        from_integer(3),
        smaller(hue_gap, difference_of(from_integer(1), hue_gap)),
    );
    let hue_part = product_of(hue_distance, hue_distance);
    let saturation_gap = difference_of(left.saturation, right.saturation);
    let saturation_part = product_of(saturation_gap, saturation_gap);
    let value_gap = difference_of(left.value, right.value);
    let value_part = product_of(value_gap, value_gap);
    lemma_sum_nonnegative(hue_part, saturation_part);
    let inner = sum_of(hue_part, saturation_part);
    lemma_sum_nonnegative(inner, value_part);
}

/// Different named colours are apart in HSV.
proof fn lemma_named_apart(color: NamedColor, other: NamedColor)
    requires
        color != other,
    ensures
        apart(named_hsv(color), named_hsv(other)),
{
    lemma_hue_gaps();
    lemma_small_integers();
}

/// From `index` on, the search finds `color` when it is aimed at `color`'s own HSV: no
/// earlier candidate is at distance zero, and none after it is nearer than zero.
proof fn lemma_search_finds(color: NamedColor, index: int, best: NamedColor, best_distance: Single)
    requires
        0 <= index <= 16,
        is_single(best_distance),
        !best_distance.negative,
        index <= declaration_index(color) ==> best_distance.significand != 0,
        index > declaration_index(color) ==> best == color && best_distance == zero(),
    ensures
        nearest_from(named_hsv(color), index, best, best_distance) == color,
    decreases 16 - index,
{
    lemma_named_hsv(color);
    if index < 16 {
        let candidate = named_at(index);
        assert(declaration_index(candidate) == index);
        lemma_named_hsv(candidate);
        let distance = distance_of(named_hsv(color), hsv_of(named_rgb_value(candidate)));
        lemma_distance_sign(named_hsv(color), named_hsv(candidate));
        lemma_sign_against_zero(best_distance);
        lemma_sign_against_zero(distance);
        if candidate == color {
            lemma_search_finds(color, index + 1, candidate, distance);
        } else {
            lemma_named_apart(color, candidate);
            if less_than(distance, best_distance) {
                lemma_search_finds(color, index + 1, candidate, distance);
            } else {
                lemma_search_finds(color, index + 1, best, best_distance);
            }
        }
    } else {
        assert(declaration_index(color) < 16);
    }
}

/// Each named colour's own value reduces to that name.
pub proof fn lemma_named_value_reduces_to_its_name(color: NamedColor)
    ensures
        reduced_named(named_rgb_value(color)) == color,
        named_reduction(TextColor::Rgb(named_rgb_value(color))) == color,
{
    lemma_named_hsv(color);
    lemma_single_powers();
    assert(is_single(largest_single()));
    lemma_search_finds(color, 0, NamedColor::Black, largest_single());
}

impl TextColor {
    pub fn rgb(self) -> (rgb: RgbColor)
        ensures
            rgb.red * 65536 + rgb.green * 256 + rgb.blue == color_rgb(self),
            self matches TextColor::Rgb(own) ==> rgb == own,
            rgb == text_color_rgb(self),
    {
        match self {
            TextColor::Named(named) => named.rgb(),
            TextColor::Rgb(rgb) => rgb,
        }
    }

    /// Reduces this colour to the closest of the sixteen named colours.
    ///
    /// Distance is measured in HSV with the hue difference weighted three times. An RGB
    /// metric picks visibly different colours: a pale blue is nearest to grey by RGB
    /// distance but to blue by hue, and the client shows whichever one we send.
    pub fn to_named(self) -> (named: NamedColor)
        ensures
            named == named_reduction(self),
    {
        match self {
            TextColor::Named(named) => named,
            TextColor::Rgb(rgb) => nearest_named(rgb),
        }
    }
}

} // verus!
