//! Colors with 8-bit channels, their packing into display pixels and their averaging.

use vstd::arithmetic::div_mod::lemma_div_by_multiple;
use vstd::prelude::*;

verus! {

/// A 24-bit color, one byte per channel.
#[derive(Clone, Copy, Debug, PartialEq, Eq, Structural)]
pub struct TrueColor {
    pub red: u8,
    pub green: u8,
    pub blue: u8,
}

/// Which source channel feeds each display channel: the first letter names the
/// channel shown as red, the second the one shown as green, the third the one
/// shown as blue. `BGR` shows blue as red, green as green and red as blue.
#[derive(Clone, Copy, Debug, PartialEq, Eq, Structural)]
pub enum ColorChannelMapping {
    BBB,
    BBG,
    BBR,
    BGB,
    BGG,
    BGR,
    BRB,
    BRG,
    BRR,
    GBB,
    GBG,
    GBR,
    GGB,
    GGG,
    GGR,
    GRB,
    GRG,
    GRR,
    RBB,
    RBG,
    RBR,
    RGG,
    RGR,
    RRB,
    RRG,
    RRR,
    RGB,
}

/// What `str::to_uppercase` returns for a string with the characters `s`.
pub uninterp spec fn uppercase_of(s: Seq<char>) -> Seq<char>;

/// The text of the error for a string that names no mapping.
pub open spec fn invalid_mapping_message() -> Seq<char> {
    "Invalid r_g_b string, should be a string of length three with characters 'R', 'G' or 'B'"@
}

/// Whether `s` consists of exactly three channel letters.
pub open spec fn is_channel_triple(s: Seq<char>) -> bool {
    s.len() == 3 && is_channel_letter(s[0]) && is_channel_letter(s[1]) && is_channel_letter(s[2])
}

/// The result of reading a mapping from upper-case letters: the mapping whose
/// letters are those of `s`, or the error message when `s` is no channel triple.
pub open spec fn reads_as(s: Seq<char>, outcome: Result<ColorChannelMapping, String>) -> bool {
    match outcome {
        Ok(mapping) => is_channel_triple(s) && mapping.letters() == (s[0], s[1], s[2]),
        Err(message) => !is_channel_triple(s) && message@ == invalid_mapping_message(),
    }
}

/// `str::to_uppercase`: the contract only names the result, as the upper-case
/// form of the argument's characters.
#[verifier::external_body]
fn to_uppercase(s: &str) -> (upper: String)
    ensures
        upper@ == uppercase_of(s@),
{
    s.to_uppercase()
}

impl ColorChannelMapping {
    /// The three channel letters of this mapping, in display order red, green, blue.
    pub open spec fn letters(self) -> (char, char, char) {
        match self {
            ColorChannelMapping::BBB => ('B', 'B', 'B'),
            ColorChannelMapping::BBG => ('B', 'B', 'G'),
            ColorChannelMapping::BBR => ('B', 'B', 'R'),
            ColorChannelMapping::BGB => ('B', 'G', 'B'),
            ColorChannelMapping::BGG => ('B', 'G', 'G'),
            ColorChannelMapping::BGR => ('B', 'G', 'R'),
            ColorChannelMapping::BRB => ('B', 'R', 'B'),
            ColorChannelMapping::BRG => ('B', 'R', 'G'),
            ColorChannelMapping::BRR => ('B', 'R', 'R'),
            ColorChannelMapping::GBB => ('G', 'B', 'B'),
            ColorChannelMapping::GBG => ('G', 'B', 'G'),
            ColorChannelMapping::GBR => ('G', 'B', 'R'),
            ColorChannelMapping::GGB => ('G', 'G', 'B'),
            ColorChannelMapping::GGG => ('G', 'G', 'G'),
            ColorChannelMapping::GGR => ('G', 'G', 'R'),
            ColorChannelMapping::GRB => ('G', 'R', 'B'),
            ColorChannelMapping::GRG => ('G', 'R', 'G'),
            ColorChannelMapping::GRR => ('G', 'R', 'R'),
            ColorChannelMapping::RBB => ('R', 'B', 'B'),
            ColorChannelMapping::RBG => ('R', 'B', 'G'),
            ColorChannelMapping::RBR => ('R', 'B', 'R'),
            ColorChannelMapping::RGG => ('R', 'G', 'G'),
            ColorChannelMapping::RGR => ('R', 'G', 'R'),
            ColorChannelMapping::RRB => ('R', 'R', 'B'),
            ColorChannelMapping::RRG => ('R', 'R', 'G'),
            ColorChannelMapping::RRR => ('R', 'R', 'R'),
            ColorChannelMapping::RGB => ('R', 'G', 'B'),
        }
    }

    /// Reads a mapping from three letters in any case, such as `"bgr"` or `"RGB"`.
    pub fn new(r_g_b: &str) -> (outcome: Result<ColorChannelMapping, String>)
        ensures
            reads_as(uppercase_of(r_g_b@), outcome),
    {
        let upper = to_uppercase(r_g_b);
        ColorChannelMapping::from_uppercase(upper.as_str())
    }

    /// Reads a mapping from exactly three upper-case channel letters.
    pub fn from_uppercase(letters: &str) -> (outcome: Result<ColorChannelMapping, String>)
        ensures
            reads_as(letters@, outcome),
    {
        if letters.unicode_len() != 3 {
            return Err(ColorChannelMapping::invalid_mapping());
        }
        let r = letters.get_char(0);
        let g = letters.get_char(1);
        let b = letters.get_char(2);
        match (r, g, b) {
            ('B', 'B', 'B') => Ok(ColorChannelMapping::BBB),
            ('B', 'B', 'G') => Ok(ColorChannelMapping::BBG),
            ('B', 'B', 'R') => Ok(ColorChannelMapping::BBR),
            ('B', 'G', 'B') => Ok(ColorChannelMapping::BGB),
            ('B', 'G', 'G') => Ok(ColorChannelMapping::BGG),
            ('B', 'G', 'R') => Ok(ColorChannelMapping::BGR),
            ('B', 'R', 'B') => Ok(ColorChannelMapping::BRB),
            ('B', 'R', 'G') => Ok(ColorChannelMapping::BRG),
            ('B', 'R', 'R') => Ok(ColorChannelMapping::BRR),
            ('G', 'B', 'B') => Ok(ColorChannelMapping::GBB),
            ('G', 'B', 'G') => Ok(ColorChannelMapping::GBG),
            ('G', 'B', 'R') => Ok(ColorChannelMapping::GBR),
            ('G', 'G', 'B') => Ok(ColorChannelMapping::GGB),
            ('G', 'G', 'G') => Ok(ColorChannelMapping::GGG),
            ('G', 'G', 'R') => Ok(ColorChannelMapping::GGR),
            ('G', 'R', 'B') => Ok(ColorChannelMapping::GRB),
            ('G', 'R', 'G') => Ok(ColorChannelMapping::GRG),
            ('G', 'R', 'R') => Ok(ColorChannelMapping::GRR),
            ('R', 'B', 'B') => Ok(ColorChannelMapping::RBB),
            ('R', 'B', 'G') => Ok(ColorChannelMapping::RBG),
            ('R', 'B', 'R') => Ok(ColorChannelMapping::RBR),
            ('R', 'G', 'G') => Ok(ColorChannelMapping::RGG),
            ('R', 'G', 'R') => Ok(ColorChannelMapping::RGR),
            ('R', 'R', 'B') => Ok(ColorChannelMapping::RRB),
            ('R', 'R', 'G') => Ok(ColorChannelMapping::RRG),
            ('R', 'R', 'R') => Ok(ColorChannelMapping::RRR),
            ('R', 'G', 'B') => Ok(ColorChannelMapping::RGB),
            _ => Err(ColorChannelMapping::invalid_mapping()),
        }
    }

    fn invalid_mapping() -> (message: String)
        ensures
            message@ == invalid_mapping_message(),
    {
        "Invalid r_g_b string, should be a string of length three with characters 'R', 'G' or 'B'".to_owned()
    }

    /// Returns (x,y,z) where x,y,z are each one of 'R', 'G' and 'B'.
    pub fn get_r_g_b_mapping(&self) -> (letters: (char, char, char))
        ensures
            letters == self.letters(),
            is_channel_letter(letters.0),
            is_channel_letter(letters.1),
            is_channel_letter(letters.2),
    {
        match self {
            ColorChannelMapping::BBB => ('B', 'B', 'B'),
            ColorChannelMapping::BBG => ('B', 'B', 'G'),
            ColorChannelMapping::BBR => ('B', 'B', 'R'),
            ColorChannelMapping::BGB => ('B', 'G', 'B'),
            ColorChannelMapping::BGG => ('B', 'G', 'G'),
            ColorChannelMapping::BGR => ('B', 'G', 'R'),
            ColorChannelMapping::BRB => ('B', 'R', 'B'),
            ColorChannelMapping::BRG => ('B', 'R', 'G'),
            ColorChannelMapping::BRR => ('B', 'R', 'R'),
            ColorChannelMapping::GBB => ('G', 'B', 'B'),
            ColorChannelMapping::GBG => ('G', 'B', 'G'),
            ColorChannelMapping::GBR => ('G', 'B', 'R'),
            ColorChannelMapping::GGB => ('G', 'G', 'B'),
            ColorChannelMapping::GGG => ('G', 'G', 'G'),
            ColorChannelMapping::GGR => ('G', 'G', 'R'),
            ColorChannelMapping::GRB => ('G', 'R', 'B'),
            ColorChannelMapping::GRG => ('G', 'R', 'G'),
            ColorChannelMapping::GRR => ('G', 'R', 'R'),
            ColorChannelMapping::RBB => ('R', 'B', 'B'),
            ColorChannelMapping::RBG => ('R', 'B', 'G'),
            ColorChannelMapping::RBR => ('R', 'B', 'R'),
            ColorChannelMapping::RGG => ('R', 'G', 'G'),
            ColorChannelMapping::RGR => ('R', 'G', 'R'),
            ColorChannelMapping::RRB => ('R', 'R', 'B'),
            ColorChannelMapping::RRG => ('R', 'R', 'G'),
            ColorChannelMapping::RRR => ('R', 'R', 'R'),
            ColorChannelMapping::RGB => ('R', 'G', 'B'),
        }
    }
}

impl std::str::FromStr for ColorChannelMapping {
    type Err = String;

    /// Reads a mapping as `ColorChannelMapping::new` does.
    fn from_str(s: &str) -> (outcome: Result<Self, Self::Err>)
        ensures
            reads_as(uppercase_of(s@), outcome),
    {
        ColorChannelMapping::new(s)
    }
}

/// Whether `letter` names one of the three channels.
pub open spec fn is_channel_letter(letter: char) -> bool {
    letter == 'R' || letter == 'G' || letter == 'B'
}

/// The sum of one channel over a sequence of colors.
pub open spec fn channel_total(colors: Seq<TrueColor>, letter: char) -> nat
    decreases colors.len(),
{
    if colors.len() == 0 {
        0
    } else {
        channel_total(colors.drop_last(), letter) + colors.last().channel(letter) as nat
    }
}

/// The channel-wise integer average of `colors`; black when there are none.
pub open spec fn average_of(colors: Seq<TrueColor>) -> TrueColor {
    let divisor = if colors.len() == 0 {
        1
    } else {
        colors.len()
    };
    TrueColor {
        red: (channel_total(colors, 'R') / divisor) as u8,
        green: (channel_total(colors, 'G') / divisor) as u8,
        blue: (channel_total(colors, 'B') / divisor) as u8,
    }
}

impl TrueColor {
    /// The value of the channel that `letter` names, 0 for any other letter.
    pub open spec fn channel(self, letter: char) -> u8 {
        if letter == 'R' {
            self.red
        } else if letter == 'G' {
            self.green
        } else if letter == 'B' {
            self.blue
        } else {
            0
        }
    }

    /// The display pixel of this color under `mapping`: `0RGB`, eight bits per
    /// channel, after the channels were reordered.
    pub open spec fn packed(self, mapping: ColorChannelMapping) -> u32 {
        let (r, g, b) = mapping.letters();
        (self.channel(r) as int * 65536 + self.channel(g) as int * 256 + self.channel(b) as int) as u32
    }

    pub fn new(red: u8, green: u8, blue: u8) -> (color: TrueColor)
        ensures
            color == (TrueColor { red, green, blue }),
    {
        TrueColor { red, green, blue }
    }

    /// The value of the channel named by `color`, one of `'R'`, `'G'` and `'B'`.
    pub fn get_color(&self, color: char) -> (value: u8)
        requires
            is_channel_letter(color),
        ensures
            value == self.channel(color),
    {
        if color == 'R' {
            self.red
        } else if color == 'G' {
            self.green
        } else {
            self.blue
        }
    }

    /// Creates a 32-bit pixel. The encoding is `0RGB`: the upper 8 bits are zero,
    /// the next 8 bits hold the channel that `mapping` shows as red, the next 8
    /// the one shown as green, and the lower 8 the one shown as blue.
    pub fn to_32_bit(&self, mapping: &ColorChannelMapping) -> (pixel: u32)
        ensures
            pixel == self.packed(*mapping),
    {
        let (r_map, g_map, b_map) = mapping.get_r_g_b_mapping();
        let r: u32 = self.get_color(r_map) as u32;
        let g: u32 = self.get_color(g_map) as u32;
        let b: u32 = self.get_color(b_map) as u32;
        assert((r << 16) | (g << 8) | b == r * 65536 + g * 256 + b) by (bit_vector)
            requires
                r < 256,
                g < 256,
                b < 256,
        ;
        (r << 16) | (g << 8) | b
    }

    /// Computes the average color of the given colors, channel by channel.
    pub fn average(colors: &Vec<TrueColor>) -> (mean: TrueColor)
        ensures
            mean == average_of(colors@),
    {
        let mut red: u128 = 0;
        let mut green: u128 = 0;
        let mut blue: u128 = 0;
        let mut i: usize = 0;
        while i < colors.len()
            invariant
                i <= colors.len(),
                red == channel_total(colors@.take(i as int), 'R'),
                green == channel_total(colors@.take(i as int), 'G'),
                blue == channel_total(colors@.take(i as int), 'B'),
                red <= 255 * i,
                green <= 255 * i,
                blue <= 255 * i,
            decreases colors.len() - i,
        {
            proof {
                assert(colors@.take(i + 1).drop_last() =~= colors@.take(i as int));
            }
            let color = colors[i];
            red = red + color.red as u128;
            green = green + color.green as u128;
            blue = blue + color.blue as u128;
            i = i + 1;
        }
        proof {
            assert(colors@.take(i as int) =~= colors@);
        }
        let divisor: u128 = if colors.len() == 0 {
            1
        } else {
            colors.len() as u128
        };
        proof {
            lemma_quotient_bound(red as int, divisor as int);
            lemma_quotient_bound(green as int, divisor as int);
            lemma_quotient_bound(blue as int, divisor as int);
        }
        TrueColor {
            red: (red / divisor) as u8,
            green: (green / divisor) as u8,
            blue: (blue / divisor) as u8,
        }
    }
}

/// A total of at most `255 * n` divided by `n` is at most 255.
proof fn lemma_quotient_bound(total: int, n: int)
    requires
        n > 0,
        0 <= total <= 255 * n,
    ensures
        0 <= total / n <= 255,
{
    assert(0 <= total / n <= 255) by (nonlinear_arith)
        requires
            n > 0,
            0 <= total <= 255 * n,
    ;
}

/// The channel total of `n` equal colors is `n` times the channel's value.
proof fn lemma_total_of_copies(colors: Seq<TrueColor>, color: TrueColor, letter: char)
    requires
        forall|k: int| 0 <= k < colors.len() ==> colors[k] == color,
    ensures
        channel_total(colors, letter) == color.channel(letter) * colors.len(),
    decreases colors.len(),
{
    if colors.len() > 0 {
        lemma_total_of_copies(colors.drop_last(), color, letter);
        assert(color.channel(letter) * (colors.len() - 1) + color.channel(letter) == color.channel(
            letter,
        ) * colors.len()) by (nonlinear_arith);
    }
}

/// The average of any number of copies of one color, at least one, is that color.
pub proof fn lemma_average_of_copies(colors: Seq<TrueColor>, color: TrueColor)
    requires
        colors.len() > 0,
        forall|k: int| 0 <= k < colors.len() ==> colors[k] == color,
    ensures
        average_of(colors) == color,
{
    lemma_total_of_copies(colors, color, 'R');
    lemma_total_of_copies(colors, color, 'G');
    lemma_total_of_copies(colors, color, 'B');
    lemma_div_by_multiple(color.red as int, colors.len() as int);
    lemma_div_by_multiple(color.green as int, colors.len() as int);
    lemma_div_by_multiple(color.blue as int, colors.len() as int);
}

/// The average of no colors at all is black.
pub proof fn lemma_average_of_none()
    ensures
        average_of(Seq::<TrueColor>::empty()) == (TrueColor { red: 0, green: 0, blue: 0 }),
{
}

/// A mapping is known by its three letters: no two mappings share them.
pub proof fn lemma_letters_identify_mapping(a: ColorChannelMapping, b: ColorChannelMapping)
    requires
        a.letters() == b.letters(),
    ensures
        a == b,
{
}

/// Taking one color out lowers a channel total by that color's channel.
proof fn lemma_total_without(colors: Seq<TrueColor>, i: int, letter: char)
    requires
        0 <= i < colors.len(),
    ensures
        channel_total(colors, letter) == channel_total(colors.remove(i), letter) + colors[i].channel(
            letter,
        ),
    decreases colors.len(),
{
    if i == colors.len() - 1 {
        assert(colors.remove(i) =~= colors.drop_last());
    } else {
        lemma_total_without(colors.drop_last(), i, letter);
        assert(colors.remove(i).drop_last() =~= colors.drop_last().remove(i));
        assert(colors.remove(i).last() == colors.last());
    }
}

/// A channel total depends on which colors there are and how often, not on
/// their order.
proof fn lemma_total_ignores_order(a: Seq<TrueColor>, b: Seq<TrueColor>, letter: char)
    requires
        a.to_multiset() == b.to_multiset(),
    ensures
        channel_total(a, letter) == channel_total(b, letter),
    decreases a.len(),
{
    a.to_multiset_ensures();
    b.to_multiset_ensures();
    if a.len() > 0 {
        let last = a.last();
        assert(a[a.len() - 1] == last);
        assert(a.contains(last));
        assert(a.to_multiset().count(last) > 0);
        assert(b.to_multiset().count(last) > 0);
        assert(b.contains(last));
        let j = choose|j: int| 0 <= j < b.len() && b[j] == last;
        assert(a.drop_last() =~= a.remove(a.len() - 1));
        lemma_total_ignores_order(a.drop_last(), b.remove(j), letter);
        lemma_total_without(b, j, letter);
    }
}

/// The average does not depend on the order of the colors: two sequences that
/// hold the same colors equally often have the same average.
pub proof fn lemma_average_ignores_order(a: Seq<TrueColor>, b: Seq<TrueColor>)
    requires
        a.to_multiset() == b.to_multiset(),
    ensures
        average_of(a) == average_of(b),
{
    a.to_multiset_ensures();
    b.to_multiset_ensures();
    lemma_total_ignores_order(a, b, 'R');
    lemma_total_ignores_order(a, b, 'G');
    lemma_total_ignores_order(a, b, 'B');
}

} // verus!
