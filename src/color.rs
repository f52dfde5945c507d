//! Reference colors: how they are written, and how far a sample lies from one.
use vstd::prelude::*;
use vstd::string::*;

verus! {

/// A color as red, green and blue channels.
pub type Rgb = (u8, u8, u8);

/// A calibration color, tagged with the key state it stands for: the
/// background of an unpressed key or the foreground of a pressed one.
#[derive(Clone, Copy, Debug, Eq)]
pub enum ColorKind {
    BackgroundColor(Rgb),
    ForegroundColor(Rgb),
}

/// Why a color could not be read.
#[derive(Clone, Copy, Debug, PartialEq, Eq, Structural)]
pub enum ParseError {
    /// Not of the form `R:G:B` or `bR:G:B` with decimal channels from 0 to 255.
    BadColorFormat,
}

impl PartialEq for ColorKind {
    fn eq(&self, other: &ColorKind) -> (r: bool) {
        match (self, other) {
            (ColorKind::BackgroundColor(a), ColorKind::BackgroundColor(b)) => a.0 == b.0 && a.1
                == b.1 && a.2 == b.2,
            (ColorKind::ForegroundColor(a), ColorKind::ForegroundColor(b)) => a.0 == b.0 && a.1
                == b.1 && a.2 == b.2,
            _ => false,
        }
    }
}

impl vstd::std_specs::cmp::PartialEqSpecImpl for ColorKind {
    open spec fn obeys_eq_spec() -> bool {
        true
    }

    open spec fn eq_spec(&self, other: &ColorKind) -> bool {
        *self == *other
    }
}

impl ColorKind {
    /// The color itself, whatever its tag.
    pub open spec fn rgb(self) -> Rgb {
        match self {
            ColorKind::BackgroundColor(c) => c,
            ColorKind::ForegroundColor(c) => c,
        }
    }

    /// Squared Euclidean distance between this color and `other`.
    pub open spec fn distance_spec(self, other: Rgb) -> int {
        let c = self.rgb();
        let dr = c.0 as int - other.0 as int;
        let dg = c.1 as int - other.1 as int;
        let db = c.2 as int - other.2 as int;
        dr * dr + dg * dg + db * db
    }

    /// Whether this color marks a pressed key.
    pub fn is_foreground(&self) -> (r: bool)
        ensures
            r == (*self is ForegroundColor),
    {
        match self {
            ColorKind::BackgroundColor(_) => false,
            ColorKind::ForegroundColor(_) => true,
        }
    }

    /// Squared Euclidean distance between this color and `color_to_compare`;
    /// the tag plays no part.
    pub fn get_distance_to_color(&self, color_to_compare: Rgb) -> (r: i32)
        ensures
            r as int == self.distance_spec(color_to_compare),
    {
        let self_color: Rgb = match *self {
            ColorKind::BackgroundColor(c) => c,
            ColorKind::ForegroundColor(c) => c,
        };
        let dr: i32 = self_color.0 as i32 - color_to_compare.0 as i32;
        let dg: i32 = self_color.1 as i32 - color_to_compare.1 as i32;
        let db: i32 = self_color.2 as i32 - color_to_compare.2 as i32;
        assert(dr * dr <= 255 * 255) by (nonlinear_arith)
            requires
                -255 <= dr <= 255,
        ;
        assert(dg * dg <= 255 * 255) by (nonlinear_arith)
            requires
                -255 <= dg <= 255,
        ;
        assert(db * db <= 255 * 255) by (nonlinear_arith)
            requires
                -255 <= db <= 255,
        ;
        assert(dr * dr >= 0 && dg * dg >= 0 && db * db >= 0) by (nonlinear_arith);
        dr * dr + dg * dg + db * db
    }
}

/// `i` is the palette entry nearest to `sample`: no entry is nearer, and
/// every entry before it is strictly farther (the first of equals wins).
pub open spec fn is_nearest(palette: Seq<ColorKind>, sample: Rgb, i: int) -> bool {
    &&& 0 <= i < palette.len()
    &&& forall|j: int|
        0 <= j < palette.len() ==> palette[i].distance_spec(sample) <= #[trigger] palette[j].distance_spec(
            sample,
        )
    &&& forall|j: int|
        0 <= j < i ==> palette[i].distance_spec(sample) < #[trigger] palette[j].distance_spec(
            sample,
        )
}

/// There is exactly one nearest entry.
pub proof fn lemma_nearest_unique(palette: Seq<ColorKind>, sample: Rgb, i: int, j: int)
    requires
        is_nearest(palette, sample, i),
        is_nearest(palette, sample, j),
    ensures
        i == j,
{
    if i < j {
        assert(palette[j].distance_spec(sample) < palette[i].distance_spec(sample));
    } else if j < i {
        assert(palette[i].distance_spec(sample) < palette[j].distance_spec(sample));
    }
}

/// The index of the palette entry nearest to `sample`, the first one among
/// equally near entries.
pub fn nearest_color_index(palette: &Vec<ColorKind>, sample: Rgb) -> (r: usize)
    requires
        palette@.len() > 0,
    ensures
        is_nearest(palette@, sample, r as int),
{
    let mut best: usize = 0;
    let mut best_distance: i32 = palette[0].get_distance_to_color(sample);
    let mut j: usize = 1;
    while j < palette.len()
        invariant
            1 <= j <= palette@.len(),
            best < j,
            best_distance as int == palette@[best as int].distance_spec(sample),
            forall|k: int|
                0 <= k < j ==> best_distance <= #[trigger] palette@[k].distance_spec(sample),
            forall|k: int|
                0 <= k < best ==> best_distance < #[trigger] palette@[k].distance_spec(sample),
        decreases palette@.len() - j,
    {
        let d: i32 = palette[j].get_distance_to_color(sample);
        if d < best_distance {
            best = j;
            best_distance = d;
        }
        j = j + 1;
    }
    best
}

/// Whether `c` is a decimal digit.
pub open spec fn is_digit(c: char) -> bool {
    '0' <= c <= '9'
}

/// The number that the decimal digits `s` write.
pub open spec fn digits_value(s: Seq<char>) -> int
    decreases s.len(),
{
    if s.len() == 0 {
        0
    } else {
        digits_value(s.drop_last()) * 10 + (s.last() as int - '0' as int)
    }
}

/// A channel: one or more decimal digits (leading zeros allowed) whose value
/// is at most 255.
pub open spec fn channel_spec(s: Seq<char>) -> Option<u8> {
    if s.len() > 0 && (forall|k: int| 0 <= k < s.len() ==> is_digit(#[trigger] s[k]))
        && digits_value(s) <= 255 {
        Some(digits_value(s) as u8)
    } else {
        None
    }
}

/// The position of the first `':'` at or after `from`, or -1 if there is none.
pub open spec fn find_colon(s: Seq<char>, from: int) -> int
    decreases s.len() - from,
{
    if from < 0 || from >= s.len() {
        -1
    } else if s[from] == ':' {
        from
    } else {
        find_colon(s, from + 1)
    }
}

/// Three channels separated by the first two colons.
pub open spec fn triple_spec(s: Seq<char>) -> Option<Rgb> {
    let c1 = find_colon(s, 0);
    let c2 = find_colon(s, c1 + 1);
    if c1 < 0 || c2 < 0 {
        None
    } else {
        match (
            channel_spec(s.subrange(0, c1)),
            channel_spec(s.subrange(c1 + 1, c2)),
            channel_spec(s.subrange(c2 + 1, s.len() as int)),
        ) {
            (Some(r), Some(g), Some(b)) => Some((r, g, b)),
            _ => None,
        }
    }
}

/// A color written `R:G:B` (foreground) or `bR:G:B` (background).
pub open spec fn color_spec(s: Seq<char>) -> Option<ColorKind> {
    if s.len() > 0 && s[0] == 'b' {
        match triple_spec(s.drop_first()) {
            Some(c) => Some(ColorKind::BackgroundColor(c)),
            None => None,
        }
    } else {
        match triple_spec(s) {
            Some(c) => Some(ColorKind::ForegroundColor(c)),
            None => None,
        }
    }
}

proof fn lemma_digits_value_nonneg(s: Seq<char>)
    requires
        forall|k: int| 0 <= k < s.len() ==> is_digit(#[trigger] s[k]),
    ensures
        digits_value(s) >= 0,
    decreases s.len(),
{
    if s.len() > 0 {
        lemma_digits_value_nonneg(s.drop_last());
    }
}

proof fn lemma_digits_value_prefix(s: Seq<char>, k: int)
    requires
        0 <= k <= s.len(),
        forall|m: int| 0 <= m < s.len() ==> is_digit(#[trigger] s[m]),
    ensures
        digits_value(s.take(k)) <= digits_value(s),
    decreases s.len() - k,
{
    if k < s.len() {
        lemma_digits_value_prefix(s, k + 1);
        assert(s.take(k + 1).drop_last() =~= s.take(k));
        lemma_digits_value_nonneg(s.take(k));
    } else {
        assert(s.take(k) =~= s);
    }
}

/// Reads the channel written by the characters `from..to` of `s`.
fn parse_channel(s: &str, from: usize, to: usize) -> (r: Option<u8>)
    requires
        from <= to <= s@.len(),
    ensures
        r == channel_spec(s@.subrange(from as int, to as int)),
{
    let ghost t = s@.subrange(from as int, to as int);
    if from == to {
        return None;
    }
    let mut k: usize = from;
    while k < to
        invariant
            from <= k <= to <= s@.len(),
            t == s@.subrange(from as int, to as int),
            forall|m: int| 0 <= m < k - from ==> is_digit(#[trigger] t[m]),
        decreases to - k,
    {
        let c: char = s.get_char(k);
        if !('0' <= c && c <= '9') {
            assert(!is_digit(t[k - from]));
            return None;
        }
        k = k + 1;
    }
    let mut value: u32 = 0;
    let mut k: usize = from;
    while k < to
        invariant
            from <= k <= to <= s@.len(),
            t == s@.subrange(from as int, to as int),
            forall|m: int| 0 <= m < t.len() ==> is_digit(#[trigger] t[m]),
            value as int == digits_value(t.take(k - from)),
            value <= 255,
        decreases to - k,
    {
        let c: char = s.get_char(k);
        assert(t.take(k - from + 1).drop_last() =~= t.take(k - from));
        assert(is_digit(t[k - from]));
        value = value * 10 + (c as u32 - '0' as u32);
        k = k + 1;
        if value > 255 {
            proof {
                lemma_digits_value_prefix(t, k - from);
            }
            return None;
        }
    }
    assert(t.take(to - from) =~= t);
    Some(value as u8)
}

/// The position of the first `':'` of `s` at or after `from`, if any.
fn find_colon_from(s: &str, from: usize) -> (r: Option<usize>)
    requires
        from <= s@.len(),
    ensures
        match r {
            Some(i) => i as int == find_colon(s@, from as int) && from <= i < s@.len(),
            None => find_colon(s@, from as int) == -1,
        },
{
    let n: usize = s.unicode_len();
    let mut k: usize = from;
    while k < n
        invariant
            from <= k <= n,
            n == s@.len(),
            find_colon(s@, from as int) == find_colon(s@, k as int),
        decreases n - k,
    {
        if s.get_char(k) == ':' {
            return Some(k);
        }
        k = k + 1;
    }
    None
}

/// Reads a color written `R:G:B` (a foreground color) or `bR:G:B` (a
/// background color), each channel decimal from 0 to 255, leading zeros
/// allowed.
pub fn parse_color(s: &str) -> (r: Result<ColorKind, ParseError>)
    ensures
        match r {
            Ok(c) => color_spec(s@) == Some(c),
            Err(_) => color_spec(s@) is None,
        },
{
    let n: usize = s.unicode_len();
    let background: bool = n > 0 && s.get_char(0) == 'b';
    let start: usize = if background {
        1
    } else {
        0
    };
    let ghost body = s@.subrange(start as int, n as int);
    proof {
        if background {
            assert(body =~= s@.drop_first());
        } else {
            assert(body =~= s@);
        }
    }
    let c1 = find_colon_from(s, start);
    let c1 = match c1 {
        Some(i) => i,
        None => {
            assert(find_colon(body, 0) == -1) by {
                lemma_find_colon_shift(s@, start as int, 0);
            }
            return Err(ParseError::BadColorFormat);
        },
    };
    proof {
        lemma_find_colon_shift(s@, start as int, 0);
    }
    let c2 = find_colon_from(s, c1 + 1);
    let c2 = match c2 {
        Some(i) => i,
        None => {
            assert(find_colon(body, c1 - start + 1) == -1) by {
                lemma_find_colon_shift(s@, start as int, c1 - start + 1);
            }
            return Err(ParseError::BadColorFormat);
        },
    };
    proof {
        lemma_find_colon_shift(s@, start as int, c1 - start + 1);
        assert(body.subrange(0, c1 - start) =~= s@.subrange(start as int, c1 as int));
        assert(body.subrange(c1 - start + 1, c2 - start) =~= s@.subrange(
            c1 + 1,
            c2 as int,
        ));
        assert(body.subrange(c2 - start + 1, body.len() as int) =~= s@.subrange(
            c2 + 1,
            n as int,
        ));
    }
    let red = parse_channel(s, start, c1);
    let green = parse_channel(s, c1 + 1, c2);
    let blue = parse_channel(s, c2 + 1, n);
    match (red, green, blue) {
        (Some(r), Some(g), Some(b)) => {
            if background {
                Ok(ColorKind::BackgroundColor((r, g, b)))
            } else {
                Ok(ColorKind::ForegroundColor((r, g, b)))
            }
        },
        _ => Err(ParseError::BadColorFormat),
    }
}

/// Searching a suffix of `s` that starts at `start` finds the same colon as
/// searching `s` itself, shifted by `start`.
proof fn lemma_find_colon_shift(s: Seq<char>, start: int, from: int)
    requires
        0 <= start <= s.len(),
        0 <= from,
    ensures
        find_colon(s.subrange(start, s.len() as int), from) == if find_colon(s, start + from) < 0 {
            -1
        } else {
            find_colon(s, start + from) - start
        },
    decreases s.len() - start - from,
{
    let t = s.subrange(start, s.len() as int);
    if from < t.len() {
        assert(t[from] == s[start + from]);
        if s[start + from] != ':' {
            lemma_find_colon_shift(s, start, from + 1);
        }
    }
}

impl std::str::FromStr for ColorKind {
    type Err = ParseError;

    fn from_str(s: &str) -> (r: Result<ColorKind, ParseError>)
        ensures
            match r {
                Ok(c) => color_spec(s@) == Some(c),
                Err(_) => color_spec(s@) is None,
            },
    {
        parse_color(s)
    }
}

} // verus!
