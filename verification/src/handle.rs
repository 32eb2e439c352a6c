//! Compact handles that identify a tile definition inside a tile set.
//!
//! A handle packs two 16-bit coordinate pairs: the position of a page and
//! the position of a tile on that page.

use vstd::prelude::*;
use vstd::string::StrSliceExecFns;
use vstd::string::StringExecFns;

use crate::geom::Vector2I;
use crate::grid_map::GridKey;

verus! {

/// The coordinates stored in a [`TileDefinitionHandle`]: a 2D vector of
/// 16-bit integers.
#[derive(Clone, Copy, PartialEq, Eq, Structural, Hash, Debug)]
pub struct PalettePosition {
    /// Horizontal coordinate.
    pub x: i16,
    /// Vertical coordinate.
    pub y: i16,
}

impl PalettePosition {
    /// Build a palette position from its two coordinates.
    pub fn new(x: i16, y: i16) -> (r: PalettePosition)
        ensures
            r == (PalettePosition { x, y }),
    {
        PalettePosition { x, y }
    }
}

/// Whether both coordinates of a vector fit the signed 16-bit range.
pub open spec fn fits_palette(v: Vector2I) -> bool {
    i16::MIN <= v.x <= i16::MAX && i16::MIN <= v.y <= i16::MAX
}

/// Narrow a vector to 16-bit coordinates; fails exactly when a coordinate
/// is out of the signed 16-bit range.
pub fn try_position(source: Vector2I) -> (r: Option<PalettePosition>)
    ensures
        fits_palette(source) <==> r is Some,
        r is Some ==> r->Some_0 == (PalettePosition { x: source.x as i16, y: source.y as i16 }),
{
    if source.x >= i16::MIN as i32 && source.x <= i16::MAX as i32 && source.y >= i16::MIN as i32
        && source.y <= i16::MAX as i32 {
        Some(PalettePosition { x: source.x as i16, y: source.y as i16 })
    } else {
        None
    }
}

/// Widen a palette position back to 32-bit coordinates.
pub fn position_to_vector(source: PalettePosition) -> (r: Vector2I)
    ensures
        r == (Vector2I { x: source.x as i32, y: source.y as i32 }),
{
    Vector2I { x: source.x as i32, y: source.y as i32 }
}

/// Position of a tile definition within some tile set.
#[derive(Clone, Copy, PartialEq, Eq, Structural, Hash, Debug)]
pub struct TileDefinitionHandle {
    /// Position of the tile's page.
    pub page: PalettePosition,
    /// Position of the tile definition within the page.
    pub tile: PalettePosition,
}

impl GridKey for TileDefinitionHandle {
    fn key_eq(&self, other: &Self) -> (r: bool) {
        self.page.x == other.page.x && self.page.y == other.page.y && self.tile.x == other.tile.x
            && self.tile.y == other.tile.y
    }
}

/// A syntax error in parsing a [`TileDefinitionHandle`] from a string.
#[derive(Clone, Copy, PartialEq, Eq, Structural, Debug)]
pub struct TileDefinitionHandleParseError;

impl TileDefinitionHandle {
    /// Attempt to construct a handle for the given page and tile positions.
    /// Handles use a pair of 16-bit vectors, so that the total is 64 bits.
    /// If the given vectors are outside of the range that can be represented
    /// as 16-bit coordinates, then `None` is returned; otherwise the page
    /// and tile coordinates of the handle are exactly the given ones.
    pub fn try_new(page: Vector2I, tile: Vector2I) -> (r: Option<Self>)
        ensures
            r is Some <==> fits_palette(page) && fits_palette(tile),
            r is Some ==> r->Some_0.page_vector() == page && r->Some_0.tile_vector() == tile,
    {
        match (try_position(page), try_position(tile)) {
            (Some(p), Some(t)) => Some(TileDefinitionHandle { page: p, tile: t }),
            _ => None,
        }
    }

    /// Construct a handle directly from coordinates. This is intended for
    /// cases where certain tile handles may need to be hard-coded as having
    /// special significance.
    pub fn new(page_x: i16, page_y: i16, tile_x: i16, tile_y: i16) -> (r: Self)
        ensures
            r.page == (PalettePosition { x: page_x, y: page_y }),
            r.tile == (PalettePosition { x: tile_x, y: tile_y }),
    {
        TileDefinitionHandle {
            page: PalettePosition { x: page_x, y: page_y },
            tile: PalettePosition { x: tile_x, y: tile_y },
        }
    }

    /// The page coordinates, widened to a 32-bit vector.
    pub open spec fn page_vector(&self) -> Vector2I {
        Vector2I { x: self.page.x as i32, y: self.page.y as i32 }
    }

    /// The tile coordinates, widened to a 32-bit vector.
    pub open spec fn tile_vector(&self) -> Vector2I {
        Vector2I { x: self.tile.x as i32, y: self.tile.y as i32 }
    }

    /// Extracts the page coordinates and converts them to a 32-bit vector.
    pub fn page(&self) -> (r: Vector2I)
        ensures
            r == self.page_vector(),
    {
        position_to_vector(self.page)
    }

    /// Extracts the tile coordinates and converts them to a 32-bit vector.
    pub fn tile(&self) -> (r: Vector2I)
        ensures
            r == self.tile_vector(),
    {
        position_to_vector(self.tile)
    }
}

/// Whether a character is a decimal digit.
pub open spec fn is_digit(c: char) -> bool {
    48 <= c as u32 <= 57
}

/// Whether a character can be part of a number token: a digit or a minus
/// sign.
pub open spec fn is_token_char(c: char) -> bool {
    c == '-' || is_digit(c)
}

/// The length of the token-character run at the start of a string.
pub open spec fn token_len(s: Seq<char>) -> int
    decreases s.len(),
{
    if s.len() == 0 || !is_token_char(s[0]) {
        0
    } else {
        1 + token_len(s.drop_first())
    }
}

/// The token run at the start of a string covers exactly its leading
/// token characters.
pub proof fn lemma_token_len_bounds(s: Seq<char>)
    ensures
        0 <= token_len(s) <= s.len(),
        forall|i: int| 0 <= i < token_len(s) ==> is_token_char(#[trigger] s[i]),
        token_len(s) < s.len() ==> !is_token_char(s[token_len(s)]),
    decreases s.len(),
{
    if s.len() != 0 && is_token_char(s[0]) {
        let s0 = s.drop_first();
        lemma_token_len_bounds(s0);
        assert forall|i: int| 0 <= i < token_len(s) implies is_token_char(#[trigger] s[i]) by {
            if i > 0 {
                assert(s0[i - 1] == s[i]);
            }
        }
        if token_len(s) < s.len() {
            assert(s0[token_len(s0)] == s[token_len(s)]);
        }
    }
}

/// A run of exactly `m` token characters at the start of a string has
/// token length `m`.
pub proof fn lemma_token_len_exact(s: Seq<char>, m: int)
    requires
        0 <= m <= s.len(),
        forall|i: int| 0 <= i < m ==> is_token_char(#[trigger] s[i]),
        m == s.len() || !is_token_char(s[m]),
    ensures
        token_len(s) == m,
    decreases m,
{
    if m == 0 {
    } else {
        let s0 = s.drop_first();
        assert forall|i: int| 0 <= i < m - 1 implies is_token_char(#[trigger] s0[i]) by {
            assert(s0[i] == s[i + 1]);
        }
        if m - 1 < s0.len() {
            assert(s0[m - 1] == s[m]);
        }
        lemma_token_len_exact(s0, m - 1);
    }
}

/// The maximal runs of token characters in a string, in order.
pub open spec fn tokens_of(s: Seq<char>) -> Seq<Seq<char>>
    decreases s.len(),
    via tokens_of_decreases
{
    if s.len() == 0 {
        Seq::empty()
    } else if !is_token_char(s[0]) {
        tokens_of(s.drop_first())
    } else {
        seq![s.take(token_len(s))] + tokens_of(s.skip(token_len(s)))
    }
}

#[via_fn]
proof fn tokens_of_decreases(s: Seq<char>) {
    lemma_token_len_bounds(s);
}

/// The numeric value of a digit character.
pub open spec fn digit_val(c: char) -> int {
    c as u32 - 48
}

/// Whether every character of a string is a digit.
pub open spec fn all_digits(t: Seq<char>) -> bool {
    forall|i: int| 0 <= i < t.len() ==> is_digit(#[trigger] t[i])
}

/// The number a digit string denotes.
pub open spec fn digits_val(t: Seq<char>) -> int
    decreases t.len(),
{
    if t.len() == 0 {
        0
    } else {
        digits_val(t.drop_last()) * 10 + digit_val(t.last())
    }
}

/// What parsing a token as a 16-bit integer yields: an optional minus sign
/// followed by at least one digit, within the signed 16-bit range.
pub open spec fn parse_i16_token(t: Seq<char>) -> Option<i16> {
    if t.len() == 0 {
        None
    } else if t[0] == '-' {
        let d = t.drop_first();
        if d.len() > 0 && all_digits(d) && digits_val(d) <= 32768 {
            Some((-digits_val(d)) as i16)
        } else {
            None
        }
    } else if all_digits(t) && digits_val(t) <= 32767 {
        Some(digits_val(t) as i16)
    } else {
        None
    }
}

/// What parsing a handle display string yields: exactly four number
/// tokens, each a 16-bit integer, in page-x, page-y, tile-x, tile-y order.
pub open spec fn parse_spec(s: Seq<char>) -> Option<TileDefinitionHandle> {
    let ts = tokens_of(s);
    if ts.len() == 4 {
        match (parse_i16_token(ts[0]), parse_i16_token(ts[1]), parse_i16_token(ts[2]), parse_i16_token(
            ts[3],
        )) {
            (Some(a), Some(b), Some(c), Some(d)) => Some(
                TileDefinitionHandle {
                    page: PalettePosition { x: a, y: b },
                    tile: PalettePosition { x: c, y: d },
                },
            ),
            _ => None,
        }
    } else {
        None
    }
}

/// The digit character of a digit value.
pub open spec fn digit_char(d: int) -> char {
    if d == 0 {
        '0'
    } else if d == 1 {
        '1'
    } else if d == 2 {
        '2'
    } else if d == 3 {
        '3'
    } else if d == 4 {
        '4'
    } else if d == 5 {
        '5'
    } else if d == 6 {
        '6'
    } else if d == 7 {
        '7'
    } else if d == 8 {
        '8'
    } else {
        '9'
    }
}

/// The decimal digits of a non-negative number, most significant first.
pub open spec fn dec_digits(n: int) -> Seq<char>
    decreases n,
{
    if n < 10 {
        seq![digit_char(n)]
    } else {
        dec_digits(n / 10).push(digit_char(n % 10))
    }
}

/// The decimal form of an integer: a minus sign for negative values,
/// followed by the digits of its magnitude.
pub open spec fn int_str(v: int) -> Seq<char> {
    if v < 0 {
        seq!['-'] + dec_digits(-v)
    } else {
        dec_digits(v)
    }
}

/// The display form of a handle: the page pair and the tile pair.
pub open spec fn display_str(h: TileDefinitionHandle) -> Seq<char> {
    seq!['('] + int_str(h.page.x as int) + seq![','] + int_str(h.page.y as int) + seq![')', ':', '(']
        + int_str(h.tile.x as int) + seq![','] + int_str(h.tile.y as int) + seq![')']
}

/// Append one decimal digit character.
fn append_digit(out: &mut String, d: u16)
    requires
        d < 10,
    ensures
        final(out)@ == old(out)@ + seq![digit_char(d as int)],
{
    proof {
        reveal_strlit("0");
        reveal_strlit("1");
        reveal_strlit("2");
        reveal_strlit("3");
        reveal_strlit("4");
        reveal_strlit("5");
        reveal_strlit("6");
        reveal_strlit("7");
        reveal_strlit("8");
        reveal_strlit("9");
    }
    if d == 0 {
        out.append("0");
    } else if d == 1 {
        out.append("1");
    } else if d == 2 {
        out.append("2");
    } else if d == 3 {
        out.append("3");
    } else if d == 4 {
        out.append("4");
    } else if d == 5 {
        out.append("5");
    } else if d == 6 {
        out.append("6");
    } else if d == 7 {
        out.append("7");
    } else if d == 8 {
        out.append("8");
    } else {
        out.append("9");
    }
    proof {
        assert(final(out)@ =~= old(out)@ + seq![digit_char(d as int)]);
    }
}

/// Append the decimal digits of a number.
fn append_u16(out: &mut String, n: u16)
    ensures
        final(out)@ == old(out)@ + dec_digits(n as int),
    decreases n,
{
    if n < 10 {
        append_digit(out, n);
    } else {
        append_u16(out, n / 10);
        append_digit(out, n % 10);
        proof {
            assert(final(out)@ =~= old(out)@ + dec_digits(n as int));
        }
    }
}

/// Append the decimal form of a signed 16-bit integer.
fn append_i16(out: &mut String, v: i16)
    ensures
        final(out)@ == old(out)@ + int_str(v as int),
{
    if v < 0 {
        proof {
            reveal_strlit("-");
        }
        out.append("-");
        let magnitude = -(v as i32);
        append_u16(out, magnitude as u16);
        proof {
            assert(final(out)@ =~= old(out)@ + int_str(v as int));
        }
    } else {
        append_u16(out, v as u16);
    }
}

impl TileDefinitionHandle {
    /// The display form of the handle: the page pair and the tile pair,
    /// as in `(1,-2):(3,4)`.
    pub fn display_string(&self) -> (r: String)
        ensures
            r@ == display_str(*self),
    {
        proof {
            reveal_strlit("(");
            reveal_strlit(",");
            reveal_strlit("):(");
            reveal_strlit(")");
        }
        let mut out = String::new();
        out.append("(");
        append_i16(&mut out, self.page.x);
        out.append(",");
        append_i16(&mut out, self.page.y);
        out.append("):(");
        append_i16(&mut out, self.tile.x);
        out.append(",");
        append_i16(&mut out, self.tile.y);
        out.append(")");
        proof {
            assert(out@ =~= display_str(*self));
        }
        out
    }
}

/// Whether a character can be part of a number token.
fn is_token_char_exec(c: char) -> (r: bool)
    ensures
        r == is_token_char(c),
{
    c == '-' || (c as u32 >= 48 && c as u32 <= 57)
}

/// A digit string denotes a non-negative number.
proof fn lemma_digits_val_nonneg(t: Seq<char>)
    requires
        all_digits(t),
    ensures
        digits_val(t) >= 0,
    decreases t.len(),
{
    if t.len() > 0 {
        assert forall|i: int| 0 <= i < t.len() - 1 implies is_digit(
            #[trigger] t.drop_last()[i],
        ) by {
            assert(t.drop_last()[i] == t[i]);
        }
        lemma_digits_val_nonneg(t.drop_last());
        assert(digits_val(t.drop_last()) * 10 >= 0) by (nonlinear_arith)
            requires
                digits_val(t.drop_last()) >= 0,
        ;
    }
}

/// A digit string denotes a number no smaller than the number any of its
/// prefixes denotes.
proof fn lemma_digits_val_prefix(t: Seq<char>, m: int)
    requires
        0 <= m <= t.len(),
        all_digits(t),
    ensures
        digits_val(t) >= digits_val(t.take(m)) >= 0,
    decreases t.len() - m,
{
    assert forall|i: int| 0 <= i < m implies is_digit(#[trigger] t.take(m)[i]) by {
        assert(t.take(m)[i] == t[i]);
    }
    if m == t.len() {
        assert(t.take(m) =~= t);
        lemma_digits_val_nonneg(t);
    } else {
        lemma_digits_val_prefix(t, m + 1);
        let p = t.take(m + 1);
        assert(p.drop_last() =~= t.take(m));
        lemma_digits_val_nonneg(t.take(m));
        assert(digits_val(p) == digits_val(t.take(m)) * 10 + digit_val(p.last()));
        assert(p.last() == t[m]);
        assert(digits_val(t.take(m)) * 10 >= digits_val(t.take(m))) by (nonlinear_arith)
            requires
                digits_val(t.take(m)) >= 0,
        ;
    }
}

/// Parse the token `cs[start..end]` as a 16-bit integer.
fn parse_token(cs: &Vec<char>, start: usize, end: usize) -> (r: Option<i16>)
    requires
        start < end <= cs@.len(),
        forall|k: int| start <= k < end ==> is_token_char(#[trigger] cs@[k]),
    ensures
        r == parse_i16_token(cs@.subrange(start as int, end as int)),
{
    let ghost tok = cs@.subrange(start as int, end as int);
    let neg = cs[start] == '-';
    let digits_start = if neg {
        start + 1
    } else {
        start
    };
    let ghost dig = cs@.subrange(digits_start as int, end as int);
    proof {
        if neg {
            assert(dig =~= tok.drop_first());
        } else {
            assert(dig =~= tok);
        }
    }
    if neg && digits_start == end {
        // a bare minus sign has no digits
        return None;
    }
    let mut value: i32 = 0;
    let mut k = digits_start;
    while k < end
        invariant
            start < end,
            digits_start <= k <= end,
            end <= cs@.len(),
            digits_start == (if neg {
                start + 1
            } else {
                start as int
            }),
            tok == cs@.subrange(start as int, end as int),
            dig == cs@.subrange(digits_start as int, end as int),
            neg == (tok[0] == '-'),
            neg ==> dig == tok.drop_first(),
            !neg ==> dig == tok,
            forall|j: int| start <= j < end ==> is_token_char(#[trigger] cs@[j]),
            forall|j: int| 0 <= j < k - digits_start ==> is_digit(#[trigger] dig[j]),
            0 <= value <= 32768,
            value == digits_val(dig.take(k - digits_start)),
        decreases end - k,
    {
        let c = cs[k];
        if c == '-' {
            // a minus sign after the first character is not a number
            proof {
                assert(!is_digit(dig[k - digits_start]));
                assert(!all_digits(dig));
                if neg {
                    assert(tok[0] == '-' && tok.drop_first() == dig);
                } else {
                    assert(tok == dig);
                    assert(is_token_char(tok[0]) && tok[0] != '-');
                }
                assert(parse_i16_token(tok) is None);
            }
            return None;
        }
        let d = c as u32 - 48;
        proof {
            assert(is_digit(dig[k - digits_start]));
            assert(dig.take(k - digits_start + 1).drop_last() =~= dig.take(k - digits_start));
            assert(dig.take(k - digits_start + 1).last() == dig[k - digits_start]);
        }
        value = value * 10 + d as i32;
        if value > 32768 {
            // the digits overflow the 16-bit range
            proof {
                if all_digits(dig) {
                    lemma_digits_val_prefix(dig, k + 1 - digits_start);
                    assert(!(digits_val(dig) <= 32768) && !(digits_val(dig) <= 32767));
                }
                if neg {
                    assert(tok[0] == '-' && tok.drop_first() == dig);
                } else {
                    assert(tok == dig);
                    assert(is_token_char(tok[0]) && tok[0] != '-');
                }
                assert(parse_i16_token(tok) is None);
            }
            return None;
        }
        k = k + 1;
    }
    proof {
        assert(dig.take(end - digits_start) =~= dig);
        assert(all_digits(dig));
    }
    if neg {
        Some((-value) as i16)
    } else if value <= 32767 {
        Some(value as i16)
    } else {
        None
    }
}

impl TileDefinitionHandle {
    /// Parse a handle from its display form: any four 16-bit numbers
    /// separated by non-number characters, as printed by
    /// [`Self::display_string`]. Any other shape yields nothing.
    pub fn parse(s: &str) -> (r: Option<Self>)
        ensures
            r == parse_spec(s@),
    {
        let n = s.unicode_len();
        let mut cs: Vec<char> = Vec::new();
        let mut i: usize = 0;
        while i < n
            invariant
                i <= n,
                n == s@.len(),
                cs@ == s@.take(i as int),
            decreases n - i,
        {
            cs.push(s.get_char(i));
            proof {
                assert(cs@ =~= s@.take(i + 1));
            }
            i = i + 1;
        }
        proof {
            assert(cs@ =~= s@);
        }
        Self::parse_chars(&cs)
    }

    /// Parse a handle from a character sequence.
    fn parse_chars(cs: &Vec<char>) -> (r: Option<Self>)
        ensures
            r == parse_spec(cs@),
    {
        let n = cs.len();
        let ghost full = cs@;
        let ghost mut done: Seq<Seq<char>> = Seq::empty();
        let mut values: [i16; 4] = [0; 4];
        let mut count: usize = 0;
        let mut i: usize = 0;
        proof {
            assert(full.skip(0) =~= full);
        }
        while i < n
            invariant
                i <= n,
                n == cs@.len(),
                full == cs@,
                count <= 4,
                count == done.len(),
                tokens_of(full) == done + tokens_of(full.skip(i as int)),
                forall|k: int|
                    0 <= k < count ==> parse_i16_token(#[trigger] done[k]) == Some(
                        values@[k],
                    ),
            decreases n - i,
        {
            let c = cs[i];
            if !is_token_char_exec(c) {
                proof {
                    let rest = full.skip(i as int);
                    assert(rest[0] == full[i as int]);
                    assert(rest.drop_first() =~= full.skip(i + 1));
                }
                i = i + 1;
            } else {
                // scan to the end of the token
                let mut j = i + 1;
                while j < n && is_token_char_exec(cs[j])
                    invariant_except_break
                        j <= n,
                    invariant
                        i < j <= n,
                        n == cs@.len(),
                        full == cs@,
                        forall|k: int| i <= k < j ==> is_token_char(#[trigger] full[k]),
                    ensures
                        i < j <= n,
                        forall|k: int| i <= k < j ==> is_token_char(#[trigger] full[k]),
                        j == n || !is_token_char(full[j as int]),
                    decreases n - j,
                {
                    j = j + 1;
                }
                let ghost tok = full.subrange(i as int, j as int);
                proof {
                    let rest = full.skip(i as int);
                    assert forall|k: int| 0 <= k < j - i implies is_token_char(
                        #[trigger] rest[k],
                    ) by {
                        assert(rest[k] == full[i + k]);
                    }
                    if j - i < rest.len() {
                        assert(rest[j - i] == full[j as int]);
                    }
                    lemma_token_len_exact(rest, j - i);
                    assert(rest.take(j - i) =~= tok);
                    assert(rest.skip(j - i) =~= full.skip(j as int));
                    assert(tokens_of(rest) == seq![tok] + tokens_of(full.skip(j as int)));
                }
                if count == 4 {
                    // a fifth token: the string is not a handle
                    proof {
                        assert(tokens_of(full).len() >= 5);
                    }
                    return None;
                }
                let parsed = parse_token(cs, i, j);
                match parsed {
                    None => {
                        // this token is not a 16-bit number
                        proof {
                            assert(tokens_of(full)[count as int] == tok);
                            if tokens_of(full).len() == 4 {
                                assert(parse_spec(full) is None);
                            }
                        }
                        return None;
                    },
                    Some(value) => {
                        values[count] = value;
                        count = count + 1;
                        proof {
                            done = done.push(tok);
                        }
                        i = j;
                    },
                }
            }
        }
        proof {
            assert(full.skip(n as int) =~= Seq::<char>::empty());
            assert(tokens_of(full) == done);
        }
        if count == 4 {
            proof {
                assert(tokens_of(full)[0] == done[0] && tokens_of(full)[1] == done[1]
                    && tokens_of(full)[2] == done[2] && tokens_of(full)[3] == done[3]);
            }
            Some(
                TileDefinitionHandle {
                    page: PalettePosition { x: values[0], y: values[1] },
                    tile: PalettePosition { x: values[2], y: values[3] },
                },
            )
        } else {
            None
        }
    }
}

/// The digits of a non-negative number are all digit characters and
/// denote the number itself.
proof fn lemma_dec_digits(n: int)
    requires
        n >= 0,
    ensures
        dec_digits(n).len() >= 1,
        all_digits(dec_digits(n)),
        digits_val(dec_digits(n)) == n,
    decreases n,
{
    if n < 10 {
        assert(is_digit(digit_char(n)));
        let d = dec_digits(n);
        assert(d.len() == 1);
        assert(d.drop_last() =~= Seq::<char>::empty());
        assert(d.last() == digit_char(n));
        assert(digits_val(d) == digits_val(Seq::<char>::empty()) * 10 + digit_val(digit_char(n)));
        assert(digit_val(digit_char(n)) == n);
    } else {
        lemma_dec_digits(n / 10);
        let d = dec_digits(n);
        assert(d.drop_last() =~= dec_digits(n / 10));
        assert(is_digit(digit_char(n % 10)));
        assert forall|i: int| 0 <= i < d.len() implies is_digit(#[trigger] d[i]) by {
            if i < d.len() - 1 {
                assert(d[i] == dec_digits(n / 10)[i]);
            }
        }
        assert(digits_val(d) == (n / 10) * 10 + (n % 10));
    }
}

/// The decimal form of a 16-bit integer parses back to it.
proof fn lemma_int_str_parses(v: i16)
    ensures
        parse_i16_token(int_str(v as int)) == Some(v),
        int_str(v as int).len() >= 1,
        forall|i: int| 0 <= i < int_str(v as int).len() ==> is_token_char(
            #[trigger] int_str(v as int)[i],
        ),
{
    let s = int_str(v as int);
    if v < 0 {
        lemma_dec_digits(-(v as int));
        let d = dec_digits(-(v as int));
        assert(s == seq!['-'] + d);
        assert(s[0] == '-');
        assert(s.drop_first() =~= d);
        assert(digits_val(d) == -(v as int) <= 32768);
        assert((-digits_val(d)) as i16 == v);
        assert forall|i: int| 0 <= i < s.len() implies is_token_char(#[trigger] s[i]) by {
            if i > 0 {
                assert(s[i] == d[i - 1]);
                assert(is_digit(s[i]));
            }
        }
    } else {
        lemma_dec_digits(v as int);
        assert(s == dec_digits(v as int));
        assert(is_digit(s[0]));
        assert(s[0] != '-');
        assert(digits_val(s) == v as int <= 32767);
        assert(digits_val(s) as i16 == v);
        assert forall|i: int| 0 <= i < s.len() implies is_token_char(#[trigger] s[i]) by {
            assert(is_digit(s[i]));
        }
    }
}

/// A leading separator character does not change the token list.
proof fn lemma_tokens_sep(c: char, s: Seq<char>)
    requires
        !is_token_char(c),
    ensures
        tokens_of(seq![c] + s) == tokens_of(s),
{
    let w = seq![c] + s;
    assert(w[0] == c);
    assert(w.drop_first() =~= s);
}

/// A leading token run contributes exactly one token to the token list.
proof fn lemma_tokens_tok(t: Seq<char>, s: Seq<char>)
    requires
        t.len() > 0,
        forall|i: int| 0 <= i < t.len() ==> is_token_char(#[trigger] t[i]),
        s.len() == 0 || !is_token_char(s[0]),
    ensures
        tokens_of(t + s) == seq![t] + tokens_of(s),
{
    let w = t + s;
    assert forall|i: int| 0 <= i < t.len() implies is_token_char(#[trigger] w[i]) by {
        assert(w[i] == t[i]);
    }
    if t.len() < w.len() {
        assert(w[t.len() as int] == s[0]);
    }
    lemma_token_len_exact(w, t.len() as int);
    assert(w.take(t.len() as int) =~= t);
    assert(w.skip(t.len() as int) =~= s);
    assert(is_token_char(w[0]));
}

/// Parsing a handle's display string reproduces the original handle, for
/// every representable handle.
pub proof fn lemma_display_parse_round_trip(h: TileDefinitionHandle)
    ensures
        parse_spec(display_str(h)) == Some(h),
{
    let t1 = int_str(h.page.x as int);
    let t2 = int_str(h.page.y as int);
    let t3 = int_str(h.tile.x as int);
    let t4 = int_str(h.tile.y as int);
    lemma_int_str_parses(h.page.x);
    lemma_int_str_parses(h.page.y);
    lemma_int_str_parses(h.tile.x);
    lemma_int_str_parses(h.tile.y);
    let s6 = t4 + seq![')'];
    assert(tokens_of(Seq::<char>::empty()) == Seq::<Seq<char>>::empty());
    assert(tokens_of(seq![')']) == tokens_of(Seq::<char>::empty())) by {
        assert(seq![')'] =~= seq![')'] + Seq::<char>::empty());
        lemma_tokens_sep(')', Seq::<char>::empty());
    }
    assert(tokens_of(s6) == seq![t4]) by {
        lemma_tokens_tok(t4, seq![')']);
        assert(seq![t4] + tokens_of(seq![')']) =~= seq![t4]);
    }
    let s5 = seq![','] + s6;
    lemma_tokens_sep(',', s6);
    let s4 = t3 + s5;
    assert(tokens_of(s4) == seq![t3, t4]) by {
        assert(s5[0] == ',');
        lemma_tokens_tok(t3, s5);
        assert(seq![t3] + tokens_of(s5) =~= seq![t3, t4]);
    }
    let s3 = seq![')', ':', '('] + s4;
    assert(tokens_of(s3) == seq![t3, t4]) by {
        assert(s3 =~= seq![')'] + (seq![':'] + (seq!['('] + s4)));
        lemma_tokens_sep('(', s4);
        lemma_tokens_sep(':', seq!['('] + s4);
        lemma_tokens_sep(')', seq![':'] + (seq!['('] + s4));
    }
    let s2 = t2 + s3;
    assert(tokens_of(s2) == seq![t2, t3, t4]) by {
        assert(s3[0] == ')');
        lemma_tokens_tok(t2, s3);
        assert(seq![t2] + tokens_of(s3) =~= seq![t2, t3, t4]);
    }
    let s1 = seq![','] + s2;
    lemma_tokens_sep(',', s2);
    let s0 = t1 + s1;
    assert(tokens_of(s0) == seq![t1, t2, t3, t4]) by {
        assert(s1[0] == ',');
        lemma_tokens_tok(t1, s1);
        assert(seq![t1] + tokens_of(s1) =~= seq![t1, t2, t3, t4]);
    }
    let w = seq!['('] + s0;
    lemma_tokens_sep('(', s0);
    assert(display_str(h) =~= w);
    assert(tokens_of(display_str(h)) == seq![t1, t2, t3, t4]);
    let ts = tokens_of(display_str(h));
    assert(ts[0] == t1 && ts[1] == t2 && ts[2] == t3 && ts[3] == t4);
    assert(parse_spec(display_str(h)) == Some(
        TileDefinitionHandle {
            page: PalettePosition { x: h.page.x, y: h.page.y },
            tile: PalettePosition { x: h.tile.x, y: h.tile.y },
        },
    ));
    assert(PalettePosition { x: h.page.x, y: h.page.y } == h.page);
    assert(PalettePosition { x: h.tile.x, y: h.tile.y } == h.tile);
}

} // verus!
