//! Two-dimensional integer coordinates, and their textual form `(x, y)`.

use vstd::prelude::*;
use crate::text::{
    chars_of, decimal_digits, i32_text, is_digit, is_listed_white_space, is_space,
    lemma_trim_removes_white_space, lemma_decimal_digits, lemma_parse_i32_text, parse_i32,
    parse_i32_spec, trim, trim_bounds, trim_end, trim_start,
};

verus! {

/// A position `(x, y)` in the shared space.
#[derive(Debug, Clone, PartialEq, Eq, Structural)]
pub struct Point(pub i32, pub i32);

impl DeepView for Point {
    type V = Point;

    open spec fn deep_view(&self) -> Point {
        *self
    }
}

/// Why a text is not a point.
#[derive(Debug, Clone, Copy, PartialEq, Eq, Structural)]
pub enum PointParseError {
    /// The trimmed text is not `(` .. `,` .. `)`.
    BadFormat,
    /// A coordinate is not a decimal `i32`.
    InvalidCoordinate,
}

/// `c` is the position of the first comma of `s`.
pub open spec fn is_first_comma(s: Seq<char>, c: int) -> bool {
    &&& 0 <= c < s.len()
    &&& s[c] == ','
    &&& forall|j: int| 0 <= j < c ==> s[j] != ','
}

/// The point that the text `s` denotes: after trimming, an opening parenthesis,
/// a closing one, and between them two integers split at the first comma, each
/// of which may be surrounded by whitespace.
pub open spec fn point_parse_spec(s: Seq<char>) -> Result<Point, PointParseError> {
    let t = trim(s);
    if !(t.len() >= 2 && t[0] == '(' && t[t.len() - 1] == ')') {
        Err(PointParseError::BadFormat)
    } else {
        let inner = t.subrange(1, t.len() - 1);
        if !inner.contains(',') {
            Err(PointParseError::BadFormat)
        } else {
            let c = choose|c: int| is_first_comma(inner, c);
            match (
                parse_i32_spec(trim(inner.take(c))),
                parse_i32_spec(trim(inner.skip(c + 1))),
            ) {
                (Some(x), Some(y)) => Ok(Point(x, y)),
                _ => Err(PointParseError::InvalidCoordinate),
            }
        }
    }
}

impl Point {
    /// Reads a point written as `(x, y)`.
    #[verifier::rlimit(30)]
    pub fn parse(s: &str) -> (r: Result<Point, PointParseError>)
        ensures
            r == point_parse_spec(s@),
    {
        let v = chars_of(s);
        let (a, b) = trim_bounds(&v, 0, v.len());
        assert(v@.subrange(0, v@.len() as int) =~= s@);
        let ghost t = v@.subrange(a as int, b as int);
        if b - a < 2 || v[a] != '(' || v[b - 1] != ')' {
            return Err(PointParseError::BadFormat);
        }
        let lo = a + 1;
        let hi = b - 1;
        let ghost inner = t.subrange(1, t.len() - 1);
        assert(inner =~= v@.subrange(lo as int, hi as int));
        let mut k = lo;
        while k < hi && v[k] != ','
            invariant
                lo <= k <= hi <= v.len(),
                forall|j: int| lo <= j < k ==> v@[j] != ',',
            decreases hi - k,
        {
            k = k + 1;
        }
        if k == hi {
            assert forall|j: int| 0 <= j < inner.len() implies inner[j] != ',' by {
                assert(inner[j] == v@[lo + j]);
            }
            return Err(PointParseError::BadFormat);
        }
        let ghost c = k - lo;
        assert(is_first_comma(inner, c)) by {
            assert forall|j: int| 0 <= j < c implies inner[j] != ',' by {
                assert(inner[j] == v@[lo + j]);
            }
        }
        assert(inner.contains(','));
        let ghost chosen = choose|c: int| is_first_comma(inner, c);
        assert(chosen == c) by {
            if chosen < c {
                assert(inner[chosen] == ',');
            } else if chosen > c {
                assert(inner[c] == ',');
            }
        }
        assert(inner.take(c) =~= v@.subrange(lo as int, k as int));
        assert(inner.skip(c + 1) =~= v@.subrange(k + 1, hi as int));
        let (xa, xb) = trim_bounds(&v, lo, k);
        let (ya, yb) = trim_bounds(&v, k + 1, hi);
        match (parse_i32(&v, xa, xb), parse_i32(&v, ya, yb)) {
            (Some(x), Some(y)) => Ok(Point(x, y)),
            _ => Err(PointParseError::InvalidCoordinate),
        }
    }
}

impl core::str::FromStr for Point {
    type Err = PointParseError;

    fn from_str(s: &str) -> (r: Result<Point, PointParseError>)
        ensures
            r == point_parse_spec(s@),
    {
        Point::parse(s)
    }
}


/// How `format!("({}, {})", x, y)` writes a point.
pub open spec fn point_text(x: i32, y: i32) -> Seq<char> {
    seq!['('] + i32_text(x) + seq![',', ' '] + i32_text(y) + seq![')']
}

/// The written form of an integer is not empty, holds no comma, and neither
/// begins nor ends with whitespace.
proof fn lemma_i32_text_shape(x: i32)
    ensures
        i32_text(x).len() > 0,
        !i32_text(x).contains(','),
        !is_space(i32_text(x)[0]),
        !is_space(i32_text(x).last()),
        trim(i32_text(x)) == i32_text(x),
{
    let s = i32_text(x);
    let n = if x < 0 { (-x) as nat } else { x as nat };
    lemma_decimal_digits(n);
    let d = decimal_digits(n);
    assert forall|i: int| 0 <= i < s.len() implies s[i] != ',' && !is_space(s[i]) by {
        if x < 0 {
            if i > 0 {
                assert(s[i] == d[i - 1]);
                assert(is_digit(d[i - 1]));
            }
        } else {
            assert(is_digit(d[i]));
        }
    }
    assert(trim_start(s) == s);
    assert(trim_end(s) == s);
}

/// Reading back a point as `format!("({}, {})", x, y)` writes it gives the
/// point, for every pair of `i32`s, the extremes included.
pub proof fn lemma_parse_point_text(x: i32, y: i32)
    ensures
        point_parse_spec(point_text(x, y)) == Ok::<Point, PointParseError>(Point(x, y)),
{
    let xs = i32_text(x);
    let ys = i32_text(y);
    lemma_i32_text_shape(x);
    lemma_i32_text_shape(y);
    lemma_parse_i32_text(x);
    lemma_parse_i32_text(y);
    let t = point_text(x, y);
    assert(t[0] == '(');
    assert(t.last() == ')');
    assert(trim_start(t) == t);
    assert(trim_end(t) == t);
    let inner = t.subrange(1, t.len() - 1);
    assert(inner =~= xs + seq![',', ' '] + ys);
    let c = xs.len() as int;
    assert(inner[c] == ',');
    assert(is_first_comma(inner, c)) by {
        assert forall|j: int| 0 <= j < c implies inner[j] != ',' by {
            assert(inner[j] == xs[j]);
        }
    }
    assert(inner.contains(','));
    let chosen = choose|c: int| is_first_comma(inner, c);
    assert(chosen == c) by {
        if chosen < c {
            assert(inner[chosen] == ',');
        } else if chosen > c {
            assert(inner[c] == ',');
        }
    }
    assert(inner.take(c) =~= xs);
    let rest = inner.skip(c + 1);
    assert(rest =~= seq![' '] + ys);
    assert(is_space(rest[0]));
    assert(rest.drop_first() =~= ys);
    assert(trim_start(rest) == trim_start(ys));
    assert(trim_start(ys) == ys);
    assert(trim(rest) == ys);
}


/// Whitespace around a point does not change how it reads: a point as
/// `read_line` delivers it, with its line break, reads as without it.
pub proof fn lemma_parse_ignores_white_space(s: Seq<char>, c: char)
    requires
        is_listed_white_space(c),
    ensures
        point_parse_spec(seq![c] + s) == point_parse_spec(s),
        point_parse_spec(s.push(c)) == point_parse_spec(s),
{
    lemma_trim_removes_white_space(s, c);
}

/// A text that begins with something other than whitespace or `(` is no
/// point.
pub proof fn lemma_parse_needs_parenthesis(s: Seq<char>, c: char)
    requires
        !is_listed_white_space(c),
        c != '(',
    ensures
        point_parse_spec(seq![c] + s) == Err::<Point, PointParseError>(PointParseError::BadFormat),
{
    lemma_trim_removes_white_space(s, c);
}

} // verus!
