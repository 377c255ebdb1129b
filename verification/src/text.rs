//! Character-level helpers shared by the textual parsers of the crate:
//! Unicode whitespace, trimming, and decimal integers.

use vstd::prelude::*;

verus! {

broadcast use vstd::string::group_string_axioms;

/// The Unicode `White_Space` code points, which is what `char::is_whitespace` accepts.
pub open spec fn is_space(c: char) -> bool {
    let u = c as u32;
    ||| 0x09 <= u <= 0x0D
    ||| u == 0x20
    ||| u == 0x85
    ||| u == 0xA0
    ||| u == 0x1680
    ||| 0x2000 <= u <= 0x200A
    ||| u == 0x2028
    ||| u == 0x2029
    ||| u == 0x202F
    ||| u == 0x205F
    ||| u == 0x3000
}

/// `s` without its leading whitespace.
pub open spec fn trim_start(s: Seq<char>) -> Seq<char>
    decreases s.len(),
{
    if s.len() > 0 && is_space(s[0]) {
        trim_start(s.drop_first())
    } else {
        s
    }
}

/// `s` without its trailing whitespace.
pub open spec fn trim_end(s: Seq<char>) -> Seq<char>
    decreases s.len(),
{
    if s.len() > 0 && is_space(s.last()) {
        trim_end(s.drop_last())
    } else {
        s
    }
}

/// `s` without leading and trailing whitespace (what `str::trim` returns).
pub open spec fn trim(s: Seq<char>) -> Seq<char> {
    trim_end(trim_start(s))
}

pub open spec fn is_digit(c: char) -> bool {
    48 <= (c as u32) <= 57
}

pub open spec fn all_digits(s: Seq<char>) -> bool {
    forall|i: int| 0 <= i < s.len() ==> is_digit(#[trigger] s[i])
}

/// The number that the ASCII digits of `s` spell in base ten.
pub open spec fn decimal_value(s: Seq<char>) -> int
    decreases s.len(),
{
    if s.len() == 0 {
        0
    } else {
        decimal_value(s.drop_last()) * 10 + ((s.last() as u32) - 48)
    }
}

/// The digits of a decimal numeral spell a number that is not negative.
pub proof fn lemma_decimal_value_nonneg(s: Seq<char>)
    requires
        all_digits(s),
    ensures
        decimal_value(s) >= 0,
    decreases s.len(),
{
    if s.len() > 0 {
        assert(is_digit(s[s.len() - 1]));
        lemma_decimal_value_nonneg(s.drop_last());
    }
}

/// What `str::parse::<u128>` accepts: an optional `+`, then one or more
/// ASCII digits whose value fits in a `u128`.
pub open spec fn parse_u128_spec(s: Seq<char>) -> Option<u128> {
    let digits = if s.len() > 0 && s[0] == '+' {
        s.drop_first()
    } else {
        s
    };
    if digits.len() > 0 && all_digits(digits) && decimal_value(digits) <= u128::MAX {
        Some(decimal_value(digits) as u128)
    } else {
        None
    }
}

/// What `str::parse::<i32>` accepts: an optional `+` or `-`, then one or more
/// ASCII digits, with a value in the range of `i32`.
pub open spec fn parse_i32_spec(s: Seq<char>) -> Option<i32> {
    let signed = s.len() > 0 && (s[0] == '+' || s[0] == '-');
    let digits = if signed {
        s.drop_first()
    } else {
        s
    };
    let value = if s.len() > 0 && s[0] == '-' {
        -decimal_value(digits)
    } else {
        decimal_value(digits)
    };
    if digits.len() > 0 && all_digits(digits) && i32::MIN <= value <= i32::MAX {
        Some(value as i32)
    } else {
        None
    }
}

/// Whether `c` is Unicode whitespace.
pub fn is_space_char(c: char) -> (r: bool)
    ensures
        r == is_space(c),
{
    let u = c as u32;
    (0x09 <= u && u <= 0x0D) || u == 0x20 || u == 0x85 || u == 0xA0 || u == 0x1680 || (0x2000
        <= u && u <= 0x200A) || u == 0x2028 || u == 0x2029 || u == 0x202F || u == 0x205F || u
        == 0x3000
}

/// The characters of `s`, in order.
pub fn chars_of(s: &str) -> (r: Vec<char>)
    ensures
        r@ == s@,
{
    let mut r: Vec<char> = Vec::new();
    for c in it: s.chars()
        invariant
            r@ == it.seq().take(it.index() as int),
    {
        r.push(c);
    }
    r
}


/// The bounds, inside `lo..hi`, of `v[lo..hi]` with leading and trailing
/// whitespace removed.
pub fn trim_bounds(v: &Vec<char>, lo: usize, hi: usize) -> (r: (usize, usize))
    requires
        lo <= hi <= v.len(),
    ensures
        lo <= r.0 <= r.1 <= hi,
        v@.subrange(r.0 as int, r.1 as int) == trim(v@.subrange(lo as int, hi as int)),
{
    let mut i = lo;
    while i < hi && is_space_char(v[i])
        invariant
            lo <= i <= hi <= v.len(),
            trim_start(v@.subrange(lo as int, hi as int)) == trim_start(
                v@.subrange(i as int, hi as int),
            ),
        decreases hi - i,
    {
        assert(v@.subrange(i as int, hi as int).drop_first() =~= v@.subrange(
            i + 1,
            hi as int,
        ));
        i = i + 1;
    }
    let mut j = hi;
    while j > i && is_space_char(v[j - 1])
        invariant
            lo <= i <= j <= hi <= v.len(),
            trim_start(v@.subrange(lo as int, hi as int)) == v@.subrange(i as int, hi as int),
            trim(v@.subrange(lo as int, hi as int)) == trim_end(v@.subrange(i as int, j as int)),
        decreases j - i,
    {
        assert(v@.subrange(i as int, j as int).drop_last() =~= v@.subrange(
            i as int,
            j - 1,
        ));
        j = j - 1;
    }
    (i, j)
}

/// The value of the decimal digits `v[lo..hi]`, or `None` where that range is
/// empty, holds something other than an ASCII digit, or spells a number above
/// `u128::MAX`.
pub fn parse_decimal(v: &Vec<char>, lo: usize, hi: usize) -> (r: Option<u128>)
    requires
        lo <= hi <= v.len(),
    ensures
        ({
            let d = v@.subrange(lo as int, hi as int);
            r == if d.len() > 0 && all_digits(d) && decimal_value(d) <= u128::MAX {
                Some(decimal_value(d) as u128)
            } else {
                None::<u128>
            }
        }),
{
    let ghost d = v@.subrange(lo as int, hi as int);
    let mut acc: u128 = 0;
    let mut overflow = false;
    let mut i = lo;
    while i < hi
        invariant
            lo <= i <= hi <= v.len(),
            d == v@.subrange(lo as int, hi as int),
            all_digits(v@.subrange(lo as int, i as int)),
            !overflow ==> acc == decimal_value(v@.subrange(lo as int, i as int)),
            overflow ==> decimal_value(v@.subrange(lo as int, i as int)) > u128::MAX,
        decreases hi - i,
    {
        let c = v[i];
        let u = c as u32;
        if u < 48 || u > 57 {
            assert(!is_digit(d[i - lo]));
            return None;
        }
        let ghost prev = v@.subrange(lo as int, i as int);
        let ghost next = v@.subrange(lo as int, i + 1);
        assert(next.drop_last() =~= prev);
        assert(decimal_value(next) == decimal_value(prev) * 10 + (u - 48));
        let digit = (u - 48) as u128;
        if !overflow {
            if acc > 34028236692093846346337460743176821145u128 || (acc
                == 34028236692093846346337460743176821145u128 && digit > 5) {
                overflow = true;
            } else {
                acc = acc * 10 + digit;
            }
        }
        i = i + 1;
        assert(v@.subrange(lo as int, i as int) =~= next);
        assert(all_digits(next)) by {
            assert forall|k: int| 0 <= k < next.len() implies is_digit(#[trigger] next[k]) by {
                if k < prev.len() {
                    assert(next[k] == prev[k]);
                }
            }
        }
    }
    assert(v@.subrange(lo as int, i as int) =~= d);
    if lo == hi || overflow {
        None
    } else {
        Some(acc)
    }
}

/// `v[lo..hi]` read as a `u128` the way `str::parse::<u128>` reads it.
pub fn parse_u128(v: &Vec<char>, lo: usize, hi: usize) -> (r: Option<u128>)
    requires
        lo <= hi <= v.len(),
    ensures
        r == parse_u128_spec(v@.subrange(lo as int, hi as int)),
{
    let ghost s = v@.subrange(lo as int, hi as int);
    if lo < hi && v[lo] == '+' {
        assert(s.drop_first() =~= v@.subrange(lo + 1, hi as int));
        parse_decimal(v, lo + 1, hi)
    } else {
        parse_decimal(v, lo, hi)
    }
}

/// `v[lo..hi]` read as an `i32` the way `str::parse::<i32>` reads it.
pub fn parse_i32(v: &Vec<char>, lo: usize, hi: usize) -> (r: Option<i32>)
    requires
        lo <= hi <= v.len(),
    ensures
        r == parse_i32_spec(v@.subrange(lo as int, hi as int)),
{
    let ghost s = v@.subrange(lo as int, hi as int);
    let negative = lo < hi && v[lo] == '-';
    let start = if lo < hi && (v[lo] == '+' || v[lo] == '-') {
        assert(s.drop_first() =~= v@.subrange(lo + 1, hi as int));
        lo + 1
    } else {
        lo
    };
    let ghost digits = v@.subrange(start as int, hi as int);
    assert(digits == (if s.len() > 0 && (s[0] == '+' || s[0] == '-') {
        s.drop_first()
    } else {
        s
    }));
    assert(negative == (s.len() > 0 && s[0] == '-'));
    match parse_decimal(v, start, hi) {
        None => None,
        Some(m) => {
            proof {
                lemma_decimal_value_nonneg(digits);
            }
            if negative {
                if m <= 2147483648 {
                    Some((0i64 - (m as i64)) as i32)
                } else {
                    None
                }
            } else {
                if m <= 2147483647 {
                    Some(m as i32)
                } else {
                    None
                }
            }
        },
    }
}


/// The decimal digit character of `d`, for `d < 10`.
pub open spec fn digit_char(d: nat) -> char {
    (48 + d) as char
}

/// The decimal digits of `n`, most significant first, with no leading zero
/// (`0` itself is one digit).
pub open spec fn decimal_digits(n: nat) -> Seq<char>
    decreases n,
{
    if n < 10 {
        seq![digit_char(n)]
    } else {
        decimal_digits(n / 10).push(digit_char(n % 10))
    }
}

/// How an `i32` is written in decimal (`Display`): a `-` for negative
/// numbers, then the digits of its magnitude.
pub open spec fn i32_text(x: i32) -> Seq<char> {
    if x < 0 {
        seq!['-'] + decimal_digits((-x) as nat)
    } else {
        decimal_digits(x as nat)
    }
}

proof fn lemma_digit_char(d: nat)
    requires
        d < 10,
    ensures
        (digit_char(d) as u32) == 48 + d,
{
}

/// The digits of `n` are ASCII digits that spell `n`.
pub proof fn lemma_decimal_digits(n: nat)
    ensures
        decimal_digits(n).len() > 0,
        all_digits(decimal_digits(n)),
        decimal_value(decimal_digits(n)) == n,
    decreases n,
{
    let d = decimal_digits(n);
    lemma_digit_char(n % 10);
    if n < 10 {
        assert(d.drop_last() =~= Seq::<char>::empty());
        assert(d.last() == digit_char(n));
        assert(decimal_value(Seq::<char>::empty()) == 0);
        assert(is_digit(d[0]));
    } else {
        lemma_decimal_digits(n / 10);
        let prefix = decimal_digits(n / 10);
        assert(d.drop_last() =~= prefix);
        assert(d.last() == digit_char(n % 10));
        assert((n / 10) * 10 + n % 10 == n) by (nonlinear_arith);
        assert forall|i: int| 0 <= i < d.len() implies is_digit(#[trigger] d[i]) by {
            if i < prefix.len() {
                assert(d[i] == prefix[i]);
            }
        }
    }
}

/// Reading back how an `i32` is written gives the number.
pub proof fn lemma_parse_i32_text(x: i32)
    ensures
        parse_i32_spec(i32_text(x)) == Some(x),
{
    let s = i32_text(x);
    if x < 0 {
        let n = (-x) as nat;
        lemma_decimal_digits(n);
        assert(s.drop_first() =~= decimal_digits(n));
    } else {
        lemma_decimal_digits(x as nat);
        assert(is_digit(s[0]));
    }
}


/// `c` is one of the characters of the Unicode `White_Space` property, the
/// ones `char::is_whitespace` accepts, listed one by one.
pub open spec fn is_listed_white_space(c: char) -> bool {
    ||| c == '\t'
    ||| c == '\n'
    ||| c == '\u{0B}'
    ||| c == '\u{0C}'
    ||| c == '\r'
    ||| c == ' '
    ||| c == '\u{85}'
    ||| c == '\u{A0}'
    ||| c == '\u{1680}'
    ||| c == '\u{2000}'
    ||| c == '\u{2001}'
    ||| c == '\u{2002}'
    ||| c == '\u{2003}'
    ||| c == '\u{2004}'
    ||| c == '\u{2005}'
    ||| c == '\u{2006}'
    ||| c == '\u{2007}'
    ||| c == '\u{2008}'
    ||| c == '\u{2009}'
    ||| c == '\u{200A}'
    ||| c == '\u{2028}'
    ||| c == '\u{2029}'
    ||| c == '\u{202F}'
    ||| c == '\u{205F}'
    ||| c == '\u{3000}'
}

proof fn lemma_space_is_listed(c: char)
    ensures
        is_space(c) <==> is_listed_white_space(c),
{
    let u = c as u32;
    if 0x2000 <= u <= 0x200A {
        assert(u == 0x2000 || u == 0x2001 || u == 0x2002 || u == 0x2003 || u == 0x2004 || u
            == 0x2005 || u == 0x2006 || u == 0x2007 || u == 0x2008 || u == 0x2009 || u
            == 0x200A);
    }
    if 0x09 <= u <= 0x0D {
        assert(u == 0x09 || u == 0x0A || u == 0x0B || u == 0x0C || u == 0x0D);
    }
}

proof fn lemma_trim_start_push(s: Seq<char>, c: char)
    ensures
        trim_start(s.push(c)) == if trim_start(s).len() == 0 {
            trim_start(seq![c])
        } else {
            trim_start(s).push(c)
        },
    decreases s.len(),
{
    if s.len() == 0 {
        assert(s.push(c) =~= seq![c]);
    } else if is_space(s[0]) {
        assert(s.push(c).drop_first() =~= s.drop_first().push(c));
        lemma_trim_start_push(s.drop_first(), c);
    }
}

proof fn lemma_trim_end_keeps_first(x: Seq<char>)
    requires
        x.len() > 0,
        !is_space(x[0]),
    ensures
        trim_end(x).len() > 0,
        trim_end(x)[0] == x[0],
    decreases x.len(),
{
    if is_space(x.last()) {
        lemma_trim_end_keeps_first(x.drop_last());
    }
}

/// Trimming removes exactly the whitespace of `char::is_whitespace`: a
/// whitespace character added before or after a text leaves its trimmed form
/// unchanged, and any other character added in front stays the first
/// character of the trimmed form.
pub proof fn lemma_trim_removes_white_space(s: Seq<char>, c: char)
    ensures
        is_listed_white_space(c) ==> trim(seq![c] + s) == trim(s) && trim(s.push(c)) == trim(s),
        !is_listed_white_space(c) ==> trim(seq![c] + s).len() > 0 && trim(seq![c] + s)[0] == c,
{
    lemma_space_is_listed(c);
    let front = seq![c] + s;
    assert(front[0] == c);
    if is_space(c) {
        assert(front.drop_first() =~= s);
        lemma_trim_start_push(s, c);
        assert(seq![c].drop_first() =~= Seq::<char>::empty());
        assert(trim(seq![c] + s) == trim(s));
        let x = trim_start(s);
        if x.len() > 0 {
            assert(x.push(c).drop_last() =~= x);
            assert(x.push(c).last() == c);
            assert(trim_end(x.push(c)) == trim_end(x));
        } else {
            assert(x =~= Seq::<char>::empty());
            assert(trim_start(seq![c]) == trim_start(Seq::<char>::empty()));
            assert(trim_start(Seq::<char>::empty()) =~= Seq::<char>::empty());
        }
        assert(trim(s.push(c)) == trim(s));
    } else {
        lemma_trim_end_keeps_first(front);
    }
}

} // verus!
