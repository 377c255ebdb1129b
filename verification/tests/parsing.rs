use spatial_annotation_sync::crdt::{Point, PointParseError};

/// Reads a point with std's own string functions: trim, strip the parentheses,
/// split at the first comma, and read each side with `str::parse::<i32>`.
fn std_parse(s: &str) -> Option<Point> {
    let s = s.trim();
    let inner = s.strip_prefix('(').and_then(|s| s.strip_suffix(')'))?;
    let (x, y) = inner.split_once(',')?;
    Some(Point(x.trim().parse::<i32>().ok()?, y.trim().parse::<i32>().ok()?))
}

#[test]
fn point_parse_accepts_signs_and_whitespace() {
    assert_eq!(Point::parse("  ( -3 ,+4 )  "), Ok(Point(-3, 4)));
    assert_eq!(Point::parse("(\u{3000}5,\t6)"), Ok(Point(5, 6)));
    assert_eq!(Point::parse("(2147483647, -2147483648)"), Ok(Point(i32::MAX, i32::MIN)));
    assert_eq!(Point::parse("(007,0)"), Ok(Point(7, 0)));
}

#[test]
fn point_parse_bad_format() {
    for s in ["(1 2)", "1, 2", "(", "()", "(1, 2", "1, 2)", "", "   ", "[1, 2]"] {
        assert_eq!(Point::parse(s), Err(PointParseError::BadFormat), "{s:?}");
    }
}

#[test]
fn point_parse_invalid_coordinate() {
    for s in ["(a, 2)", "(1, 2, 3)", "(2147483648, 0)", "(0, -2147483649)", "(, 1)", "(1,)", "(+, 1)", "(- 1, 2)"] {
        assert_eq!(Point::parse(s), Err(PointParseError::InvalidCoordinate), "{s:?}");
    }
}

#[test]
fn point_parse_agrees_with_std_parsing() {
    let alphabet = ['(', ')', ',', ' ', '-', '+', '0', '1', '9', 'x', '\t', '\u{a0}'];
    let mut state: u64 = 0x2545_f491_4f6c_dd1d;
    for _ in 0..20000 {
        state = state.wrapping_mul(6364136223846793005).wrapping_add(1442695040888963407);
        let len = (state >> 59) as usize;
        let mut s = String::new();
        let mut bits = state;
        for _ in 0..len {
            state = state.wrapping_mul(6364136223846793005).wrapping_add(1442695040888963407);
            bits ^= state >> 33;
            s.push(alphabet[(bits % alphabet.len() as u64) as usize]);
        }
        let wrapped = format!("({s})");
        for text in [s.as_str(), wrapped.as_str()] {
            assert_eq!(Point::parse(text).ok(), std_parse(text), "{text:?}");
        }
    }
}

#[test]
fn written_points_read_back() {
    let values = [i32::MIN, i32::MIN + 1, -100, -1, 0, 1, 9, 10, 99, 12345, i32::MAX - 1, i32::MAX];
    for x in values {
        for y in values {
            let text = format!("({}, {})", x, y);
            assert_eq!(Point::parse(&text), Ok(Point(x, y)), "{text:?}");
        }
    }
}
