use mandelbrot::parse::{parse_pair, split_pair};

#[test]
fn parses_dimensions() {
    assert_eq!(parse_pair("1000x750", 'x'), Some((1000, 750)));
    assert_eq!(parse_pair("10,20", ','), Some((10, 20)));
    assert_eq!(parse_pair("+5x06", 'x'), Some((5, 6)));
}

#[test]
fn rejects_malformed_pairs() {
    assert_eq!(parse_pair("", 'x'), None);
    assert_eq!(parse_pair("1000", 'x'), None);
    assert_eq!(parse_pair("x750", 'x'), None);
    assert_eq!(parse_pair("1000x", 'x'), None);
    assert_eq!(parse_pair("10x20x30", 'x'), None);
    assert_eq!(parse_pair("-1x2", 'x'), None);
    assert_eq!(parse_pair("1.5x2", 'x'), None);
    assert_eq!(parse_pair(" 1x2", 'x'), None);
    assert_eq!(parse_pair("+x2", 'x'), None);
}

#[test]
fn rejects_values_beyond_usize() {
    assert_eq!(parse_pair("99999999999999999999999x1", 'x'), None);
    let max = format!("{}x0", usize::MAX);
    assert_eq!(parse_pair(&max, 'x'), Some((usize::MAX, 0)));
}

#[test]
fn splits_at_first_separator() {
    assert_eq!(split_pair("-1.20,0.35", ','), Some(("-1.20", "0.35")));
    assert_eq!(split_pair("a,b,c", ','), Some(("a", "b,c")));
    assert_eq!(split_pair(",", ','), Some(("", "")));
    assert_eq!(split_pair("äx→", 'x'), Some(("ä", "→")));
    assert_eq!(split_pair("abc", ','), None);
}
