use face_grid::parsing::{
    parse_image_dimensions, parse_integer, parse_integer_list, DIMENSIONS_ERROR, INTEGER_ERROR,
};

#[test]
fn parses_dimensions() {
    assert_eq!(parse_image_dimensions("800x600"), Ok((800, 600)));
    assert_eq!(parse_image_dimensions("100x100"), Ok((100, 100)));
    assert_eq!(parse_image_dimensions("+5x07"), Ok((5, 7)));
}

#[test]
fn dimensions_need_two_values() {
    assert_eq!(parse_image_dimensions("100"), Err(DIMENSIONS_ERROR));
    assert_eq!(parse_image_dimensions("1x2x3"), Err(DIMENSIONS_ERROR));
    assert_eq!(DIMENSIONS_ERROR, "Dimensions should use WIDTHxHEIGHT");
}

#[test]
fn dimensions_need_integers() {
    assert_eq!(parse_image_dimensions("axb"), Err(INTEGER_ERROR));
    assert_eq!(parse_image_dimensions("100x"), Err(INTEGER_ERROR));
    assert_eq!(parse_image_dimensions(""), Err(INTEGER_ERROR));
    assert_eq!(parse_image_dimensions("4294967296x1"), Err(INTEGER_ERROR));
    assert_eq!(parse_image_dimensions("1x2xz"), Err(INTEGER_ERROR));
    assert_eq!(INTEGER_ERROR, "Could not parse integer value");
}

#[test]
fn parses_integers() {
    assert_eq!(parse_integer("42"), Ok(42));
    assert_eq!(parse_integer("+0"), Ok(0));
    assert_eq!(parse_integer("4294967295"), Ok(u32::MAX));
    assert_eq!(parse_integer("4294967296"), Err(INTEGER_ERROR));
    assert_eq!(parse_integer("-1"), Err(INTEGER_ERROR));
    assert_eq!(parse_integer("+"), Err(INTEGER_ERROR));
    assert_eq!(parse_integer(" 1"), Err(INTEGER_ERROR));
    assert_eq!(parse_integer("é1"), Err(INTEGER_ERROR));
}

#[test]
fn integers_agree_with_std() {
    for s in ["0", "7", "+12", "-3", "", "+", "99999999999", "12a", "4294967295"] {
        assert_eq!(parse_integer(s).ok(), s.parse::<u32>().ok(), "{}", s);
    }
}

#[test]
fn parses_integer_lists() {
    assert_eq!(parse_integer_list("1,2,3", ','), Ok(vec![1, 2, 3]));
    assert_eq!(parse_integer_list("9", ','), Ok(vec![9]));
    assert_eq!(parse_integer_list("1,,3", ','), Err(INTEGER_ERROR));
}
