use mandelbrot::pair::{pair_of, parse_pair, split_fields};

#[test]
fn test_parse_pair() {
    assert_eq!(parse_pair::<i32>("", ','), None);
    assert_eq!(parse_pair::<i32>("10,", ','), None);
    assert_eq!(parse_pair::<i32>(",10", ','), None);
    assert_eq!(parse_pair::<i32>("10,20", ','), Some((10, 20)));
    assert_eq!(parse_pair::<i32>("10,20xy", ','), None);
    assert_eq!(parse_pair::<f64>("0.5x", 'x'), None);
    assert_eq!(parse_pair::<f64>("0.5x1.5", 'x'), Some((0.5, 1.5)));
}

#[test]
fn parse_pair_splits_at_first_separator() {
    assert_eq!(parse_pair::<usize>("1000x750", 'x'), Some((1000, 750)));
    assert_eq!(parse_pair::<i32>("1,2,3", ','), None);
    assert_eq!(parse_pair::<f64>("-1.20,0.35", ','), Some((-1.20, 0.35)));
}

#[test]
fn parse_pair_without_separator() {
    assert_eq!(parse_pair::<i32>("1020", ','), None);
}

#[test]
fn split_fields_at_first_separator() {
    assert_eq!(split_fields("10,20,30", ','), Some(("10", "20,30")));
    assert_eq!(split_fields(",", ','), Some(("", "")));
    assert_eq!(split_fields("1020", ','), None);
}

#[test]
fn pair_of_needs_both_fields() {
    assert_eq!(pair_of(Some(1), Some(2)), Some((1, 2)));
    assert_eq!(pair_of::<i32>(None, Some(2)), None);
    assert_eq!(pair_of::<i32>(Some(1), None), None);
}
