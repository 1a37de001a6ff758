use lang_parser::range::{IntoLocated, Located, Range};

#[test]
fn merge_takes_the_outer_bounds() {
    assert_eq!(Range(2, 5).merge(Range(4, 9)), Range(2, 9));
    assert_eq!(Range(4, 9).merge(Range(2, 5)), Range(2, 9));
    assert_eq!(Range(0, 10).merge(Range(3, 4)), Range(0, 10));
    assert_eq!(Range(1, 2).merge(Range(7, 8)), Range(1, 8));
}

#[test]
fn merge_is_commutative_associative_and_idempotent() {
    let a = Range(3, 8);
    let b = Range(1, 4);
    let c = Range(6, 12);
    assert_eq!(a.merge(b), b.merge(a));
    assert_eq!(a.merge(b).merge(c), a.merge(b.merge(c)));
    assert_eq!(a.merge(b).merge(c), Range(1, 12));
    assert_eq!(a.merge(a), a);
}

#[test]
fn bitor_is_merge() {
    assert_eq!(Range(2, 5) | Range(4, 9), Range(2, 9));
    assert_eq!(Range(7, 7) | Range(7, 7), Range(7, 7));
}

#[test]
fn extend_start_never_moves_the_start_forward() {
    assert_eq!(Range(5, 9).extend_start(2), Range(2, 9));
    assert_eq!(Range(5, 9).extend_start(5), Range(5, 9));
    assert_eq!(Range(5, 9).extend_start(7), Range(5, 9));
    assert_eq!(Range(5, 9).extend_start(20), Range(5, 9));
}

#[test]
fn extend_end_never_moves_the_end_back() {
    assert_eq!(Range(5, 9).extend_end(12), Range(5, 12));
    assert_eq!(Range(5, 9).extend_end(9), Range(5, 9));
    assert_eq!(Range(5, 9).extend_end(6), Range(5, 9));
    assert_eq!(Range(5, 9).extend_end(0), Range(5, 9));
}

#[test]
fn range_from_a_std_range() {
    assert_eq!(Range::from(3..8), Range(3, 8));
    let converted: Range = (0..0).into();
    assert_eq!(converted, Range(0, 0));
}

#[test]
fn ranges_are_ordered_by_start_then_end() {
    assert!(Range(1, 9) < Range(2, 3));
    assert!(Range(2, 3) < Range(2, 4));
    assert!(Range(2, 4) > Range(2, 3));
    assert!(Range(2, 3) <= Range(2, 3));
    assert!(!(Range(2, 3) < Range(2, 3)));
    assert_eq!(Range(2, 3).partial_cmp(&Range(2, 3)), Some(std::cmp::Ordering::Equal));
    assert_eq!(Range(2, 3).cmp(&Range(1, 30)), std::cmp::Ordering::Greater);
    let mut ranges = vec![Range(4, 5), Range(1, 7), Range(1, 2), Range(0, 9)];
    ranges.sort();
    assert_eq!(ranges, vec![Range(0, 9), Range(1, 2), Range(1, 7), Range(4, 5)]);
}

#[test]
fn derived_and_written_orders_agree() {
    let ranges = [Range(0, 0), Range(0, 5), Range(3, 3), Range(3, 4), Range(9, 1)];
    for a in ranges {
        for b in ranges {
            assert_eq!(a.partial_cmp(&b), Some(a.cmp(&b)));
        }
    }
}

#[test]
fn map_keeps_the_range() {
    let located = Located(21u32, Range(4, 6));
    let mapped = located.map(|value| value * 2);
    assert_eq!(mapped, Located(42u32, Range(4, 6)));
    let text = Located(7u8, Range(0, 1)).map(|value| format!("<{}>", value));
    assert_eq!(text, Located(String::from("<7>"), Range(0, 1)));
}

#[test]
fn located_gives_access_to_its_value() {
    let mut located = Located(String::from("abc"), Range(1, 4));
    assert_eq!(located.len(), 3);
    located.push('d');
    assert_eq!(*located, "abcd");
    assert_eq!(located.1, Range(1, 4));
    *located = String::from("x");
    assert_eq!(located, Located(String::from("x"), Range(1, 4)));
}

#[test]
fn into_located_tags_a_value() {
    let located = 5u8.into_located(2..9);
    assert_eq!(located, Located(5u8, Range(2, 9)));
    let again = "name".into_located(Range(0, 4));
    assert_eq!(again, Located("name", Range(0, 4)));
}
