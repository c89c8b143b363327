use cluster_monitor::chart::{chart_bounds, create_bitmap_buffer, minmax_by_key, title_font_size, ChartBounds, Point};
use cluster_monitor::time::Timestamp;

fn at(secs: i64) -> Timestamp {
    Timestamp::new(secs, 0)
}

#[test]
fn bounds_span_times_and_counts() {
    let points = vec![(at(30), 5), (at(10), 9), (at(20), 2), (at(40), 7)];
    assert_eq!(chart_bounds(&points), Some(ChartBounds { first: at(10), last: at(40), min: 2, max: 9 }));
}

#[test]
fn bounds_of_one_point_and_of_none() {
    assert_eq!(chart_bounds(&vec![]), None);
    assert_eq!(chart_bounds(&vec![(at(-5), 3)]), Some(ChartBounds { first: at(-5), last: at(-5), min: 3, max: 3 }));
}

#[test]
fn bounds_with_ties() {
    let early_a = Timestamp::new(1, 0);
    let early_b = Timestamp::new(0, 1_000_000_000);
    let points = vec![(at(5), 1), (early_a, 1), (early_b, 4), (Timestamp::new(4, 1_000_000_000), 4)];
    let bounds = chart_bounds(&points).unwrap();
    assert_eq!(bounds.first, early_a);
    assert_eq!(bounds.last, Timestamp::new(4, 1_000_000_000));
    assert_eq!((bounds.min, bounds.max), (1, 4));
}

#[test]
fn title_font_sizes() {
    assert_eq!(title_font_size(800, 600), 39);
    assert_eq!(title_font_size(0, 0), 0);
    assert_eq!(title_font_size(27, 0), 0);
    assert_eq!(title_font_size(27, 2), 1);
    assert_eq!(title_font_size(u32::MAX, u32::MAX), 230_087_533);
}

#[test]
fn blank_bitmaps() {
    let mut buf = vec![1, 2, 3];
    assert!(create_bitmap_buffer(&mut buf, 2, 3));
    assert_eq!(buf, vec![0u8; 18]);
    assert!(create_bitmap_buffer(&mut buf, 0, 7));
    assert!(buf.is_empty());
    let mut buf = vec![9];
    assert!(create_bitmap_buffer(&mut buf, 800, 600));
    assert_eq!(buf.len(), 1_440_000);
    assert!(buf.iter().all(|b| *b == 0));
    let mut buf = vec![9];
    assert!(!create_bitmap_buffer(&mut buf, 65_536, 65_536));
    assert_eq!(buf, vec![9]);
    assert!(!create_bitmap_buffer(&mut buf, 35_792, 40_000));
    assert_eq!(buf, vec![9]);
}

#[test]
fn minmax_takes_the_first_smallest_and_the_last_largest() {
    let points = vec![(at(1), 3), (at(2), 1), (at(3), 1), (at(4), 5), (at(5), 5), (at(6), 2)];
    assert_eq!(minmax_by_key(&points), Some((Point(at(2), 1), Point(at(5), 5))));
    assert_eq!(minmax_by_key(&vec![(at(9), 4)]), Some((Point(at(9), 4), Point(at(9), 4))));
    assert_eq!(minmax_by_key(&vec![(at(1), 7), (at(2), 7), (at(3), 7)]), Some((Point(at(1), 7), Point(at(3), 7))));
    assert_eq!(minmax_by_key(&vec![(at(1), 2), (at(2), 1)]), Some((Point(at(2), 1), Point(at(1), 2))));
    assert_eq!(minmax_by_key(&vec![]), None);
    let p = Point("x", 2u8);
    assert_eq!((p.x, p.y), ("x", 2));
}
