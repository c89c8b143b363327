use cluster_monitor::datetime::DatetimeParseError;
use cluster_monitor::measurement::{Cpu, Measurement, NodeInfo, State, StaticInfo};
use cluster_monitor::query::{filter_data, window, DEFAULT_START_SECS};
use cluster_monitor::time::Timestamp;

fn sample(secs: i64, nanos: u32) -> Measurement {
    Measurement {
        time: Timestamp::new(secs, nanos),
        state: State::Initial(StaticInfo {
            node_info: NodeInfo { id: 1, mem_total: 64 },
            cpu_info: Cpu { nodes: vec![] },
            gpu_info: vec![],
        }),
    }
}

fn data() -> Vec<Measurement> {
    vec![sample(10, 0), sample(5, 0), sample(20, 0), sample(15, 1), sample(15, 0), sample(30, 0)]
}

#[test]
fn the_window_is_closed_at_both_ends() {
    let data = data();
    let picked = filter_data(&data, Timestamp::new(10, 0), Timestamp::new(20, 0), None);
    assert_eq!(picked, vec![&data[0], &data[2], &data[3], &data[4]]);
    let picked = filter_data(&data, Timestamp::new(15, 1), Timestamp::new(15, 1), None);
    assert_eq!(picked, vec![&data[3]]);
    let picked = filter_data(&data, Timestamp::new(21, 0), Timestamp::new(29, 999_999_999), None);
    assert!(picked.is_empty());
    let picked = filter_data(&data, Timestamp::new(20, 0), Timestamp::new(10, 0), None);
    assert!(picked.is_empty());
}

#[test]
fn the_limit_applies_after_the_window() {
    let data = data();
    let picked = filter_data(&data, Timestamp::new(10, 0), Timestamp::new(20, 0), Some(2));
    assert_eq!(picked, vec![&data[0], &data[2]]);
    let picked = filter_data(&data, Timestamp::new(10, 0), Timestamp::new(20, 0), Some(0));
    assert!(picked.is_empty());
    let picked = filter_data(&data, Timestamp::new(10, 0), Timestamp::new(20, 0), Some(4));
    assert_eq!(picked.len(), 4);
    let picked = filter_data(&data, Timestamp::new(0, 0), Timestamp::new(100, 0), Some(usize::MAX));
    assert_eq!(picked.len(), 6);
    assert!(filter_data(&vec![], Timestamp::new(0, 0), Timestamp::new(100, 0), None).is_empty());
}

#[test]
fn windows_default_to_a_day_after_the_epoch_and_now() {
    let now = Timestamp::new(1_700_000_000, 5);
    assert_eq!(DEFAULT_START_SECS, 86_400);
    assert_eq!(window(None, None, now), Ok((Timestamp::new(86_400, 0), now)));
    assert_eq!(window(Some("1970-01-03"), None, now), Ok((Timestamp::new(172_800, 0), now)));
    assert_eq!(
        window(Some("1970-01-03"), Some("1970-01-03 00:01"), now),
        Ok((Timestamp::new(172_800, 0), Timestamp::new(172_860, 0)))
    );
    assert_eq!(window(None, Some("1970-01-01T00:00:02"), now), Ok((Timestamp::new(86_400, 0), Timestamp::new(2, 0))));
    assert_eq!(window(Some("yesterday"), None, now), Err(DatetimeParseError::UnknownFormat));
    assert_eq!(window(None, Some("tomorrow"), now), Err(DatetimeParseError::UnknownFormat));
    assert_eq!(window(Some("x"), Some("y"), now), Err(DatetimeParseError::UnknownFormat));
}
