use meterfuse::fuse::find_unique_channel;
use meterfuse::fuse::fuse;
use meterfuse::Reading;
use meterfuse::RoundError;
use meterfuse::RunContext;

fn reading(timestamp_nanos: i64, temps_milli_c: [Option<i64>; 4]) -> Reading {
    Reading { timestamp_nanos, temps_milli_c }
}

fn one_channel(timestamp_nanos: i64, index: usize, value: i64) -> Reading {
    let mut temps: [Option<i64>; 4] = [None, None, None, None];
    temps[index] = Some(value);
    reading(timestamp_nanos, temps)
}

fn four_ports() -> Vec<String> {
    vec![
        String::from("p1"),
        String::from("p2"),
        String::from("p3"),
        String::from("p4"),
    ]
}

const T0: i64 = 1_700_000_000_000_000_000;
const HALF_SECOND: i64 = 500_000_000;

#[test]
fn unique_channel_none_when_all_missing() {
    assert_eq!(find_unique_channel(&[None, None, None, None]), None);
}

#[test]
fn unique_channel_found_when_exactly_one() {
    assert_eq!(
        find_unique_channel(&[None, None, Some(23_750), None]),
        Some((23_750, 2))
    );
    assert_eq!(
        find_unique_channel(&[Some(-40), None, None, None]),
        Some((-40, 0))
    );
}

#[test]
fn unique_channel_none_when_several() {
    assert_eq!(find_unique_channel(&[Some(1), Some(2), None, None]), None);
    assert_eq!(
        find_unique_channel(&[Some(1), Some(2), Some(3), Some(4)]),
        None
    );
}

#[test]
fn fuse_places_values_by_channel_index() {
    let rs = [
        one_channel(T0, 1, 22_500),
        one_channel(T0, 0, 21_250),
        one_channel(T0, 3, 24_000),
        one_channel(T0, 2, 23_750),
    ];
    assert_eq!(fuse(&rs), Ok([21_250, 22_500, 23_750, 24_000]));
}

#[test]
fn fuse_reports_first_collision_position() {
    let rs = [
        one_channel(T0, 1, 10_000),
        one_channel(T0, 1, 11_000),
        one_channel(T0, 2, 12_000),
        one_channel(T0, 3, 13_000),
    ];
    assert_eq!(
        fuse(&rs),
        Err(RoundError::PositionCollision { position: 2 })
    );
}

#[test]
fn fuse_drops_multi_channel_readings() {
    let rs = [
        one_channel(T0, 0, 21_000),
        reading(T0, [None, Some(1), Some(2), None]),
        one_channel(T0, 2, 23_000),
        one_channel(T0, 3, 24_000),
    ];
    assert_eq!(fuse(&rs), Err(RoundError::IncompleteRound));
}

#[test]
fn happy_round_absolute_origin() {
    let rs = [
        one_channel(T0, 0, 21_250),
        one_channel(T0, 1, 22_500),
        one_channel(T0, 2, 23_750),
        one_channel(T0, 3, 24_000),
    ];
    let mut ctx = RunContext::new(false, four_ports()).unwrap();
    let line = ctx.process_round(&rs).unwrap();
    assert_eq!(line, "1700000000.000,21.250,22.500,23.750,24.000");
}

#[test]
fn relative_origin_starts_at_zero() {
    let first = [
        one_channel(T0, 0, 21_250),
        one_channel(T0, 1, 22_500),
        one_channel(T0, 2, 23_750),
        one_channel(T0, 3, 24_000),
    ];
    let second = [
        one_channel(T0 + HALF_SECOND, 0, 25_000),
        one_channel(T0 + HALF_SECOND, 1, 26_000),
        one_channel(T0 + HALF_SECOND, 2, 27_000),
        one_channel(T0 + HALF_SECOND, 3, 28_000),
    ];
    let mut ctx = RunContext::new(true, four_ports()).unwrap();
    let line1 = ctx.process_round(&first).unwrap();
    assert_eq!(line1, "0.000,21.250,22.500,23.750,24.000");
    let line2 = ctx.process_round(&second).unwrap();
    assert_eq!(line2, "0.500,25.000,26.000,27.000,28.000");
}

#[test]
fn collision_round_names_one_based_position() {
    let rs = [
        one_channel(T0, 2, 10_000),
        one_channel(T0, 0, 11_000),
        one_channel(T0, 2, 12_000),
        one_channel(T0, 1, 13_000),
    ];
    let mut ctx = RunContext::new(false, four_ports()).unwrap();
    assert_eq!(
        ctx.process_round(&rs),
        Err(RoundError::PositionCollision { position: 3 })
    );
}

#[test]
fn incomplete_round_when_one_meter_silent() {
    let rs = [
        one_channel(T0, 0, 10_000),
        one_channel(T0, 1, 11_000),
        one_channel(T0, 2, 12_000),
        reading(T0, [None, None, None, None]),
    ];
    let mut ctx = RunContext::new(false, four_ports()).unwrap();
    assert_eq!(ctx.process_round(&rs), Err(RoundError::IncompleteRound));
}

#[test]
fn skewed_round_is_rejected() {
    let rs = [
        one_channel(T0, 0, 10_000),
        one_channel(T0, 1, 11_000),
        one_channel(T0, 2, 12_000),
        one_channel(T0 + 1_000_000_000, 3, 13_000),
    ];
    let mut ctx = RunContext::new(false, four_ports()).unwrap();
    assert_eq!(ctx.process_round(&rs), Err(RoundError::SkewExceeded));
}

#[test]
fn pre_epoch_round_is_rejected() {
    let rs = [
        one_channel(-5, 0, 10_000),
        one_channel(-5, 1, 11_000),
        one_channel(-5, 2, 12_000),
        one_channel(-5, 3, 13_000),
    ];
    let mut ctx = RunContext::new(false, four_ports()).unwrap();
    assert_eq!(ctx.process_round(&rs), Err(RoundError::TimeBeforeEpoch));
}

#[test]
fn errors_leave_origin_unanchored() {
    let bad = [
        one_channel(T0, 0, 10_000),
        one_channel(T0, 1, 11_000),
        one_channel(T0, 2, 12_000),
        one_channel(T0 + 1_000_000_000, 3, 13_000),
    ];
    let good = [
        one_channel(T0 + HALF_SECOND, 0, 21_250),
        one_channel(T0 + HALF_SECOND, 1, 22_500),
        one_channel(T0 + HALF_SECOND, 2, 23_750),
        one_channel(T0 + HALF_SECOND, 3, 24_000),
    ];
    let mut ctx = RunContext::new(true, four_ports()).unwrap();
    assert_eq!(ctx.process_round(&bad), Err(RoundError::SkewExceeded));
    let line = ctx.process_round(&good).unwrap();
    assert_eq!(line, "0.000,21.250,22.500,23.750,24.000");
}

#[test]
fn wrong_port_arity_is_usage_error() {
    let three = vec![
        String::from("p1"),
        String::from("p2"),
        String::from("p3"),
    ];
    assert!(RunContext::new(false, three).is_none());
    let five = vec![
        String::from("p1"),
        String::from("p2"),
        String::from("p3"),
        String::from("p4"),
        String::from("p5"),
    ];
    assert!(RunContext::new(false, five).is_none());
    assert!(RunContext::new(false, four_ports()).is_some());
}

fn is_fixed3_field(field: &str) -> bool {
    let body = field.strip_prefix('-').unwrap_or(field);
    let bytes = body.as_bytes();
    if bytes.len() < 5 {
        return false;
    }
    let dot = bytes.len() - 4;
    if bytes[dot] != b'.' {
        return false;
    }
    bytes[..dot].iter().all(|b| b.is_ascii_digit())
        && bytes[dot + 1..].iter().all(|b| b.is_ascii_digit())
}

#[test]
fn emitted_lines_match_csv_shape() {
    let rounds = [
        [
            one_channel(T0, 0, 21_250),
            one_channel(T0, 1, -22_500),
            one_channel(T0, 2, 0),
            one_channel(T0, 3, 1_000_000),
        ],
        [
            one_channel(T0 + HALF_SECOND, 0, 1),
            one_channel(T0 + HALF_SECOND, 1, -1),
            one_channel(T0 + HALF_SECOND, 2, 999),
            one_channel(T0 + HALF_SECOND, 3, -999),
        ],
    ];
    let mut ctx = RunContext::new(false, four_ports()).unwrap();
    for rs in rounds.iter() {
        let line = ctx.process_round(rs).unwrap();
        let fields: Vec<&str> = line.split(',').collect();
        assert_eq!(fields.len(), 5);
        for field in fields {
            assert!(is_fixed3_field(field));
        }
    }
}

#[test]
fn absolute_timestamps_non_decreasing() {
    let mut ctx = RunContext::new(false, four_ports()).unwrap();
    let mut previous: Option<String> = None;
    for step in 0..4i64 {
        let t = T0 + step * 300_000_000;
        let rs = [
            one_channel(t, 0, 1_000),
            one_channel(t + 1_000_000, 1, 2_000),
            one_channel(t, 2, 3_000),
            one_channel(t, 3, 4_000),
        ];
        let line = ctx.process_round(&rs).unwrap();
        let stamp = line.split(',').next().unwrap().replace('.', "");
        let value: i64 = stamp.parse().unwrap();
        if let Some(prev) = previous {
            let prev_value: i64 = prev.parse().unwrap();
            assert!(prev_value <= value);
        }
        previous = Some(stamp);
    }
}
