use ble_gateway::gnss::{assemble_fix, scale_divisor, ChannelLabel, ChannelSample, GnssTracker};

fn sample(label: ChannelLabel, value: Option<i32>, scaling: i8) -> ChannelSample {
    ChannelSample { label, value, scaling }
}

fn full_reading() -> Vec<ChannelSample> {
    vec![
        sample(ChannelLabel::Latitude, Some(488_566_100), -7),
        sample(ChannelLabel::Longitude, Some(23_522_200), -7),
        sample(ChannelLabel::Other, Some(5), 0),
        sample(ChannelLabel::Altitude, Some(352), -1),
    ]
}

#[test]
fn complete_fix() {
    let fix = assemble_fix(Some(1_700_000_000), &full_reading()).unwrap();
    assert_eq!(fix.latitude.value, 488_566_100);
    assert_eq!(fix.latitude.scaling, -7);
    assert_eq!(fix.longitude.value, 23_522_200);
    assert_eq!(fix.altitude.value, 352);
    assert_eq!(fix.altitude.scaling, -1);
    assert_eq!(fix.time_of_fix, 1_700_000_000);
}

#[test]
fn incomplete_fix() {
    assert!(assemble_fix(None, &full_reading()).is_none());
    let mut missing = full_reading();
    missing[3].value = None;
    assert!(assemble_fix(Some(1), &missing).is_none());
    assert!(assemble_fix(Some(1), &vec![]).is_none());
}

#[test]
fn last_readable_sample_wins() {
    let mut r = full_reading();
    r.push(sample(ChannelLabel::Latitude, Some(1), -2));
    r.push(sample(ChannelLabel::Latitude, None, -3));
    let fix = assemble_fix(Some(1), &r).unwrap();
    assert_eq!(fix.latitude.value, 1);
    assert_eq!(fix.latitude.scaling, -2);
}

#[test]
fn divisors() {
    assert_eq!(scale_divisor(0), 1);
    assert_eq!(scale_divisor(-1), 10);
    assert_eq!(scale_divisor(-7), 10_000_000);
    assert_eq!(scale_divisor(-9), 1_000_000_000);
}

#[test]
fn status_lights_follow_fixes() {
    let mut g = GnssTracker::new();
    assert!(g.red_led && !g.blue_led && g.location.is_none());
    assert!(g.on_reading(None, &full_reading()).is_none());
    assert!(g.red_led && !g.blue_led);
    assert!(g.on_reading(Some(7), &full_reading()).is_some());
    assert!(!g.red_led && g.blue_led);
    assert_eq!(g.location.unwrap().time_of_fix, 7);
    assert!(g.on_reading(Some(8), &vec![]).is_none());
    assert!(!g.red_led && !g.blue_led);
    assert_eq!(g.location.unwrap().time_of_fix, 7);
}
