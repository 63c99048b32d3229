use mixer::transport::{checked_minsec_to_samples, minsec_to_samples, samples_to_minsec};

#[test]
fn zero_samples_is_zero_time() {
    assert_eq!(samples_to_minsec(0), (0, 0));
}

#[test]
fn whole_minutes_and_seconds() {
    assert_eq!(samples_to_minsec(48000 * 61), (1, 1));
    assert_eq!(samples_to_minsec(48000 * 60), (1, 0));
    assert_eq!(samples_to_minsec(48000 * 59), (0, 59));
}

#[test]
fn positions_inside_a_second_round_down() {
    assert_eq!(samples_to_minsec(48000 * 61 + 47999), (1, 1));
}

#[test]
fn minsec_to_samples_exact() {
    assert_eq!(minsec_to_samples(0, 0), 0);
    assert_eq!(minsec_to_samples(1, 1), 48000 * 61);
    assert_eq!(minsec_to_samples(2, 30), 48000 * 150);
}

#[test]
fn round_trip_truncates_to_whole_seconds() {
    // A position not on a second boundary loses the fraction of a second.
    let n = 48000 * 90 + 123;
    let (m, s) = samples_to_minsec(n);
    assert_eq!(minsec_to_samples(m, s), 48000 * 90);
    assert_eq!(minsec_to_samples(m, s), n - n % 48000);

    // On a second boundary nothing is lost.
    let n = 48000 * 90;
    let (m, s) = samples_to_minsec(n);
    assert_eq!(minsec_to_samples(m, s), n);
}

#[test]
fn checked_conversion_matches_and_refuses_overflow() {
    assert_eq!(checked_minsec_to_samples(1, 1), Some(48000 * 61));
    assert_eq!(checked_minsec_to_samples(usize::MAX, 0), None);
    assert_eq!(checked_minsec_to_samples(usize::MAX / 60, 59), None);
}
