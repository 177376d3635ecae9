use mystic_update::managers::ManagerId;
use mystic_update::progress::{
    clamp_percentage, extract_digits_left, extract_digits_right, is_download_ratio_line,
    new_progress_tracker, next_phase, parse_ratio_near_slash, running_progress_value,
    DnfYumProgress, Percentage, Ratio,
};

fn letters(text: &str) -> Vec<char> {
    text.chars().collect()
}

#[test]
fn digits_beside_a_slash_are_found() {
    assert_eq!(extract_digits_left(&letters("a 12 b34c")).map(<[char]>::to_vec), Some(letters("34")));
    assert_eq!(extract_digits_left(&letters("ab")), None);
    assert_eq!(extract_digits_right(&letters("x 7y8")).map(<[char]>::to_vec), Some(letters("7")));
    assert_eq!(extract_digits_right(&letters("")), None);
    assert_eq!(parse_ratio_near_slash(&letters("Running 3 of / 12: x")), Some((3, 12)));
    assert_eq!(parse_ratio_near_slash(&letters("3 of 12")), None);
    assert_eq!(parse_ratio_near_slash(&letters("99999999999/1")), None);
    assert!(is_download_ratio_line(&letters("  (1/2)")));
    assert!(!is_download_ratio_line(&letters("1/2")));
}

#[test]
fn downloads_come_before_the_transaction() {
    let mut progress = DnfYumProgress::new();
    for line in ["", "  ", "Total size: 5 M", "a/3", "3/b", "/", "1/0"] {
        assert_eq!(progress.update_from_line(line), None);
        assert_eq!((progress.download, progress.transaction), (None, None));
    }
    assert_eq!(
        progress.update_from_line("(1/4): a.rpm"),
        Some(Percentage { base: 0, span: 60, ratio: Ratio { current: 1, total: 4 } })
    );
    assert_eq!(progress.update_from_line("(2/0): a.rpm"), None);
    assert_eq!(
        progress.update_from_line(" Upgrading : b 9/8 "),
        Some(Percentage { base: 60, span: 40, ratio: Ratio { current: 8, total: 8 } })
    );
    let mut progress = DnfYumProgress::new();
    assert_eq!(
        progress.update_from_line("Upgrading : b 1/8"),
        Some(Percentage { base: 0, span: 100, ratio: Ratio { current: 1, total: 8 } })
    );
}

#[test]
fn percentages_only_rise() {
    let mut progress = DnfYumProgress::new();
    let reported: Vec<f32> = [0.0f32, 12.5, 12.0, 12.5, 60.0, 59.9, 100.0]
        .iter()
        .filter_map(|value| progress.raise(value.to_bits()))
        .map(f32::from_bits)
        .collect();
    assert_eq!(reported, vec![12.5, 60.0, 100.0]);
    let mut progress = DnfYumProgress::new();
    for value in [-1.0f32, -0.0, f32::NAN, -f32::NAN, f32::NEG_INFINITY] {
        assert_eq!(progress.raise(value.to_bits()), None);
    }
    assert_eq!(progress.raise(250f32.to_bits()), Some(100f32.to_bits()));
    assert_eq!(progress.raise(f32::INFINITY.to_bits()), None);
}

#[test]
fn bar_of_unknown_length_moves() {
    assert_eq!(running_progress_value(0), 15);
    assert_eq!(running_progress_value(70), 85);
    assert_eq!(running_progress_value(71), 84);
    assert_eq!(running_progress_value(139), 16);
    assert_eq!(next_phase(0), 3);
    assert_eq!(next_phase(138), 1);
    let mut phase = 0;
    for _ in 0..500 {
        let next = next_phase(phase);
        let change = running_progress_value(next) as i64 - running_progress_value(phase) as i64;
        assert!(change.abs() <= 3);
        phase = next;
    }
}

#[test]
fn percentages_are_clamped_as_by_f32() {
    for value in [
        0.0f32, -0.0, 0.5, 99.99999, 100.0, 100.00001, 101.0, f32::MAX, f32::INFINITY, -0.1, -1.0,
        f32::MIN, f32::NEG_INFINITY, f32::MIN_POSITIVE,
    ] {
        assert_eq!(clamp_percentage(value.to_bits()), value.clamp(0.0, 100.0).to_bits(), "{value}");
    }
    assert_eq!(clamp_percentage(f32::NAN.to_bits()), f32::NAN.to_bits());
    assert_eq!(clamp_percentage((-f32::NAN).to_bits()), (-f32::NAN).to_bits());
}

#[test]
fn tracker_keeps_what_is_reported() {
    let mut tracker = new_progress_tracker();
    assert_eq!(tracker.get(ManagerId::Apt), None);
    tracker.report_progress(ManagerId::Apt, 101f32.to_bits());
    tracker.report_progress(ManagerId::Dnf, 7f32.to_bits());
    assert_eq!(tracker.get(ManagerId::Apt), Some(100f32.to_bits()));
    assert_eq!(tracker.clone().get(ManagerId::Dnf), Some(7f32.to_bits()));
    tracker.clear_progress(ManagerId::Apt);
    assert_eq!(tracker.get(ManagerId::Apt), None);
    assert_eq!(tracker.get(ManagerId::Dnf), Some(7f32.to_bits()));
}
