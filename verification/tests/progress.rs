use parut::progress::{detect_phase, parse_phase, parse_progress, Progress};

fn fraction(p: Progress) -> f64 {
    p.numerator as f64 / p.denominator as f64
}

#[test]
fn percentage_gives_hundredths() {
    let p = parse_progress("downloading... 45%").unwrap();
    assert_eq!(p, Progress { numerator: 45, denominator: 100 });
    assert_eq!(fraction(p), 0.45);
}

#[test]
fn parenthesised_pair_gives_ratio() {
    let p = parse_progress("(2/5) checking keys").unwrap();
    assert_eq!(p, Progress { numerator: 2, denominator: 5 });
    assert_eq!(fraction(p), 0.4);
}

#[test]
fn line_without_digits_reports_no_progress_but_a_phase() {
    assert_eq!(parse_progress("downloading file.pkg.tar.zst"), None);
    assert_eq!(
        parse_phase("downloading file.pkg.tar.zst").as_deref(),
        Some("Downloading")
    );
}

#[test]
fn resolving_dependencies_is_a_phase_without_progress() {
    assert_eq!(parse_progress("resolving dependencies..."), None);
    assert_eq!(
        parse_phase("resolving dependencies...").as_deref(),
        Some("Resolving dependencies")
    );
}

#[test]
fn percentage_with_decimal_places_is_exact() {
    assert_eq!(
        parse_progress("progress 12.5%"),
        Some(Progress { numerator: 125, denominator: 1000 })
    );
    assert_eq!(
        parse_progress("x .5%"),
        Some(Progress { numerator: 5, denominator: 1000 })
    );
    assert_eq!(
        parse_progress("x 5.%"),
        Some(Progress { numerator: 5, denominator: 100 })
    );
    assert_eq!(
        parse_progress("100%"),
        Some(Progress { numerator: 100, denominator: 100 })
    );
}

#[test]
fn percentage_that_is_no_number_falls_back_to_the_pair() {
    assert_eq!(parse_progress("done...%"), None);
    assert_eq!(parse_progress("%"), None);
    assert_eq!(parse_progress("1.2.3%"), None);
    assert_eq!(
        parse_progress("(1/4) 1.2.3%"),
        Some(Progress { numerator: 1, denominator: 4 })
    );
}

#[test]
fn only_the_first_percent_sign_counts() {
    assert_eq!(
        parse_progress("a 10% b 20%"),
        Some(Progress { numerator: 10, denominator: 100 })
    );
    assert_eq!(parse_progress("a % b 20%"), None);
}

#[test]
fn percentage_counts_before_the_pair() {
    assert_eq!(
        parse_progress("(1/4) 50%"),
        Some(Progress { numerator: 50, denominator: 100 })
    );
}

#[test]
fn pair_needs_two_unsigned_integers_and_a_total() {
    assert_eq!(parse_progress("(a/b)"), None);
    assert_eq!(parse_progress("(1/)"), None);
    assert_eq!(parse_progress("(/2)"), None);
    assert_eq!(parse_progress("(1/0)"), None);
    assert_eq!(parse_progress("(12)"), None);
    assert_eq!(parse_progress(") (1/2)"), None);
    assert_eq!(parse_progress("( 1/2)"), None);
    assert_eq!(
        parse_progress("step (10/20) done"),
        Some(Progress { numerator: 10, denominator: 20 })
    );
}

#[test]
fn a_percentage_beyond_the_machine_is_still_a_match() {
    assert_eq!(
        parse_progress("x 99999999999999999999999%"),
        Some(Progress { numerator: u64::MAX, denominator: 100 })
    );
    assert_eq!(
        parse_progress("(1/4) 99999999999999999999999%"),
        Some(Progress { numerator: u64::MAX, denominator: 100 })
    );
    assert_eq!(
        parse_progress("x 18446744073709551615%"),
        Some(Progress { numerator: 18446744073709551615, denominator: 100 })
    );
    assert_eq!(
        parse_progress("x 18446744073709551616%"),
        Some(Progress { numerator: u64::MAX, denominator: 100 })
    );
    assert!(!Progress { numerator: u64::MAX, denominator: 100 }.is_within_unit());
}

#[test]
fn decimal_places_beyond_the_seventeenth_are_dropped() {
    assert_eq!(
        parse_progress("x 1.00000000000000000%"),
        Some(Progress { numerator: 100_000_000_000_000_000, denominator: 10_000_000_000_000_000_000 })
    );
    assert_eq!(
        parse_progress("x 45.000000000000000000000%"),
        Some(Progress { numerator: 4_500_000_000_000_000_000, denominator: 10_000_000_000_000_000_000 })
    );
    assert_eq!(
        parse_progress("(1/4) 45.000000000000000009999%"),
        Some(Progress { numerator: 4_500_000_000_000_000_000, denominator: 10_000_000_000_000_000_000 })
    );
    assert_eq!(
        parse_progress("x 0.12345678901234567899%"),
        Some(Progress { numerator: 12_345_678_901_234_567, denominator: 10_000_000_000_000_000_000 })
    );
    assert_eq!(
        parse_progress("x 200.000000000000000001%"),
        Some(Progress { numerator: u64::MAX, denominator: 10_000_000_000_000_000_000 })
    );
    let p = parse_progress("x 45.000000000000000000000%").unwrap();
    assert_eq!(p.numerator as f64 / p.denominator as f64, 0.45);
    assert_eq!(parse_progress("(1/4) 1.0000000000000000000a%"), Some(Progress { numerator: 1, denominator: 4 }));
}

#[test]
fn a_pair_beyond_the_machine_is_no_progress() {
    assert_eq!(parse_progress("(99999999999999999999999/2)"), None);
    assert_eq!(parse_progress("(2/99999999999999999999999)"), None);
}

#[test]
fn phases_follow_the_table_in_order() {
    assert_eq!(parse_phase("Checking keys in keyring").as_deref(), Some("Checking keys"));
    assert_eq!(
        parse_phase("checking package integrity").as_deref(),
        Some("Verifying package integrity")
    );
    assert_eq!(
        parse_phase("loading package files").as_deref(),
        Some("Loading package files")
    );
    assert_eq!(
        parse_phase("checking for file conflicts").as_deref(),
        Some("Checking file conflicts")
    );
    assert_eq!(parse_phase("Retrieving packages").as_deref(), Some("Downloading"));
    assert_eq!(parse_phase("==> Making package (makepkg)").as_deref(), Some("Building"));
    assert_eq!(parse_phase("BUILDING foo").as_deref(), Some("Building"));
    assert_eq!(parse_phase("installing foo").as_deref(), Some("Installing"));
    assert_eq!(parse_phase("upgrading foo").as_deref(), Some("Installing"));
    assert_eq!(parse_phase("removing foo").as_deref(), Some("Removing"));
    assert_eq!(parse_phase("hello"), None);
    assert_eq!(
        parse_phase("downloading while resolving dependencies").as_deref(),
        Some("Resolving dependencies")
    );
}

#[test]
fn phase_detection_needs_lower_case_where_told_so() {
    assert_eq!(detect_phase("DOWNLOADING"), None);
    assert_eq!(detect_phase("downloading").as_deref(), Some("Downloading"));
    assert_eq!(parse_phase("DOWNLOADING").as_deref(), Some("Downloading"));
}
