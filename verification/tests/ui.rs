use parut::paru::Package;
use parut::settings::AppSettings;
use parut::ui::{
    auto_refresh_interval_seconds, bytes_distance, cache_ttl_seconds, filter_and_sort_packages,
    filter_updates_by_source, format_duration, freshness_text, freshness_text_at,
    is_cache_within_ttl, is_cache_within_ttl_at, levenshtein_bounded, package_match_score,
    query_package_size_text, rank_packages_by_query, score_of, seconds_since,
    smart_search_fallback, sort_by_keys, SortKey,
};

fn package(name: &str, repository: &str, description: &str) -> Package {
    Package {
        name: name.to_string(),
        version: "1".to_string(),
        description: description.to_string(),
        repository: repository.to_string(),
        installed_version: None,
    }
}

fn names(packages: &[Package]) -> Vec<&str> {
    packages.iter().map(|p| p.name.as_str()).collect()
}

fn sample() -> Vec<Package> {
    vec![
        package("zsh", "extra", "A shell"),
        package("Bash", "core", "The GNU shell"),
        package("fish", "extra", "Friendly shell"),
        package("bash", "aur", "another"),
        package("alacritty", "extra", "Terminal emulator"),
        package("Zed", "aur", "Editor"),
    ]
}

fn reference_distance(a: &[u8], b: &[u8]) -> usize {
    let mut prev: Vec<usize> = (0..=b.len()).collect();
    for (i, ac) in a.iter().enumerate() {
        let mut cur = vec![i + 1];
        for (j, bc) in b.iter().enumerate() {
            let cost = if ac == bc { 0 } else { 1 };
            cur.push((prev[j + 1] + 1).min(cur[j] + 1).min(prev[j] + cost));
        }
        prev = cur;
    }
    prev[b.len()]
}

#[test]
fn durations_are_worded_by_size() {
    assert_eq!(format_duration(0), "0s");
    assert_eq!(format_duration(59), "59s");
    assert_eq!(format_duration(60), "1m 0s");
    assert_eq!(format_duration(3599), "59m 59s");
    assert_eq!(format_duration(3600), "1h 0m");
    assert_eq!(format_duration(7325), "2h 2m");
    assert_eq!(format_duration(u64::MAX), format!("{}h {}m", u64::MAX / 3600, (u64::MAX % 3600) / 60));
}

#[test]
fn refresh_interval_follows_its_name() {
    let mut s = AppSettings::default();
    assert_eq!(auto_refresh_interval_seconds(&s), None);
    for (name, secs) in [("15m", 900), ("30m", 1800), ("1h", 3600), ("6h", 21600)] {
        s.auto_refresh_interval = name.to_string();
        assert_eq!(auto_refresh_interval_seconds(&s), Some(secs));
    }
    s.auto_refresh_interval = "2h".to_string();
    assert_eq!(auto_refresh_interval_seconds(&s), None);
}

#[test]
fn elapsed_seconds_saturate() {
    assert_eq!(seconds_since(10, 3), 7);
    assert_eq!(seconds_since(3, 10), -7);
    for (now, then) in [(i64::MAX, i64::MIN), (i64::MIN, i64::MAX), (0, i64::MIN), (-2, i64::MAX), (i64::MIN, 1)] {
        assert_eq!(seconds_since(now, then), now.saturating_sub(then));
    }
}

#[test]
fn ttl_seconds_follow_the_unsigned_product() {
    for minutes in [0u64, 1, 60, u64::MAX / 60, u64::MAX / 60 + 1, u64::MAX, 1 << 62, (i64::MAX as u64) / 60, (i64::MAX as u64) / 60 + 1] {
        assert_eq!(cache_ttl_seconds(minutes), minutes.saturating_mul(60) as i64, "{}", minutes);
    }
}

#[test]
fn freshness_is_worded_by_age() {
    let s = AppSettings::default();
    assert_eq!(freshness_text_at(1000, true, 1059, &s), "just now");
    assert_eq!(freshness_text_at(1000, true, 900, &s), "just now");
    assert_eq!(freshness_text_at(1000, true, 1060, &s), "1 min ago");
    assert_eq!(freshness_text_at(1000, true, 1000 + 3599, &s), "59 min ago");
    assert_eq!(freshness_text_at(1000, true, 1000 + 3600, &s), "1 hr ago");
    assert_eq!(freshness_text_at(1000, true, 1000 + 86399, &s), "23 hr ago");
    assert_eq!(freshness_text_at(1000, true, 1000 + 86400 * 3, &s), "3 days ago");
    assert_eq!(freshness_text_at(1000, false, 1010, &s), "Data synced just now");
    assert_eq!(freshness_text_at(1000, false, 1000 + 3599, &s), "Data synced 59 min ago");
    assert_eq!(freshness_text_at(1000, false, 1000 + 3600, &s), "Data synced 1 hr ago (stale)");
}

#[test]
fn staleness_starts_after_a_minute_at_least() {
    let mut s = AppSettings::default();
    s.cache_ttl_minutes = 0;
    assert_eq!(freshness_text_at(0, false, 59, &s), "Data synced just now");
    assert_eq!(freshness_text_at(0, false, 60, &s), "Data synced 1 min ago (stale)");
    s.cache_ttl_minutes = u64::MAX;
    assert_eq!(freshness_text_at(0, false, 61, &s), "Data synced 1 min ago (stale)");
    assert!(freshness_text(0, true, &s).ends_with(" days ago"));
}

#[test]
fn cache_is_fresh_within_its_time() {
    let mut s = AppSettings::default();
    assert!(is_cache_within_ttl_at(1000, 1000 + 3600, &s));
    assert!(!is_cache_within_ttl_at(1000, 1000 + 3601, &s));
    assert!(is_cache_within_ttl_at(1000, 0, &s));
    assert!(!is_cache_within_ttl(0, &s));
    s.cache_ttl_minutes = 0;
    assert!(is_cache_within_ttl_at(0, i64::MAX, &s));
    assert!(is_cache_within_ttl(0, &s));
    s.cache_ttl_minutes = u64::MAX;
    assert!(!is_cache_within_ttl_at(0, 5, &s));
    assert!(is_cache_within_ttl_at(5, 0, &s));
}

#[test]
fn edit_distance_is_bounded() {
    assert_eq!(levenshtein_bounded("kitten", "sitting", 4), Some(3));
    assert_eq!(levenshtein_bounded("kitten", "sitting", 3), Some(3));
    assert_eq!(levenshtein_bounded("kitten", "sitting", 2), None);
    assert_eq!(levenshtein_bounded("abc", "abc", 0), Some(0));
    assert_eq!(levenshtein_bounded("abc", "abd", 0), None);
    assert_eq!(levenshtein_bounded("", "abcdef", 1), Some(6));
    assert_eq!(levenshtein_bounded("abcdefgh", "", 2), Some(8));
    assert_eq!(levenshtein_bounded("", "", 0), Some(0));
    assert_eq!(levenshtein_bounded("abc", "xyz", usize::MAX), Some(3));
    assert_eq!(levenshtein_bounded("\u{e9}", "e", 4), Some(2));
}

#[test]
fn edit_distance_agrees_with_the_full_table() {
    let words = ["", "a", "ab", "ba", "abc", "acb", "paru", "parut", "pacman", "ripgrep", "grep", "zzzzzzzz"];
    for a in words {
        for b in words {
            let d = reference_distance(a.as_bytes(), b.as_bytes());
            for max in 0..9 {
                let expected = if a.is_empty() || b.is_empty() || d <= max { Some(d) } else { None };
                assert_eq!(bytes_distance(a.as_bytes(), b.as_bytes(), max), expected, "{} {} {}", a, b, max);
            }
        }
    }
}

#[test]
fn match_score_prefers_closer_matches() {
    assert_eq!(score_of("ripgrep", "search tool", "ripgrep"), 0);
    assert_eq!(score_of("ripgrep", "search tool", "rip"), 1);
    assert_eq!(score_of("ripgrep", "search tool", "grep"), 2);
    assert_eq!(score_of("ripgrep", "search tool", "tool"), 3);
    assert_eq!(score_of("ripgrep", "search tool", "ripgrap"), 11);
    assert_eq!(score_of("ripgrep", "search tool", "rxpgrxpx"), 13);
    assert_eq!(score_of("ripgrep", "search tool", "completely"), 20);
    assert_eq!(score_of("", "", "abcdefghijkl"), 22);
    assert_eq!(score_of("a", "", ""), 1);
    assert_eq!(score_of("", "x", ""), 0);
    assert_eq!(package_match_score(&package("RipGrep", "extra", "Search TOOL"), "ripgrep"), 0);
    assert_eq!(package_match_score(&package("RipGrep", "extra", "Search TOOL"), "tool"), 3);
    assert_eq!(package_match_score(&package("RipGrep", "extra", "Search TOOL"), "RipGrep"), 12);
}

#[test]
fn packages_are_filtered_and_sorted() {
    let all = sample();
    assert_eq!(
        names(&filter_and_sort_packages(&all, "", 0)),
        vec!["alacritty", "Bash", "bash", "fish", "Zed", "zsh"]
    );
    assert_eq!(
        names(&filter_and_sort_packages(&all, "", 1)),
        vec!["zsh", "Zed", "fish", "Bash", "bash", "alacritty"]
    );
    assert_eq!(
        names(&filter_and_sort_packages(&all, "", 2)),
        vec!["Zed", "bash", "Bash", "alacritty", "fish", "zsh"]
    );
    assert_eq!(
        names(&filter_and_sort_packages(&all, "", 3)),
        vec!["zsh", "Bash", "fish", "bash", "alacritty", "Zed"]
    );
    assert_eq!(names(&filter_and_sort_packages(&all, "SHELL", 0)), vec!["Bash", "fish", "zsh"]);
    assert_eq!(names(&filter_and_sort_packages(&all, "ba", 7)), vec!["Bash", "bash"]);
    assert!(filter_and_sort_packages(&all, "nothing", 0).is_empty());
}

#[test]
fn sorting_agrees_with_the_standard_library() {
    let all = sample();
    let mut by_name = all.clone();
    by_name.sort_by(|a, b| a.name.to_lowercase().cmp(&b.name.to_lowercase()));
    assert_eq!(names(&filter_and_sort_packages(&all, "", 0)), names(&by_name));
    let mut by_name_down = all.clone();
    by_name_down.sort_by(|a, b| b.name.to_lowercase().cmp(&a.name.to_lowercase()));
    assert_eq!(names(&filter_and_sort_packages(&all, "", 1)), names(&by_name_down));
    let mut by_repo = all.clone();
    by_repo.sort_by(|a, b| a.repository.cmp(&b.repository).then_with(|| a.name.cmp(&b.name)));
    assert_eq!(names(&filter_and_sort_packages(&all, "", 2)), names(&by_repo));
}

#[test]
fn packages_are_ranked_by_match() {
    let all = vec![
        package("grep-tools", "extra", ""),
        package("ripgrep", "extra", ""),
        package("other", "extra", "uses grep"),
        package("GREP", "core", ""),
        package("grap", "aur", ""),
        package("zzz", "aur", ""),
        package("agrep", "aur", ""),
    ];
    assert_eq!(
        names(&rank_packages_by_query(all.clone(), "Grep", 10)),
        vec!["GREP", "grep-tools", "agrep", "ripgrep", "other", "grap", "zzz"]
    );
    assert_eq!(names(&rank_packages_by_query(all.clone(), "grep", 2)), vec!["GREP", "grep-tools"]);
    assert!(rank_packages_by_query(all, "grep", 0).is_empty());
}

#[test]
fn keys_that_do_not_fit_leave_the_order() {
    let all = sample();
    let keys = vec![SortKey { score: 0, first: vec!['a'], second: vec![] }];
    assert_eq!(names(&sort_by_keys(all.clone(), keys, false)), names(&all));
    let keys: Vec<SortKey> = [3u64, 1, 2, 1, 0, 1]
        .iter()
        .map(|s| SortKey { score: *s, first: vec![], second: vec![] })
        .collect();
    assert_eq!(
        names(&sort_by_keys(all.clone(), keys, false)),
        vec!["alacritty", "Bash", "bash", "Zed", "fish", "zsh"]
    );
}

#[test]
fn updates_are_shown_by_source_and_ignore_list() {
    let all = sample();
    let mut s = AppSettings::default();
    assert_eq!(names(&filter_updates_by_source(all.clone(), &s)).len(), 6);
    s.show_only_updates_from = "repo-only".to_string();
    assert_eq!(
        names(&filter_updates_by_source(all.clone(), &s)),
        vec!["zsh", "Bash", "fish", "alacritty"]
    );
    s.show_only_updates_from = "aur-only".to_string();
    assert_eq!(names(&filter_updates_by_source(all.clone(), &s)), vec!["bash", "Zed"]);
    s.ignored_updates = vec![" BASH ".to_string(), "".to_string(), "zed".to_string()];
    assert!(filter_updates_by_source(all.clone(), &s).is_empty());
    s.show_only_updates_from = "all".to_string();
    assert_eq!(
        names(&filter_updates_by_source(all, &s)),
        vec!["zsh", "fish", "alacritty"]
    );
}

#[test]
fn fallback_search_needs_three_bytes() {
    assert_eq!(smart_search_fallback("", 10), None);
    assert_eq!(smart_search_fallback("ab", 10), None);
    assert_eq!(smart_search_fallback("\u{e9}", 10), None);
    assert_eq!(smart_search_fallback("abc", 10), Some(("abc".to_string(), 30)));
    assert_eq!(smart_search_fallback("abcdef", 166), Some(("abc".to_string(), 498)));
    assert_eq!(smart_search_fallback("abcdef", 167), Some(("abc".to_string(), 500)));
    assert_eq!(smart_search_fallback("abcdef", usize::MAX), Some(("abc".to_string(), 500)));
    assert_eq!(smart_search_fallback("\u{65e5}", 0), Some(("\u{65e5}".to_string(), 0)));
    assert_eq!(smart_search_fallback("\u{e9}a", 1), Some(("\u{e9}a".to_string(), 3)));
    assert_eq!(
        smart_search_fallback("\u{65e5}\u{672c}\u{8a9e}\u{3067}", 1),
        Some(("\u{65e5}\u{672c}\u{8a9e}".to_string(), 3))
    );
}

#[test]
fn package_size_is_read_under_its_key() {
    let out = "Name            : foo\n  Installed Size  : 12.5 MiB  \nInstalled Size : second";
    assert_eq!(
        query_package_size_text(out, "Installed Size").as_deref(),
        Some("Size: 12.5 MiB")
    );
    assert_eq!(query_package_size_text(out, "Download Size"), None);
    assert_eq!(query_package_size_text("Installed Size none\nInstalled Size : 1", "Installed Size"), None);
    assert_eq!(query_package_size_text("", "x"), None);
}
