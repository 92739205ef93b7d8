use parut::data_store;
use parut::data_store::{AppData, DataStore, SearchCount};
use parut::logger::{LogLevel, Logger};
use parut::paru::Package;
use parut::settings;
use parut::settings::{AppSettings, SettingsStore};

fn strings(items: &[&str]) -> Vec<String> {
    items.iter().map(|s| s.to_string()).collect()
}

fn filled() -> DataStore {
    let mut store = DataStore::new();
    data_store::init(&mut store, None);
    store
}

fn package(name: &str) -> Package {
    Package {
        name: name.to_string(),
        version: "1".to_string(),
        description: String::new(),
        repository: "core".to_string(),
        installed_version: None,
    }
}

#[test]
fn default_settings_have_their_documented_values() {
    let s = AppSettings::default();
    assert!(s.notifications_enabled);
    assert!(!s.compact_mode);
    assert_eq!(s.theme, "default");
    assert_eq!(s.auto_refresh_interval, "off");
    assert_eq!(s.search_result_limit, 100);
    assert_eq!(s.terminal_preference, "auto");
    assert_eq!(s.show_only_updates_from, "all");
    assert_eq!(s.log_level, "info");
    assert_eq!(s.max_log_size_mb, 10);
    assert_eq!(s.arch_news_items, 5);
    assert!(s.ignored_updates.is_empty());
    assert_eq!(s.cache_ttl_minutes, 60);
    assert_eq!(s.max_parallel_tasks, 1);
    assert_eq!(s.task_output_lines_limit, 300);
    assert_eq!(s.default_update_scope, "all");
    assert_eq!(s.startup_tab, "dashboard");
    assert_eq!(s.auto_clear_completed_tasks_minutes, 0);
    assert!(!s.notify_on_task_complete);
    assert!(s.notify_on_task_failed);
    assert_eq!(s.parallel_cap(), 1);
    assert_eq!(s.output_cap(), 300);
}

#[test]
fn settings_clone_keeps_every_field() {
    let mut s = AppSettings::default();
    s.theme = "dark".to_string();
    s.ignored_updates = strings(&["a", "b"]);
    s.max_parallel_tasks = 4;
    let c = s.clone();
    assert_eq!(c.theme, "dark");
    assert_eq!(c.ignored_updates, strings(&["a", "b"]));
    assert_eq!(c.max_parallel_tasks, 4);
    assert_eq!(c.parallel_cap(), 4);
}

#[test]
fn settings_slot_is_filled_once() {
    let mut store = SettingsStore::new();
    assert!(!store.is_set());
    assert_eq!(settings::get(&store).theme, "default");
    settings::update(&mut store, |mut s| {
        s.theme = "dark".to_string();
        s
    });
    assert!(!store.is_set());
    assert_eq!(settings::update_and_get(&mut store, |s| (s, 1)), None);
    let mut loaded = AppSettings::default();
    loaded.theme = "light".to_string();
    settings::init(&mut store, Some(loaded));
    assert!(store.is_set());
    assert_eq!(settings::get(&store).theme, "light");
    settings::init(&mut store, None);
    assert_eq!(settings::get(&store).theme, "light");
}

#[test]
fn settings_updates_replace_what_is_held() {
    let mut store = SettingsStore::new();
    settings::init(&mut store, None);
    assert_eq!(settings::get(&store).theme, "default");
    settings::update(&mut store, |mut s| {
        s.max_parallel_tasks = 3;
        s
    });
    assert_eq!(settings::get(&store).max_parallel_tasks, 3);
    let old = settings::update_and_get(&mut store, |mut s| {
        let old = s.max_parallel_tasks;
        s.max_parallel_tasks = 5;
        (s, old)
    });
    assert_eq!(old, Some(3));
    assert_eq!(settings::get(&store).max_parallel_tasks, 5);
}

#[test]
fn empty_data_slot_answers_with_nothing() {
    let mut store = DataStore::new();
    assert!(!data_store::toggle_favorite(&mut store, "foo"));
    assert!(!data_store::is_favorite(&store, "foo"));
    assert!(data_store::favorites(&store).is_empty());
    data_store::record_search(&mut store, "ripgrep");
    assert!(data_store::recent_searches(&store, 5).is_empty());
    assert!(data_store::trending_searches(&store, 5).is_empty());
    data_store::set_cached_installed(&mut store, &vec![package("a")]);
    data_store::set_cached_updates(&mut store, &vec![package("a")]);
    assert!(data_store::cached_installed(&store).is_empty());
    assert!(data_store::cached_updates(&store).is_empty());
    assert_eq!(data_store::cached_installed_at(&store), None);
    assert_eq!(data_store::cached_updates_at(&store), None);
    assert!(store.snapshot().is_none());
}

#[test]
fn data_slot_is_filled_once() {
    let mut store = DataStore::new();
    let mut data = AppData::default();
    data.favorites = strings(&["zsh"]);
    data_store::init(&mut store, Some(data));
    assert_eq!(data_store::favorites(&store), strings(&["zsh"]));
    data_store::init(&mut store, None);
    assert_eq!(data_store::favorites(&store), strings(&["zsh"]));
}

#[test]
fn favourites_toggle_and_stay_sorted() {
    let mut store = filled();
    assert!(data_store::toggle_favorite(&mut store, "zsh"));
    assert!(data_store::toggle_favorite(&mut store, "bash"));
    assert!(data_store::toggle_favorite(&mut store, "fish"));
    assert!(data_store::toggle_favorite(&mut store, "Zed"));
    assert_eq!(data_store::favorites(&store), strings(&["Zed", "bash", "fish", "zsh"]));
    assert!(data_store::is_favorite(&store, "fish"));
    assert!(!data_store::toggle_favorite(&mut store, "fish"));
    assert!(!data_store::is_favorite(&store, "fish"));
    assert_eq!(data_store::favorites(&store), strings(&["Zed", "bash", "zsh"]));
}

#[test]
fn adding_a_favourite_sorts_and_dedups_what_was_loaded() {
    let mut store = DataStore::new();
    let mut data = AppData::default();
    data.favorites = strings(&["zsh", "bash", "zsh", "ab", "a"]);
    data_store::init(&mut store, Some(data));
    assert!(!data_store::toggle_favorite(&mut store, "zsh"));
    assert_eq!(data_store::favorites(&store), strings(&["bash", "ab", "a"]));
    assert!(data_store::toggle_favorite(&mut store, "b"));
    assert_eq!(data_store::favorites(&store), strings(&["a", "ab", "b", "bash"]));
}

#[test]
fn searches_are_remembered_trimmed_and_in_lower_case() {
    let mut store = filled();
    data_store::record_search(&mut store, "  RipGrep ");
    data_store::record_search(&mut store, "fd");
    data_store::record_search(&mut store, "ripgrep");
    data_store::record_search(&mut store, "x");
    data_store::record_search(&mut store, "   ");
    data_store::record_search(&mut store, "\u{e9}");
    assert_eq!(
        data_store::recent_searches(&store, 10),
        strings(&["\u{e9}", "ripgrep", "fd"])
    );
    assert_eq!(data_store::recent_searches(&store, 2), strings(&["\u{e9}", "ripgrep"]));
    assert!(data_store::recent_searches(&store, 0).is_empty());
    assert_eq!(
        data_store::trending_searches(&store, 10),
        strings(&["ripgrep", "fd", "\u{e9}"])
    );
    assert_eq!(data_store::trending_searches(&store, 1), strings(&["ripgrep"]));
    assert!(data_store::trending_searches(&store, 0).is_empty());
}

#[test]
fn only_twelve_recent_searches_are_kept() {
    let mut store = filled();
    for i in 0..15 {
        data_store::record_search(&mut store, &format!("query{:02}", i));
    }
    let recent = data_store::recent_searches(&store, 100);
    assert_eq!(recent.len(), 12);
    assert_eq!(recent[0], "query14");
    assert_eq!(recent[11], "query03");
    assert_eq!(data_store::trending_searches(&store, 100).len(), 15);
    assert_eq!(data_store::trending_searches(&store, 3), strings(&["query00", "query01", "query02"]));
}

#[test]
fn trending_orders_by_count_then_by_name() {
    let mut store = DataStore::new();
    let mut data = AppData::default();
    for (q, c) in [("bb", 2u64), ("a", 2), ("zz", 9), ("b", 2), ("m", u64::MAX)] {
        data.search_counts.push(SearchCount { query: q.to_string(), count: c });
    }
    data_store::init(&mut store, Some(data));
    assert_eq!(
        data_store::trending_searches(&store, 10),
        strings(&["m", "zz", "a", "b", "bb"])
    );
    data_store::record_search(&mut store, "m");
    data_store::record_search(&mut store, "bb");
    assert_eq!(
        data_store::trending_searches(&store, 3),
        strings(&["m", "zz", "bb"])
    );
    let held = store.snapshot().unwrap();
    assert_eq!(held.search_counts[4].count, u64::MAX);
    assert_eq!(held.search_counts[0].count, 3);
}

#[test]
fn cached_lists_are_kept_with_their_time() {
    let mut store = filled();
    data_store::set_cached_installed_at(&mut store, &vec![package("a"), package("b")], 77);
    data_store::set_cached_updates_at(&mut store, &vec![package("c")], 88);
    assert_eq!(data_store::cached_installed(&store).len(), 2);
    assert_eq!(data_store::cached_installed(&store)[1].name, "b");
    assert_eq!(data_store::cached_updates(&store)[0].name, "c");
    assert_eq!(data_store::cached_installed_at(&store), Some(77));
    assert_eq!(data_store::cached_updates_at(&store), Some(88));
    data_store::set_cached_installed(&mut store, &Vec::new());
    data_store::set_cached_updates(&mut store, &Vec::new());
    assert!(data_store::cached_installed(&store).is_empty());
    assert!(data_store::cached_installed_at(&store).unwrap() > 1_000_000_000);
    assert!(data_store::cached_updates_at(&store).unwrap() > 1_000_000_000);
}

#[test]
fn log_levels_have_names_and_ranks() {
    assert_eq!(LogLevel::Info.as_str(), "INFO");
    assert_eq!(LogLevel::Warning.as_str(), "WARN");
    assert_eq!(LogLevel::Error.as_str(), "ERROR");
    assert_eq!(LogLevel::Debug.as_str(), "DEBUG");
    assert_eq!(LogLevel::Error.rank(), 0);
    assert_eq!(LogLevel::Warning.rank(), 1);
    assert_eq!(LogLevel::Info.rank(), 2);
    assert_eq!(LogLevel::Debug.rank(), 3);
}

#[test]
fn configured_level_decides_what_is_logged() {
    let mut s = AppSettings::default();
    let expected = [
        ("error", [true, false, false, false]),
        ("warn", [true, true, false, false]),
        ("info", [true, true, true, false]),
        ("debug", [true, true, true, true]),
        ("verbose", [true, true, true, false]),
    ];
    for (level, logged) in expected {
        s.log_level = level.to_string();
        let got = [
            Logger::should_log(LogLevel::Error, &s),
            Logger::should_log(LogLevel::Warning, &s),
            Logger::should_log(LogLevel::Info, &s),
            Logger::should_log(LogLevel::Debug, &s),
        ];
        assert_eq!(got, logged);
    }
}

#[test]
fn log_path_lies_under_the_data_directory() {
    assert_eq!(
        Logger::in_data_dir(Some("/home/u/.local/share".to_string())).get_log_path(),
        "/home/u/.local/share/parut/parut.log"
    );
    assert_eq!(
        Logger::in_data_dir(Some("/data/".to_string())).get_log_path(),
        "/data/parut/parut.log"
    );
    assert_eq!(Logger::in_data_dir(None).get_log_path(), "/tmp/parut/parut.log");
    assert!(Logger::new().get_log_path().ends_with("parut/parut.log"));
}

#[test]
fn log_entry_has_time_level_and_message() {
    let s = AppSettings::default();
    let logger = Logger::in_data_dir(None);
    let r = logger
        .log_at(LogLevel::Warning, "careful", &s, "2024-01-02 03:04:05", Some(10))
        .unwrap();
    assert_eq!(r.entry, "[2024-01-02 03:04:05] WARN: careful\n");
    assert!(r.echo);
    assert_eq!(r.rotate_to, None);
    let r = logger.log_at(LogLevel::Info, "fine", &s, "t", None).unwrap();
    assert_eq!(r.entry, "[t] INFO: fine\n");
    assert!(!r.echo);
    assert!(logger.log_at(LogLevel::Debug, "x", &s, "t", None).is_none());
}

#[test]
fn log_file_is_rotated_above_the_allowed_size() {
    let mut s = AppSettings::default();
    let logger = Logger::in_data_dir(None);
    let limit = 10 * 1024 * 1024;
    assert_eq!(logger.rotate_if_needed(&s, Some(limit)), None);
    assert_eq!(
        logger.rotate_if_needed(&s, Some(limit + 1)).as_deref(),
        Some("/tmp/parut/parut.log.1")
    );
    assert_eq!(logger.rotate_if_needed(&s, None), None);
    s.max_log_size_mb = 0;
    assert_eq!(logger.rotate_if_needed(&s, Some(1024 * 1024)), None);
    assert!(logger.rotate_if_needed(&s, Some(1024 * 1024 + 1)).is_some());
    s.max_log_size_mb = u64::MAX;
    assert_eq!(logger.rotate_if_needed(&s, Some(u64::MAX)), None);
    let r = logger.log_at(LogLevel::Error, "m", &AppSettings::default(), "t", Some(limit + 1));
    assert_eq!(r.unwrap().rotate_to.as_deref(), Some("/tmp/parut/parut.log.1"));
}

#[test]
fn logging_by_the_clock_stamps_the_entry() {
    let s = AppSettings::default();
    let logger = Logger::in_data_dir(None);
    let r = logger.info("hello", &s, None).unwrap();
    assert!(r.entry.starts_with("[2") || r.entry.starts_with("[1"));
    assert_eq!(r.entry.len(), "[2024-01-02 03:04:05] INFO: hello\n".len());
    assert!(r.entry.ends_with("] INFO: hello\n"));
    assert!(logger.warning("w", &s, None).unwrap().entry.ends_with("] WARN: w\n"));
    assert!(logger.error("e", &s, None).unwrap().entry.ends_with("] ERROR: e\n"));
    assert!(logger.debug("d", &s, None).is_none());
    assert!(logger.log(LogLevel::Error, "e", &s, None).unwrap().echo);
}
