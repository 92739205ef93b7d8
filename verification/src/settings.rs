//! The application's settings and the slot that holds them once they are
//! initialised.

use crate::text::{clone_strings, strs};
use vstd::prelude::*;

verus! {

/// What the user has configured.
#[derive(Debug)]
pub struct AppSettings {
    pub notifications_enabled: bool,
    pub compact_mode: bool,
    pub theme: String,
    pub confirm_actions: bool,
    pub check_updates_on_startup: bool,
    pub auto_refresh_interval: String,
    pub search_result_limit: usize,
    pub aur_pkgbuild_required: bool,
    pub confirm_remove: bool,
    pub confirm_update_all: bool,
    pub confirm_clean_cache: bool,
    pub terminal_preference: String,
    pub show_only_updates_from: String,
    pub default_sort_installed: u32,
    pub default_sort_search: u32,
    pub show_package_details_on_single_click: bool,
    pub notify_on_task_complete: bool,
    pub notify_on_task_failed: bool,
    pub log_level: String,
    pub max_log_size_mb: u64,
    pub show_arch_news: bool,
    pub arch_news_items: usize,
    pub show_arch_news_dates: bool,
    pub confirm_remove_orphans: bool,
    pub ignored_updates: Vec<String>,
    pub refresh_on_network_reconnect: bool,
    pub cache_ttl_minutes: u64,
    pub max_parallel_tasks: usize,
    pub task_output_lines_limit: usize,
    pub confirm_batch_install: bool,
    pub confirm_batch_remove: bool,
    pub default_update_scope: String,
    pub always_show_pkgbuild_for_aur: bool,
    pub open_links_in_external_browser: bool,
    pub startup_tab: String,
    pub show_package_sizes_in_lists: bool,
    pub auto_clear_completed_tasks_minutes: u64,
}

/// The settings as mathematical values.
pub struct AppSettingsView {
    pub notifications_enabled: bool,
    pub compact_mode: bool,
    pub theme: Seq<char>,
    pub confirm_actions: bool,
    pub check_updates_on_startup: bool,
    pub auto_refresh_interval: Seq<char>,
    pub search_result_limit: usize,
    pub aur_pkgbuild_required: bool,
    pub confirm_remove: bool,
    pub confirm_update_all: bool,
    pub confirm_clean_cache: bool,
    pub terminal_preference: Seq<char>,
    pub show_only_updates_from: Seq<char>,
    pub default_sort_installed: u32,
    pub default_sort_search: u32,
    pub show_package_details_on_single_click: bool,
    pub notify_on_task_complete: bool,
    pub notify_on_task_failed: bool,
    pub log_level: Seq<char>,
    pub max_log_size_mb: u64,
    pub show_arch_news: bool,
    pub arch_news_items: usize,
    pub show_arch_news_dates: bool,
    pub confirm_remove_orphans: bool,
    pub ignored_updates: Seq<Seq<char>>,
    pub refresh_on_network_reconnect: bool,
    pub cache_ttl_minutes: u64,
    pub max_parallel_tasks: usize,
    pub task_output_lines_limit: usize,
    pub confirm_batch_install: bool,
    pub confirm_batch_remove: bool,
    pub default_update_scope: Seq<char>,
    pub always_show_pkgbuild_for_aur: bool,
    pub open_links_in_external_browser: bool,
    pub startup_tab: Seq<char>,
    pub show_package_sizes_in_lists: bool,
    pub auto_clear_completed_tasks_minutes: u64,
}

impl View for AppSettings {
    type V = AppSettingsView;

    open spec fn view(&self) -> AppSettingsView {
        AppSettingsView {
            notifications_enabled: self.notifications_enabled,
            compact_mode: self.compact_mode,
            theme: self.theme@,
            confirm_actions: self.confirm_actions,
            check_updates_on_startup: self.check_updates_on_startup,
            auto_refresh_interval: self.auto_refresh_interval@,
            search_result_limit: self.search_result_limit,
            aur_pkgbuild_required: self.aur_pkgbuild_required,
            confirm_remove: self.confirm_remove,
            confirm_update_all: self.confirm_update_all,
            confirm_clean_cache: self.confirm_clean_cache,
            terminal_preference: self.terminal_preference@,
            show_only_updates_from: self.show_only_updates_from@,
            default_sort_installed: self.default_sort_installed,
            default_sort_search: self.default_sort_search,
            show_package_details_on_single_click: self.show_package_details_on_single_click,
            notify_on_task_complete: self.notify_on_task_complete,
            notify_on_task_failed: self.notify_on_task_failed,
            log_level: self.log_level@,
            max_log_size_mb: self.max_log_size_mb,
            show_arch_news: self.show_arch_news,
            arch_news_items: self.arch_news_items,
            show_arch_news_dates: self.show_arch_news_dates,
            confirm_remove_orphans: self.confirm_remove_orphans,
            ignored_updates: strs(self.ignored_updates@),
            refresh_on_network_reconnect: self.refresh_on_network_reconnect,
            cache_ttl_minutes: self.cache_ttl_minutes,
            max_parallel_tasks: self.max_parallel_tasks,
            task_output_lines_limit: self.task_output_lines_limit,
            confirm_batch_install: self.confirm_batch_install,
            confirm_batch_remove: self.confirm_batch_remove,
            default_update_scope: self.default_update_scope@,
            always_show_pkgbuild_for_aur: self.always_show_pkgbuild_for_aur,
            open_links_in_external_browser: self.open_links_in_external_browser,
            startup_tab: self.startup_tab@,
            show_package_sizes_in_lists: self.show_package_sizes_in_lists,
            auto_clear_completed_tasks_minutes: self.auto_clear_completed_tasks_minutes,
        }
    }
}

/// The settings of a fresh installation.
pub open spec fn default_settings() -> AppSettingsView {
    AppSettingsView {
        notifications_enabled: true,
        compact_mode: false,
        theme: "default"@,
        confirm_actions: true,
        check_updates_on_startup: true,
        auto_refresh_interval: "off"@,
        search_result_limit: 100,
        aur_pkgbuild_required: true,
        confirm_remove: true,
        confirm_update_all: true,
        confirm_clean_cache: true,
        terminal_preference: "auto"@,
        show_only_updates_from: "all"@,
        default_sort_installed: 0,
        default_sort_search: 0,
        show_package_details_on_single_click: false,
        notify_on_task_complete: false,
        notify_on_task_failed: true,
        log_level: "info"@,
        max_log_size_mb: 10,
        show_arch_news: true,
        arch_news_items: 5,
        show_arch_news_dates: true,
        confirm_remove_orphans: true,
        ignored_updates: Seq::empty(),
        refresh_on_network_reconnect: true,
        cache_ttl_minutes: 60,
        max_parallel_tasks: 1,
        task_output_lines_limit: 300,
        confirm_batch_install: true,
        confirm_batch_remove: true,
        default_update_scope: "all"@,
        always_show_pkgbuild_for_aur: false,
        open_links_in_external_browser: true,
        startup_tab: "dashboard"@,
        show_package_sizes_in_lists: false,
        auto_clear_completed_tasks_minutes: 0,
    }
}

impl Default for AppSettings {
    fn default() -> (r: Self)
        ensures
            r@ == default_settings(),
    {
        let r = AppSettings {
            notifications_enabled: true,
            compact_mode: false,
            theme: "default".to_owned(),
            confirm_actions: true,
            check_updates_on_startup: true,
            auto_refresh_interval: "off".to_owned(),
            search_result_limit: 100,
            aur_pkgbuild_required: true,
            confirm_remove: true,
            confirm_update_all: true,
            confirm_clean_cache: true,
            terminal_preference: "auto".to_owned(),
            show_only_updates_from: "all".to_owned(),
            default_sort_installed: 0,
            default_sort_search: 0,
            show_package_details_on_single_click: false,
            notify_on_task_complete: false,
            notify_on_task_failed: true,
            log_level: "info".to_owned(),
            max_log_size_mb: 10,
            show_arch_news: true,
            arch_news_items: 5,
            show_arch_news_dates: true,
            confirm_remove_orphans: true,
            ignored_updates: Vec::new(),
            refresh_on_network_reconnect: true,
            cache_ttl_minutes: 60,
            max_parallel_tasks: 1,
            task_output_lines_limit: 300,
            confirm_batch_install: true,
            confirm_batch_remove: true,
            default_update_scope: "all".to_owned(),
            always_show_pkgbuild_for_aur: false,
            open_links_in_external_browser: true,
            startup_tab: "dashboard".to_owned(),
            show_package_sizes_in_lists: false,
            auto_clear_completed_tasks_minutes: 0,
        };
        assert(strs(r.ignored_updates@) =~= Seq::empty());
        r
    }
}

impl Clone for AppSettings {
    fn clone(&self) -> (r: Self)
        ensures
            r@ == self@,
    {
        AppSettings {
            notifications_enabled: self.notifications_enabled,
            compact_mode: self.compact_mode,
            theme: self.theme.clone(),
            confirm_actions: self.confirm_actions,
            check_updates_on_startup: self.check_updates_on_startup,
            auto_refresh_interval: self.auto_refresh_interval.clone(),
            search_result_limit: self.search_result_limit,
            aur_pkgbuild_required: self.aur_pkgbuild_required,
            confirm_remove: self.confirm_remove,
            confirm_update_all: self.confirm_update_all,
            confirm_clean_cache: self.confirm_clean_cache,
            terminal_preference: self.terminal_preference.clone(),
            show_only_updates_from: self.show_only_updates_from.clone(),
            default_sort_installed: self.default_sort_installed,
            default_sort_search: self.default_sort_search,
            show_package_details_on_single_click: self.show_package_details_on_single_click,
            notify_on_task_complete: self.notify_on_task_complete,
            notify_on_task_failed: self.notify_on_task_failed,
            log_level: self.log_level.clone(),
            max_log_size_mb: self.max_log_size_mb,
            show_arch_news: self.show_arch_news,
            arch_news_items: self.arch_news_items,
            show_arch_news_dates: self.show_arch_news_dates,
            confirm_remove_orphans: self.confirm_remove_orphans,
            ignored_updates: clone_strings(&self.ignored_updates),
            refresh_on_network_reconnect: self.refresh_on_network_reconnect,
            cache_ttl_minutes: self.cache_ttl_minutes,
            max_parallel_tasks: self.max_parallel_tasks,
            task_output_lines_limit: self.task_output_lines_limit,
            confirm_batch_install: self.confirm_batch_install,
            confirm_batch_remove: self.confirm_batch_remove,
            default_update_scope: self.default_update_scope.clone(),
            always_show_pkgbuild_for_aur: self.always_show_pkgbuild_for_aur,
            open_links_in_external_browser: self.open_links_in_external_browser,
            startup_tab: self.startup_tab.clone(),
            show_package_sizes_in_lists: self.show_package_sizes_in_lists,
            auto_clear_completed_tasks_minutes: self.auto_clear_completed_tasks_minutes,
        }
    }
}

impl AppSettings {
    /// The most tasks that may run at once: the configured number, at least 1.
    pub open spec fn spec_parallel_cap(&self) -> usize {
        if self.max_parallel_tasks < 1 {
            1
        } else {
            self.max_parallel_tasks
        }
    }

    /// The most lines a task's output keeps: the configured number, at least 50.
    pub open spec fn spec_output_cap(&self) -> usize {
        if self.task_output_lines_limit < 50 {
            50
        } else {
            self.task_output_lines_limit
        }
    }

    /// The most tasks that may run at once: the configured number, at least 1.
    #[verifier::when_used_as_spec(spec_parallel_cap)]
    pub fn parallel_cap(&self) -> (cap: usize)
        ensures
            cap == self.spec_parallel_cap(),
            cap >= 1,
    {
        if self.max_parallel_tasks < 1 {
            1
        } else {
            self.max_parallel_tasks
        }
    }

    /// The most lines a task's output keeps: the configured number, at least 50.
    #[verifier::when_used_as_spec(spec_output_cap)]
    pub fn output_cap(&self) -> (cap: usize)
        ensures
            cap == self.spec_output_cap(),
            cap >= 50,
    {
        if self.task_output_lines_limit < 50 {
            50
        } else {
            self.task_output_lines_limit
        }
    }
}

/// The slot that holds the settings: empty until `init` fills it, and filled
/// once.
pub struct SettingsStore {
    slot: Option<AppSettings>,
}

impl SettingsStore {
    /// The settings held, if any.
    pub closed spec fn current(&self) -> Option<AppSettings> {
        self.slot
    }

    /// An empty slot.
    pub fn new() -> (store: Self)
        ensures
            store.current() is None,
    {
        SettingsStore { slot: None }
    }

    /// Whether the slot has been filled.
    pub fn is_set(&self) -> (r: bool)
        ensures
            r == self.current() is Some,
    {
        self.slot.is_some()
    }
}

/// The view of optional settings.
pub open spec fn opt_settings(o: Option<AppSettings>) -> Option<AppSettingsView> {
    match o {
        Some(s) => Some(s@),
        None => None,
    }
}

/// Fills an empty slot with the settings that were loaded, or with the
/// defaults where none were. A slot that is filled stays as it is.
pub fn init(store: &mut SettingsStore, loaded: Option<AppSettings>)
    ensures
        old(store).current() is Some ==> final(store).current() == old(store).current(),
        old(store).current() is None ==> opt_settings(final(store).current()) == Some(
            match loaded {
                Some(s) => s@,
                None => default_settings(),
            },
        ),
{
    if store.slot.is_none() {
        let settings = match loaded {
            Some(s) => s,
            None => AppSettings::default(),
        };
        store.slot = Some(settings);
    }
}

/// A copy of the settings held, or the defaults while the slot is empty.
pub fn get(store: &SettingsStore) -> (settings: AppSettings)
    ensures
        settings@ == match store.current() {
            Some(s) => s@,
            None => default_settings(),
        },
{
    match &store.slot {
        Some(s) => s.clone(),
        None => AppSettings::default(),
    }
}

/// Replaces the settings held by what `f` makes of them. An empty slot stays
/// empty and `f` is not called.
pub fn update<F: FnOnce(AppSettings) -> AppSettings>(store: &mut SettingsStore, f: F)
    requires
        old(store).current() is Some ==> f.requires((old(store).current()->0,)),
    ensures
        old(store).current() is None ==> final(store).current() is None,
        old(store).current() is Some ==> final(store).current() is Some && f.ensures(
            (old(store).current()->0,),
            final(store).current()->0,
        ),
{
    let held = store.slot.take();
    match held {
        Some(s) => {
            store.slot = Some(f(s));
        },
        None => {},
    }
}

/// Replaces the settings held by what `f` makes of them and returns what `f`
/// returns beside them. An empty slot stays empty, `f` is not called and
/// nothing is returned.
pub fn update_and_get<T, F: FnOnce(AppSettings) -> (AppSettings, T)>(
    store: &mut SettingsStore,
    f: F,
) -> (out: Option<T>)
    requires
        old(store).current() is Some ==> f.requires((old(store).current()->0,)),
    ensures
        old(store).current() is None ==> final(store).current() is None && out is None,
        old(store).current() is Some ==> final(store).current() is Some && out is Some
            && f.ensures((old(store).current()->0,), (final(store).current()->0, out->0)),
{
    let held = store.slot.take();
    match held {
        Some(s) => {
            let (next, out) = f(s);
            store.slot = Some(next);
            Some(out)
        },
        None => None,
    }
}

} // verus!
