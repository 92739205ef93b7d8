//! The package manager's side: the commands that tasks run, and the parsers
//! of what the package manager prints.

use crate::progress::{opt_str, parse_decimal};
use crate::settings::AppSettings;
use crate::terminal::{candidates_for, terminal_candidates, RunView, TerminalRun};
use crate::text::{
    chars_of, find_char, find_char_from, find_sub, find_sub_from, index_of_char, index_of_sub, join,
    joined, lemma_find_char_from, lemma_find_sub_from, lines, occurs_at, replace, replaced, same_text,
    seqs, slice_of, split_lines, split_once, split_words, string_of, strs, trim,
    trimmed, words, contains_sub, has_sub, lemma_contains_sub, all_digits, decimal_value,
    matches_at, starts_with, holds, after_each, enclosed, enclosed_in, pieces_after,
};
use vstd::prelude::*;

verus! {

/// A package, as a search or a listing reports it.
#[derive(Debug)]
pub struct Package {
    pub name: String,
    pub version: String,
    pub description: String,
    pub repository: String,
    pub installed_version: Option<String>,
}

/// A package as mathematical values.
pub struct PackageView {
    pub name: Seq<char>,
    pub version: Seq<char>,
    pub description: Seq<char>,
    pub repository: Seq<char>,
    pub installed_version: Option<Seq<char>>,
}

impl View for Package {
    type V = PackageView;

    open spec fn view(&self) -> PackageView {
        PackageView {
            name: self.name@,
            version: self.version@,
            description: self.description@,
            repository: self.repository@,
            installed_version: opt_str(self.installed_version),
        }
    }
}

impl Clone for Package {
    fn clone(&self) -> (r: Self)
        ensures
            r@ == self@,
    {
        Package {
            name: self.name.clone(),
            version: self.version.clone(),
            description: self.description.clone(),
            repository: self.repository.clone(),
            installed_version: match &self.installed_version {
                Some(v) => Some(v.clone()),
                None => None,
            },
        }
    }
}

/// The views of a sequence of packages.
pub open spec fn package_views(v: Seq<Package>) -> Seq<PackageView> {
    v.map_values(|p: Package| p@)
}

/// What a cleanup would free.
#[derive(Debug, Clone, Copy, PartialEq, Eq, Structural)]
pub struct CleanupEstimate {
    pub pacman_cache_bytes: u64,
    pub paru_clone_bytes: u64,
    pub orphan_count: usize,
}

/// What the package manager reports of one package.
#[derive(Debug)]
pub struct PackageDetails {
    pub name: String,
    pub version: String,
    pub description: String,
    pub repository: String,
    pub url: String,
    pub licenses: String,
    pub groups: String,
    pub provides: String,
    pub depends_on: String,
    pub optional_deps: String,
    pub required_by: String,
    pub optional_for: String,
    pub conflicts_with: String,
    pub replaces: String,
    pub installed_size: String,
    pub packager: String,
    pub build_date: String,
    pub install_date: String,
    pub install_reason: String,
    pub install_script: String,
    pub validated_by: String,
    pub votes: String,
    pub popularity: String,
}

/// Package details as mathematical values.
pub struct PackageDetailsView {
    pub name: Seq<char>,
    pub version: Seq<char>,
    pub description: Seq<char>,
    pub repository: Seq<char>,
    pub url: Seq<char>,
    pub licenses: Seq<char>,
    pub groups: Seq<char>,
    pub provides: Seq<char>,
    pub depends_on: Seq<char>,
    pub optional_deps: Seq<char>,
    pub required_by: Seq<char>,
    pub optional_for: Seq<char>,
    pub conflicts_with: Seq<char>,
    pub replaces: Seq<char>,
    pub installed_size: Seq<char>,
    pub packager: Seq<char>,
    pub build_date: Seq<char>,
    pub install_date: Seq<char>,
    pub install_reason: Seq<char>,
    pub install_script: Seq<char>,
    pub validated_by: Seq<char>,
    pub votes: Seq<char>,
    pub popularity: Seq<char>,
}

impl View for PackageDetails {
    type V = PackageDetailsView;

    open spec fn view(&self) -> PackageDetailsView {
        PackageDetailsView {
            name: self.name@,
            version: self.version@,
            description: self.description@,
            repository: self.repository@,
            url: self.url@,
            licenses: self.licenses@,
            groups: self.groups@,
            provides: self.provides@,
            depends_on: self.depends_on@,
            optional_deps: self.optional_deps@,
            required_by: self.required_by@,
            optional_for: self.optional_for@,
            conflicts_with: self.conflicts_with@,
            replaces: self.replaces@,
            installed_size: self.installed_size@,
            packager: self.packager@,
            build_date: self.build_date@,
            install_date: self.install_date@,
            install_reason: self.install_reason@,
            install_script: self.install_script@,
            validated_by: self.validated_by@,
            votes: self.votes@,
            popularity: self.popularity@,
        }
    }
}

impl Clone for PackageDetails {
    fn clone(&self) -> (r: Self)
        ensures
            r@ == self@,
    {
        PackageDetails {
            name: self.name.clone(),
            version: self.version.clone(),
            description: self.description.clone(),
            repository: self.repository.clone(),
            url: self.url.clone(),
            licenses: self.licenses.clone(),
            groups: self.groups.clone(),
            provides: self.provides.clone(),
            depends_on: self.depends_on.clone(),
            optional_deps: self.optional_deps.clone(),
            required_by: self.required_by.clone(),
            optional_for: self.optional_for.clone(),
            conflicts_with: self.conflicts_with.clone(),
            replaces: self.replaces.clone(),
            installed_size: self.installed_size.clone(),
            packager: self.packager.clone(),
            build_date: self.build_date.clone(),
            install_date: self.install_date.clone(),
            install_reason: self.install_reason.clone(),
            install_script: self.install_script.clone(),
            validated_by: self.validated_by.clone(),
            votes: self.votes.clone(),
            popularity: self.popularity.clone(),
        }
    }
}

/// One item of the news feed.
#[derive(Debug)]
pub struct NewsItem {
    pub title: String,
    pub link: String,
    pub published: String,
}

/// A news item as mathematical values.
pub struct NewsItemView {
    pub title: Seq<char>,
    pub link: Seq<char>,
    pub published: Seq<char>,
}

impl View for NewsItem {
    type V = NewsItemView;

    open spec fn view(&self) -> NewsItemView {
        NewsItemView {
            title: self.title@,
            link: self.link@,
            published: self.published@,
        }
    }
}

impl Clone for NewsItem {
    fn clone(&self) -> (r: Self)
        ensures
            r@ == self@,
    {
        NewsItem {
            title: self.title.clone(),
            link: self.link.clone(),
            published: self.published.clone(),
        }
    }
}

/// One comment on a package's page.
#[derive(Debug)]
pub struct AurComment {
    pub author: String,
    pub date: String,
    pub content: String,
}

/// A comment as mathematical values.
pub struct AurCommentView {
    pub author: Seq<char>,
    pub date: Seq<char>,
    pub content: Seq<char>,
}

impl View for AurComment {
    type V = AurCommentView;

    open spec fn view(&self) -> AurCommentView {
        AurCommentView {
            author: self.author@,
            date: self.date@,
            content: self.content@,
        }
    }
}

impl Clone for AurComment {
    fn clone(&self) -> (r: Self)
        ensures
            r@ == self@,
    {
        AurComment {
            author: self.author.clone(),
            date: self.date.clone(),
            content: self.content.clone(),
        }
    }
}

/// Details that hold the name alone.
pub open spec fn blank_details(name: Seq<char>) -> PackageDetailsView {
    PackageDetailsView {
        name,
        version: Seq::empty(),
        description: Seq::empty(),
        repository: Seq::empty(),
        url: Seq::empty(),
        licenses: Seq::empty(),
        groups: Seq::empty(),
        provides: Seq::empty(),
        depends_on: Seq::empty(),
        optional_deps: Seq::empty(),
        required_by: Seq::empty(),
        optional_for: Seq::empty(),
        conflicts_with: Seq::empty(),
        replaces: Seq::empty(),
        installed_size: Seq::empty(),
        packager: Seq::empty(),
        build_date: Seq::empty(),
        install_date: Seq::empty(),
        install_reason: Seq::empty(),
        install_script: Seq::empty(),
        validated_by: Seq::empty(),
        votes: Seq::empty(),
        popularity: Seq::empty(),
    }
}

/// The details with the field that `key` names set to `value`; a key that
/// names no field changes nothing.
pub open spec fn set_detail(d: PackageDetailsView, key: Seq<char>, value: Seq<char>) -> PackageDetailsView {
    if key == "Name"@ {
        PackageDetailsView { name: value, ..d }
    } else if key == "Version"@ {
        PackageDetailsView { version: value, ..d }
    } else if key == "Description"@ {
        PackageDetailsView { description: value, ..d }
    } else if key == "Repository"@ {
        PackageDetailsView { repository: value, ..d }
    } else if key == "URL"@ {
        PackageDetailsView { url: value, ..d }
    } else if key == "Licenses"@ {
        PackageDetailsView { licenses: value, ..d }
    } else if key == "Groups"@ {
        PackageDetailsView { groups: value, ..d }
    } else if key == "Provides"@ {
        PackageDetailsView { provides: value, ..d }
    } else if key == "Depends On"@ {
        PackageDetailsView { depends_on: value, ..d }
    } else if key == "Optional Deps"@ {
        PackageDetailsView { optional_deps: value, ..d }
    } else if key == "Required By"@ {
        PackageDetailsView { required_by: value, ..d }
    } else if key == "Optional For"@ {
        PackageDetailsView { optional_for: value, ..d }
    } else if key == "Conflicts With"@ {
        PackageDetailsView { conflicts_with: value, ..d }
    } else if key == "Replaces"@ {
        PackageDetailsView { replaces: value, ..d }
    } else if key == "Installed Size"@ {
        PackageDetailsView { installed_size: value, ..d }
    } else if key == "Packager"@ {
        PackageDetailsView { packager: value, ..d }
    } else if key == "Build Date"@ {
        PackageDetailsView { build_date: value, ..d }
    } else if key == "Install Date"@ {
        PackageDetailsView { install_date: value, ..d }
    } else if key == "Install Reason"@ {
        PackageDetailsView { install_reason: value, ..d }
    } else if key == "Install Script"@ {
        PackageDetailsView { install_script: value, ..d }
    } else if key == "Validated By"@ {
        PackageDetailsView { validated_by: value, ..d }
    } else if key == "Votes"@ {
        PackageDetailsView { votes: value, ..d }
    } else if key == "Popularity"@ {
        PackageDetailsView { popularity: value, ..d }
    } else {
        d
    }
}

impl PackageDetails {
    /// Details that hold the name alone.
    pub fn blank(name: String) -> (d: Self)
        ensures
            d@ == blank_details(name@),
    {
        PackageDetails {
            name,
            version: String::new(),
            description: String::new(),
            repository: String::new(),
            url: String::new(),
            licenses: String::new(),
            groups: String::new(),
            provides: String::new(),
            depends_on: String::new(),
            optional_deps: String::new(),
            required_by: String::new(),
            optional_for: String::new(),
            conflicts_with: String::new(),
            replaces: String::new(),
            installed_size: String::new(),
            packager: String::new(),
            build_date: String::new(),
            install_date: String::new(),
            install_reason: String::new(),
            install_script: String::new(),
            validated_by: String::new(),
            votes: String::new(),
            popularity: String::new(),
        }
    }

    /// Sets the field that `key` names to `value`; a key that names no field
    /// changes nothing.
    pub fn set(&mut self, key: &str, value: String)
        ensures
            final(self)@ == set_detail(old(self)@, key@, value@),
    {
        if same_text(key, "Name") {
            self.name = value;
        } else if same_text(key, "Version") {
            self.version = value;
        } else if same_text(key, "Description") {
            self.description = value;
        } else if same_text(key, "Repository") {
            self.repository = value;
        } else if same_text(key, "URL") {
            self.url = value;
        } else if same_text(key, "Licenses") {
            self.licenses = value;
        } else if same_text(key, "Groups") {
            self.groups = value;
        } else if same_text(key, "Provides") {
            self.provides = value;
        } else if same_text(key, "Depends On") {
            self.depends_on = value;
        } else if same_text(key, "Optional Deps") {
            self.optional_deps = value;
        } else if same_text(key, "Required By") {
            self.required_by = value;
        } else if same_text(key, "Optional For") {
            self.optional_for = value;
        } else if same_text(key, "Conflicts With") {
            self.conflicts_with = value;
        } else if same_text(key, "Replaces") {
            self.replaces = value;
        } else if same_text(key, "Installed Size") {
            self.installed_size = value;
        } else if same_text(key, "Packager") {
            self.packager = value;
        } else if same_text(key, "Build Date") {
            self.build_date = value;
        } else if same_text(key, "Install Date") {
            self.install_date = value;
        } else if same_text(key, "Install Reason") {
            self.install_reason = value;
        } else if same_text(key, "Install Script") {
            self.install_script = value;
        } else if same_text(key, "Validated By") {
            self.validated_by = value;
        } else if same_text(key, "Votes") {
            self.votes = value;
        } else if same_text(key, "Popularity") {
            self.popularity = value;
        }
    }
}

/// The ignore list as the package manager takes it: each entry trimmed, the
/// empty ones left out.
pub open spec fn ignore_list(entries: Seq<Seq<char>>) -> Seq<Seq<char>>
    decreases entries.len(),
{
    if entries.len() == 0 {
        Seq::empty()
    } else if trim(entries.last()).len() == 0 {
        ignore_list(entries.drop_last())
    } else {
        ignore_list(entries.drop_last()).push(trim(entries.last()))
    }
}

/// The flag that narrows a system update to one source, if the scope names
/// one.
pub open spec fn scope_flag(scope: Seq<char>) -> Seq<Seq<char>> {
    if scope == "repo-only"@ {
        seq!["--repo"@]
    } else if scope == "aur-only"@ {
        seq!["--aur"@]
    } else {
        Seq::empty()
    }
}

/// The arguments of a system update: the update itself, the scope flag, and
/// the ignore list where it is not empty.
pub open spec fn update_system_arguments(scope: Seq<char>, ignored: Seq<Seq<char>>) -> Seq<
    Seq<char>,
> {
    seq!["-Syu"@, "--noconfirm"@] + scope_flag(scope) + if ignore_list(ignored).len() == 0 {
        Seq::<Seq<char>>::empty()
    } else {
        seq!["--ignore"@, join(ignore_list(ignored), ","@)]
    }
}

/// The package manager.
pub struct ParuBackend;

impl ParuBackend {
    /// A run of the package manager with `arguments`, in the terminal that
    /// the settings prefer or the first known one that is found.
    pub fn run_paru_in_terminal(arguments: Vec<String>, settings: &AppSettings) -> (run:
        TerminalRun)
        ensures
            run@ == RunView::start(
                candidates_for(settings.terminal_preference@),
                strs(arguments@),
            ),
            run@.wf(),
    {
        TerminalRun::new(terminal_candidates(settings.terminal_preference.as_str()), arguments)
    }

    /// Two fixed arguments followed by a name.
    fn named(first: &str, second: &str, name: &str) -> (arguments: Vec<String>)
        ensures
            strs(arguments@) == seq![first@, second@, name@],
    {
        let mut arguments: Vec<String> = Vec::new();
        arguments.push(first.to_owned());
        arguments.push(second.to_owned());
        arguments.push(name.to_owned());
        assert(strs(arguments@) =~= seq![first@, second@, name@]);
        arguments
    }

    /// Two fixed arguments.
    fn plain(first: &str, second: &str) -> (arguments: Vec<String>)
        ensures
            strs(arguments@) == seq![first@, second@],
    {
        let mut arguments: Vec<String> = Vec::new();
        arguments.push(first.to_owned());
        arguments.push(second.to_owned());
        assert(strs(arguments@) =~= seq![first@, second@]);
        arguments
    }

    /// A run that installs the package `name`: `-S --noconfirm name`.
    pub fn install_package(name: &str, settings: &AppSettings) -> (run: TerminalRun)
        ensures
            run@ == RunView::start(
                candidates_for(settings.terminal_preference@),
                seq!["-S"@, "--noconfirm"@, name@],
            ),
            run@.wf(),
    {
        Self::run_paru_in_terminal(Self::named("-S", "--noconfirm", name), settings)
    }

    /// A run that removes the package `name` with its unneeded dependencies
    /// and files: `-Rns --noconfirm name`.
    pub fn remove_package(name: &str, settings: &AppSettings) -> (run: TerminalRun)
        ensures
            run@ == RunView::start(
                candidates_for(settings.terminal_preference@),
                seq!["-Rns"@, "--noconfirm"@, name@],
            ),
            run@.wf(),
    {
        Self::run_paru_in_terminal(Self::named("-Rns", "--noconfirm", name), settings)
    }

    /// The ignore list as the package manager takes it.
    pub fn ignored_names(entries: &Vec<String>) -> (names: Vec<String>)
        ensures
            strs(names@) == ignore_list(strs(entries@)),
    {
        let mut names: Vec<String> = Vec::new();
        assert(strs(names@) =~= Seq::empty());
        let mut i: usize = 0;
        while i < entries.len()
            invariant
                i <= entries.len(),
                strs(names@) == ignore_list(strs(entries@).take(i as int)),
            decreases entries.len() - i,
        {
            let entry = trimmed(&chars_of(entries[i].as_str()));
            proof {
                let done = strs(entries@).take(i + 1);
                assert(done.drop_last() =~= strs(entries@).take(i as int));
                assert(done.last() == entries@[i as int]@);
            }
            if entry.len() > 0 {
                let name = string_of(&entry);
                assert(strs(names@.push(name)) =~= strs(names@).push(name@));
                names.push(name);
            }
            i += 1;
        }
        assert(strs(entries@).take(entries.len() as int) =~= strs(entries@));
        names
    }

    /// The arguments of a system update under the settings: `-Syu
    /// --noconfirm`, then `--repo` or `--aur` where the scope is one source,
    /// then `--ignore` and the ignored names joined by commas where there are
    /// any.
    pub fn update_arguments(settings: &AppSettings) -> (arguments: Vec<String>)
        ensures
            strs(arguments@) == update_system_arguments(
                settings.default_update_scope@,
                strs(settings.ignored_updates@),
            ),
    {
        let mut arguments = Self::plain("-Syu", "--noconfirm");
        let ghost base = strs(arguments@);
        if same_text(settings.default_update_scope.as_str(), "repo-only") {
            arguments.push("--repo".to_owned());
        } else if same_text(settings.default_update_scope.as_str(), "aur-only") {
            arguments.push("--aur".to_owned());
        }
        assert(strs(arguments@) =~= base + scope_flag(settings.default_update_scope@));
        let ghost scoped = strs(arguments@);
        let ignored = Self::ignored_names(&settings.ignored_updates);
        if ignored.len() > 0 {
            arguments.push("--ignore".to_owned());
            arguments.push(joined(&ignored, ","));
            assert(strs(arguments@) =~= scoped + seq![
                "--ignore"@,
                join(ignore_list(strs(settings.ignored_updates@)), ","@),
            ]);
        } else {
            assert(strs(arguments@) =~= scoped + Seq::<Seq<char>>::empty());
        }
        arguments
    }

    /// A run that updates the whole system, within the scope and without the
    /// packages that the settings name.
    pub fn update_system(settings: &AppSettings) -> (run: TerminalRun)
        ensures
            run@ == RunView::start(
                candidates_for(settings.terminal_preference@),
                update_system_arguments(
                    settings.default_update_scope@,
                    strs(settings.ignored_updates@),
                ),
            ),
            run@.wf(),
    {
        Self::run_paru_in_terminal(Self::update_arguments(settings), settings)
    }

    /// A run that updates the package `name`: `-S --noconfirm name`.
    pub fn update_package(name: &str, settings: &AppSettings) -> (run: TerminalRun)
        ensures
            run@ == RunView::start(
                candidates_for(settings.terminal_preference@),
                seq!["-S"@, "--noconfirm"@, name@],
            ),
            run@.wf(),
    {
        Self::run_paru_in_terminal(Self::named("-S", "--noconfirm", name), settings)
    }

    /// A run that removes the packages no longer installed from the cache:
    /// `-Sc --noconfirm`.
    pub fn clean_cache(settings: &AppSettings) -> (run: TerminalRun)
        ensures
            run@ == RunView::start(
                candidates_for(settings.terminal_preference@),
                seq!["-Sc"@, "--noconfirm"@],
            ),
            run@.wf(),
    {
        Self::run_paru_in_terminal(Self::plain("-Sc", "--noconfirm"), settings)
    }

    /// A run that removes the orphaned packages: `-c --noconfirm`.
    pub fn remove_orphans(settings: &AppSettings) -> (run: TerminalRun)
        ensures
            run@ == RunView::start(
                candidates_for(settings.terminal_preference@),
                seq!["-c"@, "--noconfirm"@],
            ),
            run@.wf(),
    {
        Self::run_paru_in_terminal(Self::plain("-c", "--noconfirm"), settings)
    }
}

/// The package that one line of the list of installed packages names: its
/// first word is the name and its second the version. A line of fewer than
/// two words names none.
pub open spec fn installed_line(line: Seq<char>) -> Option<PackageView> {
    let parts = words(line);
    if parts.len() >= 2 {
        Some(
            PackageView {
                name: parts[0],
                version: parts[1],
                description: Seq::empty(),
                repository: "unknown"@,
                installed_version: Some(parts[1]),
            },
        )
    } else {
        None
    }
}

/// `installed_line` as a function value.
pub open spec fn installed_reader() -> spec_fn(Seq<char>) -> Option<PackageView> {
    |line: Seq<char>| installed_line(line)
}

/// The packages that the list of installed packages names, line by line.
pub open spec fn installed_packages(output: Seq<char>) -> Seq<PackageView> {
    lines(output).filter_map(installed_reader())
}

/// The package that one line of the list of updates names. The line reads
/// `name old -> new`, with the name possibly prefixed by its repository and
/// a slash, and possibly marked `[ignored]`. A line of fewer than four words
/// names none.
pub open spec fn update_line(line: Seq<char>, default_repo: Seq<char>) -> Option<PackageView> {
    let parts = words(trim(replace(line, "[ignored]"@, Seq::empty())));
    if parts.len() >= 4 {
        Some(
            PackageView {
                name: match split_once(parts[0], '/') {
                    Some((repo, name)) => name,
                    None => parts[0],
                },
                version: parts[3],
                description: Seq::empty(),
                repository: match split_once(parts[0], '/') {
                    Some((repo, name)) => repo,
                    None => default_repo,
                },
                installed_version: Some(parts[1]),
            },
        )
    } else {
        None
    }
}

/// `update_line` as a function value.
pub open spec fn update_reader(default_repo: Seq<char>) -> spec_fn(Seq<char>) -> Option<
    PackageView,
> {
    |line: Seq<char>| update_line(line, default_repo)
}

/// The packages that the list of updates names, line by line.
pub open spec fn update_packages(output: Seq<char>, default_repo: Seq<char>) -> Seq<PackageView> {
    lines(output).filter_map(update_reader(default_repo))
}

/// The installed version that a line of search output reports: what stands
/// between `[installed:` and the next `]`, trimmed; or the version found,
/// where the line only says `[installed]` or the bracket holds nothing.
pub open spec fn installed_marker(line: Seq<char>, version: Seq<char>) -> Option<Seq<char>> {
    if contains_sub(line, "[installed:"@) {
        let start = find_sub(line, "[installed:"@)->0 + "[installed:"@.len();
        match find_char_from(line, ']', start) {
            Some(end) => if start < end <= line.len() {
                Some(trim(line.subrange(start, end)))
            } else {
                Some(version)
            },
            None => Some(version),
        }
    } else if contains_sub(line, "[installed]"@) {
        Some(version)
    } else {
        None
    }
}

/// The package that a trimmed line of search output heads: the line reads
/// `repository/name version ...`, and the line after it, if any, is the
/// description.
pub open spec fn search_entry(line: Seq<char>, next: Option<Seq<char>>) -> Option<PackageView> {
    let parts = words(line);
    if parts.len() >= 2 && split_once(parts[0], '/') is Some {
        Some(
            PackageView {
                name: match split_once(parts[0], '/') {
                    Some((repo, name)) => name,
                    None => parts[0],
                },
                version: parts[1],
                description: match next {
                    Some(l) => trim(l),
                    None => Seq::empty(),
                },
                repository: match split_once(parts[0], '/') {
                    Some((repo, name)) => repo,
                    None => Seq::empty(),
                },
                installed_version: installed_marker(line, parts[1]),
            },
        )
    } else {
        None
    }
}

/// The line after position `at`, if there is one.
pub open spec fn line_after(all: Seq<Seq<char>>, at: int) -> Option<Seq<char>> {
    if at + 1 < all.len() {
        Some(all[at + 1])
    } else {
        None
    }
}

/// The packages that the lines of search output name from position `at`
/// on. A line that heads a package takes the next line with it as the
/// description; any other line is passed over.
pub open spec fn search_from(all: Seq<Seq<char>>, at: int) -> Seq<PackageView>
    decreases all.len() + 1 - at,
{
    if at < 0 || at >= all.len() {
        Seq::empty()
    } else {
        match search_entry(trim(all[at]), line_after(all, at)) {
            Some(p) => seq![p] + search_from(all, at + 2),
            None => search_from(all, at + 1),
        }
    }
}

/// The packages that search output names.
pub open spec fn search_packages(output: Seq<char>) -> Seq<PackageView> {
    search_from(lines(output), 0)
}

/// The details after one line of the package manager's report: a line
/// `key : value` sets the field that the trimmed key names to the trimmed
/// value.
pub open spec fn detail_line(d: PackageDetailsView, line: Seq<char>) -> PackageDetailsView {
    match split_once(line, ':') {
        Some((key, value)) => set_detail(d, trim(key), trim(value)),
        None => d,
    }
}

/// The details after the lines of a report, taken in order.
pub open spec fn details_after(d: PackageDetailsView, all: Seq<Seq<char>>) -> PackageDetailsView
    decreases all.len(),
{
    if all.len() == 0 {
        d
    } else {
        detail_line(details_after(d, all.drop_last()), all.last())
    }
}

/// What stands between the first `<tag>` and the next `</tag>` of `input`,
/// trimmed.
pub open spec fn tag_value(input: Seq<char>, tag: Seq<char>) -> Option<Seq<char>> {
    let open = "<"@ + tag + ">"@;
    let close = "</"@ + tag + ">"@;
    match find_sub(input, open) {
        Some(start) => match find_sub_from(input, close, start + open.len()) {
            Some(end) => if start + open.len() <= end <= input.len() {
                Some(trim(input.subrange(start + open.len(), end)))
            } else {
                None
            },
            None => None,
        },
        None => None,
    }
}

/// `input` with the five HTML entities for `&`, `<`, `>`, `"` and `'`
/// replaced by those characters, in that order.
pub open spec fn decoded(input: Seq<char>) -> Seq<char> {
    replace(
        replace(
            replace(replace(replace(input, "&amp;"@, "&"@), "&lt;"@, "<"@), "&gt;"@, ">"@),
            "&quot;"@,
            "\""@,
        ),
        "&#39;"@,
        "'"@,
    )
}

/// The two halves of `v` around its first `c`.
pub fn halves(v: &Vec<char>, c: char) -> (r: Option<(Vec<char>, Vec<char>)>)
    ensures
        match r {
            Some((a, b)) => split_once(v@, c) == Some((a@, b@)),
            None => split_once(v@, c) is None,
        },
{
    match index_of_char(v, c, 0) {
        Some(at) => {
            proof {
                lemma_find_char_from(v@, c, 0);
            }
            let a = slice_of(v, 0, at);
            let b = slice_of(v, at + 1, v.len());
            assert(v@.subrange(0, at as int) =~= v@.take(at as int));
            assert(v@.subrange(at + 1, v.len() as int) =~= v@.skip(at + 1));
            Some((a, b))
        },
        None => None,
    }
}

impl ParuBackend {
    /// The packages that the list of installed packages names: for each line
    /// of two words or more, the name, the version, and the version as the
    /// installed one; the repository is "unknown".
    pub fn parse_installed_output(output: &str) -> (packages: Vec<Package>)
        ensures
            package_views(packages@) == installed_packages(output@),
    {
        let text = chars_of(output);
        let all = split_lines(&text);
        let mut packages: Vec<Package> = Vec::new();
        assert(package_views(packages@) =~= Seq::empty());
        assert(seqs(all@).take(0) =~= Seq::empty());
        let mut i: usize = 0;
        while i < all.len()
            invariant
                i <= all.len(),
                package_views(packages@) == seqs(all@).take(i as int).filter_map(
                    installed_reader(),
                ),
            decreases all.len() - i,
        {
            let parts = split_words(&all[i]);
            proof {
                seqs(all@).lemma_filter_map_take_succ(installed_reader(), i as int);
                assert(seqs(all@)[i as int] == all@[i as int]@);
                assert(seqs(parts@).len() == parts.len());
            }
            if parts.len() >= 2 {
                assert(seqs(parts@)[0] == parts@[0]@);
                assert(seqs(parts@)[1] == parts@[1]@);
                let p = Package {
                    name: string_of(&parts[0]),
                    version: string_of(&parts[1]),
                    description: String::new(),
                    repository: "unknown".to_owned(),
                    installed_version: Some(string_of(&parts[1])),
                };
                assert(package_views(packages@.push(p)) =~= package_views(packages@) + seq![p@]);
                packages.push(p);
            } else {
                assert(package_views(packages@) + Seq::<PackageView>::empty() =~= package_views(
                    packages@,
                ));
            }
            i += 1;
        }
        assert(seqs(all@).take(all.len() as int) =~= seqs(all@));
        packages
    }

    /// The packages that the list of updates names: for each line of four
    /// words or more, once `[ignored]` is taken out, the name, the old
    /// version as the installed one and the new version. A name written
    /// `repository/name` gives the repository; any other gets `default_repo`.
    pub fn parse_update_lines(output: &str, default_repo: &str) -> (packages: Vec<Package>)
        ensures
            package_views(packages@) == update_packages(output@, default_repo@),
    {
        let text = chars_of(output);
        let all = split_lines(&text);
        let mut packages: Vec<Package> = Vec::new();
        assert(package_views(packages@) =~= Seq::empty());
        assert(seqs(all@).take(0) =~= Seq::empty());
        let mut i: usize = 0;
        while i < all.len()
            invariant
                i <= all.len(),
                package_views(packages@) == seqs(all@).take(i as int).filter_map(
                    update_reader(default_repo@),
                ),
            decreases all.len() - i,
        {
            proof {
                reveal_strlit("");
            }
            let clean = trimmed(&replaced(&all[i], "[ignored]", ""));
            let parts = split_words(&clean);
            proof {
                assert(""@ =~= Seq::<char>::empty());
                seqs(all@).lemma_filter_map_take_succ(update_reader(default_repo@), i as int);
                assert(seqs(all@)[i as int] == all@[i as int]@);
                assert(seqs(parts@).len() == parts.len());
            }
            if parts.len() >= 4 {
                assert(seqs(parts@)[0] == parts@[0]@);
                assert(seqs(parts@)[1] == parts@[1]@);
                assert(seqs(parts@)[3] == parts@[3]@);
                let (repository, name) = match halves(&parts[0], '/') {
                    Some((repo, name)) => (string_of(&repo), string_of(&name)),
                    None => (default_repo.to_owned(), string_of(&parts[0])),
                };
                let p = Package {
                    name,
                    version: string_of(&parts[3]),
                    description: String::new(),
                    repository,
                    installed_version: Some(string_of(&parts[1])),
                };
                assert(package_views(packages@.push(p)) =~= package_views(packages@) + seq![p@]);
                packages.push(p);
            } else {
                assert(package_views(packages@) + Seq::<PackageView>::empty() =~= package_views(
                    packages@,
                ));
            }
            i += 1;
        }
        assert(seqs(all@).take(all.len() as int) =~= seqs(all@));
        packages
    }

    /// The installed version that a line of search output reports.
    fn installed_version_in(line: &Vec<char>, version: &Vec<char>) -> (r: Option<String>)
        ensures
            opt_str(r) == installed_marker(line@, version@),
    {
        let marker = chars_of("[installed:");
        proof {
            lemma_contains_sub(line@, marker@);
        }
        match index_of_sub(line, &marker, 0) {
            Some(hit) => {
                proof {
                    lemma_find_sub_from(line@, marker@, 0);
                    assert(find_sub_from(line@, marker@, 0) == Some(hit as int));
                    assert(occurs_at(line@, marker@, hit as int));
                    assert(hit + marker.len() <= line.len());
                }
                let start = hit + marker.len();
                match index_of_char(line, ']', start) {
                    Some(end) => {
                        proof {
                            lemma_find_char_from(line@, ']', start as int);
                        }
                        if start < end {
                            Some(string_of(&trimmed(&slice_of(line, start, end))))
                        } else {
                            Some(string_of(version))
                        }
                    },
                    None => Some(string_of(version)),
                }
            },
            None => {
                if has_sub(line, "[installed]") {
                    Some(string_of(version))
                } else {
                    None
                }
            },
        }
    }

    /// The packages that search output names. A line `repository/name
    /// version ...` heads a package and the line after it is its
    /// description; `[installed]` or `[installed: version]` on the heading
    /// line gives the installed version. Other lines are passed over.
    pub fn parse_search_output(output: &str) -> (packages: Vec<Package>)
        ensures
            package_views(packages@) == search_packages(output@),
    {
        let text = chars_of(output);
        let all = split_lines(&text);
        let mut packages: Vec<Package> = Vec::new();
        assert(package_views(packages@) =~= Seq::empty());
        let mut i: usize = 0;
        while i < all.len()
            invariant
                search_packages(output@) == package_views(packages@) + search_from(
                    seqs(all@),
                    i as int,
                ),
                seqs(all@) == lines(output@),
            decreases all.len() - i,
        {
            let line = trimmed(&all[i]);
            let parts = split_words(&line);
            proof {
                assert(seqs(all@)[i as int] == all@[i as int]@);
                assert(seqs(parts@).len() == parts.len());
                if i + 1 < all.len() {
                    assert(seqs(all@)[i + 1] == all@[i + 1]@);
                }
            }
            let mut head: Option<(Vec<char>, Vec<char>)> = None;
            if parts.len() >= 2 {
                assert(seqs(parts@)[0] == parts@[0]@);
                assert(seqs(parts@)[1] == parts@[1]@);
                head = halves(&parts[0], '/');
            }
            match head {
                Some((repository, name)) => {
                    let description = if i + 1 < all.len() {
                        string_of(&trimmed(&all[i + 1]))
                    } else {
                        String::new()
                    };
                    let p = Package {
                        name: string_of(&name),
                        version: string_of(&parts[1]),
                        description,
                        repository: string_of(&repository),
                        installed_version: Self::installed_version_in(&line, &parts[1]),
                    };
                    proof {
                        assert(p@ == search_entry(line@, line_after(seqs(all@), i as int))->0);
                        assert(package_views(packages@.push(p)) =~= package_views(packages@)
                            + seq![p@]);
                        assert(package_views(packages@) + (seq![p@] + search_from(
                            seqs(all@),
                            i + 2,
                        )) =~= package_views(packages@.push(p)) + search_from(seqs(all@), i + 2));
                    }
                    packages.push(p);
                    if i + 1 < all.len() {
                        i += 2;
                    } else {
                        assert(search_from(seqs(all@), i + 2) =~= Seq::empty());
                        assert(package_views(packages@) + Seq::<PackageView>::empty()
                            =~= package_views(packages@));
                        return packages;
                    }
                },
                None => {
                    i += 1;
                },
            }
        }
        assert(package_views(packages@) + Seq::<PackageView>::empty() =~= package_views(
            packages@,
        ));
        packages
    }

    /// The details that a report of the package manager gives of the package
    /// `name`: each line `key : value` sets the field that the key names, a
    /// later line over an earlier one. It never fails.
    pub fn parse_package_details(output: &str, name: &str) -> (r: Result<PackageDetails, String>)
        ensures
            r is Ok,
            r->Ok_0@ == details_after(blank_details(name@), lines(output@)),
    {
        let text = chars_of(output);
        let all = split_lines(&text);
        let mut details = PackageDetails::blank(name.to_owned());
        assert(seqs(all@).take(0) =~= Seq::empty());
        let mut i: usize = 0;
        while i < all.len()
            invariant
                i <= all.len(),
                details@ == details_after(blank_details(name@), seqs(all@).take(i as int)),
            decreases all.len() - i,
        {
            proof {
                let done = seqs(all@).take(i + 1);
                assert(done.drop_last() =~= seqs(all@).take(i as int));
                assert(done.last() == all@[i as int]@);
            }
            match halves(&all[i], ':') {
                Some((key, value)) => {
                    let key = string_of(&trimmed(&key));
                    let value = string_of(&trimmed(&value));
                    details.set(key.as_str(), value);
                },
                None => {},
            }
            i += 1;
        }
        assert(seqs(all@).take(all.len() as int) =~= seqs(all@));
        Ok(details)
    }

    /// What stands between the first `<tag>` and the next `</tag>` of
    /// `input`, trimmed; nothing where either is missing.
    pub fn extract_xml_tag(input: &str, tag: &str) -> (r: Option<String>)
        ensures
            opt_str(r) == tag_value(input@, tag@),
    {
        let text = chars_of(input);
        let name = chars_of(tag);
        let mut open: Vec<char> = Vec::new();
        open.push('<');
        crate::text::extend_chars(&mut open, &name);
        open.push('>');
        let mut close: Vec<char> = Vec::new();
        close.push('<');
        close.push('/');
        crate::text::extend_chars(&mut close, &name);
        close.push('>');
        proof {
            reveal_strlit("<");
            reveal_strlit(">");
            reveal_strlit("</");
            assert(open@ =~= "<"@ + tag@ + ">"@);
            assert(close@ =~= "</"@ + tag@ + ">"@);
        }
        let start = match index_of_sub(&text, &open, 0) {
            Some(start) => start,
            None => {
                return None;
            },
        };
        proof {
            lemma_find_sub_from(text@, open@, 0);
            assert(find_sub_from(text@, open@, 0) == Some(start as int));
            assert(occurs_at(text@, open@, start as int));
            assert(start + open.len() <= text.len());
        }
        let after = start + open.len();
        let end = match index_of_sub(&text, &close, after) {
            Some(end) => end,
            None => {
                return None;
            },
        };
        proof {
            lemma_find_sub_from(text@, close@, after as int);
        }
        Some(string_of(&trimmed(&slice_of(&text, after, end))))
    }

    /// `input` with the HTML entities `&amp;`, `&lt;`, `&gt;`, `&quot;` and
    /// `&#39;` replaced by the characters they stand for, in that order.
    pub fn decode_html_entities(input: &str) -> (r: String)
        ensures
            r@ == decoded(input@),
    {
        let text = chars_of(input);
        let a = replaced(&text, "&amp;", "&");
        let b = replaced(&a, "&lt;", "<");
        let c = replaced(&b, "&gt;", ">");
        let d = replaced(&c, "&quot;", "\"");
        let e = replaced(&d, "&#39;", "'");
        string_of(&e)
    }
}

/// A value filed under a name.
#[derive(Debug)]
pub struct Named {
    pub name: String,
    pub value: String,
}

/// A named value as mathematical values.
pub struct NamedView {
    pub name: Seq<char>,
    pub value: Seq<char>,
}

impl View for Named {
    type V = NamedView;

    open spec fn view(&self) -> NamedView {
        NamedView { name: self.name@, value: self.value@ }
    }
}

/// The views of a sequence of named values.
pub open spec fn named_views(v: Seq<Named>) -> Seq<NamedView> {
    v.map_values(|n: Named| n@)
}

/// The value filed last under `name`, if any.
pub open spec fn lookup(entries: Seq<NamedView>, name: Seq<char>) -> Option<Seq<char>>
    decreases entries.len(),
{
    if entries.len() == 0 {
        None
    } else if entries.last().name == name {
        Some(entries.last().value)
    } else {
        lookup(entries.drop_last(), name)
    }
}

/// The value filed last under `name`, if any.
pub fn find_named(entries: &Vec<Named>, name: &str) -> (r: Option<String>)
    ensures
        opt_str(r) == lookup(named_views(entries@), name@),
{
    let mut i: usize = entries.len();
    assert(named_views(entries@).take(i as int) =~= named_views(entries@));
    while i > 0
        invariant
            i <= entries.len(),
            lookup(named_views(entries@), name@) == lookup(
                named_views(entries@).take(i as int),
                name@,
            ),
        decreases i,
    {
        proof {
            let done = named_views(entries@).take(i as int);
            assert(done.last() == entries@[i - 1]@);
            assert(done.drop_last() =~= named_views(entries@).take(i - 1));
        }
        if same_text(entries[i - 1].name.as_str(), name) {
            return Some(entries[i - 1].value.clone());
        }
        i -= 1;
    }
    None
}

/// The first word of a line, if it has one.
pub open spec fn first_word(line: Seq<char>) -> Option<Seq<char>> {
    if words(line).len() > 0 {
        Some(words(line)[0])
    } else {
        None
    }
}

/// `first_word` as a function value.
pub open spec fn first_word_reader() -> spec_fn(Seq<char>) -> Option<Seq<char>> {
    |line: Seq<char>| first_word(line)
}

/// The first at most `limit` packages, or all where there is no limit.
pub open spec fn limited(all: Seq<PackageView>, limit: Option<usize>) -> Seq<PackageView> {
    match limit {
        Some(l) => if all.len() > l {
            all.take(l as int)
        } else {
            all
        },
        None => all,
    }
}

/// The package that one line of the list of updates names, with its
/// repository looked up by name: "unknown" where none is filed.
pub open spec fn listed_update(line: Seq<char>, repositories: Seq<NamedView>) -> Option<
    PackageView,
> {
    let parts = words(line);
    if parts.len() >= 4 {
        Some(
            PackageView {
                name: parts[0],
                version: parts[3],
                description: Seq::empty(),
                repository: match lookup(repositories, parts[0]) {
                    Some(r) => r,
                    None => "unknown"@,
                },
                installed_version: Some(parts[1]),
            },
        )
    } else {
        None
    }
}

/// `listed_update` as a function value.
pub open spec fn listed_update_reader(repositories: Seq<NamedView>) -> spec_fn(Seq<char>) -> Option<
    PackageView,
> {
    |line: Seq<char>| listed_update(line, repositories)
}

/// The number that a report of disk usage begins with: its first word read
/// as an unsigned integer, with an optional plus sign; 0 where there is no
/// such word or the number does not fit in 64 bits.
pub open spec fn size_in(output: Seq<char>) -> u64 {
    match first_word(output) {
        Some(word) => {
            let digits = if word.len() > 0 && word[0] == '+' {
                word.skip(1)
            } else {
                word
            };
            if digits.len() > 0 && all_digits(digits) && decimal_value(digits) <= u64::MAX {
                decimal_value(digits) as u64
            } else {
                0
            }
        },
        None => 0,
    }
}

/// The build script as received, or the error that says it is missing
/// where it holds nothing but white space.
pub open spec fn checked_pkgbuild(text: Seq<char>) -> Result<Seq<char>, Seq<char>> {
    if trim(text).len() == 0 {
        Err("PKGBUILD is empty or package not found"@)
    } else {
        Ok(text)
    }
}

/// The view of a result that holds text either way.
pub open spec fn text_result(r: Result<String, String>) -> Result<Seq<char>, Seq<char>> {
    match r {
        Ok(t) => Ok(t@),
        Err(e) => Err(e@),
    }
}

impl ParuBackend {
    /// The packages that search output names, cut to the first `limit`
    /// where there is a limit.
    pub fn search_packages_in(output: &str, limit: Option<usize>) -> (packages: Vec<Package>)
        ensures
            package_views(packages@) == limited(search_packages(output@), limit),
    {
        let mut packages = Self::parse_search_output(output);
        match limit {
            Some(l) => {
                if packages.len() > l {
                    packages.truncate(l);
                    assert(package_views(packages@) =~= search_packages(output@).take(l as int));
                }
            },
            None => {},
        }
        packages
    }

    /// The names that a list of packages begins its lines with: the first
    /// word of each line that has one.
    pub fn first_words(output: &str) -> (names: Vec<String>)
        ensures
            strs(names@) == lines(output@).filter_map(first_word_reader()),
    {
        let text = chars_of(output);
        let all = split_lines(&text);
        let mut names: Vec<String> = Vec::new();
        assert(strs(names@) =~= Seq::empty());
        assert(seqs(all@).take(0) =~= Seq::empty());
        let mut i: usize = 0;
        while i < all.len()
            invariant
                i <= all.len(),
                strs(names@) == seqs(all@).take(i as int).filter_map(first_word_reader()),
            decreases all.len() - i,
        {
            let parts = split_words(&all[i]);
            proof {
                seqs(all@).lemma_filter_map_take_succ(first_word_reader(), i as int);
                assert(seqs(all@)[i as int] == all@[i as int]@);
                assert(seqs(parts@).len() == parts.len());
            }
            if parts.len() > 0 {
                assert(seqs(parts@)[0] == parts@[0]@);
                let name = string_of(&parts[0]);
                assert(strs(names@.push(name)) =~= strs(names@) + seq![name@]);
                names.push(name);
            } else {
                assert(strs(names@) + Seq::<Seq<char>>::empty() =~= strs(names@));
            }
            i += 1;
        }
        assert(seqs(all@).take(all.len() as int) =~= seqs(all@));
        names
    }

    /// The packages that the list of updates names, each with the
    /// repository filed under its name, or "unknown".
    pub fn parse_updates_output(output: &str, repositories: &Vec<Named>) -> (packages: Vec<
        Package,
    >)
        ensures
            package_views(packages@) == lines(output@).filter_map(
                listed_update_reader(named_views(repositories@)),
            ),
    {
        let text = chars_of(output);
        let all = split_lines(&text);
        let ghost reader = listed_update_reader(named_views(repositories@));
        let mut packages: Vec<Package> = Vec::new();
        assert(package_views(packages@) =~= Seq::empty());
        assert(seqs(all@).take(0) =~= Seq::empty());
        let mut i: usize = 0;
        while i < all.len()
            invariant
                i <= all.len(),
                reader == listed_update_reader(named_views(repositories@)),
                package_views(packages@) == seqs(all@).take(i as int).filter_map(reader),
            decreases all.len() - i,
        {
            let parts = split_words(&all[i]);
            proof {
                seqs(all@).lemma_filter_map_take_succ(reader, i as int);
                assert(seqs(all@)[i as int] == all@[i as int]@);
                assert(seqs(parts@).len() == parts.len());
            }
            if parts.len() >= 4 {
                assert(seqs(parts@)[0] == parts@[0]@);
                assert(seqs(parts@)[1] == parts@[1]@);
                assert(seqs(parts@)[3] == parts@[3]@);
                let name = string_of(&parts[0]);
                let repository = match find_named(repositories, name.as_str()) {
                    Some(r) => r,
                    None => "unknown".to_owned(),
                };
                let p = Package {
                    name,
                    version: string_of(&parts[3]),
                    description: String::new(),
                    repository,
                    installed_version: Some(string_of(&parts[1])),
                };
                assert(package_views(packages@.push(p)) =~= package_views(packages@) + seq![p@]);
                packages.push(p);
            } else {
                assert(package_views(packages@) + Seq::<PackageView>::empty() =~= package_views(
                    packages@,
                ));
            }
            i += 1;
        }
        assert(seqs(all@).take(all.len() as int) =~= seqs(all@));
        packages
    }

    /// How many lines the output has.
    pub fn count_lines(output: &str) -> (count: usize)
        ensures
            count == lines(output@).len(),
    {
        let all = split_lines(&chars_of(output));
        assert(seqs(all@).len() == all.len());
        all.len()
    }

    /// What a cleanup would free, from the sizes of the two caches and the
    /// list of orphaned packages, one to a line; no list counts as none.
    pub fn estimate_cleanup(pacman_cache_bytes: u64, paru_clone_bytes: u64, orphans: Option<&str>) -> (estimate:
        CleanupEstimate)
        ensures
            estimate == (CleanupEstimate {
                pacman_cache_bytes,
                paru_clone_bytes,
                orphan_count: match orphans {
                    Some(list) => lines(list@).len() as usize,
                    None => 0,
                },
            }),
    {
        CleanupEstimate {
            pacman_cache_bytes,
            paru_clone_bytes,
            orphan_count: match orphans {
                Some(list) => Self::count_lines(list),
                None => 0,
            },
        }
    }

    /// The number of bytes that a report of disk usage begins with, or 0
    /// where it begins with no number.
    pub fn dir_size_bytes(output: &str) -> (bytes: u64)
        ensures
            bytes == size_in(output@),
    {
        let parts = split_words(&chars_of(output));
        assert(seqs(parts@).len() == parts.len());
        if parts.len() == 0 {
            return 0;
        }
        assert(seqs(parts@)[0] == parts@[0]@);
        let word = &parts[0];
        let from: usize = if word.len() > 0 && word[0] == '+' {
            1
        } else {
            0
        };
        if from == word.len() {
            return 0;
        }
        proof {
            if from == 1 {
                assert(word@.subrange(1, word.len() as int) =~= word@.skip(1));
            } else {
                assert(word@.subrange(0, word.len() as int) =~= word@);
            }
        }
        match parse_decimal(word, from, word.len()) {
            Some(n) => n,
            None => 0,
        }
    }

    /// The build script as received, unless it holds nothing but white
    /// space, which is an error.
    pub fn get_pkgbuild(text: String) -> (r: Result<String, String>)
        ensures
            text_result(r) == checked_pkgbuild(text@),
    {
        if trimmed(&chars_of(text.as_str())).len() == 0 {
            Err("PKGBUILD is empty or package not found".to_owned())
        } else {
            Ok(text)
        }
    }
}

/// The second field of a line whose fields are parted by colons: what
/// stands between the first colon and the next, or the end.
pub open spec fn second_field(line: Seq<char>) -> Option<Seq<char>> {
    match split_once(line, ':') {
        Some((head, rest)) => Some(
            match find_char(rest, ':') {
                Some(end) => rest.take(end),
                None => rest,
            },
        ),
        None => None,
    }
}

/// Where a scan for descriptions stands: the name last read, and the
/// descriptions filed so far.
pub struct DescriptionScan {
    pub current: Seq<char>,
    pub entries: Seq<NamedView>,
}

/// The scan after one more line: a line that begins with `Name` gives the
/// name, and a line that begins with `Description` files its second field,
/// trimmed, under the name last read, if there is one.
pub open spec fn describe_line(scan: DescriptionScan, line: Seq<char>) -> DescriptionScan {
    if starts_with(line, "Name"@) {
        match second_field(line) {
            Some(field) => DescriptionScan { current: trim(field), ..scan },
            None => scan,
        }
    } else if starts_with(line, "Description"@) && second_field(line) is Some
        && scan.current.len() > 0 {
        DescriptionScan {
            entries: scan.entries.push(
                NamedView { name: scan.current, value: trim(second_field(line)->0) },
            ),
            ..scan
        }
    } else {
        scan
    }
}

/// The scan after the lines, taken in order.
pub open spec fn describe(all: Seq<Seq<char>>) -> DescriptionScan
    decreases all.len(),
{
    if all.len() == 0 {
        DescriptionScan { current: Seq::empty(), entries: Seq::empty() }
    } else {
        describe_line(describe(all.drop_last()), all.last())
    }
}

/// An installed package with its description, where one is filed under
/// its name, and its source: "aur" where it is foreign, else "repo".
pub open spec fn detailed(
    p: PackageView,
    descriptions: Seq<NamedView>,
    foreign: Seq<Seq<char>>,
) -> PackageView {
    PackageView {
        description: match lookup(descriptions, p.name) {
            Some(d) => d,
            None => p.description,
        },
        repository: if foreign.contains(p.name) {
            "aur"@
        } else {
            "repo"@
        },
        ..p
    }
}

/// Whether one of the packages has this name.
pub open spec fn has_name(packages: Seq<PackageView>, name: Seq<char>) -> bool {
    exists|i: int| 0 <= i < packages.len() && (#[trigger] packages[i]).name == name
}

/// The first list followed by the packages of the second whose name did
/// not occur before.
pub open spec fn merged(first: Seq<PackageView>, second: Seq<PackageView>) -> Seq<PackageView>
    decreases second.len(),
{
    if second.len() == 0 {
        first
    } else if has_name(merged(first, second.drop_last()), second.last().name) {
        merged(first, second.drop_last())
    } else {
        merged(first, second.drop_last()).push(second.last())
    }
}

/// The updates found: those that `checkupdates` lists, from the
/// repositories, followed by those that the package manager lists and that
/// are new; the latter count as from the AUR where `checkupdates` is
/// installed, and as of unknown source where it is not.
pub open spec fn collected_updates(
    use_checkupdates: bool,
    check_output: Option<Seq<char>>,
    paru_output: Option<Seq<char>>,
) -> Seq<PackageView> {
    merged(
        match check_output {
            Some(o) => if use_checkupdates {
                update_packages(o, "repo"@)
            } else {
                Seq::empty()
            },
            None => Seq::empty(),
        },
        match paru_output {
            Some(o) => update_packages(
                o,
                if use_checkupdates {
                    "aur"@
                } else {
                    "unknown"@
                },
            ),
            None => Seq::empty(),
        },
    )
}

/// The source of a package: "aur" where it is foreign, else the repository
/// filed under its name, else "core".
pub open spec fn source_of(name: Seq<char>, foreign: Seq<Seq<char>>, repositories: Seq<NamedView>) -> Seq<
    char,
> {
    if foreign.contains(name) {
        "aur"@
    } else {
        match lookup(repositories, name) {
            Some(r) => r,
            None => "core"@,
        }
    }
}

/// Where a scan for repositories stands: the package and the repository
/// last read, and the repositories filed so far.
pub struct RepoScan {
    pub package: Option<Seq<char>>,
    pub repository: Option<Seq<char>>,
    pub entries: Seq<NamedView>,
}

/// The entries with the repository last read filed under the package last
/// read, where both were read.
pub open spec fn flushed(scan: RepoScan) -> Seq<NamedView> {
    match (scan.package, scan.repository) {
        (Some(package), Some(repository)) => scan.entries.push(
            NamedView { name: package, value: repository },
        ),
        _ => scan.entries,
    }
}

/// The scan after one more line: a line that begins with `Name` files what
/// was read, forgets it and gives the next package; a line that begins with
/// `Repository` gives the repository.
pub open spec fn repo_line(scan: RepoScan, line: Seq<char>) -> RepoScan {
    if starts_with(line, "Name"@) {
        RepoScan {
            package: match second_field(line) {
                Some(field) => Some(trim(field)),
                None => None,
            },
            repository: None,
            entries: flushed(scan),
        }
    } else if starts_with(line, "Repository"@) && second_field(line) is Some {
        RepoScan { repository: Some(trim(second_field(line)->0)), ..scan }
    } else {
        scan
    }
}

/// The scan after the lines, taken in order.
pub open spec fn repo_scan(all: Seq<Seq<char>>) -> RepoScan
    decreases all.len(),
{
    if all.len() == 0 {
        RepoScan { package: None, repository: None, entries: Seq::empty() }
    } else {
        repo_line(repo_scan(all.drop_last()), all.last())
    }
}

/// Whether `line` begins with `pat`.
pub fn begins_with(line: &Vec<char>, pat: &str) -> (r: bool)
    ensures
        r == starts_with(line@, pat@),
{
    matches_at(line, &chars_of(pat), 0)
}

/// The second field of a line whose fields are parted by colons.
pub fn field_after_colon(line: &Vec<char>) -> (r: Option<Vec<char>>)
    ensures
        match r {
            Some(f) => second_field(line@) == Some(f@),
            None => second_field(line@) is None,
        },
{
    match halves(line, ':') {
        Some((head, rest)) => match index_of_char(&rest, ':', 0) {
            Some(end) => {
                proof {
                    lemma_find_char_from(rest@, ':', 0);
                }
                let field = slice_of(&rest, 0, end);
                assert(rest@.subrange(0, end as int) =~= rest@.take(end as int));
                Some(field)
            },
            None => Some(rest),
        },
        None => None,
    }
}

/// Whether one of the packages has this name.
pub fn names_package(packages: &Vec<Package>, name: &str) -> (r: bool)
    ensures
        r == has_name(package_views(packages@), name@),
{
    let mut i: usize = 0;
    while i < packages.len()
        invariant
            i <= packages.len(),
            forall|j: int| 0 <= j < i ==> (#[trigger] package_views(packages@)[j]).name != name@,
        decreases packages.len() - i,
    {
        if same_text(packages[i].name.as_str(), name) {
            assert(package_views(packages@)[i as int].name == name@);
            return true;
        }
        i += 1;
    }
    false
}

impl ParuBackend {
    /// The descriptions that a report on all installed packages holds, each
    /// filed under the name read before it.
    pub fn parse_descriptions(output: &str) -> (entries: Vec<Named>)
        ensures
            named_views(entries@) == describe(lines(output@)).entries,
    {
        let all = split_lines(&chars_of(output));
        let mut current = String::new();
        let mut entries: Vec<Named> = Vec::new();
        assert(named_views(entries@) =~= Seq::empty());
        assert(seqs(all@).take(0) =~= Seq::empty());
        let mut i: usize = 0;
        while i < all.len()
            invariant
                i <= all.len(),
                current@ == describe(seqs(all@).take(i as int)).current,
                named_views(entries@) == describe(seqs(all@).take(i as int)).entries,
            decreases all.len() - i,
        {
            proof {
                let done = seqs(all@).take(i + 1);
                assert(done.drop_last() =~= seqs(all@).take(i as int));
                assert(done.last() == all@[i as int]@);
            }
            let line = &all[i];
            if begins_with(line, "Name") {
                match field_after_colon(line) {
                    Some(field) => {
                        current = string_of(&trimmed(&field));
                    },
                    None => {},
                }
            } else if begins_with(line, "Description") {
                match field_after_colon(line) {
                    Some(field) => {
                        if chars_of(current.as_str()).len() > 0 {
                            let entry = Named {
                                name: current.clone(),
                                value: string_of(&trimmed(&field)),
                            };
                            assert(named_views(entries@.push(entry)) =~= named_views(
                                entries@,
                            ).push(entry@));
                            entries.push(entry);
                        }
                    },
                    None => {},
                }
            }
            i += 1;
        }
        assert(seqs(all@).take(all.len() as int) =~= seqs(all@));
        entries
    }

    /// The installed packages, from the list of them, the report that holds
    /// their descriptions and the list of foreign packages, as far as these
    /// were had: each package gets the description filed under its name and
    /// counts as from the AUR where it is foreign, else as from a
    /// repository.
    pub fn list_installed(installed: &str, details: Option<&str>, foreign: Option<&str>) -> (packages:
        Vec<Package>)
        ensures
            packages@.len() == installed_packages(installed@).len(),
            forall|i: int|
                0 <= i < packages@.len() ==> (#[trigger] packages@[i])@ == detailed(
                    installed_packages(installed@)[i],
                    match details {
                        Some(d) => describe(lines(d@)).entries,
                        None => Seq::empty(),
                    },
                    match foreign {
                        Some(f) => lines(f@).filter_map(first_word_reader()),
                        None => Seq::empty(),
                    },
                ),
    {
        let mut packages = Self::parse_installed_output(installed);
        let descriptions = match details {
            Some(d) => Self::parse_descriptions(d),
            None => Vec::new(),
        };
        let foreign_names = match foreign {
            Some(f) => Self::first_words(f),
            None => Vec::new(),
        };
        proof {
            if details is None {
                assert(named_views(descriptions@) =~= Seq::empty());
            }
            if foreign is None {
                assert(strs(foreign_names@) =~= Seq::empty());
            }
        }
        let ghost before = package_views(packages@);
        let mut i: usize = 0;
        while i < packages.len()
            invariant
                i <= packages.len(),
                packages.len() == before.len(),
                forall|j: int| i <= j < packages.len() ==> (#[trigger] packages@[j])@ == before[j],
                forall|j: int|
                    0 <= j < i ==> (#[trigger] packages@[j])@ == detailed(
                        before[j],
                        named_views(descriptions@),
                        strs(foreign_names@),
                    ),
            decreases packages.len() - i,
        {
            assert(packages@[i as int]@ == before[i as int]);
            match find_named(&descriptions, packages[i].name.as_str()) {
                Some(d) => {
                    packages[i].description = d;
                },
                None => {},
            }
            if holds(&foreign_names, packages[i].name.as_str()) {
                packages[i].repository = "aur".to_owned();
            } else {
                packages[i].repository = "repo".to_owned();
            }
            i += 1;
        }
        packages
    }

    /// The first list followed by the packages of the second whose name did
    /// not occur before.
    pub fn merge_updates(first: Vec<Package>, second: &Vec<Package>) -> (all: Vec<Package>)
        ensures
            package_views(all@) == merged(package_views(first@), package_views(second@)),
    {
        let mut all = first;
        assert(package_views(second@).take(0) =~= Seq::empty());
        let mut i: usize = 0;
        while i < second.len()
            invariant
                i <= second.len(),
                package_views(all@) == merged(
                    package_views(first@),
                    package_views(second@).take(i as int),
                ),
            decreases second.len() - i,
        {
            proof {
                let done = package_views(second@).take(i + 1);
                assert(done.drop_last() =~= package_views(second@).take(i as int));
                assert(done.last() == second@[i as int]@);
            }
            if !names_package(&all, second[i].name.as_str()) {
                let p = second[i].clone();
                assert(package_views(all@.push(p)) =~= package_views(all@).push(p@));
                all.push(p);
            }
            i += 1;
        }
        assert(package_views(second@).take(second.len() as int) =~= package_views(second@));
        all
    }

    /// The updates found, from what `checkupdates` and the package manager
    /// printed, as far as they ran.
    pub fn list_updates(use_checkupdates: bool, check_output: Option<&str>, paru_output: Option<
        &str,
    >) -> (packages: Vec<Package>)
        ensures
            package_views(packages@) == collected_updates(
                use_checkupdates,
                match check_output {
                    Some(o) => Some(o@),
                    None => None,
                },
                match paru_output {
                    Some(o) => Some(o@),
                    None => None,
                },
            ),
    {
        let first = match check_output {
            Some(o) => if use_checkupdates {
                Self::parse_update_lines(o, "repo")
            } else {
                Vec::new()
            },
            None => Vec::new(),
        };
        let second = match paru_output {
            Some(o) => Self::parse_update_lines(
                o,
                if use_checkupdates {
                    "aur"
                } else {
                    "unknown"
                },
            ),
            None => Vec::new(),
        };
        proof {
            if check_output is None || !use_checkupdates {
                assert(package_views(first@) =~= Seq::empty());
            }
            if paru_output is None {
                assert(package_views(second@) =~= Seq::empty());
            }
        }
        Self::merge_updates(first, &second)
    }

    /// Gives each package its source: "aur" where it is foreign, else the
    /// repository filed under its name, else "core".
    pub fn assign_repositories(
        packages: &mut Vec<Package>,
        foreign: &Vec<String>,
        repositories: &Vec<Named>,
    )
        ensures
            final(packages)@.len() == old(packages)@.len(),
            forall|i: int|
                0 <= i < old(packages)@.len() ==> (#[trigger] final(packages)@[i])@ == (PackageView {
                    repository: source_of(
                        old(packages)@[i]@.name,
                        strs(foreign@),
                        named_views(repositories@),
                    ),
                    ..old(packages)@[i]@
                }),
    {
        let mut i: usize = 0;
        while i < packages.len()
            invariant
                i <= packages.len(),
                packages.len() == old(packages).len(),
                forall|j: int|
                    i <= j < packages.len() ==> (#[trigger] packages@[j])@ == old(packages)@[j]@,
                forall|j: int|
                    0 <= j < i ==> (#[trigger] packages@[j])@ == (PackageView {
                        repository: source_of(
                            old(packages)@[j]@.name,
                            strs(foreign@),
                            named_views(repositories@),
                        ),
                        ..old(packages)@[j]@
                    }),
            decreases packages.len() - i,
        {
            assert(packages@[i as int]@ == old(packages)@[i as int]@);
            if holds(foreign, packages[i].name.as_str()) {
                packages[i].repository = "aur".to_owned();
            } else {
                match find_named(repositories, packages[i].name.as_str()) {
                    Some(r) => {
                        packages[i].repository = r;
                    },
                    None => {
                        packages[i].repository = "core".to_owned();
                    },
                }
            }
            i += 1;
        }
    }

    /// The repositories that a report on several packages names, each filed
    /// under the package read before it.
    pub fn get_repos_batch(output: &str) -> (entries: Vec<Named>)
        ensures
            named_views(entries@) == flushed(repo_scan(lines(output@))),
    {
        let all = split_lines(&chars_of(output));
        let mut package: Option<String> = None;
        let mut repository: Option<String> = None;
        let mut entries: Vec<Named> = Vec::new();
        assert(named_views(entries@) =~= Seq::empty());
        assert(seqs(all@).take(0) =~= Seq::empty());
        let mut i: usize = 0;
        while i < all.len()
            invariant
                i <= all.len(),
                opt_str(package) == repo_scan(seqs(all@).take(i as int)).package,
                opt_str(repository) == repo_scan(seqs(all@).take(i as int)).repository,
                named_views(entries@) == repo_scan(seqs(all@).take(i as int)).entries,
            decreases all.len() - i,
        {
            proof {
                let done = seqs(all@).take(i + 1);
                assert(done.drop_last() =~= seqs(all@).take(i as int));
                assert(done.last() == all@[i as int]@);
            }
            let line = &all[i];
            if begins_with(line, "Name") {
                let read_package = package.take();
                let read_repository = repository.take();
                match (read_package, read_repository) {
                    (Some(name), Some(value)) => {
                        let entry = Named { name, value };
                        assert(named_views(entries@.push(entry)) =~= named_views(
                            entries@,
                        ).push(entry@));
                        entries.push(entry);
                    },
                    _ => {},
                }
                match field_after_colon(line) {
                    Some(field) => {
                        package = Some(string_of(&trimmed(&field)));
                    },
                    None => {},
                }
            } else if begins_with(line, "Repository") {
                match field_after_colon(line) {
                    Some(field) => {
                        repository = Some(string_of(&trimmed(&field)));
                    },
                    None => {},
                }
            }
            i += 1;
        }
        assert(seqs(all@).take(all.len() as int) =~= seqs(all@));
        match (package, repository) {
            (Some(name), Some(value)) => {
                let entry = Named { name, value };
                assert(named_views(entries@.push(entry)) =~= named_views(entries@).push(entry@));
                entries.push(entry);
            },
            _ => {},
        }
        entries
    }
}

/// The views of a sequence of news items.
pub open spec fn news_views(v: Seq<NewsItem>) -> Seq<NewsItemView> {
    v.map_values(|n: NewsItem| n@)
}

/// The views of a sequence of comments.
pub open spec fn comment_views(v: Seq<AurComment>) -> Seq<AurCommentView> {
    v.map_values(|c: AurComment| c@)
}

/// The text, or none where there is none.
pub open spec fn text_or_empty(o: Option<Seq<char>>) -> Seq<char> {
    match o {
        Some(t) => t,
        None => Seq::empty(),
    }
}

/// The news item that a piece of the feed after `<item>` holds: its title,
/// link and date, up to `</item>`, the title and the date with their HTML
/// entities decoded. A piece without `</item>`, title or link holds none.
pub open spec fn news_item(piece: Seq<char>) -> Option<NewsItemView> {
    match find_sub(piece, "</item>"@) {
        Some(end) => {
            let item = piece.take(end);
            let title = decoded(text_or_empty(tag_value(item, "title"@)));
            let link = text_or_empty(tag_value(item, "link"@));
            let published = decoded(text_or_empty(tag_value(item, "pubDate"@)));
            if title.len() == 0 || link.len() == 0 {
                None
            } else {
                Some(NewsItemView { title, link, published })
            }
        },
        None => None,
    }
}

/// `news_item` as a function value.
pub open spec fn news_reader() -> spec_fn(Seq<char>) -> Option<NewsItemView> {
    |piece: Seq<char>| news_item(piece)
}

/// The news items of a feed, in its order.
pub open spec fn news_items(xml: Seq<char>) -> Seq<NewsItemView> {
    after_each(xml, "<item>"@).filter_map(news_reader())
}

/// The first `limit` news items of a feed, at least one, or the error that
/// says the feed holds none.
pub open spec fn feed_result(xml: Seq<char>, limit: usize) -> Result<Seq<NewsItemView>, Seq<char>> {
    let all = news_items(xml);
    let most = if limit < 1 {
        1
    } else {
        limit as int
    };
    if all.len() == 0 {
        Err("No news items were found in the feed"@)
    } else if all.len() > most {
        Ok(all.take(most))
    } else {
        Ok(all)
    }
}

/// The markup of a comment turned into plain text: paragraphs and line
/// breaks into line feeds, code into back quotes.
pub open spec fn plain_text(raw: Seq<char>) -> Seq<char> {
    replace(
        replace(
            replace(
                replace(
                    replace(
                        replace(replace(raw, "<p>"@, ""@), "</p>"@, "\n"@),
                        "<br>"@,
                        "\n"@,
                    ),
                    "<code>"@,
                    "`"@,
                ),
                "</code>"@,
                "`"@,
            ),
            "<pre>"@,
            "```\n"@,
        ),
        "</pre>"@,
        "\n```"@,
    )
}

/// What opens the date in a comment's header.
pub open spec fn date_opener() -> Seq<char> {
    "title=\"Permalink to this comment\">"@
}

/// What opens the text of a comment.
pub open spec fn content_opener() -> Seq<char> {
    "<div class=\"article-content comment-content\">"@
}

/// The comment that a piece of a package's page after a comment header's
/// opening holds. The header ends at `</h4>`; in it the author stands
/// between `/users/` and the next slash, "unknown" where that is missing,
/// and the date between its opener and `</a>`. The text stands after the
/// header between its opener and `</div>`. A piece without the end of the
/// header, or with an empty author or text, holds none.
pub open spec fn comment_in(piece: Seq<char>) -> Option<AurCommentView> {
    match find_sub(piece, "</h4>"@) {
        Some(end) => {
            let header = piece.take(end);
            let author = match enclosed(header, "/users/"@, "/"@) {
                Some(a) => a,
                None => "unknown"@,
            };
            let date = text_or_empty(enclosed(header, date_opener(), "</a>"@));
            let content = match enclosed(piece.skip(end), content_opener(), "</div>"@) {
                Some(raw) => trim(plain_text(raw)),
                None => Seq::empty(),
            };
            if author.len() > 0 && content.len() > 0 {
                Some(AurCommentView { author, date: decoded(date), content: decoded(content) })
            } else {
                None
            }
        },
        None => None,
    }
}

/// `comment_in` as a function value.
pub open spec fn comment_reader() -> spec_fn(Seq<char>) -> Option<AurCommentView> {
    |piece: Seq<char>| comment_in(piece)
}

/// The view of a result that holds news items or an error.
pub open spec fn news_result(r: Result<Vec<NewsItem>, String>) -> Result<
    Seq<NewsItemView>,
    Seq<char>,
> {
    match r {
        Ok(items) => Ok(news_views(items@)),
        Err(e) => Err(e@),
    }
}

impl ParuBackend {
    /// The text with its HTML entities decoded.
    fn decode_chars(v: &Vec<char>) -> (r: String)
        ensures
            r@ == decoded(v@),
    {
        Self::decode_html_entities(string_of(v).as_str())
    }

    /// What the tag holds in the text, or nothing.
    fn tag_or_empty(item: &Vec<char>, tag: &str) -> (r: Vec<char>)
        ensures
            r@ == text_or_empty(tag_value(item@, tag@)),
    {
        match Self::extract_xml_tag(string_of(item).as_str(), tag) {
            Some(t) => chars_of(t.as_str()),
            None => Vec::new(),
        }
    }

    /// The news item that a piece of the feed after `<item>` holds.
    fn read_news_item(piece: &Vec<char>) -> (r: Option<NewsItem>)
        ensures
            match r {
                Some(item) => news_item(piece@) == Some(item@),
                None => news_item(piece@) is None,
            },
    {
        let end = match index_of_sub(piece, &chars_of("</item>"), 0) {
            Some(end) => end,
            None => {
                return None;
            },
        };
        proof {
            lemma_find_sub_from(piece@, "</item>"@, 0);
            assert(occurs_at(piece@, "</item>"@, end as int));
        }
        let item = slice_of(piece, 0, end);
        assert(item@ =~= piece@.take(end as int));
        let title = Self::decode_chars(&Self::tag_or_empty(&item, "title"));
        let link = string_of(&Self::tag_or_empty(&item, "link"));
        let published = Self::decode_chars(&Self::tag_or_empty(&item, "pubDate"));
        if chars_of(title.as_str()).len() == 0 || chars_of(link.as_str()).len() == 0 {
            None
        } else {
            Some(NewsItem { title, link, published })
        }
    }

    /// The first `limit` news items of a feed, at least one; an error where
    /// the feed holds none.
    pub fn fetch_arch_news(xml: &str, limit: usize) -> (r: Result<Vec<NewsItem>, String>)
        ensures
            news_result(r) == feed_result(xml@, limit),
    {
        let pieces = pieces_after(&chars_of(xml), "<item>");
        let mut items: Vec<NewsItem> = Vec::new();
        assert(news_views(items@) =~= Seq::empty());
        assert(seqs(pieces@).take(0) =~= Seq::empty());
        let mut i: usize = 0;
        while i < pieces.len()
            invariant
                i <= pieces.len(),
                news_views(items@) == seqs(pieces@).take(i as int).filter_map(news_reader()),
            decreases pieces.len() - i,
        {
            proof {
                seqs(pieces@).lemma_filter_map_take_succ(news_reader(), i as int);
                assert(seqs(pieces@)[i as int] == pieces@[i as int]@);
            }
            match Self::read_news_item(&pieces[i]) {
                Some(item) => {
                    assert(news_views(items@.push(item)) =~= news_views(items@) + seq![item@]);
                    items.push(item);
                },
                None => {
                    assert(news_views(items@) + Seq::<NewsItemView>::empty() =~= news_views(
                        items@,
                    ));
                },
            }
            i += 1;
        }
        assert(seqs(pieces@).take(pieces.len() as int) =~= seqs(pieces@));
        let most: usize = if limit < 1 {
            1
        } else {
            limit
        };
        if items.len() == 0 {
            return Err("No news items were found in the feed".to_owned());
        }
        if items.len() > most {
            let ghost all = news_views(items@);
            items.truncate(most);
            assert(news_views(items@) =~= all.take(most as int));
        }
        Ok(items)
    }

    /// The markup of a comment turned into plain text.
    fn to_plain_text(raw: &Vec<char>) -> (r: Vec<char>)
        ensures
            r@ == plain_text(raw@),
    {
        let a = replaced(raw, "<p>", "");
        let b = replaced(&a, "</p>", "\n");
        let c = replaced(&b, "<br>", "\n");
        let d = replaced(&c, "<code>", "`");
        let e = replaced(&d, "</code>", "`");
        let f = replaced(&e, "<pre>", "```\n");
        replaced(&f, "</pre>", "\n```")
    }

    /// The comment that a piece of a package's page holds.
    fn read_comment(piece: &Vec<char>) -> (r: Option<AurComment>)
        ensures
            match r {
                Some(comment) => comment_in(piece@) == Some(comment@),
                None => comment_in(piece@) is None,
            },
    {
        let end = match index_of_sub(piece, &chars_of("</h4>"), 0) {
            Some(end) => end,
            None => {
                return None;
            },
        };
        proof {
            lemma_find_sub_from(piece@, "</h4>"@, 0);
            assert(occurs_at(piece@, "</h4>"@, end as int));
        }
        let header = slice_of(piece, 0, end);
        let rest = slice_of(piece, end, piece.len());
        assert(header@ =~= piece@.take(end as int));
        assert(rest@ =~= piece@.skip(end as int));
        let author = match enclosed_in(&header, "/users/", "/") {
            Some(a) => a,
            None => chars_of("unknown"),
        };
        let date = match enclosed_in(&header, "title=\"Permalink to this comment\">", "</a>") {
            Some(d) => d,
            None => Vec::new(),
        };
        let content = match enclosed_in(
            &rest,
            "<div class=\"article-content comment-content\">",
            "</div>",
        ) {
            Some(raw) => trimmed(&Self::to_plain_text(&raw)),
            None => Vec::new(),
        };
        if author.len() > 0 && content.len() > 0 {
            Some(
                AurComment {
                    author: string_of(&author),
                    date: Self::decode_chars(&date),
                    content: Self::decode_chars(&content),
                },
            )
        } else {
            None
        }
    }

    /// The comments on a package's page, in its order.
    pub fn fetch_aur_comments(html: &str) -> (comments: Vec<AurComment>)
        ensures
            comment_views(comments@) == after_each(html@, "<h4 class=\"comment-header\">"@).filter_map(
                comment_reader(),
            ),
    {
        let pieces = pieces_after(&chars_of(html), "<h4 class=\"comment-header\">");
        let mut comments: Vec<AurComment> = Vec::new();
        assert(comment_views(comments@) =~= Seq::empty());
        assert(seqs(pieces@).take(0) =~= Seq::empty());
        let mut i: usize = 0;
        while i < pieces.len()
            invariant
                i <= pieces.len(),
                comment_views(comments@) == seqs(pieces@).take(i as int).filter_map(
                    comment_reader(),
                ),
            decreases pieces.len() - i,
        {
            proof {
                seqs(pieces@).lemma_filter_map_take_succ(comment_reader(), i as int);
                assert(seqs(pieces@)[i as int] == pieces@[i as int]@);
            }
            match Self::read_comment(&pieces[i]) {
                Some(comment) => {
                    assert(comment_views(comments@.push(comment)) =~= comment_views(comments@)
                        + seq![comment@]);
                    comments.push(comment);
                },
                None => {
                    assert(comment_views(comments@) + Seq::<AurCommentView>::empty()
                        =~= comment_views(comments@));
                },
            }
            i += 1;
        }
        assert(seqs(pieces@).take(pieces.len() as int) =~= seqs(pieces@));
        comments
    }
}

} // verus!
