use parut::paru::ParuBackend;

#[test]
fn parses_update_lines_with_repo_prefix() {
    let input = "core/linux 6.12.1 -> 6.12.2\nparu 2.0.0 -> 2.1.0";
    let updates = ParuBackend::parse_update_lines(input, "unknown");
    assert_eq!(updates.len(), 2);
    assert_eq!(updates[0].name, "linux");
    assert_eq!(updates[0].repository, "core");
    assert_eq!(updates[0].installed_version.as_deref(), Some("6.12.1"));
    assert_eq!(updates[0].version, "6.12.2");
    assert_eq!(updates[1].name, "paru");
    assert_eq!(updates[1].repository, "unknown");
}

#[test]
fn parses_search_output_pairs() {
    let input = "extra/ripgrep 14.1.0-1\n    A fast line-oriented search tool\naur/parut-git 0.2.0-1\n    GUI for paru";
    let pkgs = ParuBackend::parse_search_output(input);
    assert_eq!(pkgs.len(), 2);
    assert_eq!(pkgs[0].name, "ripgrep");
    assert_eq!(pkgs[0].repository, "extra");
    assert_eq!(pkgs[0].description, "A fast line-oriented search tool");
    assert_eq!(pkgs[1].name, "parut-git");
    assert_eq!(pkgs[1].repository, "aur");
}

#[test]
fn parses_installed_output_lines() {
    let input = "gtk4 1:4.16.12-1\nparu 2.1.0-1";
    let installed = ParuBackend::parse_installed_output(input);
    assert_eq!(installed.len(), 2);
    assert_eq!(installed[0].name, "gtk4");
    assert_eq!(
        installed[0].installed_version.as_deref(),
        Some("1:4.16.12-1")
    );
}

#[test]
fn extracts_xml_tag_value() {
    let input = "<item><title>Arch News</title></item>";
    let title = ParuBackend::extract_xml_tag(input, "title");
    assert_eq!(title.as_deref(), Some("Arch News"));
}

#[test]
fn update_lines_drop_the_ignored_mark_and_short_lines() {
    let input = "extra/mesa 1 -> 2 [ignored]\n[ignored] aur/foo 1 -> 2\nshort line\n\ncore/a/b 1 -> 2 extra words\r\n";
    let updates = ParuBackend::parse_update_lines(input, "repo");
    assert_eq!(updates.len(), 3);
    assert_eq!((updates[0].name.as_str(), updates[0].repository.as_str()), ("mesa", "extra"));
    assert_eq!((updates[1].name.as_str(), updates[1].repository.as_str()), ("foo", "aur"));
    assert_eq!((updates[2].name.as_str(), updates[2].repository.as_str()), ("a/b", "core"));
    assert_eq!(updates[2].version, "2");
    assert_eq!(updates[0].description, "");
    assert!(ParuBackend::parse_update_lines("", "repo").is_empty());
}

#[test]
fn search_output_reports_installed_versions() {
    let input = "extra/a 1.0 [installed]\n  first\n\nextra/b 2.0 [installed: 1.9 ]\n  second\nextra/c 3.0 (group) [installed:]\n  third\nnoise\nextra/d 4.0\n";
    let pkgs = ParuBackend::parse_search_output(input);
    assert_eq!(pkgs.len(), 4);
    assert_eq!(pkgs[0].installed_version.as_deref(), Some("1.0"));
    assert_eq!(pkgs[1].installed_version.as_deref(), Some("1.9"));
    assert_eq!(pkgs[2].installed_version.as_deref(), Some("3.0"));
    assert_eq!(pkgs[3].installed_version, None);
    assert_eq!(pkgs[3].description, "");
    assert_eq!(pkgs[1].description, "second");
    assert_eq!(pkgs[1].version, "2.0");
}

#[test]
fn search_heading_takes_the_next_line_whatever_it_is() {
    let pkgs = ParuBackend::parse_search_output("extra/a 1\nextra/b 2\n  text\nextra/c 3");
    assert_eq!(pkgs.len(), 2);
    assert_eq!(pkgs[0].description, "extra/b 2");
    assert_eq!(pkgs[1].name, "c");
    assert_eq!(pkgs[1].description, "");
}

#[test]
fn search_results_are_cut_to_the_limit() {
    let input = "extra/a 1\n d\nextra/b 2\n d\nextra/c 3\n d";
    assert_eq!(ParuBackend::search_packages_in(input, None).len(), 3);
    assert_eq!(ParuBackend::search_packages_in(input, Some(5)).len(), 3);
    let two = ParuBackend::search_packages_in(input, Some(2));
    assert_eq!(two.len(), 2);
    assert_eq!(two[1].name, "b");
    assert!(ParuBackend::search_packages_in(input, Some(0)).is_empty());
}

#[test]
fn installed_lines_need_two_words() {
    let installed = ParuBackend::parse_installed_output("one\n\n  a   1.0  extra \nb 2");
    assert_eq!(installed.len(), 2);
    assert_eq!(installed[0].name, "a");
    assert_eq!(installed[0].version, "1.0");
    assert_eq!(installed[0].repository, "unknown");
    assert_eq!(installed[0].description, "");
    assert_eq!(installed[1].installed_version.as_deref(), Some("2"));
}

#[test]
fn package_details_are_read_by_key() {
    let out = "Name            : ripgrep\nVersion         : 14.1.0-1\nDescription     : A search tool: fast\nURL             : https://example.org\nDepends On      : gcc-libs  pcre2\nUnknown Key     : x\nno colon here\nVersion         : 15\nVotes: 7\nPopularity :0.5";
    let d = ParuBackend::parse_package_details(out, "fallback").unwrap();
    assert_eq!(d.name, "ripgrep");
    assert_eq!(d.version, "15");
    assert_eq!(d.description, "A search tool: fast");
    assert_eq!(d.url, "https://example.org");
    assert_eq!(d.depends_on, "gcc-libs  pcre2");
    assert_eq!(d.votes, "7");
    assert_eq!(d.popularity, "0.5");
    assert_eq!(d.licenses, "");
    let e = ParuBackend::parse_package_details("", "fallback").unwrap();
    assert_eq!(e.name, "fallback");
    assert_eq!(e.version, "");
}

#[test]
fn every_details_key_sets_its_field() {
    let keys = [
        "Repository", "Licenses", "Groups", "Provides", "Optional Deps", "Required By",
        "Optional For", "Conflicts With", "Replaces", "Installed Size", "Packager", "Build Date",
        "Install Date", "Install Reason", "Install Script", "Validated By",
    ];
    let out: String = keys.iter().map(|k| format!("{} : v-{}\n", k, k)).collect();
    let d = ParuBackend::parse_package_details(&out, "n").unwrap();
    let got = [
        &d.repository, &d.licenses, &d.groups, &d.provides, &d.optional_deps, &d.required_by,
        &d.optional_for, &d.conflicts_with, &d.replaces, &d.installed_size, &d.packager,
        &d.build_date, &d.install_date, &d.install_reason, &d.install_script, &d.validated_by,
    ];
    for (k, v) in keys.iter().zip(got) {
        assert_eq!(*v, format!("v-{}", k));
    }
}

#[test]
fn xml_tag_needs_both_ends() {
    assert_eq!(ParuBackend::extract_xml_tag("<a> x </a><a>y</a>", "a").as_deref(), Some("x"));
    assert_eq!(ParuBackend::extract_xml_tag("<a>x", "a"), None);
    assert_eq!(ParuBackend::extract_xml_tag("x</a>", "a"), None);
    assert_eq!(ParuBackend::extract_xml_tag("</a><a>x", "a"), None);
    assert_eq!(ParuBackend::extract_xml_tag("<a></a>", "a").as_deref(), Some(""));
    assert_eq!(ParuBackend::extract_xml_tag("<ab>x</ab>", "a"), None);
}

#[test]
fn html_entities_are_decoded_in_order() {
    assert_eq!(
        ParuBackend::decode_html_entities("a &amp; b &lt;c&gt; &quot;d&quot; &#39;e&#39;"),
        "a & b <c> \"d\" 'e'"
    );
    assert_eq!(ParuBackend::decode_html_entities("&amp;lt;"), "<");
    assert_eq!(ParuBackend::decode_html_entities("plain"), "plain");
    assert_eq!(ParuBackend::decode_html_entities(""), "");
}

#[test]
fn installed_listing_takes_descriptions_and_sources() {
    let installed = "a 1\nb 2\nc 3";
    let details = "Name            : a\nDescription     : First: tool\nName : b\nName: c\nDescription : Third\nDescription : Third again\nDescription without colon";
    let foreign = "b 2\n\nzz 9";
    let pkgs = ParuBackend::list_installed(installed, Some(details), Some(foreign));
    assert_eq!(pkgs.len(), 3);
    assert_eq!((pkgs[0].description.as_str(), pkgs[0].repository.as_str()), ("First", "repo"));
    assert_eq!((pkgs[1].description.as_str(), pkgs[1].repository.as_str()), ("", "aur"));
    assert_eq!((pkgs[2].description.as_str(), pkgs[2].repository.as_str()), ("Third again", "repo"));
    let bare = ParuBackend::list_installed(installed, None, None);
    assert_eq!((bare[1].description.as_str(), bare[1].repository.as_str()), ("", "repo"));
    assert_eq!(ParuBackend::first_words(foreign), vec!["b".to_string(), "zz".to_string()]);
    let d = ParuBackend::parse_descriptions("Description : orphan\nName : a\nDescription : x");
    assert_eq!(d.len(), 1);
    assert_eq!((d[0].name.as_str(), d[0].value.as_str()), ("a", "x"));
}

#[test]
fn updates_are_merged_without_repeats() {
    let check = "linux 1 -> 2\nmesa 1 -> 2";
    let paru = "mesa 1 -> 3\nfoo-git 1 -> 2\nfoo-git 1 -> 3";
    let all = ParuBackend::list_updates(true, Some(check), Some(paru));
    let names: Vec<&str> = all.iter().map(|p| p.name.as_str()).collect();
    assert_eq!(names, vec!["linux", "mesa", "foo-git"]);
    assert_eq!(all[1].version, "2");
    assert_eq!(all[0].repository, "repo");
    assert_eq!(all[2].repository, "aur");
    assert_eq!(all[2].version, "2");
    let only = ParuBackend::list_updates(false, Some(check), Some(paru));
    assert_eq!(only.len(), 2);
    assert_eq!(only[0].repository, "unknown");
    assert!(ParuBackend::list_updates(true, None, None).is_empty());
    assert_eq!(ParuBackend::list_updates(true, Some(check), None).len(), 2);
}

#[test]
fn repositories_are_assigned_by_source() {
    let mut pkgs = ParuBackend::list_updates(false, None, Some("a 1 -> 2\nb 1 -> 2\nc 1 -> 2"));
    let repos = ParuBackend::get_repos_batch("Name : b\nRepository : extra\nName : x");
    assert_eq!(repos.len(), 1);
    assert_eq!((repos[0].name.as_str(), repos[0].value.as_str()), ("b", "extra"));
    ParuBackend::assign_repositories(&mut pkgs, &vec!["a".to_string()], &repos);
    let got: Vec<&str> = pkgs.iter().map(|p| p.repository.as_str()).collect();
    assert_eq!(got, vec!["aur", "extra", "core"]);
    assert_eq!(pkgs[1].name, "b");
    assert_eq!(pkgs[1].version, "2");
}

#[test]
fn repository_scan_files_under_the_package_read_before() {
    let out = "Repository : core\nName : linux\nVersion : 1\nRepository : extra\nName : mesa\nRepository : extra\n";
    let repos = ParuBackend::get_repos_batch(out);
    let got: Vec<(&str, &str)> = repos.iter().map(|n| (n.name.as_str(), n.value.as_str())).collect();
    assert_eq!(got, vec![("linux", "extra"), ("mesa", "extra")]);
    assert!(ParuBackend::get_repos_batch("").is_empty());
    assert!(ParuBackend::get_repos_batch("Name : a").is_empty());
}

#[test]
fn listed_updates_look_their_repository_up() {
    let repos = ParuBackend::get_repos_batch("Name : a\nRepository : core\nName : a\nRepository : extra");
    let pkgs = ParuBackend::parse_updates_output("a 1 -> 2\nb 1 -> 2\nshort", &repos);
    assert_eq!(pkgs.len(), 2);
    assert_eq!((pkgs[0].name.as_str(), pkgs[0].repository.as_str()), ("a", "extra"));
    assert_eq!((pkgs[1].name.as_str(), pkgs[1].repository.as_str()), ("b", "unknown"));
    assert_eq!(pkgs[0].installed_version.as_deref(), Some("1"));
    assert_eq!(pkgs[0].version, "2");
}

#[test]
fn cleanup_estimate_counts_orphans() {
    let e = ParuBackend::estimate_cleanup(10, 20, Some("a\nb\nc\n"));
    assert_eq!((e.pacman_cache_bytes, e.paru_clone_bytes, e.orphan_count), (10, 20, 3));
    assert_eq!(ParuBackend::estimate_cleanup(1, 2, None).orphan_count, 0);
    assert_eq!(ParuBackend::count_lines(""), 0);
    assert_eq!(ParuBackend::count_lines("\n"), 1);
    assert_eq!(ParuBackend::count_lines("a\r\nb"), 2);
}

#[test]
fn disk_usage_begins_with_the_size() {
    assert_eq!(ParuBackend::dir_size_bytes("12345\t/var/cache\n"), 12345);
    assert_eq!(ParuBackend::dir_size_bytes("  +7 x"), 7);
    assert_eq!(ParuBackend::dir_size_bytes("18446744073709551615 x"), u64::MAX);
    assert_eq!(ParuBackend::dir_size_bytes("18446744073709551616 x"), 0);
    assert_eq!(ParuBackend::dir_size_bytes("-5 x"), 0);
    assert_eq!(ParuBackend::dir_size_bytes("+ x"), 0);
    assert_eq!(ParuBackend::dir_size_bytes("12k x"), 0);
    assert_eq!(ParuBackend::dir_size_bytes(""), 0);
}

#[test]
fn empty_build_script_is_an_error() {
    assert_eq!(
        ParuBackend::get_pkgbuild(" \n\t".to_string()),
        Err("PKGBUILD is empty or package not found".to_string())
    );
    assert_eq!(ParuBackend::get_pkgbuild(" a\n".to_string()), Ok(" a\n".to_string()));
}

#[test]
fn news_feed_gives_its_items() {
    let xml = "<rss><title>Feed</title><item><title>A &amp; B</title><link>http://a</link><pubDate>Mon</pubDate></item><item><title></title><link>http://none</link></item><item><title>C</title><link> http://c </link></item><item><title>unclosed</title><link>x</link>";
    let all = ParuBackend::fetch_arch_news(xml, 10).unwrap();
    assert_eq!(all.len(), 2);
    assert_eq!((all[0].title.as_str(), all[0].link.as_str(), all[0].published.as_str()), ("A & B", "http://a", "Mon"));
    assert_eq!((all[1].title.as_str(), all[1].link.as_str(), all[1].published.as_str()), ("C", "http://c", ""));
    assert_eq!(ParuBackend::fetch_arch_news(xml, 1).unwrap().len(), 1);
    assert_eq!(ParuBackend::fetch_arch_news(xml, 0).unwrap().len(), 1);
    assert_eq!(
        ParuBackend::fetch_arch_news("<rss></rss>", 5).unwrap_err(),
        "No news items were found in the feed"
    );
}

#[test]
fn comment_page_gives_its_comments() {
    let html = "<html><h4 class=\"comment-header\"><a href=\"/users/alice/\">alice</a> commented on <a href=\"#c1\" title=\"Permalink to this comment\">2024-01-01 10:00</a></h4><div class=\"article-content comment-content\"><p>Use <code>-S</code> &amp; enjoy</p><pre>x\ny</pre></div><h4 class=\"comment-header\">no author <a title=\"Permalink to this comment\">d2</a></h4><div class=\"article-content comment-content\">plain<br>text</div><h4 class=\"comment-header\"><a href=\"/users/bob/\">bob</a></h4><div>nothing</div><h4 class=\"comment-header\">never closed";
    let c = ParuBackend::fetch_aur_comments(html);
    assert_eq!(c.len(), 2);
    assert_eq!(c[0].author, "alice");
    assert_eq!(c[0].date, "2024-01-01 10:00");
    assert_eq!(c[0].content, "Use `-S` & enjoy\n```\nx\ny\n```");
    assert_eq!(c[1].author, "unknown");
    assert_eq!(c[1].date, "d2");
    assert_eq!(c[1].content, "plain\ntext");
    assert!(ParuBackend::fetch_aur_comments("<html></html>").is_empty());
}
