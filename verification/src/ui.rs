//! What the interface computes before it shows anything: texts for ages and
//! durations, the freshness of cached listings, and the filtering, ranking
//! and sorting of package lists.

use crate::platform::local_timestamp;
use crate::paru::{package_views, Package, PackageView};
use crate::progress::lowercase;
use crate::settings::AppSettings;
use crate::text::{
    chars_of, contains_sub, has_sub, holds, lemma_lex_total, lex_less, lines, matches_at,
    same_text, seqs, skip_whitespace, skip_ws, split_lines, split_once, starts_with, string_of,
    string_of_range, strs, text_less, trim, trimmed,
};
use vstd::prelude::*;

verus! {

/// The character of a decimal digit.
pub open spec fn digit_char(d: nat) -> char {
    if d == 0 {
        '0'
    } else if d == 1 {
        '1'
    } else if d == 2 {
        '2'
    } else if d == 3 {
        '3'
    } else if d == 4 {
        '4'
    } else if d == 5 {
        '5'
    } else if d == 6 {
        '6'
    } else if d == 7 {
        '7'
    } else if d == 8 {
        '8'
    } else {
        '9'
    }
}

/// The decimal digits that write `n`, without leading zeros.
pub open spec fn decimal_text(n: nat) -> Seq<char>
    decreases n,
{
    if n < 10 {
        seq![digit_char(n)]
    } else {
        decimal_text(n / 10).push(digit_char(n % 10))
    }
}

/// The seconds between automatic refreshes that an interval names; none
/// for "off" and for any other name.
pub open spec fn refresh_seconds(interval: Seq<char>) -> Option<u32> {
    if interval == "15m"@ {
        Some(900u32)
    } else if interval == "30m"@ {
        Some(1800u32)
    } else if interval == "1h"@ {
        Some(3600u32)
    } else if interval == "6h"@ {
        Some(21600u32)
    } else {
        None
    }
}

/// A duration in words: seconds below a minute, minutes and seconds below
/// an hour, hours and minutes from there on.
pub open spec fn duration_text(total_secs: u64) -> Seq<char> {
    if total_secs < 60 {
        decimal_text(total_secs as nat) + "s"@
    } else if total_secs < 3600 {
        decimal_text((total_secs / 60) as nat) + "m "@ + decimal_text((total_secs % 60) as nat)
            + "s"@
    } else {
        decimal_text((total_secs / 3600) as nat) + "h "@ + decimal_text(
            ((total_secs % 3600) / 60) as nat,
        ) + "m"@
    }
}

/// The seconds from `then` to `now`, held within the range of 64 bits.
pub open spec fn elapsed_seconds(now: i64, then: i64) -> i64 {
    if now - then > i64::MAX {
        i64::MAX
    } else if now - then < i64::MIN {
        i64::MIN
    } else {
        (now - then) as i64
    }
}

/// The seconds that a cache stays fresh: the minutes times sixty, held
/// within 64 bits without a sign and then read with one, so that a number
/// beyond the largest positive one comes out negative.
pub open spec fn ttl_seconds(minutes: u64) -> i64 {
    let unsigned = if minutes * 60 > u64::MAX {
        u64::MAX as int
    } else {
        minutes * 60
    };
    if unsigned > i64::MAX {
        (unsigned - 0x1_0000_0000_0000_0000) as i64
    } else {
        unsigned as i64
    }
}

/// An age in words.
pub open spec fn age_text(elapsed: i64) -> Seq<char> {
    if elapsed < 60 {
        "just now"@
    } else if elapsed < 3600 {
        decimal_text((elapsed / 60) as nat) + " min ago"@
    } else if elapsed < 86400 {
        decimal_text((elapsed / 3600) as nat) + " hr ago"@
    } else {
        decimal_text((elapsed / 86400) as nat) + " days ago"@
    }
}

/// What to say of data fetched at second `then`: its age alone, or that it
/// was synced then, and that it is stale once it is as old as a cache stays
/// fresh, a minute at least.
pub open spec fn freshness(then: i64, only_age: bool, now: i64, ttl_minutes: u64) -> Seq<char> {
    let elapsed = elapsed_seconds(now, then);
    let limit = if ttl_seconds(ttl_minutes) < 60 {
        60
    } else {
        ttl_seconds(ttl_minutes) as int
    };
    if only_age {
        age_text(elapsed)
    } else if elapsed >= limit {
        "Data synced "@ + age_text(elapsed) + " (stale)"@
    } else {
        "Data synced "@ + age_text(elapsed)
    }
}

/// Whether data fetched at second `then` is still fresh; always, where a
/// cache stays fresh for 0 seconds.
pub open spec fn within_ttl(then: i64, now: i64, ttl_minutes: u64) -> bool {
    ttl_seconds(ttl_minutes) == 0 || elapsed_seconds(now, then) <= ttl_seconds(ttl_minutes)
}

/// Appends the decimal digits of `n` to `out`.
pub fn push_decimal(out: &mut String, n: u64)
    ensures
        final(out)@ == old(out)@ + decimal_text(n as nat),
    decreases n,
{
    if n >= 10 {
        push_decimal(out, n / 10);
    }
    let d = n % 10;
    let c = if d == 0 {
        '0'
    } else if d == 1 {
        '1'
    } else if d == 2 {
        '2'
    } else if d == 3 {
        '3'
    } else if d == 4 {
        '4'
    } else if d == 5 {
        '5'
    } else if d == 6 {
        '6'
    } else if d == 7 {
        '7'
    } else if d == 8 {
        '8'
    } else {
        '9'
    };
    out.push(c);
    proof {
        if n >= 10 {
            assert(final(out)@ =~= old(out)@ + decimal_text((n / 10) as nat).push(c));
        } else {
            assert(final(out)@ =~= old(out)@ + seq![c]);
        }
    }
}

/// The seconds from `then` to `now`, held within the range of 64 bits.
pub fn seconds_since(now: i64, then: i64) -> (elapsed: i64)
    ensures
        elapsed == elapsed_seconds(now, then),
{
    if then >= 0 {
        if now < i64::MIN + then {
            i64::MIN
        } else {
            now - then
        }
    } else {
        if now > i64::MAX + then {
            i64::MAX
        } else {
            now - then
        }
    }
}

/// The seconds that a cache stays fresh under the settings.
pub fn cache_ttl_seconds(minutes: u64) -> (secs: i64)
    ensures
        secs == ttl_seconds(minutes),
{
    let unsigned: u64 = if minutes > u64::MAX / 60 {
        u64::MAX
    } else {
        minutes * 60
    };
    if unsigned > 0x7fff_ffff_ffff_ffff {
        let back: u64 = u64::MAX - unsigned;
        -(back as i64) - 1
    } else {
        unsigned as i64
    }
}

/// The seconds between automatic refreshes under the settings, if they are
/// on.
pub fn auto_refresh_interval_seconds(settings: &AppSettings) -> (secs: Option<u32>)
    ensures
        secs == refresh_seconds(settings.auto_refresh_interval@),
{
    let interval = settings.auto_refresh_interval.as_str();
    if same_text(interval, "15m") {
        Some(15 * 60)
    } else if same_text(interval, "30m") {
        Some(30 * 60)
    } else if same_text(interval, "1h") {
        Some(60 * 60)
    } else if same_text(interval, "6h") {
        Some(6 * 60 * 60)
    } else {
        None
    }
}

/// A duration in words.
pub fn format_duration(total_secs: u64) -> (text: String)
    ensures
        text@ == duration_text(total_secs),
{
    let mut text = String::new();
    if total_secs < 60 {
        push_decimal(&mut text, total_secs);
        text.append("s");
    } else if total_secs < 3600 {
        push_decimal(&mut text, total_secs / 60);
        text.append("m ");
        push_decimal(&mut text, total_secs % 60);
        text.append("s");
    } else {
        push_decimal(&mut text, total_secs / 3600);
        text.append("h ");
        push_decimal(&mut text, (total_secs % 3600) / 60);
        text.append("m");
    }
    assert(text@ =~= duration_text(total_secs));
    text
}

/// An age in words.
fn format_age(elapsed: i64) -> (text: String)
    ensures
        text@ == age_text(elapsed),
{
    let mut text = String::new();
    if elapsed < 60 {
        text.append("just now");
    } else if elapsed < 3600 {
        push_decimal(&mut text, (elapsed / 60) as u64);
        text.append(" min ago");
    } else if elapsed < 86400 {
        push_decimal(&mut text, (elapsed / 3600) as u64);
        text.append(" hr ago");
    } else {
        push_decimal(&mut text, (elapsed / 86400) as u64);
        text.append(" days ago");
    }
    assert(text@ =~= age_text(elapsed));
    text
}

/// What to say at second `now` of data fetched at second `unix_ts`.
pub fn freshness_text_at(unix_ts: i64, only_age: bool, now: i64, settings: &AppSettings) -> (text:
    String)
    ensures
        text@ == freshness(unix_ts, only_age, now, settings.cache_ttl_minutes),
{
    let elapsed = seconds_since(now, unix_ts);
    let ttl_secs = cache_ttl_seconds(settings.cache_ttl_minutes);
    let limit: i64 = if ttl_secs < 60 {
        60
    } else {
        ttl_secs
    };
    let age = format_age(elapsed);
    if only_age {
        age
    } else {
        let mut text = "Data synced ".to_owned();
        text.append(age.as_str());
        if elapsed >= limit {
            text.append(" (stale)");
        }
        text
    }
}

/// What to say now, by the clock, of data fetched at second `unix_ts`.
pub fn freshness_text(unix_ts: i64, only_age: bool, settings: &AppSettings) -> (text: String)
    ensures
        exists|now: i64|
            text@ == #[trigger] freshness(unix_ts, only_age, now, settings.cache_ttl_minutes),
{
    let now = local_timestamp();
    freshness_text_at(unix_ts, only_age, now, settings)
}

/// Whether data fetched at second `unix_ts` is still fresh at second `now`.
pub fn is_cache_within_ttl_at(unix_ts: i64, now: i64, settings: &AppSettings) -> (fresh: bool)
    ensures
        fresh == within_ttl(unix_ts, now, settings.cache_ttl_minutes),
{
    let ttl_secs = cache_ttl_seconds(settings.cache_ttl_minutes);
    if ttl_secs == 0 {
        return true;
    }
    seconds_since(now, unix_ts) <= ttl_secs
}

/// Whether data fetched at second `unix_ts` is still fresh now, by the
/// clock.
pub fn is_cache_within_ttl(unix_ts: i64, settings: &AppSettings) -> (fresh: bool)
    ensures
        exists|now: i64| fresh == #[trigger] within_ttl(unix_ts, now, settings.cache_ttl_minutes),
{
    let now = local_timestamp();
    is_cache_within_ttl_at(unix_ts, now, settings)
}

/// The least of three numbers.
pub open spec fn min3(x: int, y: int, z: int) -> int {
    if x <= y && x <= z {
        x
    } else if y <= z {
        y
    } else {
        z
    }
}

/// The edit distance between the first `i` bytes of `a` and the first `j`
/// bytes of `b`: the least number of insertions, deletions and
/// substitutions of one byte that turn the one into the other.
pub open spec fn edit_distance(a: Seq<u8>, b: Seq<u8>, i: int, j: int) -> int
    decreases i + j,
{
    if i <= 0 {
        if j <= 0 {
            0
        } else {
            j
        }
    } else if j <= 0 {
        i
    } else {
        min3(
            edit_distance(a, b, i - 1, j) + 1,
            edit_distance(a, b, i, j - 1) + 1,
            edit_distance(a, b, i - 1, j - 1) + if a[i - 1] == b[j - 1] {
                0int
            } else {
                1int
            },
        )
    }
}

/// The edit distance between `a` and `b` where it is at most `max_dist`.
/// Where one of the two is empty the length of the other is the answer,
/// however large.
pub open spec fn bounded_distance(a: Seq<u8>, b: Seq<u8>, max_dist: usize) -> Option<usize> {
    if a.len() == 0 {
        Some(b.len() as usize)
    } else if b.len() == 0 {
        Some(a.len() as usize)
    } else if edit_distance(a, b, a.len() as int, b.len() as int) <= max_dist {
        Some(edit_distance(a, b, a.len() as int, b.len() as int) as usize)
    } else {
        None
    }
}

/// The edit distance is no less than 0 and no more than the longer length.
pub proof fn lemma_edit_distance_bounds(a: Seq<u8>, b: Seq<u8>, i: int, j: int)
    requires
        0 <= i,
        0 <= j,
    ensures
        0 <= edit_distance(a, b, i, j) <= if i > j {
            i
        } else {
            j
        },
    decreases i + j,
{
    if i > 0 && j > 0 {
        lemma_edit_distance_bounds(a, b, i - 1, j);
        lemma_edit_distance_bounds(a, b, i, j - 1);
        lemma_edit_distance_bounds(a, b, i - 1, j - 1);
    }
}

/// Where every distance from a prefix of `a` is at least `floor`, so is
/// every distance from the prefix one byte longer.
pub proof fn lemma_next_row_floor(a: Seq<u8>, b: Seq<u8>, i: int, j: int, floor: int)
    requires
        0 <= i,
        0 <= j,
        forall|k: int| 0 <= k <= j ==> #[trigger] edit_distance(a, b, i, k) >= floor,
    ensures
        edit_distance(a, b, i + 1, j) >= floor,
    decreases j,
{
    assert(edit_distance(a, b, i, 0) >= floor);
    if j > 0 {
        assert(edit_distance(a, b, i, j) >= floor);
        assert(edit_distance(a, b, i, j - 1) >= floor);
        lemma_next_row_floor(a, b, i, j - 1, floor);
    }
}

/// Where every distance from a prefix of `a` is at least `floor`, so is
/// the distance from every longer prefix.
pub proof fn lemma_later_rows_floor(a: Seq<u8>, b: Seq<u8>, i: int, n: int, m: int, floor: int)
    requires
        0 <= i <= n,
        0 <= m,
        forall|k: int| 0 <= k <= m ==> #[trigger] edit_distance(a, b, i, k) >= floor,
    ensures
        edit_distance(a, b, n, m) >= floor,
    decreases n - i,
{
    if i < n {
        assert forall|k: int| 0 <= k <= m implies #[trigger] edit_distance(a, b, i + 1, k)
            >= floor by {
            lemma_next_row_floor(a, b, i, k, floor);
        }
        lemma_later_rows_floor(a, b, i + 1, n, m, floor);
    }
}

/// `x`, but no more than `cap`.
pub open spec fn capped(x: int, cap: int) -> int {
    if x < cap {
        x
    } else {
        cap
    }
}

/// One more than `v`, but no more than `cap`.
fn bump(v: usize, cap: usize) -> (r: usize)
    requires
        v <= cap,
    ensures
        r == capped(v + 1, cap as int),
{
    if v < cap {
        v + 1
    } else {
        cap
    }
}

/// The edit distance between two byte strings where it is at most
/// `max_dist`.
pub fn bytes_distance(a: &[u8], b: &[u8], max_dist: usize) -> (r: Option<usize>)
    ensures
        r == bounded_distance(a@, b@, max_dist),
{
    let n = a.len();
    let m = b.len();
    if n == 0 {
        return Some(m);
    }
    if m == 0 {
        return Some(n);
    }
    let cap: usize = if max_dist < usize::MAX {
        max_dist + 1
    } else {
        usize::MAX
    };
    let mut prev: Vec<usize> = Vec::new();
    let mut j: usize = 0;
    loop
        invariant_except_break
            prev.len() == j,
        invariant
            j <= m,
            forall|k: int| 0 <= k < prev.len() ==> #[trigger] prev@[k] == capped(k, cap as int),
        ensures
            prev.len() == m + 1,
        decreases m - j,
    {
        prev.push(if j < cap {
            j
        } else {
            cap
        });
        if j == m {
            break ;
        }
        j += 1;
    }
    let mut i: usize = 0;
    while i < n
        invariant
            i <= n,
            n == a.len(),
            m == b.len(),
            m > 0,
            prev.len() == m + 1,
            cap == if max_dist < usize::MAX {
                max_dist + 1
            } else {
                usize::MAX as int
            },
            forall|k: int|
                0 <= k <= m ==> #[trigger] prev@[k] == capped(
                    edit_distance(a@, b@, i as int, k),
                    cap as int,
                ),
        decreases n - i,
    {
        let mut cur: Vec<usize> = Vec::new();
        cur.push(if i + 1 < cap {
            i + 1
        } else {
            cap
        });
        let mut row_min: usize = cur[0];
        let mut j: usize = 0;
        while j < m
            invariant
                j <= m,
                i < n,
                n == a.len(),
                m == b.len(),
                prev.len() == m + 1,
                cur.len() == j + 1,
                row_min <= cap,
                forall|k: int|
                    0 <= k <= m ==> #[trigger] prev@[k] == capped(
                        edit_distance(a@, b@, i as int, k),
                        cap as int,
                    ),
                forall|k: int|
                    0 <= k <= j ==> #[trigger] cur@[k] == capped(
                        edit_distance(a@, b@, i + 1, k),
                        cap as int,
                    ),
                forall|k: int| 0 <= k <= j ==> row_min <= #[trigger] cur@[k],
            decreases m - j,
        {
            proof {
                lemma_edit_distance_bounds(a@, b@, i as int, j + 1);
                lemma_edit_distance_bounds(a@, b@, i + 1, j as int);
                lemma_edit_distance_bounds(a@, b@, i as int, j as int);
                assert(prev@[j + 1] == capped(edit_distance(a@, b@, i as int, j + 1), cap as int));
                assert(prev@[j as int] == capped(
                    edit_distance(a@, b@, i as int, j as int),
                    cap as int,
                ));
                assert(cur@[j as int] == capped(edit_distance(a@, b@, i + 1, j as int), cap as int));
            }
            let above = bump(prev[j + 1], cap);
            let left = bump(cur[j], cap);
            let diagonal = if a[i] == b[j] {
                prev[j]
            } else {
                bump(prev[j], cap)
            };
            let mut least = above;
            if left < least {
                least = left;
            }
            if diagonal < least {
                least = diagonal;
            }
            assert(least == capped(edit_distance(a@, b@, i + 1, j + 1), cap as int));
            cur.push(least);
            if least < row_min {
                row_min = least;
            }
            j += 1;
        }
        if row_min > max_dist {
            proof {
                assert forall|k: int| 0 <= k <= m implies #[trigger] edit_distance(
                    a@,
                    b@,
                    i + 1,
                    k,
                ) >= max_dist + 1 by {
                    assert(cur@[k] == capped(edit_distance(a@, b@, i + 1, k), cap as int));
                    assert(row_min <= cur@[k]);
                }
                lemma_later_rows_floor(a@, b@, i + 1, n as int, m as int, max_dist + 1);
            }
            return None;
        }
        prev = cur;
        i += 1;
    }
    let d = prev[m];
    proof {
        lemma_edit_distance_bounds(a@, b@, n as int, m as int);
    }
    assert(d == capped(edit_distance(a@, b@, n as int, m as int), cap as int));
    if d > max_dist {
        None
    } else {
        Some(d)
    }
}

/// The edit distance between the bytes of two strings where it is at most
/// `max_dist`.
pub fn levenshtein_bounded(a: &str, b: &str, max_dist: usize) -> (r: Option<usize>)
    ensures
        r == bounded_distance(
            vstd::utf8::encode_utf8(a@),
            vstd::utf8::encode_utf8(b@),
            max_dist,
        ),
{
    bytes_distance(a.as_bytes(), b.as_bytes(), max_dist)
}

/// How well a package matches a query, the lower the better, all three
/// texts in lower case: 0 where the name is the query, 1 where it begins
/// with it, 2 where it holds it, 3 where the description holds it; else 10
/// and the edit distance between name and query where that is at most 4,
/// and 20 where it is more.
pub open spec fn match_score(name: Seq<char>, description: Seq<char>, query: Seq<char>) -> int {
    if name == query {
        0
    } else if starts_with(name, query) {
        1
    } else if contains_sub(name, query) {
        2
    } else if contains_sub(description, query) {
        3
    } else {
        10 + match bounded_distance(
            vstd::utf8::encode_utf8(name),
            vstd::utf8::encode_utf8(query),
            4,
        ) {
            Some(d) => d as int,
            None => 10,
        }
    }
}

/// How well a package of this name and description matches a query, all
/// three in lower case; the score is held within 64 bits.
pub fn score_of(name: &str, description: &str, query: &str) -> (score: u64)
    ensures
        score == capped(match_score(name@, description@, query@), u64::MAX as int),
{
    let name_chars = chars_of(name);
    let query_chars = chars_of(query);
    if same_text(name, query) {
        return 0;
    }
    if matches_at(&name_chars, &query_chars, 0) {
        return 1;
    }
    if has_sub(&name_chars, query) {
        return 2;
    }
    if has_sub(&chars_of(description), query) {
        return 3;
    }
    let dist: usize = match levenshtein_bounded(name, query, 4) {
        Some(d) => d,
        None => 10,
    };
    if dist as u64 > u64::MAX - 10 {
        u64::MAX
    } else {
        10 + dist as u64
    }
}

/// How well a package matches a query that is in lower case already.
pub fn package_match_score(pkg: &Package, query: &str) -> (score: u64)
    ensures
        score == capped(
            match_score(lowercase(pkg@.name), lowercase(pkg@.description), query@),
            u64::MAX as int,
        ),
{
    let name = pkg.name.to_lowercase();
    let description = pkg.description.to_lowercase();
    score_of(name.as_str(), description.as_str(), query)
}

/// What a package is sorted by: a score first, then two texts.
#[derive(Debug)]
pub struct SortKey {
    pub score: u64,
    pub first: Vec<char>,
    pub second: Vec<char>,
}

/// A sort key as mathematical values.
pub struct KeyView {
    pub score: u64,
    pub first: Seq<char>,
    pub second: Seq<char>,
}

impl View for SortKey {
    type V = KeyView;

    open spec fn view(&self) -> KeyView {
        KeyView { score: self.score, first: self.first@, second: self.second@ }
    }
}

/// A package with the key it is sorted by.
pub struct Keyed {
    pub package: PackageView,
    pub key: KeyView,
}

/// Whether the key `a` is less than `b`: by the score, then by the first
/// text, then by the second, the texts in dictionary order.
pub open spec fn key_less(a: KeyView, b: KeyView) -> bool {
    a.score < b.score || (a.score == b.score && (lex_less(a.first, b.first) || (a.first == b.first
        && lex_less(a.second, b.second))))
}

/// Whether a package with key `a` belongs before one with key `b`: where
/// its key is less, or greater where the order is descending.
pub open spec fn belongs_before(a: KeyView, b: KeyView, descending: bool) -> bool {
    if descending {
        key_less(b, a)
    } else {
        key_less(a, b)
    }
}

/// The first position at or after `from` of a package that `x` belongs
/// before, or the length of the list.
pub open spec fn slot_from(sorted: Seq<Keyed>, x: KeyView, descending: bool, from: int) -> int
    decreases sorted.len() - from,
{
    if from < 0 || from >= sorted.len() {
        sorted.len() as int
    } else if belongs_before(x, sorted[from].key, descending) {
        from
    } else {
        slot_from(sorted, x, descending, from + 1)
    }
}

/// The list in order, the packages of equal key in the order they had:
/// each package in turn is put before the first one it belongs before.
pub open spec fn sorted_stable(items: Seq<Keyed>, descending: bool) -> Seq<Keyed>
    decreases items.len(),
{
    if items.len() == 0 {
        Seq::empty()
    } else {
        let rest = sorted_stable(items.drop_last(), descending);
        if 0 <= slot_from(rest, items.last().key, descending, 0) <= rest.len() {
            rest.insert(slot_from(rest, items.last().key, descending, 0), items.last())
        } else {
            rest.push(items.last())
        }
    }
}

/// The packages of a keyed list.
pub open spec fn packages_of(items: Seq<Keyed>) -> Seq<PackageView> {
    items.map_values(|k: Keyed| k.package)
}

/// The key for sorting by name without regard to case.
pub open spec fn name_key(p: PackageView) -> KeyView {
    KeyView { score: 0, first: lowercase(p.name), second: Seq::empty() }
}

/// The key for sorting by repository, then by name.
pub open spec fn repository_key(p: PackageView) -> KeyView {
    KeyView { score: 0, first: p.repository, second: p.name }
}

/// The key for ranking by how well a package matches a query.
pub open spec fn rank_key(p: PackageView, query: Seq<char>) -> KeyView {
    KeyView {
        score: capped(
            match_score(lowercase(p.name), lowercase(p.description), query),
            u64::MAX as int,
        ) as u64,
        first: lowercase(p.name),
        second: Seq::empty(),
    }
}

/// Whether the name or the description of a package holds the query,
/// without regard to case; the query is in lower case.
pub open spec fn mentions(p: PackageView, query: Seq<char>) -> bool {
    contains_sub(lowercase(p.name), query) || contains_sub(lowercase(p.description), query)
}

/// Whether a package passes a filter by query: every package passes the
/// empty query.
pub open spec fn passes(query: Seq<char>) -> spec_fn(PackageView) -> bool {
    |p: PackageView| query.len() == 0 || mentions(p, query)
}

/// The names to leave out of the updates: each entry trimmed and in lower
/// case, the empty ones left out.
pub open spec fn ignored_keys(entries: Seq<Seq<char>>) -> Seq<Seq<char>>
    decreases entries.len(),
{
    if entries.len() == 0 {
        Seq::empty()
    } else if lowercase(trim(entries.last())).len() == 0 {
        ignored_keys(entries.drop_last())
    } else {
        ignored_keys(entries.drop_last()).push(lowercase(trim(entries.last())))
    }
}

/// Whether an update is shown: it comes from the source that the scope
/// names, if it names one, and its name is not among those left out.
pub open spec fn shown(scope: Seq<char>, ignored: Seq<Seq<char>>) -> spec_fn(PackageView) -> bool {
    |p: PackageView|
        (if scope == "repo-only"@ {
            p.repository != "aur"@
        } else if scope == "aur-only"@ {
            p.repository == "aur"@
        } else {
            true
        }) && !ignored.contains(lowercase(p.name))
}

/// How the packages of a list are keyed: by name, by repository and name,
/// or by how well they match a query.
pub enum Keying {
    Name,
    Repository,
    Rank(Seq<char>),
}

/// The key of a package under a keying.
pub open spec fn key_of(p: PackageView, keying: Keying) -> KeyView {
    match keying {
        Keying::Name => name_key(p),
        Keying::Repository => repository_key(p),
        Keying::Rank(query) => rank_key(p, query),
    }
}

/// The packages with their keys.
pub open spec fn keyed(packages: Seq<PackageView>, keying: Keying) -> Seq<Keyed> {
    packages.map_values(|p: PackageView| Keyed { package: p, key: key_of(p, keying) })
}

/// The packages in the order of their keys, those of equal key in the
/// order they had.
pub open spec fn in_order(packages: Seq<PackageView>, keying: Keying, descending: bool) -> Seq<
    PackageView,
> {
    packages_of(sorted_stable(keyed(packages, keying), descending))
}

/// The packages that pass the query, in the order that the index names:
/// 0 for names from A to Z, 1 for names from Z to A, 2 for repository and
/// then name; any other index leaves the order as it is.
pub open spec fn filtered_and_sorted(
    packages: Seq<PackageView>,
    query: Seq<char>,
    sort_idx: u32,
) -> Seq<PackageView> {
    let kept = packages.filter(passes(lowercase(query)));
    if sort_idx == 0 {
        in_order(kept, Keying::Name, false)
    } else if sort_idx == 1 {
        in_order(kept, Keying::Name, true)
    } else if sort_idx == 2 {
        in_order(kept, Keying::Repository, false)
    } else {
        kept
    }
}

/// The first `limit` packages by how well they match the query, the best
/// first and those of equal score by name.
pub open spec fn ranked(packages: Seq<PackageView>, query: Seq<char>, limit: usize) -> Seq<
    PackageView,
> {
    let all = in_order(packages, Keying::Rank(lowercase(query)), false);
    if all.len() > limit {
        all.take(limit as int)
    } else {
        all
    }
}

/// Whether the key `a` is less than `b`.
fn less_key(a: &SortKey, b: &SortKey) -> (r: bool)
    ensures
        r == key_less(a@, b@),
{
    if a.score != b.score {
        return a.score < b.score;
    }
    if text_less(&a.first, &b.first) {
        return true;
    }
    if text_less(&b.first, &a.first) {
        proof {
            lemma_lex_total(a.first@, b.first@);
        }
        return false;
    }
    proof {
        lemma_lex_total(a.first@, b.first@);
    }
    text_less(&a.second, &b.second)
}

/// Whether a package with key `a` belongs before one with key `b`.
fn goes_before(a: &SortKey, b: &SortKey, descending: bool) -> (r: bool)
    ensures
        r == belongs_before(a@, b@, descending),
{
    if descending {
        less_key(b, a)
    } else {
        less_key(a, b)
    }
}

/// The views of packages and keys, paired.
pub open spec fn paired(packages: Seq<Package>, keys: Seq<SortKey>) -> Seq<Keyed> {
    Seq::new(packages.len(), |i: int| Keyed { package: packages[i]@, key: keys[i]@ })
}

/// The packages in the order of their keys, one key to a package, those
/// of equal key in the order they had. Where the keys are not as many as
/// the packages the order stays as it is.
pub fn sort_by_keys(packages: Vec<Package>, keys: Vec<SortKey>, descending: bool) -> (out: Vec<
    Package,
>)
    ensures
        package_views(out@) == if packages.len() == keys.len() {
            packages_of(sorted_stable(paired(packages@, keys@), descending))
        } else {
            package_views(packages@)
        },
{
    if packages.len() != keys.len() {
        return packages;
    }
    let ghost source = paired(packages@, keys@);
    let mut out: Vec<Package> = Vec::new();
    let mut out_keys: Vec<SortKey> = Vec::new();
    let mut rest_keys = keys;
    let mut rest = packages;
    let mut i: usize = 0;
    let n = rest.len();
    assert(paired(out@, out_keys@) =~= Seq::empty());
    assert(source.take(0) =~= Seq::empty());
    // The packages are taken from the back of the input after it is
    // reversed, so that each moves without a copy.
    let mut stack: Vec<Package> = Vec::new();
    let mut key_stack: Vec<SortKey> = Vec::new();
    while rest.len() > 0
        invariant
            rest.len() == rest_keys.len(),
            stack.len() == key_stack.len(),
            stack.len() + rest.len() == n,
            n == source.len(),
            forall|k: int| 0 <= k < rest.len() ==> source[k] == (Keyed {
                package: (#[trigger] rest@[k])@,
                key: rest_keys@[k]@,
            }),
            forall|k: int| 0 <= k < stack.len() ==> source[n - 1 - k] == (Keyed {
                package: (#[trigger] stack@[k])@,
                key: key_stack@[k]@,
            }),
        decreases rest.len(),
    {
        let p = rest.pop();
        let k = rest_keys.pop();
        match (p, k) {
            (Some(p), Some(k)) => {
                stack.push(p);
                key_stack.push(k);
            },
            _ => {},
        }
    }
    while i < n
        invariant
            i <= n,
            n == source.len(),
            stack.len() == key_stack.len(),
            stack.len() == n - i,
            out.len() == out_keys.len(),
            forall|k: int| 0 <= k < stack.len() ==> source[n - 1 - k] == (Keyed {
                package: (#[trigger] stack@[k])@,
                key: key_stack@[k]@,
            }),
            paired(out@, out_keys@) == sorted_stable(source.take(i as int), descending),
        decreases n - i,
    {
        let p = stack.pop();
        let k = key_stack.pop();
        match (p, k) {
            (Some(p), Some(k)) => {
                let ghost before = paired(out@, out_keys@);
                let ghost x = Keyed { package: p@, key: k@ };
                proof {
                    assert(source[i as int] == x);
                    let done = source.take(i + 1);
                    assert(done.drop_last() =~= source.take(i as int));
                    assert(done.last() == x);
                }
                let mut at: usize = 0;
                while at < out.len() && !goes_before(&k, &out_keys[at], descending)
                    invariant
                        at <= out.len(),
                        out.len() == out_keys.len(),
                        before == paired(out@, out_keys@),
                        slot_from(before, k@, descending, 0) == slot_from(
                            before,
                            k@,
                            descending,
                            at as int,
                        ),
                    decreases out.len() - at,
                {
                    assert(before[at as int].key == out_keys@[at as int]@);
                    at += 1;
                }
                proof {
                    if at < out.len() {
                        assert(before[at as int].key == out_keys@[at as int]@);
                    }
                    assert(slot_from(before, k@, descending, 0) == at);
                }
                out.insert(at, p);
                out_keys.insert(at, k);
                assert(paired(out@, out_keys@) =~= before.insert(at as int, x));
            },
            _ => {},
        }
        i += 1;
    }
    assert(source.take(n as int) =~= source);
    assert(package_views(out@) =~= packages_of(paired(out@, out_keys@)));
    out
}

/// The keys of the packages under a keying; a query for ranking is in
/// lower case already.
fn keys_for(packages: &Vec<Package>, by_repository: bool, rank_query: Option<&str>) -> (keys: Vec<
    SortKey,
>)
    ensures
        paired(packages@, keys@) == keyed(
            package_views(packages@),
            if by_repository {
                Keying::Repository
            } else {
                match rank_query {
                    Some(q) => Keying::Rank(q@),
                    None => Keying::Name,
                }
            },
        ),
        keys.len() == packages.len(),
{
    let mut keys: Vec<SortKey> = Vec::new();
    let ghost keying = if by_repository {
        Keying::Repository
    } else {
        match rank_query {
            Some(q) => Keying::Rank(q@),
            None => Keying::Name,
        }
    };
    let mut i: usize = 0;
    while i < packages.len()
        invariant
            i <= packages.len(),
            keys.len() == i,
            keying == if by_repository {
                Keying::Repository
            } else {
                match rank_query {
                    Some(q) => Keying::Rank(q@),
                    None => Keying::Name,
                }
            },
            forall|k: int| 0 <= k < i ==> (#[trigger] keys@[k])@ == key_of(packages@[k]@, keying),
        decreases packages.len() - i,
    {
        let p = &packages[i];
        let key = if by_repository {
            SortKey {
                score: 0,
                first: chars_of(p.repository.as_str()),
                second: chars_of(p.name.as_str()),
            }
        } else {
            match rank_query {
                Some(q) => SortKey {
                    score: package_match_score(p, q),
                    first: chars_of(p.name.to_lowercase().as_str()),
                    second: Vec::new(),
                },
                None => SortKey {
                    score: 0,
                    first: chars_of(p.name.to_lowercase().as_str()),
                    second: Vec::new(),
                },
            }
        };
        keys.push(key);
        i += 1;
    }
    assert(paired(packages@, keys@) =~= keyed(package_views(packages@), keying));
    keys
}

/// The packages that pass the query, in lower case already.
fn filter_by_query(packages: &Vec<Package>, query: &str) -> (kept: Vec<Package>)
    ensures
        package_views(kept@) == package_views(packages@).filter(passes(query@)),
{
    let q = chars_of(query);
    let mut kept: Vec<Package> = Vec::new();
    let ghost all = package_views(packages@);
    assert(package_views(kept@) =~= Seq::empty());
    assert(all.take(0) =~= Seq::empty());
    assert(Seq::<PackageView>::empty().filter(passes(query@)) =~= Seq::empty()) by {
        reveal(Seq::filter);
    }
    let mut i: usize = 0;
    while i < packages.len()
        invariant
            i <= packages.len(),
            q@ == query@,
            all == package_views(packages@),
            package_views(kept@) == all.take(i as int).filter(passes(query@)),
        decreases packages.len() - i,
    {
        let p = &packages[i];
        proof {
            assert(all.take(i + 1) =~= all.take(i as int).push(p@));
            all.take(i as int).lemma_filter_push(p@, passes(query@));
        }
        let pass = q.len() == 0 || has_sub(&chars_of(p.name.to_lowercase().as_str()), query)
            || has_sub(&chars_of(p.description.to_lowercase().as_str()), query);
        if pass {
            let copy = p.clone();
            assert(package_views(kept@.push(copy)) =~= package_views(kept@).push(copy@));
            kept.push(copy);
        }
        i += 1;
    }
    assert(all.take(packages.len() as int) =~= all);
    kept
}

/// The packages whose name or description holds the query, without regard
/// to case, in the order that the index names: 0 for names from A to Z, 1
/// for names from Z to A, 2 for repository and then name.
pub fn filter_and_sort_packages(packages: &Vec<Package>, query: &str, sort_idx: u32) -> (out: Vec<
    Package,
>)
    ensures
        package_views(out@) == filtered_and_sorted(package_views(packages@), query@, sort_idx),
{
    let kept = filter_by_query(packages, query.to_lowercase().as_str());
    if sort_idx == 0 {
        let keys = keys_for(&kept, false, None);
        sort_by_keys(kept, keys, false)
    } else if sort_idx == 1 {
        let keys = keys_for(&kept, false, None);
        sort_by_keys(kept, keys, true)
    } else if sort_idx == 2 {
        let keys = keys_for(&kept, true, None);
        sort_by_keys(kept, keys, false)
    } else {
        kept
    }
}

/// The first `limit` packages by how well they match the query, the best
/// first and those of equal score by name.
pub fn rank_packages_by_query(packages: Vec<Package>, query: &str, limit: usize) -> (out: Vec<
    Package,
>)
    ensures
        package_views(out@) == ranked(package_views(packages@), query@, limit),
{
    let norm_q = query.to_lowercase();
    let keys = keys_for(&packages, false, Some(norm_q.as_str()));
    let mut out = sort_by_keys(packages, keys, false);
    if out.len() > limit {
        let ghost all = package_views(out@);
        out.truncate(limit);
        assert(package_views(out@) =~= all.take(limit as int));
    }
    out
}

/// The names to leave out of the updates.
pub fn ignored_update_keys(entries: &Vec<String>) -> (keys: Vec<String>)
    ensures
        strs(keys@) == ignored_keys(strs(entries@)),
{
    let mut keys: Vec<String> = Vec::new();
    assert(strs(keys@) =~= Seq::empty());
    assert(strs(entries@).take(0) =~= Seq::empty());
    let mut i: usize = 0;
    while i < entries.len()
        invariant
            i <= entries.len(),
            strs(keys@) == ignored_keys(strs(entries@).take(i as int)),
        decreases entries.len() - i,
    {
        let key = string_of(&trimmed(&chars_of(entries[i].as_str()))).to_lowercase();
        proof {
            let done = strs(entries@).take(i + 1);
            assert(done.drop_last() =~= strs(entries@).take(i as int));
            assert(done.last() == entries@[i as int]@);
        }
        if chars_of(key.as_str()).len() > 0 {
            assert(strs(keys@.push(key)) =~= strs(keys@).push(key@));
            keys.push(key);
        }
        i += 1;
    }
    assert(strs(entries@).take(entries.len() as int) =~= strs(entries@));
    keys
}

/// The updates to show under the settings: those from the source that the
/// settings name, if they name one, without those that the settings leave
/// out.
pub fn filter_updates_by_source(packages: Vec<Package>, settings: &AppSettings) -> (out: Vec<
    Package,
>)
    ensures
        package_views(out@) == package_views(packages@).filter(
            shown(settings.show_only_updates_from@, ignored_keys(strs(settings.ignored_updates@))),
        ),
{
    let ignored = ignored_update_keys(&settings.ignored_updates);
    let scope = settings.show_only_updates_from.as_str();
    let repo_only = same_text(scope, "repo-only");
    let aur_only = same_text(scope, "aur-only");
    let ghost all = package_views(packages@);
    let ghost pred = shown(
        settings.show_only_updates_from@,
        ignored_keys(strs(settings.ignored_updates@)),
    );
    let mut out: Vec<Package> = Vec::new();
    assert(package_views(out@) =~= Seq::empty());
    assert(all.take(0) =~= Seq::empty());
    assert(Seq::<PackageView>::empty().filter(pred) =~= Seq::empty()) by {
        reveal(Seq::filter);
    }
    for p in it: packages
        invariant
            it.seq() == packages@,
            all == package_views(packages@),
            repo_only == (settings.show_only_updates_from@ == "repo-only"@),
            aur_only == (settings.show_only_updates_from@ == "aur-only"@),
            strs(ignored@) == ignored_keys(strs(settings.ignored_updates@)),
            pred == shown(
                settings.show_only_updates_from@,
                ignored_keys(strs(settings.ignored_updates@)),
            ),
            package_views(out@) == all.take(it.index() as int).filter(pred),
    {
        proof {
            let i = it.index() as int;
            assert(all.take(i + 1) =~= all.take(i).push(p@));
            all.take(i).lemma_filter_push(p@, pred);
        }
        let from_aur = same_text(p.repository.as_str(), "aur");
        let in_scope = if repo_only {
            !from_aur
        } else if aur_only {
            from_aur
        } else {
            true
        };
        if in_scope && !holds(&ignored, p.name.to_lowercase().as_str()) {
            assert(package_views(out@.push(p)) =~= package_views(out@).push(p@));
            out.push(p);
        }
    }
    assert(all.take(packages.len() as int) =~= all);
    out
}

/// The bytes that a character takes in UTF-8.
pub open spec fn utf8_width(c: char) -> nat {
    if '\u{80}' > c {
        1
    } else if '\u{800}' > c {
        2
    } else if '\u{10000}' > c {
        3
    } else {
        4
    }
}

/// Whether the text takes `count` bytes or more in UTF-8, counted over its
/// first `upto` characters.
pub open spec fn utf8_at_least(s: Seq<char>, count: int, upto: int) -> bool
    decreases upto,
{
    if count <= 0 {
        true
    } else if upto <= 0 || upto > s.len() {
        false
    } else {
        utf8_at_least(s, count - utf8_width(s[upto - 1]), upto - 1)
    }
}

/// The broader search to fall back on where a search found nothing: for
/// the first three characters of the query, with three times the limit
/// but no more than 500 results. There is none for a query of fewer than
/// three bytes.
pub open spec fn fallback_search(query: Seq<char>, limit: usize) -> Option<(Seq<char>, usize)> {
    if utf8_at_least(query, 3, query.len() as int) {
        Some(
            (
                if query.len() > 3 {
                    query.take(3)
                } else {
                    query
                },
                if limit * 3 > 500 {
                    500usize
                } else {
                    (limit * 3) as usize
                },
            ),
        )
    } else {
        None
    }
}

/// The first position at or after `from` of a line that begins, after its
/// leading white space, with `key`.
pub open spec fn keyed_line_from(all: Seq<Seq<char>>, key: Seq<char>, from: int) -> Option<int>
    decreases all.len() - from,
{
    if from < 0 || from >= all.len() {
        None
    } else if starts_with(all[from].skip(skip_ws(all[from], 0)), key) {
        Some(from)
    } else {
        keyed_line_from(all, key, from + 1)
    }
}

/// The size that a report of the package manager gives under `key`: what
/// follows the colon of the first line that begins with the key, trimmed,
/// after the word "Size: ". There is none where no line begins with the
/// key or that line has no colon.
pub open spec fn size_text(output: Seq<char>, key: Seq<char>) -> Option<Seq<char>> {
    match keyed_line_from(lines(output), key, 0) {
        Some(at) => match split_once(lines(output)[at], ':') {
            Some((head, value)) => Some("Size: "@ + trim(value)),
            None => None,
        },
        None => None,
    }
}

/// The bytes that a character takes in UTF-8.
fn width_of(c: char) -> (w: usize)
    ensures
        w == utf8_width(c),
{
    if '\u{80}' > c {
        1
    } else if '\u{800}' > c {
        2
    } else if '\u{10000}' > c {
        3
    } else {
        4
    }
}

/// The broader search to fall back on where a search for `query` found
/// nothing: its query and its limit, if there is one.
pub fn smart_search_fallback(query: &str, limit: usize) -> (r: Option<(String, usize)>)
    ensures
        match r {
            Some((prefix, most)) => fallback_search(query@, limit) == Some((prefix@, most)),
            None => fallback_search(query@, limit) is None,
        },
{
    let letters = chars_of(query);
    let mut need: usize = 3;
    let mut upto: usize = letters.len();
    while need > 0 && upto > 0
        invariant
            upto <= letters.len(),
            need <= 3,
            utf8_at_least(letters@, 3, letters.len() as int) == utf8_at_least(
                letters@,
                need as int,
                upto as int,
            ),
        decreases upto,
    {
        let w = width_of(letters[upto - 1]);
        proof {
            assert(utf8_at_least(letters@, need as int, upto as int) == utf8_at_least(
                letters@,
                need - w,
                upto - 1,
            ));
            if w >= need {
                assert(utf8_at_least(letters@, need - w, upto - 1));
                assert(utf8_at_least(letters@, 0, upto - 1));
            }
        }
        need = if w >= need {
            0
        } else {
            need - w
        };
        upto -= 1;
    }
    if need > 0 {
        return None;
    }
    let prefix = if letters.len() > 3 {
        let p = string_of_range(&letters, 0, 3);
        assert(letters@.subrange(0, 3) =~= letters@.take(3));
        p
    } else {
        string_of(&letters)
    };
    let most: usize = if limit > 166 {
        500
    } else {
        limit * 3
    };
    Some((prefix, most))
}

/// The size that a report of the package manager gives under `key`.
pub fn query_package_size_text(output: &str, key: &str) -> (r: Option<String>)
    ensures
        match r {
            Some(t) => size_text(output@, key@) == Some(t@),
            None => size_text(output@, key@) is None,
        },
{
    let all = split_lines(&chars_of(output));
    let k = chars_of(key);
    let mut at: usize = 0;
    while at < all.len()
        invariant
            at <= all.len(),
            k@ == key@,
            seqs(all@) == lines(output@),
            keyed_line_from(seqs(all@), key@, 0) == keyed_line_from(seqs(all@), key@, at as int),
        decreases all.len() - at,
    {
        let line = &all[at];
        assert(seqs(all@)[at as int] == line@);
        let start = skip_whitespace(line, 0);
        let rest = crate::text::slice_of(line, start, line.len());
        assert(rest@ =~= line@.skip(start as int));
        if matches_at(&rest, &k, 0) {
            return match crate::paru::halves(line, ':') {
                Some((head, value)) => {
                    let mut text = "Size: ".to_owned();
                    text.append(string_of(&trimmed(&value)).as_str());
                    Some(text)
                },
                None => None,
            };
        }
        at += 1;
    }
    None
}

} // verus!
