//! Progress and phase signals read from one line of package-manager output.
//!
//! The package manager prints no structured progress. These functions read
//! best-effort signals from its text: a completion fraction, from a
//! percentage or from a parenthesised `done/total` pair, and a phase label,
//! from a table of known phrases.

use crate::text::{
    all_digits, char_is_digit, chars_of, contains_sub, decimal_value, extend_chars, find_char,
    find_char_from, has_sub, index_of_char, is_digit, lemma_decimal_value_prefix,
    lemma_find_char_from, pow10, slice_of,
};
use vstd::prelude::*;

verus! {

/// A completion fraction, `numerator / denominator`, in whole numbers.
#[derive(Debug, Clone, Copy, PartialEq, Eq, Structural)]
pub struct Progress {
    pub numerator: u64,
    pub denominator: u64,
}

/// Whether the fraction lies between 0 and 1: its denominator is not 0 and
/// its numerator is no more than its denominator.
pub open spec fn within_unit(p: Progress) -> bool {
    0 < p.denominator && p.numerator <= p.denominator
}

impl Progress {
    /// Whether the fraction lies between 0 and 1.
    pub fn is_within_unit(&self) -> (r: bool)
        ensures
            r == within_unit(*self),
    {
        0 < self.denominator && self.numerator <= self.denominator
    }
}

/// Whether `c` may stand in the number before a percent sign.
pub open spec fn is_numeric(c: char) -> bool {
    is_digit(c) || c == '.'
}

/// Where the maximal run of digits and decimal points that ends just before
/// `end` begins.
pub open spec fn run_start(s: Seq<char>, end: int) -> int
    decreases end,
{
    if 0 < end <= s.len() && is_numeric(s[end - 1]) {
        run_start(s, end - 1)
    } else {
        end
    }
}

/// The digits of `run` before its first decimal point.
pub open spec fn whole_part(run: Seq<char>) -> Seq<char> {
    match find_char(run, '.') {
        Some(d) => run.take(d),
        None => run,
    }
}

/// What follows the first decimal point of `run`.
pub open spec fn fraction_part(run: Seq<char>) -> Seq<char> {
    match find_char(run, '.') {
        Some(d) => run.skip(d + 1),
        None => Seq::empty(),
    }
}

/// The most decimal places of a percentage that are read; further places
/// are dropped.
pub const KEPT_PLACES: usize = 17;

/// The decimal places that are read: the first seventeen.
pub open spec fn kept_places(fraction: Seq<char>) -> Seq<char> {
    if fraction.len() > KEPT_PLACES {
        fraction.take(KEPT_PLACES as int)
    } else {
        fraction
    }
}

/// The fraction that the decimal number `run`, read as a percentage, stands
/// for: its digits, down to the seventeenth decimal place, over a hundred
/// times ten for each place read. A numerator beyond 64 bits is held at the
/// largest number, which leaves the fraction above 1. There is none unless
/// `run` is digits with at most one decimal point and at least one digit.
pub open spec fn percent_fraction(run: Seq<char>) -> Option<Progress> {
    let digits = whole_part(run) + fraction_part(run);
    let read = whole_part(run) + kept_places(fraction_part(run));
    if all_digits(digits) && digits.len() > 0 {
        Some(
            Progress {
                numerator: if decimal_value(read) > u64::MAX {
                    u64::MAX
                } else {
                    decimal_value(read) as u64
                },
                denominator: (100 * pow10(kept_places(fraction_part(run)).len())) as u64,
            },
        )
    } else {
        None
    }
}

/// The fraction that the number before the first percent sign of `line`
/// stands for.
pub open spec fn percent_progress(line: Seq<char>) -> Option<Progress> {
    match find_char(line, '%') {
        Some(p) => percent_fraction(line.subrange(run_start(line, p), p)),
        None => None,
    }
}

/// The fraction `done/total` that `inner` writes: two unsigned integers
/// around the first slash, the second not zero, each fitting in 64 bits.
pub open spec fn ratio_fraction(inner: Seq<char>) -> Option<Progress> {
    match find_char(inner, '/') {
        Some(slash) => {
            let done = inner.take(slash);
            let total = inner.skip(slash + 1);
            if done.len() > 0 && total.len() > 0 && all_digits(done) && all_digits(total)
                && decimal_value(done) <= u64::MAX && 0 < decimal_value(total) <= u64::MAX {
                Some(
                    Progress {
                        numerator: decimal_value(done) as u64,
                        denominator: decimal_value(total) as u64,
                    },
                )
            } else {
                None
            }
        },
        None => None,
    }
}

/// The fraction written between the first opening and the first closing
/// parenthesis of `line`, where the closing one comes later.
pub open spec fn ratio_progress(line: Seq<char>) -> Option<Progress> {
    match (find_char(line, '('), find_char(line, ')')) {
        (Some(open), Some(close)) => if open < close {
            ratio_fraction(line.subrange(open + 1, close))
        } else {
            None
        },
        _ => None,
    }
}

/// The completion fraction that `line` reports: by its percentage, else by
/// its parenthesised pair.
pub open spec fn progress_of(line: Seq<char>) -> Option<Progress> {
    match percent_progress(line) {
        Some(p) => Some(p),
        None => ratio_progress(line),
    }
}

/// The phase that a lower-case line names: the label of the first phrase of
/// the table that occurs in it.
pub open spec fn phase_label(lower: Seq<char>) -> Option<Seq<char>> {
    if contains_sub(lower, "resolving dependencies"@) {
        Some("Resolving dependencies"@)
    } else if contains_sub(lower, "checking keys"@) {
        Some("Checking keys"@)
    } else if contains_sub(lower, "checking package integrity"@) {
        Some("Verifying package integrity"@)
    } else if contains_sub(lower, "loading package files"@) {
        Some("Loading package files"@)
    } else if contains_sub(lower, "checking for file conflicts"@) {
        Some("Checking file conflicts"@)
    } else if contains_sub(lower, "downloading"@) || contains_sub(lower, "retrieving"@) {
        Some("Downloading"@)
    } else if contains_sub(lower, "building"@) || contains_sub(lower, "makepkg"@) {
        Some("Building"@)
    } else if contains_sub(lower, "installing"@) || contains_sub(lower, "upgrading"@) {
        Some("Installing"@)
    } else if contains_sub(lower, "removing"@) {
        Some("Removing"@)
    } else {
        None
    }
}

/// The lower-case form of a string, as `str::to_lowercase` gives it.
pub uninterp spec fn lowercase(s: Seq<char>) -> Seq<char>;

/// `str::to_lowercase` returns the lower-case equivalent of the string, by
/// the Unicode rules; the result depends on the characters alone.
pub assume_specification[ str::to_lowercase ](s: &str) -> (r: String)
    ensures
        r@ == lowercase(s@),
;

/// The view of an optional string.
pub open spec fn opt_str(o: Option<String>) -> Option<Seq<char>> {
    match o {
        Some(s) => Some(s@),
        None => None,
    }
}

/// Ten to a smaller power is no larger.
pub proof fn lemma_pow10_monotone(j: nat, k: nat)
    requires
        j <= k,
    ensures
        1 <= pow10(j) <= pow10(k),
    decreases k,
{
    if j < k {
        lemma_pow10_monotone(j, (k - 1) as nat);
    } else if k > 0 {
        lemma_pow10_monotone((j - 1) as nat, (k - 1) as nat);
    }
}

/// The number that the digits `v[from..to]` write, if they are digits and the
/// number fits in 64 bits.
pub(crate) fn parse_decimal(v: &Vec<char>, from: usize, to: usize) -> (r: Option<u64>)
    requires
        from <= to <= v.len(),
    ensures
        r == if all_digits(v@.subrange(from as int, to as int)) && decimal_value(
            v@.subrange(from as int, to as int),
        ) <= u64::MAX {
            Some(decimal_value(v@.subrange(from as int, to as int)) as u64)
        } else {
            None
        },
{
    let ghost sub = v@.subrange(from as int, to as int);
    let mut acc: u64 = 0;
    let mut i: usize = from;
    while i < to
        invariant
            from <= i <= to <= v.len(),
            sub == v@.subrange(from as int, to as int),
            all_digits(sub.take(i - from)),
            acc == decimal_value(sub.take(i - from)),
        decreases to - i,
    {
        let c = v[i];
        assert(sub[i - from] == c);
        if !char_is_digit(c) {
            return None;
        }
        let d: u64 = (c as u32 - 48) as u64;
        proof {
            let t = sub.take(i - from + 1);
            assert(t.drop_last() =~= sub.take(i - from));
            assert(t.last() == c);
            assert(decimal_value(t) == acc * 10 + d);
            assert(all_digits(t)) by {
                assert forall|j: int| 0 <= j < t.len() implies is_digit(#[trigger] t[j]) by {
                    if j < i - from {
                        assert(sub.take(i - from)[j] == t[j]);
                    }
                }
            }
            if all_digits(sub) {
                lemma_decimal_value_prefix(sub, i - from + 1);
            }
        }
        if acc > (u64::MAX - d) / 10 {
            return None;
        }
        acc = acc * 10 + d;
        i += 1;
    }
    assert(sub.take(to - from) =~= sub);
    Some(acc)
}

/// A hundred times ten to the power of seventeen fits in 64 bits.
pub proof fn lemma_hundred_times_pow10_fits(k: nat)
    requires
        k <= KEPT_PLACES,
    ensures
        100 <= 100 * pow10(k) <= 10_000_000_000_000_000_000,
{
    reveal_with_fuel(pow10, 18);
    assert(pow10(17) == 100_000_000_000_000_000);
    lemma_pow10_monotone(k, 17);
}

/// A hundred times ten to the power `k`, for `k` up to seventeen.
pub fn hundred_times_pow10(k: usize) -> (r: u64)
    requires
        k <= KEPT_PLACES,
    ensures
        r == 100 * pow10(k as nat),
{
    let mut acc: u64 = 100;
    let mut j: usize = 0;
    while j < k
        invariant
            j <= k <= KEPT_PLACES,
            acc == 100 * pow10(j as nat),
        decreases k - j,
    {
        proof {
            lemma_hundred_times_pow10_fits((j + 1) as nat);
        }
        acc = acc * 10;
        j += 1;
    }
    acc
}

/// The number that the digits of `v` write, held at the largest number of
/// 64 bits where it is beyond; nothing where `v` holds another character.
pub fn parse_decimal_saturating(v: &Vec<char>) -> (r: Option<u64>)
    ensures
        r == if all_digits(v@) {
            Some(
                if decimal_value(v@) > u64::MAX {
                    u64::MAX
                } else {
                    decimal_value(v@) as u64
                },
            )
        } else {
            None
        },
{
    let mut acc: u64 = 0;
    let mut beyond = false;
    let mut i: usize = 0;
    while i < v.len()
        invariant
            i <= v.len(),
            all_digits(v@.take(i as int)),
            !beyond ==> acc == decimal_value(v@.take(i as int)),
            beyond ==> decimal_value(v@.take(i as int)) > u64::MAX,
        decreases v.len() - i,
    {
        let c = v[i];
        if !char_is_digit(c) {
            return None;
        }
        let d: u64 = (c as u32 - 48) as u64;
        proof {
            let t = v@.take(i + 1);
            assert(t.drop_last() =~= v@.take(i as int));
            assert(t.last() == c);
            assert(decimal_value(t) == decimal_value(v@.take(i as int)) * 10 + d);
            assert(all_digits(t)) by {
                assert forall|j: int| 0 <= j < t.len() implies is_digit(#[trigger] t[j]) by {
                    if j < i {
                        assert(v@.take(i as int)[j] == t[j]);
                    }
                }
            }
        }
        if !beyond {
            if acc > (u64::MAX - d) / 10 {
                beyond = true;
            } else {
                acc = acc * 10 + d;
            }
        }
        i += 1;
    }
    assert(v@.take(v.len() as int) =~= v@);
    if beyond {
        Some(u64::MAX)
    } else {
        Some(acc)
    }
}

/// The fraction that the number `v[from..to]`, read as a percentage, stands
/// for.
fn parse_percent_run(v: &Vec<char>, from: usize, to: usize) -> (r: Option<Progress>)
    requires
        from <= to <= v.len(),
    ensures
        r == percent_fraction(v@.subrange(from as int, to as int)),
{
    let ghost run = v@.subrange(from as int, to as int);
    let mut point: usize = from;
    while point < to && v[point] != '.'
        invariant
            from <= point <= to <= v.len(),
            run == v@.subrange(from as int, to as int),
            find_char(run, '.') == find_char_from(run, '.', point - from),
        decreases to - point,
    {
        assert(run[point - from] == v@[point as int]);
        point += 1;
    }
    let places_from: usize = if point < to {
        point + 1
    } else {
        to
    };
    let read_to: usize = if to - places_from > KEPT_PLACES {
        places_from + KEPT_PLACES
    } else {
        to
    };
    let ghost whole = v@.subrange(from as int, point as int);
    let ghost fraction = v@.subrange(places_from as int, to as int);
    let ghost kept = v@.subrange(places_from as int, read_to as int);
    proof {
        if point < to {
            assert(run[point - from] == v@[point as int]);
            assert(find_char(run, '.') == Some((point - from) as int));
            assert(whole =~= run.take(point - from));
            assert(fraction =~= run.skip(point - from + 1));
        } else {
            assert(find_char(run, '.') is None);
            assert(whole =~= run);
            assert(fraction =~= Seq::<char>::empty());
        }
        assert(whole == whole_part(run));
        assert(fraction == fraction_part(run));
        assert(kept =~= kept_places(fraction));
    }
    let mut rest: usize = read_to;
    while rest < to
        invariant
            from <= point <= places_from <= read_to <= rest <= to <= v.len(),
            run == v@.subrange(from as int, to as int),
            whole == v@.subrange(from as int, point as int),
            fraction == v@.subrange(places_from as int, to as int),
            whole == whole_part(run),
            fraction == fraction_part(run),
            forall|j: int| read_to <= j < rest ==> is_digit(#[trigger] v@[j]),
        decreases to - rest,
    {
        if !char_is_digit(v[rest]) {
            proof {
                let at = whole.len() + (rest - places_from);
                assert((whole + fraction)[at] == v@[rest as int]);
            }
            return None;
        }
        rest += 1;
    }
    let mut digits = slice_of(v, from, point);
    let places = slice_of(v, places_from, read_to);
    extend_chars(&mut digits, &places);
    assert(digits@ == whole + kept);
    if point - from + (to - places_from) == 0 {
        assert((whole + fraction).len() == 0);
        return None;
    }
    match parse_decimal_saturating(&digits) {
        Some(numerator) => {
            proof {
                assert(all_digits(whole + fraction)) by {
                    assert forall|j: int| 0 <= j < (whole + fraction).len() implies is_digit(
                        #[trigger] (whole + fraction)[j],
                    ) by {
                        if j < (whole + kept).len() {
                            assert((whole + fraction)[j] == (whole + kept)[j]);
                        } else {
                            assert((whole + fraction)[j] == v@[places_from + (j - whole.len())]);
                        }
                    }
                }
            }
            Some(Progress { numerator, denominator: hundred_times_pow10(read_to - places_from) })
        },
        None => {
            proof {
                if all_digits(whole + fraction) {
                    assert forall|j: int| 0 <= j < (whole + kept).len() implies is_digit(
                        #[trigger] (whole + kept)[j],
                    ) by {
                        assert((whole + fraction)[j] == (whole + kept)[j]);
                    }
                }
            }
            None
        },
    }
}

/// Where the run of digits and decimal points that ends just before `end`
/// begins.
fn numeric_run_start(v: &Vec<char>, end: usize) -> (start: usize)
    requires
        end <= v.len(),
    ensures
        start == run_start(v@, end as int),
        start <= end,
{
    let mut i: usize = end;
    while i > 0 && (char_is_digit(v[i - 1]) || v[i - 1] == '.')
        invariant
            i <= end <= v.len(),
            run_start(v@, end as int) == run_start(v@, i as int),
        decreases i,
    {
        i -= 1;
    }
    i
}

/// The fraction `done/total` that `v[from..to]` writes.
fn parse_ratio_inner(v: &Vec<char>, from: usize, to: usize) -> (r: Option<Progress>)
    requires
        from <= to <= v.len(),
    ensures
        r == ratio_fraction(v@.subrange(from as int, to as int)),
{
    let ghost inner = v@.subrange(from as int, to as int);
    let mut slash: usize = from;
    while slash < to && v[slash] != '/'
        invariant
            from <= slash <= to <= v.len(),
            inner == v@.subrange(from as int, to as int),
            find_char(inner, '/') == find_char_from(inner, '/', slash - from),
        decreases to - slash,
    {
        assert(inner[slash - from] == v@[slash as int]);
        slash += 1;
    }
    if slash == to {
        return None;
    }
    assert(inner[slash - from] == v@[slash as int]);
    assert(find_char(inner, '/') == Some((slash - from) as int));
    assert(inner.take(slash - from) =~= v@.subrange(from as int, slash as int));
    assert(inner.skip(slash - from + 1) =~= v@.subrange(slash + 1, to as int));
    if slash == from || slash + 1 == to {
        return None;
    }
    let done = parse_decimal(v, from, slash);
    let total = parse_decimal(v, slash + 1, to);
    match (done, total) {
        (Some(a), Some(b)) => if b > 0 {
            Some(Progress { numerator: a, denominator: b })
        } else {
            None
        },
        _ => None,
    }
}

/// The completion fraction that `line` reports. A percentage counts first:
/// the number that ends at the first percent sign, over a hundred. Else a
/// pair `(done/total)` counts: `done` over `total`. A line with neither
/// reports nothing.
pub fn parse_progress(line: &str) -> (r: Option<Progress>)
    ensures
        r == progress_of(line@),
{
    let v = chars_of(line);
    let percent = match index_of_char(&v, '%', 0) {
        Some(p) => {
            proof {
                lemma_find_char_from(v@, '%', 0);
            }
            let start = numeric_run_start(&v, p);
            parse_percent_run(&v, start, p)
        },
        None => None,
    };
    if percent.is_some() {
        return percent;
    }
    let open = index_of_char(&v, '(', 0);
    let close = index_of_char(&v, ')', 0);
    match (open, close) {
        (Some(a), Some(b)) => {
            proof {
                lemma_find_char_from(v@, '(', 0);
                lemma_find_char_from(v@, ')', 0);
            }
            if a < b {
                parse_ratio_inner(&v, a + 1, b)
            } else {
                None
            }
        },
        _ => None,
    }
}

/// The phase that a lower-case line names, by the first phrase of the table
/// that occurs in it.
pub fn detect_phase(lower: &str) -> (r: Option<String>)
    ensures
        opt_str(r) == phase_label(lower@),
{
    let v = chars_of(lower);
    if has_sub(&v, "resolving dependencies") {
        Some("Resolving dependencies".to_owned())
    } else if has_sub(&v, "checking keys") {
        Some("Checking keys".to_owned())
    } else if has_sub(&v, "checking package integrity") {
        Some("Verifying package integrity".to_owned())
    } else if has_sub(&v, "loading package files") {
        Some("Loading package files".to_owned())
    } else if has_sub(&v, "checking for file conflicts") {
        Some("Checking file conflicts".to_owned())
    } else if has_sub(&v, "downloading") || has_sub(&v, "retrieving") {
        Some("Downloading".to_owned())
    } else if has_sub(&v, "building") || has_sub(&v, "makepkg") {
        Some("Building".to_owned())
    } else if has_sub(&v, "installing") || has_sub(&v, "upgrading") {
        Some("Installing".to_owned())
    } else if has_sub(&v, "removing") {
        Some("Removing".to_owned())
    } else {
        None
    }
}

/// The phase that `line` names, whatever its case.
pub fn parse_phase(line: &str) -> (r: Option<String>)
    ensures
        opt_str(r) == phase_label(lowercase(line@)),
{
    let lower = line.to_lowercase();
    detect_phase(lower.as_str())
}

} // verus!
