//! Text over sequences of characters: searching, trimming and splitting,
//! each with a mathematical definition and a verified implementation.

use vstd::prelude::*;

verus! {

/// `String::push` appends one character.
pub assume_specification[ String::push ](s: &mut String, c: char)
    ensures
        final(s)@ == old(s)@.push(c),
;

/// The views of a sequence of strings.
pub open spec fn strs(v: Seq<String>) -> Seq<Seq<char>> {
    v.map_values(|s: String| s@)
}

/// The first index at or after `from` at which `c` stands in `s`.
pub open spec fn find_char_from(s: Seq<char>, c: char, from: int) -> Option<int>
    decreases s.len() - from,
{
    if from < 0 || from >= s.len() {
        None
    } else if s[from] == c {
        Some(from)
    } else {
        find_char_from(s, c, from + 1)
    }
}

/// The first index at which `c` stands in `s`.
pub open spec fn find_char(s: Seq<char>, c: char) -> Option<int> {
    find_char_from(s, c, 0)
}

/// Whether `pat` stands in `s` at index `at`.
pub open spec fn occurs_at(s: Seq<char>, pat: Seq<char>, at: int) -> bool {
    0 <= at && at + pat.len() <= s.len() && s.subrange(at, at + pat.len()) == pat
}

/// The first index at or after `from` at which `pat` stands in `s`.
pub open spec fn find_sub_from(s: Seq<char>, pat: Seq<char>, from: int) -> Option<int>
    decreases s.len() + 1 - from,
{
    if from < 0 || from + pat.len() > s.len() {
        None
    } else if occurs_at(s, pat, from) {
        Some(from)
    } else {
        find_sub_from(s, pat, from + 1)
    }
}

/// The first index at which `pat` stands in `s`.
pub open spec fn find_sub(s: Seq<char>, pat: Seq<char>) -> Option<int> {
    find_sub_from(s, pat, 0)
}

/// Whether `pat` stands somewhere in `s`.
pub open spec fn contains_sub(s: Seq<char>, pat: Seq<char>) -> bool {
    exists|at: int| occurs_at(s, pat, at)
}

/// Whether `s` begins with `pat`.
pub open spec fn starts_with(s: Seq<char>, pat: Seq<char>) -> bool {
    occurs_at(s, pat, 0)
}

/// Whether `c` is one of the ten decimal digits.
pub open spec fn is_digit(c: char) -> bool {
    48 <= c as u32 <= 57
}

/// Whether every character of `s` is a decimal digit.
pub open spec fn all_digits(s: Seq<char>) -> bool {
    forall|i: int| 0 <= i < s.len() ==> is_digit(#[trigger] s[i])
}

/// The number that the decimal digits of `s` write.
pub open spec fn decimal_value(s: Seq<char>) -> nat
    decreases s.len(),
{
    if s.len() == 0 {
        0
    } else {
        decimal_value(s.drop_last()) * 10 + ((s.last() as u32 - 48) as nat)
    }
}

/// Ten to the power `k`.
pub open spec fn pow10(k: nat) -> nat
    decreases k,
{
    if k == 0 {
        1
    } else {
        10 * pow10((k - 1) as nat)
    }
}

/// What `find_char_from` finds is the first occurrence, and it finds one
/// whenever there is one.
pub proof fn lemma_find_char_from(s: Seq<char>, c: char, from: int)
    requires
        0 <= from,
    ensures
        match find_char_from(s, c, from) {
            Some(i) => from <= i < s.len() && s[i] == c && forall|j: int|
                from <= j < i ==> s[j] != c,
            None => forall|j: int| from <= j < s.len() ==> s[j] != c,
        },
    decreases s.len() - from,
{
    if from < s.len() && s[from] != c {
        lemma_find_char_from(s, c, from + 1);
    }
}

/// What `find_sub_from` finds is the first occurrence, and it finds one
/// whenever there is one.
pub proof fn lemma_find_sub_from(s: Seq<char>, pat: Seq<char>, from: int)
    requires
        0 <= from,
    ensures
        match find_sub_from(s, pat, from) {
            Some(i) => from <= i && occurs_at(s, pat, i) && forall|j: int|
                from <= j < i ==> !occurs_at(s, pat, j),
            None => forall|j: int| from <= j ==> !occurs_at(s, pat, j),
        },
    decreases s.len() + 1 - from,
{
    if from + pat.len() <= s.len() && !occurs_at(s, pat, from) {
        lemma_find_sub_from(s, pat, from + 1);
    }
}

/// `contains_sub` holds exactly when `find_sub` finds an index.
pub proof fn lemma_contains_sub(s: Seq<char>, pat: Seq<char>)
    ensures
        contains_sub(s, pat) <==> find_sub(s, pat) is Some,
{
    lemma_find_sub_from(s, pat, 0);
}

/// The value of a prefix of a digit string is at most the value of the whole.
pub proof fn lemma_decimal_value_prefix(s: Seq<char>, k: int)
    requires
        0 <= k <= s.len(),
        all_digits(s),
    ensures
        decimal_value(s.take(k)) <= decimal_value(s),
    decreases s.len() - k,
{
    if k < s.len() {
        let t = s.take(k + 1);
        assert(t.drop_last() =~= s.take(k));
        assert(is_digit(s[k]));
        assert(t.last() == s[k]);
        lemma_decimal_value_prefix(s, k + 1);
    } else {
        assert(s.take(k) =~= s);
    }
}

/// The characters of `s`, in order.
pub fn chars_of(s: &str) -> (out: Vec<char>)
    ensures
        out@ == s@,
{
    let mut out: Vec<char> = Vec::new();
    for c in it: s.chars()
        invariant
            it.seq() == s@,
            out@ == it.seq().take(it.index() as int),
    {
        out.push(c);
    }
    out
}

/// The string whose characters are `v[from..to]`.
pub(crate) fn string_of_range(v: &Vec<char>, from: usize, to: usize) -> (out: String)
    requires
        from <= to <= v.len(),
    ensures
        out@ == v@.subrange(from as int, to as int),
{
    let mut out = String::new();
    let mut i: usize = from;
    while i < to
        invariant
            from <= i <= to <= v.len(),
            out@ == v@.subrange(from as int, i as int),
        decreases to - i,
    {
        out.push(v[i]);
        assert(v@.subrange(from as int, i + 1) =~= v@.subrange(from as int, i as int).push(
            v@[i as int],
        ));
        i += 1;
    }
    out
}

/// The string whose characters are `v`.
pub fn string_of(v: &Vec<char>) -> (out: String)
    ensures
        out@ == v@,
{
    let out = string_of_range(v, 0, v.len());
    assert(v@.subrange(0, v.len() as int) =~= v@);
    out
}

/// Whether two strings hold the same characters.
pub fn same_text(a: &str, b: &str) -> (r: bool)
    ensures
        r == (a@ == b@),
{
    let x = chars_of(a);
    let y = chars_of(b);
    if x.len() != y.len() {
        return false;
    }
    let mut i: usize = 0;
    while i < x.len()
        invariant
            i <= x.len(),
            x.len() == y.len(),
            x@ == a@,
            y@ == b@,
            forall|j: int| 0 <= j < i ==> x@[j] == y@[j],
        decreases x.len() - i,
    {
        if x[i] != y[i] {
            assert(a@[i as int] != b@[i as int]);
            return false;
        }
        i += 1;
    }
    assert(x@ =~= y@);
    true
}

/// Whether `c` is a decimal digit.
pub fn char_is_digit(c: char) -> (r: bool)
    ensures
        r == is_digit(c),
{
    let n: u32 = c as u32;
    48 <= n && n <= 57
}

/// The first index at or after `from` at which `c` stands in `v`.
pub fn index_of_char(v: &Vec<char>, c: char, from: usize) -> (r: Option<usize>)
    ensures
        match r {
            Some(i) => find_char_from(v@, c, from as int) == Some(i as int),
            None => find_char_from(v@, c, from as int) is None,
        },
{
    let mut i: usize = from;
    while i < v.len()
        invariant
            from <= i,
            find_char_from(v@, c, from as int) == find_char_from(v@, c, i as int),
        decreases v.len() - i,
    {
        if v[i] == c {
            return Some(i);
        }
        i += 1;
    }
    None
}

/// Whether `pat` stands in `v` at index `at`.
pub fn matches_at(v: &Vec<char>, pat: &Vec<char>, at: usize) -> (r: bool)
    ensures
        r == occurs_at(v@, pat@, at as int),
{
    if pat.len() > v.len() || at > v.len() - pat.len() {
        return false;
    }
    let mut k: usize = 0;
    while k < pat.len()
        invariant
            k <= pat.len(),
            at + pat.len() <= v.len(),
            forall|j: int| 0 <= j < k ==> v@[at + j] == pat@[j],
        decreases pat.len() - k,
    {
        if v[at + k] != pat[k] {
            assert(v@.subrange(at as int, at + pat.len())[k as int] != pat@[k as int]);
            return false;
        }
        k += 1;
    }
    assert(v@.subrange(at as int, at + pat.len()) =~= pat@);
    true
}

/// The first index at or after `from` at which `pat` stands in `v`.
pub fn index_of_sub(v: &Vec<char>, pat: &Vec<char>, from: usize) -> (r: Option<usize>)
    ensures
        match r {
            Some(i) => find_sub_from(v@, pat@, from as int) == Some(i as int),
            None => find_sub_from(v@, pat@, from as int) is None,
        },
{
    if pat.len() > v.len() {
        return None;
    }
    let last: usize = v.len() - pat.len();
    let mut i: usize = from;
    while i <= last
        invariant
            from <= i,
            last == v.len() - pat.len(),
            find_sub_from(v@, pat@, from as int) == find_sub_from(v@, pat@, i as int),
        decreases last + 1 - i,
    {
        if matches_at(v, pat, i) {
            return Some(i);
        }
        if i == last {
            assert(find_sub_from(v@, pat@, i + 1) is None);
            return None;
        }
        i += 1;
    }
    None
}

/// Whether `pat` stands somewhere in `v`.
pub fn has_sub(v: &Vec<char>, pat: &str) -> (r: bool)
    ensures
        r == contains_sub(v@, pat@),
{
    let p = chars_of(pat);
    proof {
        lemma_contains_sub(v@, p@);
    }
    index_of_sub(v, &p, 0).is_some()
}

/// The views of a sequence of character vectors.
pub open spec fn seqs(v: Seq<Vec<char>>) -> Seq<Seq<char>> {
    v.map_values(|w: Vec<char>| w@)
}

/// Whether `c` is white space: a character with the Unicode property
/// `White_Space`.
pub open spec fn is_whitespace(c: char) -> bool {
    let n = c as u32;
    (9 <= n <= 13) || n == 32 || n == 0x85 || n == 0xA0 || n == 0x1680 || (0x2000 <= n <= 0x200A)
        || n == 0x2028 || n == 0x2029 || n == 0x202F || n == 0x205F || n == 0x3000
}

/// The first index at or after `from` that holds no white space, or the
/// length of `s`.
pub open spec fn skip_ws(s: Seq<char>, from: int) -> int
    decreases s.len() - from,
{
    if 0 <= from < s.len() && is_whitespace(s[from]) {
        skip_ws(s, from + 1)
    } else {
        from
    }
}

/// The first index at or after `from` that holds white space, or the length
/// of `s`.
pub open spec fn word_end(s: Seq<char>, from: int) -> int
    decreases s.len() - from,
{
    if 0 <= from < s.len() && !is_whitespace(s[from]) {
        word_end(s, from + 1)
    } else {
        from
    }
}

/// The end of `s[..to]` without its trailing white space.
pub open spec fn trim_end_at(s: Seq<char>, to: int) -> int
    decreases to,
{
    if 0 < to <= s.len() && is_whitespace(s[to - 1]) {
        trim_end_at(s, to - 1)
    } else {
        to
    }
}

/// `s` without leading and trailing white space.
pub open spec fn trim(s: Seq<char>) -> Seq<char> {
    let from = skip_ws(s, 0);
    let to = trim_end_at(s, s.len() as int);
    if from < to {
        s.subrange(from, to)
    } else {
        Seq::empty()
    }
}

/// The maximal runs of characters other than white space in `s`, from index
/// `from` on.
pub open spec fn words_from(s: Seq<char>, from: int) -> Seq<Seq<char>>
    decreases s.len() - from,
{
    let start = skip_ws(s, from);
    let end = word_end(s, start);
    if 0 <= from <= start && start < end <= s.len() {
        seq![s.subrange(start, end)] + words_from(s, end)
    } else {
        Seq::empty()
    }
}

/// The words of `s`: its maximal runs of characters other than white space.
pub open spec fn words(s: Seq<char>) -> Seq<Seq<char>> {
    words_from(s, 0)
}

/// `line` without one trailing carriage return.
pub open spec fn strip_cr(line: Seq<char>) -> Seq<char> {
    if line.len() > 0 && line.last() == '\r' {
        line.drop_last()
    } else {
        line
    }
}

/// The lines of `s` from index `from` on. A line ends at a line feed, which
/// is left out together with a carriage return just before it; what follows
/// the last line feed is a line too unless it is empty.
pub open spec fn lines_from(s: Seq<char>, from: int) -> Seq<Seq<char>>
    decreases s.len() - from,
{
    if from < 0 || from >= s.len() {
        Seq::empty()
    } else {
        match find_char_from(s, '\n', from) {
            Some(end) => if from <= end < s.len() {
                seq![strip_cr(s.subrange(from, end))] + lines_from(s, end + 1)
            } else {
                Seq::empty()
            },
            None => seq![s.subrange(from, s.len() as int)],
        }
    }
}

/// The lines of `s`.
pub open spec fn lines(s: Seq<char>) -> Seq<Seq<char>> {
    lines_from(s, 0)
}

/// `s` cut in two at the first `c`, which is left out.
pub open spec fn split_once(s: Seq<char>, c: char) -> Option<(Seq<char>, Seq<char>)> {
    match find_char(s, c) {
        Some(at) => Some((s.take(at), s.skip(at + 1))),
        None => None,
    }
}

/// `s` from index `at` on, with every occurrence of `pat` replaced by `by`,
/// the occurrences taken from the left and not overlapping.
pub open spec fn replace_from(s: Seq<char>, pat: Seq<char>, by: Seq<char>, at: int) -> Seq<char>
    decreases s.len() - at,
{
    if pat.len() == 0 || at < 0 || at > s.len() {
        Seq::empty()
    } else {
        match find_sub_from(s, pat, at) {
            Some(hit) => if at <= hit && hit + pat.len() <= s.len() {
                s.subrange(at, hit) + by + replace_from(s, pat, by, hit + pat.len())
            } else {
                Seq::empty()
            },
            None => s.skip(at),
        }
    }
}

/// `s` with every occurrence of `pat` replaced by `by`; an empty `pat`
/// occurs nowhere.
pub open spec fn replace(s: Seq<char>, pat: Seq<char>, by: Seq<char>) -> Seq<char> {
    if pat.len() == 0 {
        s
    } else {
        replace_from(s, pat, by, 0)
    }
}

/// The parts joined, with `sep` between each two.
pub open spec fn join(parts: Seq<Seq<char>>, sep: Seq<char>) -> Seq<char>
    decreases parts.len(),
{
    if parts.len() == 0 {
        Seq::empty()
    } else if parts.len() == 1 {
        parts[0]
    } else {
        join(parts.drop_last(), sep) + sep + parts.last()
    }
}

/// Whether `c` is white space.
pub fn char_is_whitespace(c: char) -> (r: bool)
    ensures
        r == is_whitespace(c),
{
    let n: u32 = c as u32;
    (9 <= n && n <= 13) || n == 32 || n == 0x85 || n == 0xA0 || n == 0x1680 || (0x2000 <= n && n
        <= 0x200A) || n == 0x2028 || n == 0x2029 || n == 0x202F || n == 0x205F || n == 0x3000
}

/// The characters `v[from..to]`.
pub(crate) fn slice_of(v: &Vec<char>, from: usize, to: usize) -> (out: Vec<char>)
    requires
        from <= to <= v.len(),
    ensures
        out@ == v@.subrange(from as int, to as int),
{
    let mut out: Vec<char> = Vec::new();
    let mut i: usize = from;
    while i < to
        invariant
            from <= i <= to <= v.len(),
            out@ == v@.subrange(from as int, i as int),
        decreases to - i,
    {
        out.push(v[i]);
        assert(v@.subrange(from as int, i + 1) =~= v@.subrange(from as int, i as int).push(
            v@[i as int],
        ));
        i += 1;
    }
    out
}

/// Appends the characters of `more` to `out`.
pub fn extend_chars(out: &mut Vec<char>, more: &Vec<char>)
    ensures
        final(out)@ == old(out)@ + more@,
{
    let mut i: usize = 0;
    while i < more.len()
        invariant
            i <= more.len(),
            out@ == old(out)@ + more@.take(i as int),
        decreases more.len() - i,
    {
        out.push(more[i]);
        assert(more@.take(i + 1) =~= more@.take(i as int).push(more@[i as int]));
        assert(out@ =~= old(out)@ + more@.take(i + 1));
        i += 1;
    }
    assert(more@.take(more.len() as int) =~= more@);
}

/// The first index at or after `from` that holds no white space.
pub(crate) fn skip_whitespace(v: &Vec<char>, from: usize) -> (r: usize)
    requires
        from <= v.len(),
    ensures
        r == skip_ws(v@, from as int),
        from <= r <= v.len(),
        r < v.len() ==> !is_whitespace(v@[r as int]),
{
    let mut i: usize = from;
    while i < v.len() && char_is_whitespace(v[i])
        invariant
            from <= i <= v.len(),
            skip_ws(v@, from as int) == skip_ws(v@, i as int),
        decreases v.len() - i,
    {
        i += 1;
    }
    i
}

/// The first index at or after `from` that holds white space.
pub(crate) fn end_of_word(v: &Vec<char>, from: usize) -> (r: usize)
    requires
        from <= v.len(),
    ensures
        r == word_end(v@, from as int),
        from <= r <= v.len(),
        from < v.len() && !is_whitespace(v@[from as int]) ==> from < r,
{
    let mut i: usize = from;
    while i < v.len() && !char_is_whitespace(v[i])
        invariant
            from <= i <= v.len(),
            word_end(v@, from as int) == word_end(v@, i as int),
            from < v.len() && !is_whitespace(v@[from as int]) && i == from ==> i < v.len(),
        decreases v.len() - i,
    {
        i += 1;
    }
    i
}

/// `v` without leading and trailing white space.
pub fn trimmed(v: &Vec<char>) -> (out: Vec<char>)
    ensures
        out@ == trim(v@),
{
    let from = skip_whitespace(v, 0);
    let mut to: usize = v.len();
    while to > 0 && char_is_whitespace(v[to - 1])
        invariant
            to <= v.len(),
            trim_end_at(v@, v.len() as int) == trim_end_at(v@, to as int),
        decreases to,
    {
        to -= 1;
    }
    if from < to {
        slice_of(v, from, to)
    } else {
        Vec::new()
    }
}

/// The words of `v`: its maximal runs of characters other than white space.
pub fn split_words(v: &Vec<char>) -> (out: Vec<Vec<char>>)
    ensures
        seqs(out@) == words(v@),
{
    let mut out: Vec<Vec<char>> = Vec::new();
    let mut at: usize = 0;
    assert(seqs(out@) =~= Seq::empty());
    loop
        invariant
            at <= v.len(),
            words(v@) == seqs(out@) + words_from(v@, at as int),
        decreases v.len() - at,
    {
        let start = skip_whitespace(v, at);
        if start >= v.len() {
            assert(seqs(out@) + Seq::<Seq<char>>::empty() =~= seqs(out@));
            return out;
        }
        let end = end_of_word(v, start);
        let word = slice_of(v, start, end);
        proof {
            assert(seqs(out@.push(word)) =~= seqs(out@) + seq![word@]);
            assert(seqs(out@) + (seq![word@] + words_from(v@, end as int)) =~= seqs(
                out@.push(word),
            ) + words_from(v@, end as int));
        }
        out.push(word);
        at = end;
    }
}

/// The lines of `v`.
pub fn split_lines(v: &Vec<char>) -> (out: Vec<Vec<char>>)
    ensures
        seqs(out@) == lines(v@),
{
    let mut out: Vec<Vec<char>> = Vec::new();
    let mut at: usize = 0;
    assert(seqs(out@) =~= Seq::empty());
    while at < v.len()
        invariant
            at <= v.len(),
            lines(v@) == seqs(out@) + lines_from(v@, at as int),
        decreases v.len() - at,
    {
        match index_of_char(v, '\n', at) {
            Some(end) => {
                proof {
                    lemma_find_char_from(v@, '\n', at as int);
                }
                let stop = if end > at && v[end - 1] == '\r' {
                    end - 1
                } else {
                    end
                };
                let line = slice_of(v, at, stop);
                proof {
                    let raw = v@.subrange(at as int, end as int);
                    if end > at {
                        assert(raw.last() == v@[end - 1]);
                    }
                    assert(line@ =~= strip_cr(raw));
                    assert(seqs(out@.push(line)) =~= seqs(out@) + seq![line@]);
                    assert(seqs(out@) + (seq![line@] + lines_from(v@, end + 1)) =~= seqs(
                        out@.push(line),
                    ) + lines_from(v@, end + 1));
                }
                out.push(line);
                at = end + 1;
            },
            None => {
                let line = slice_of(v, at, v.len());
                proof {
                    assert(seqs(out@.push(line)) =~= seqs(out@) + seq![line@]);
                }
                out.push(line);
                return out;
            },
        }
    }
    assert(seqs(out@) + Seq::<Seq<char>>::empty() =~= seqs(out@));
    out
}

/// `v` with every occurrence of `pat` replaced by `by`; an empty `pat`
/// occurs nowhere.
pub fn replaced(v: &Vec<char>, pat: &str, by: &str) -> (out: Vec<char>)
    ensures
        out@ == replace(v@, pat@, by@),
{
    let p = chars_of(pat);
    let b = chars_of(by);
    let mut out: Vec<char> = Vec::new();
    if p.len() == 0 {
        extend_chars(&mut out, v);
        assert(out@ =~= v@);
        return out;
    }
    let mut at: usize = 0;
    loop
        invariant
            at <= v.len(),
            p@ == pat@,
            b@ == by@,
            p@.len() > 0,
            replace(v@, p@, b@) == out@ + replace_from(v@, p@, b@, at as int),
        decreases v.len() - at,
    {
        match index_of_sub(v, &p, at) {
            Some(hit) => {
                proof {
                    lemma_find_sub_from(v@, p@, at as int);
                }
                let between = slice_of(v, at, hit);
                let ghost before = out@;
                extend_chars(&mut out, &between);
                extend_chars(&mut out, &b);
                proof {
                    assert(out@ + replace_from(v@, p@, b@, hit + p@.len()) =~= before + (
                    v@.subrange(at as int, hit as int) + b@ + replace_from(
                        v@,
                        p@,
                        b@,
                        hit + p@.len(),
                    )));
                }
                at = hit + p.len();
            },
            None => {
                let rest = slice_of(v, at, v.len());
                extend_chars(&mut out, &rest);
                assert(v@.subrange(at as int, v.len() as int) =~= v@.skip(at as int));
                return out;
            },
        }
    }
}

/// The parts joined, with `sep` between each two.
pub fn joined(parts: &Vec<String>, sep: &str) -> (out: String)
    ensures
        out@ == join(strs(parts@), sep@),
{
    let mut out = String::new();
    let mut i: usize = 0;
    while i < parts.len()
        invariant
            i <= parts.len(),
            out@ == join(strs(parts@).take(i as int), sep@),
        decreases parts.len() - i,
    {
        proof {
            let done = strs(parts@).take(i as int);
            let next = strs(parts@).take(i + 1);
            assert(next.drop_last() =~= done);
            assert(next.last() == parts@[i as int]@);
            if i == 0 {
                assert(done.len() == 0);
                assert(Seq::<char>::empty() + parts@[0]@ =~= parts@[0]@);
            }
        }
        if i > 0 {
            out.append(sep);
        }
        out.append(parts[i].as_str());
        proof {
            if i == 1 {
                let done = strs(parts@).take(1);
                assert(done.len() == 1);
                assert(join(done, sep@) == done[0]);
            }
        }
        i += 1;
    }
    assert(strs(parts@).take(parts.len() as int) =~= strs(parts@));
    out
}

/// A copy of a list of strings.
pub fn clone_strings(v: &Vec<String>) -> (r: Vec<String>)
    ensures
        strs(r@) == strs(v@),
{
    let mut r: Vec<String> = Vec::new();
    let mut i: usize = 0;
    while i < v.len()
        invariant
            i <= v.len(),
            r.len() == i,
            forall|j: int| 0 <= j < i ==> r@[j]@ == v@[j]@,
        decreases v.len() - i,
    {
        r.push(v[i].clone());
        i += 1;
    }
    assert(strs(r@) =~= strs(v@));
    r
}

/// Whether `a` comes before `b` in dictionary order, the characters compared
/// by their code points from index `at` on, where the two agree before it.
pub open spec fn lex_less_from(a: Seq<char>, b: Seq<char>, at: int) -> bool
    decreases b.len() - at,
{
    if at < 0 || at >= b.len() {
        false
    } else if at >= a.len() {
        true
    } else if a[at] != b[at] {
        a[at] < b[at]
    } else {
        lex_less_from(a, b, at + 1)
    }
}

/// Whether `a` comes before `b` in dictionary order.
pub open spec fn lex_less(a: Seq<char>, b: Seq<char>) -> bool {
    lex_less_from(a, b, 0)
}

/// No text comes before itself.
pub proof fn lemma_lex_irreflexive(a: Seq<char>, at: int)
    ensures
        !lex_less_from(a, a, at),
    decreases a.len() - at,
{
    if 0 <= at < a.len() {
        lemma_lex_irreflexive(a, at + 1);
    }
}

/// Dictionary order is transitive.
pub proof fn lemma_lex_transitive(a: Seq<char>, b: Seq<char>, c: Seq<char>, at: int)
    requires
        lex_less_from(a, b, at),
        lex_less_from(b, c, at),
    ensures
        lex_less_from(a, c, at),
    decreases c.len() - at,
{
    if at < a.len() && a[at] == b[at] && b[at] == c[at] {
        lemma_lex_transitive(a, b, c, at + 1);
    }
}

/// Of two texts that agree up to `at`, one comes before the other or they
/// are the same from there on.
pub proof fn lemma_lex_trichotomy(a: Seq<char>, b: Seq<char>, at: int)
    requires
        0 <= at <= a.len(),
        at <= b.len(),
        !lex_less_from(a, b, at),
        !lex_less_from(b, a, at),
    ensures
        a.skip(at) == b.skip(at),
    decreases a.len() - at,
{
    if at < a.len() && at < b.len() {
        if a[at] != b[at] {
            assert(lex_less_from(a, b, at) || lex_less_from(b, a, at));
        }
        assert(lex_less_from(a, b, at) == lex_less_from(a, b, at + 1));
        assert(lex_less_from(b, a, at) == lex_less_from(b, a, at + 1));
        lemma_lex_trichotomy(a, b, at + 1);
        assert(a.skip(at) =~= seq![a[at]] + a.skip(at + 1));
        assert(b.skip(at) =~= seq![b[at]] + b.skip(at + 1));
    } else {
        assert(a.skip(at) =~= b.skip(at));
    }
}

/// Two different texts: one comes before the other.
pub proof fn lemma_lex_total(a: Seq<char>, b: Seq<char>)
    ensures
        a == b || lex_less(a, b) || lex_less(b, a),
        !(lex_less(a, b) && lex_less(b, a)),
        !lex_less(a, a),
{
    lemma_lex_irreflexive(a, 0);
    if !lex_less(a, b) && !lex_less(b, a) {
        lemma_lex_trichotomy(a, b, 0);
        assert(a.skip(0) =~= a);
        assert(b.skip(0) =~= b);
    }
    if lex_less(a, b) && lex_less(b, a) {
        lemma_lex_transitive(a, b, a, 0);
    }
}

/// Whether `a` comes before `b` in dictionary order.
pub fn text_less(a: &Vec<char>, b: &Vec<char>) -> (r: bool)
    ensures
        r == lex_less(a@, b@),
{
    let mut i: usize = 0;
    while i < a.len() && i < b.len()
        invariant
            i <= a.len(),
            i <= b.len(),
            lex_less(a@, b@) == lex_less_from(a@, b@, i as int),
        decreases a.len() - i,
    {
        if a[i] != b[i] {
            return a[i] < b[i];
        }
        i += 1;
    }
    i < b.len()
}

/// Whether the string `a` comes before `b` in dictionary order.
pub fn str_less(a: &str, b: &str) -> (r: bool)
    ensures
        r == lex_less(a@, b@),
{
    text_less(&chars_of(a), &chars_of(b))
}

/// Whether the list holds `x`.
pub fn holds(list: &Vec<String>, x: &str) -> (r: bool)
    ensures
        r == strs(list@).contains(x@),
{
    let mut i: usize = 0;
    while i < list.len()
        invariant
            i <= list.len(),
            forall|j: int| 0 <= j < i ==> strs(list@)[j] != x@,
        decreases list.len() - i,
    {
        if same_text(list[i].as_str(), x) {
            assert(strs(list@)[i as int] == x@);
            return true;
        }
        i += 1;
    }
    false
}

/// What follows each occurrence of `pat` in `s` at or after `from`, up to
/// the next occurrence or the end; the occurrences are taken from the left
/// and do not overlap, and an empty `pat` occurs nowhere.
pub open spec fn after_each_from(s: Seq<char>, pat: Seq<char>, from: int) -> Seq<Seq<char>>
    decreases s.len() - from,
{
    match find_sub_from(s, pat, from) {
        Some(hit) => if pat.len() > 0 && 0 <= from <= hit && hit + pat.len() <= s.len() {
            seq![
                s.subrange(
                    hit + pat.len(),
                    match find_sub_from(s, pat, hit + pat.len()) {
                        Some(next) => if hit + pat.len() <= next <= s.len() {
                            next
                        } else {
                            s.len() as int
                        },
                        None => s.len() as int,
                    },
                ),
            ] + after_each_from(s, pat, hit + pat.len())
        } else {
            Seq::empty()
        },
        None => Seq::empty(),
    }
}

/// What follows each occurrence of `pat` in `s`, up to the next occurrence
/// or the end; an empty `pat` occurs nowhere.
pub open spec fn after_each(s: Seq<char>, pat: Seq<char>) -> Seq<Seq<char>> {
    after_each_from(s, pat, 0)
}

/// What stands in `s` between the first `open` and the next `close` after
/// it, where both are found.
pub open spec fn enclosed(s: Seq<char>, open: Seq<char>, close: Seq<char>) -> Option<Seq<char>> {
    match find_sub(s, open) {
        Some(start) => match find_sub_from(s, close, start + open.len()) {
            Some(end) => if start + open.len() <= end <= s.len() {
                Some(s.subrange(start + open.len(), end))
            } else {
                None
            },
            None => None,
        },
        None => None,
    }
}

/// What follows each occurrence of `pat` in `v`, up to the next occurrence
/// or the end; an empty `pat` occurs nowhere.
pub fn pieces_after(v: &Vec<char>, pat: &str) -> (out: Vec<Vec<char>>)
    ensures
        seqs(out@) == after_each(v@, pat@),
{
    let p = chars_of(pat);
    let mut out: Vec<Vec<char>> = Vec::new();
    assert(seqs(out@) =~= Seq::empty());
    if p.len() == 0 {
        return out;
    }
    let mut hit = match index_of_sub(v, &p, 0) {
        Some(hit) => hit,
        None => {
            return out;
        },
    };
    let ghost mut from: int = 0;
    loop
        invariant
            p@ == pat@,
            p@.len() > 0,
            0 <= from <= hit,
            find_sub_from(v@, p@, from) == Some(hit as int),
            after_each(v@, p@) == seqs(out@) + after_each_from(v@, p@, from),
        decreases v.len() - hit,
    {
        proof {
            lemma_find_sub_from(v@, p@, from);
            assert(occurs_at(v@, p@, hit as int));
            assert(hit + p.len() <= v.len());
        }
        let start = hit + p.len();
        let next = index_of_sub(v, &p, start);
        proof {
            lemma_find_sub_from(v@, p@, start as int);
        }
        let stop = match next {
            Some(n) => n,
            None => v.len(),
        };
        let piece = slice_of(v, start, stop);
        proof {
            assert(seqs(out@.push(piece)) =~= seqs(out@) + seq![piece@]);
            assert(seqs(out@) + (seq![piece@] + after_each_from(v@, p@, start as int)) =~= seqs(
                out@.push(piece),
            ) + after_each_from(v@, p@, start as int));
        }
        out.push(piece);
        match next {
            Some(n) => {
                proof {
                    from = start as int;
                }
                hit = n;
            },
            None => {
                assert(seqs(out@) + Seq::<Seq<char>>::empty() =~= seqs(out@));
                return out;
            },
        }
    }
}

/// What stands in `v` between the first `open` and the next `close` after
/// it, where both are found.
pub fn enclosed_in(v: &Vec<char>, open: &str, close: &str) -> (r: Option<Vec<char>>)
    ensures
        match r {
            Some(inner) => enclosed(v@, open@, close@) == Some(inner@),
            None => enclosed(v@, open@, close@) is None,
        },
{
    let o = chars_of(open);
    let c = chars_of(close);
    let start = match index_of_sub(v, &o, 0) {
        Some(start) => start,
        None => {
            return None;
        },
    };
    proof {
        lemma_find_sub_from(v@, o@, 0);
        assert(occurs_at(v@, o@, start as int));
        assert(start + o.len() <= v.len());
    }
    let after = start + o.len();
    let end = match index_of_sub(v, &c, after) {
        Some(end) => end,
        None => {
            return None;
        },
    };
    proof {
        lemma_find_sub_from(v@, c@, after as int);
        assert(occurs_at(v@, c@, end as int));
    }
    Some(slice_of(v, after, end))
}

} // verus!
