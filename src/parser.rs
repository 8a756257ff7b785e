//! The tiered path matcher.

use crate::pattern::{captures, captures_all, compile, regex_captures, regex_captures_all, regex_compiles, Pattern};
use vstd::prelude::*;

verus! {

/// A path found on a line, with the line number written after it, if any.
#[derive(Debug, PartialEq, Eq)]
pub struct MatchResult {
    pub path: String,
    pub line_number: Option<u32>,
}

/// A match as plain values: the path's characters and the line number.
pub type MatchView = (Seq<char>, Option<u32>);

pub open spec fn match_view(r: Option<MatchResult>) -> Option<MatchView> {
    match r {
        Some(m) => Some((m.path@, m.line_number)),
        None => None,
    }
}

/// Something that finds at most one path on a line of text.
pub trait Matcher {
    /// The match that `match_line` reports for `line`.
    spec fn spec_match_line(&self, line: Seq<char>) -> Option<MatchView>;

    /// Whether the matcher is ready for use.
    spec fn wf(&self) -> bool;

    fn match_line(&self, line: &str) -> (r: Option<MatchResult>)
        requires
            self.wf(),
        ensures
            match_view(r) == self.spec_match_line(line@),
    ;
}

/// Whether `c` is one of the ASCII digits `0` to `9`.
pub open spec fn is_digit(c: char) -> bool {
    '0' <= c && c <= '9'
}

/// The value of a run of decimal digits.
pub open spec fn digits_value(s: Seq<char>) -> nat
    decreases s.len(),
{
    if s.len() == 0 {
        0
    } else {
        (digits_value(s.drop_last()) * 10 + (s.last() as int - '0' as int)) as nat
    }
}

/// `s` without one leading `+`, if it has one.
pub open spec fn unsigned_part(s: Seq<char>) -> Seq<char> {
    if s.len() > 0 && s[0] == '+' {
        s.drop_first()
    } else {
        s
    }
}

/// Whether every character of `s` is an ASCII digit.
pub open spec fn all_digits(s: Seq<char>) -> bool {
    forall|i: int| 0 <= i < s.len() ==> is_digit(#[trigger] s[i])
}

/// What reading `s` as a `u32` gives: an optional `+` and then one or more
/// ASCII digits whose value fits; `None` for anything else.
pub open spec fn parse_u32_spec(s: Seq<char>) -> Option<u32> {
    let d = unsigned_part(s);
    if d.len() > 0 && all_digits(d) && digits_value(d) <= u32::MAX {
        Some(digits_value(d) as u32)
    } else {
        None
    }
}

/// Reads `s` as a line number; a digit run that does not fit gives `None`.
pub fn parse_line_number(s: &str) -> (r: Option<u32>)
    ensures
        r == parse_u32_spec(s@),
{
    let n = s.unicode_len();
    let mut start: usize = 0;
    if n > 0 && s.get_char(0) == '+' {
        start = 1;
    }
    if start >= n {
        return None;
    }
    let ghost d = unsigned_part(s@);
    proof {
        assert(d =~= s@.subrange(start as int, n as int));
    }
    let mut j: usize = start;
    while j < n
        invariant
            start <= j <= n,
            n == s@.len(),
            d == unsigned_part(s@),
            d =~= s@.subrange(start as int, n as int),
            forall|k: int| start <= k < j ==> is_digit(#[trigger] s@[k]),
        decreases n - j,
    {
        let c = s.get_char(j);
        if !('0' <= c && c <= '9') {
            proof {
                assert(d[j - start] == s@[j as int]);
                assert(!is_digit(d[j - start]));
            }
            return None;
        }
        j = j + 1;
    }
    proof {
        assert forall|k: int| 0 <= k < d.len() implies is_digit(#[trigger] d[k]) by {
            assert(d[k] == s@[k + start]);
        }
    }
    let mut value: u32 = 0;
    let mut i: usize = start;
    while i < n
        invariant
            start <= i <= n,
            n == s@.len(),
            d == unsigned_part(s@),
            d =~= s@.subrange(start as int, n as int),
            forall|k: int| 0 <= k < d.len() ==> is_digit(#[trigger] d[k]),
            value == digits_value(d.subrange(0, i - start)),
        decreases n - i,
    {
        let c = s.get_char(i);
        proof {
            assert(c == d[i - start]);
            assert(is_digit(d[i - start]));
        }
        let digit = (c as u32) - ('0' as u32);
        proof {
            let t = d.subrange(0, i - start + 1);
            assert(t.drop_last() =~= d.subrange(0, i - start));
            assert(t.last() == c);
            assert(digits_value(t) == value * 10 + digit);
        }
        if value > (u32::MAX - digit) / 10 {
            proof {
                lemma_digits_value_suffix_bound(d, (i - start + 1) as int);
                assert(value * 10 + digit > u32::MAX) by (nonlinear_arith)
                    requires
                        value > (u32::MAX - digit) / 10,
                        digit <= 9,
                ;
            }
            return None;
        }
        value = value * 10 + digit;
        i = i + 1;
    }
    proof {
        assert(d.subrange(0, n - start) =~= d);
    }
    Some(value)
}

/// The group at index `i`, or `None` where there is no such group.
pub open spec fn group_at(groups: Seq<Option<Seq<char>>>, i: int) -> Option<Seq<char>> {
    if 0 <= i < groups.len() {
        groups[i]
    } else {
        None
    }
}

/// The line number that a captured digit run gives; none where it is absent or
/// does not fit.
pub open spec fn line_number_of(g: Option<Seq<char>>) -> Option<u32> {
    match g {
        Some(t) => parse_u32_spec(t),
        None => None,
    }
}

/// The number of ASCII digits at the end of `s`.
pub open spec fn trailing_digit_count(s: Seq<char>) -> nat
    decreases s.len(),
{
    if s.len() > 0 && is_digit(s.last()) {
        1 + trailing_digit_count(s.drop_last())
    } else {
        0
    }
}

/// Where `path` ends in `-` and one or more ASCII digits, after a name that is
/// not empty and does not end in `/`: the index of that `-`.
pub open spec fn dash_number_at(path: Seq<char>) -> Option<int> {
    let k = path.len() - trailing_digit_count(path) - 1;
    if trailing_digit_count(path) > 0 && k >= 1 && path[k] == '-' && path[k - 1] != '/' {
        Some(k)
    } else {
        None
    }
}

/// The path and line number that a match reports. A line-number group decides
/// where there is one; without one, a trailing `-` and digits on the path are
/// the line number and are cut off the path.
pub open spec fn split_line_number(path: Seq<char>, number: Option<Seq<char>>) -> MatchView {
    match number {
        Some(d) => (path, parse_u32_spec(d)),
        None => match dash_number_at(path) {
            Some(k) => (path.subrange(0, k), parse_u32_spec(path.subrange(k + 1, path.len() as int))),
            None => (path, None),
        },
    }
}

fn is_ascii_digit(c: char) -> (r: bool)
    ensures
        r == is_digit(c),
{
    '0' <= c && c <= '9'
}

fn dash_number_index(path: &str) -> (r: Option<usize>)
    ensures
        r matches Some(k) ==> dash_number_at(path@) == Some(k as int),
        r is None ==> dash_number_at(path@) is None,
{
    let n = path.unicode_len();
    let mut j: usize = n;
    proof {
        assert(path@.subrange(0, n as int) =~= path@);
    }
    while j > 0 && is_ascii_digit(path.get_char(j - 1))
        invariant
            n == path@.len(),
            j <= n,
            trailing_digit_count(path@) == (n - j) + trailing_digit_count(path@.subrange(0, j as int)),
        decreases j,
    {
        proof {
            let t = path@.subrange(0, j as int);
            assert(t.drop_last() =~= path@.subrange(0, j - 1));
            assert(t.last() == path@[j - 1]);
        }
        j = j - 1;
    }
    proof {
        if j > 0 {
            assert(path@.subrange(0, j as int).last() == path@[j - 1]);
        }
    }
    if j == n || j < 2 {
        return None;
    }
    let k = j - 1;
    if path.get_char(k) == '-' && path.get_char(k - 1) != '/' {
        Some(k)
    } else {
        None
    }
}

/// The path and line number for `path`, with `groups[i]` as the line-number
/// group.
fn split_line_number_of(path: &str, groups: &Vec<Option<String>>, i: usize) -> (r: MatchResult)
    ensures
        (r.path@, r.line_number) == split_line_number(path@, group_at(groups.deep_view(), i as int)),
{
    if i < groups.len() {
        if let Some(t) = &groups[i] {
            proof {
                assert(groups.deep_view()[i as int] == Some(t@));
            }
            return MatchResult { path: path.to_string(), line_number: parse_line_number(t.as_str()) };
        }
        proof {
            assert(groups.deep_view()[i as int] is None);
        }
    }
    match dash_number_index(path) {
        Some(k) => {
            let n = path.unicode_len();
            let name = path.substring_char(0, k);
            let digits = path.substring_char(k + 1, n);
            MatchResult { path: name.to_string(), line_number: parse_line_number(digits) }
        },
        None => MatchResult { path: path.to_string(), line_number: None },
    }
}

fn group_line_number(groups: &Vec<Option<String>>, i: usize) -> (r: Option<u32>)
    ensures
        r == line_number_of(group_at(groups.deep_view(), i as int)),
{
    if i < groups.len() {
        match &groups[i] {
            Some(t) => {
                proof {
                    assert(groups.deep_view()[i as int] == Some(t@));
                }
                parse_line_number(t.as_str())
            },
            None => {
                proof {
                    assert(groups.deep_view()[i as int] is None);
                }
                None
            },
        }
    } else {
        None
    }
}

/// A longer digit run is worth at least as much as any of its prefixes.
proof fn lemma_digits_value_suffix_bound(s: Seq<char>, k: int)
    requires
        0 <= k <= s.len(),
        forall|i: int| 0 <= i < s.len() ==> is_digit(#[trigger] s[i]),
    ensures
        digits_value(s) >= digits_value(s.subrange(0, k)),
    decreases s.len() - k,
{
    if k < s.len() {
        lemma_digits_value_suffix_bound(s, k + 1);
        let t = s.subrange(0, k + 1);
        assert(t.drop_last() =~= s.subrange(0, k));
        assert(is_digit(t.last()));
    }
    else {
        assert(s.subrange(0, k) =~= s);
    }
}


/// Paths rooted at the home directory, with or without an extension.
pub const HOME_PATTERN: &'static str = r"(~/([a-zA-Z0-9._-]+/)*[a-zA-Z0-9._-]+(\.[a-zA-Z0-9]{1,42})?)[:-]?(\d+)?";

/// Paths of two or more segments, absolute or relative, with or without an
/// extension.
pub const PATH_PATTERN: &'static str = r"(/?([a-zA-Z0-9._-]+/)+[a-zA-Z0-9._-]+(\.[a-zA-Z0-9]{1,42})?)[:-]?(\d+)?";

/// A single file name with an extension.
pub const FILE_PATTERN: &'static str = r"(/?[a-zA-Z0-9._-]+\.[a-zA-Z0-9]{1,42})[:-]?(\d+)?";

/// The tiers in the order in which they are tried: each pattern's source and
/// the index of its line-number group.
pub open spec fn tier_table() -> Seq<(Seq<char>, int)> {
    seq![(HOME_PATTERN@, 4int), (PATH_PATTERN@, 4int), (FILE_PATTERN@, 2int)]
}

/// Whether the three path patterns compile.
pub open spec fn tier_patterns_compile() -> bool {
    &&& regex_compiles(HOME_PATTERN@)
    &&& regex_compiles(PATH_PATTERN@)
    &&& regex_compiles(FILE_PATTERN@)
}

/// Whether every pattern of the matcher compiles.
pub open spec fn all_patterns_compile() -> bool {
    tier_patterns_compile() && regex_compiles(WORD_PATTERN@)
}

/// `p` without a leading `a/` or `b/`, the prefixes that diff tools put on paths.
pub open spec fn strip_diff_prefix(p: Seq<char>) -> Seq<char> {
    if p.len() >= 2 && (p[0] == 'a' || p[0] == 'b') && p[1] == '/' {
        p.subrange(2, p.len() as int)
    } else {
        p
    }
}

/// The match that a winning tier's groups give: group one is the path, and the
/// group at `line_number_idx` the line number.
pub open spec fn tier_result(groups: Seq<Option<Seq<char>>>, line_number_idx: int) -> Option<MatchView> {
    match group_at(groups, 1) {
        Some(p) => Some(split_line_number(strip_diff_prefix(p), group_at(groups, line_number_idx))),
        None => None,
    }
}

/// The result of the first tier whose pattern matches `line`.
pub open spec fn first_tier_match(tiers: Seq<(Seq<char>, int)>, line: Seq<char>) -> Option<MatchView>
    decreases tiers.len(),
{
    if tiers.len() == 0 {
        None
    } else {
        match regex_captures(tiers[0].0, line) {
            Some(groups) => tier_result(groups, tiers[0].1),
            None => first_tier_match(tiers.drop_first(), line),
        }
    }
}

/// Removes a leading `a/` or `b/` from a captured path.
pub fn post_processing(path: &str) -> (r: &str)
    ensures
        r@ == strip_diff_prefix(path@),
{
    let n = path.unicode_len();
    if n >= 2 {
        let c0 = path.get_char(0);
        let c1 = path.get_char(1);
        if (c0 == 'a' || c0 == 'b') && c1 == '/' {
            return path.substring_char(2, n);
        }
    }
    path
}

/// The match that a winning tier's capture groups give.
pub fn match_from_captures(groups: &Vec<Option<String>>, line_number_idx: usize) -> (r: Option<MatchResult>)
    ensures
        match_view(r) == tier_result(groups.deep_view(), line_number_idx as int),
{
    if groups.len() < 2 {
        return None;
    }
    match &groups[1] {
        Some(p) => {
            proof {
                assert(groups.deep_view()[1] == Some(p@));
            }
            let path = post_processing(p.as_str());
            Some(split_line_number_of(path, groups, line_number_idx))
        },
        None => {
            proof {
                assert(groups.deep_view()[1] is None);
            }
            None
        },
    }
}

struct RegexConfig {
    pattern: Pattern,
    line_number_idx: usize,
}

/// Tries the path patterns in a fixed order; the first that matches decides.
pub struct RegexMatcher {
    regex_configs: Vec<RegexConfig>,
}

impl RegexMatcher {
    /// The tiers, in order, as pattern source and line-number group index.
    pub closed spec fn tiers(&self) -> Seq<(Seq<char>, int)> {
        self.regex_configs@.map_values(|c: RegexConfig| (c.pattern.source(), c.line_number_idx as int))
    }

    /// Compiles the three path patterns; `None` if one of them does not compile.
    pub fn new() -> (r: Option<Self>)
        ensures
            r is Some <==> tier_patterns_compile(),
            r matches Some(m) ==> m.wf(),
    {
        let home = compile(HOME_PATTERN)?;
        let path = compile(PATH_PATTERN)?;
        let file = compile(FILE_PATTERN)?;
        let regex_configs = vec![
            RegexConfig { pattern: home, line_number_idx: 4 },
            RegexConfig { pattern: path, line_number_idx: 4 },
            RegexConfig { pattern: file, line_number_idx: 2 },
        ];
        let r = RegexMatcher { regex_configs };
        proof {
            assert(r.tiers() =~= tier_table());
        }
        Some(r)
    }
}

impl Matcher for RegexMatcher {
    open spec fn spec_match_line(&self, line: Seq<char>) -> Option<MatchView> {
        first_tier_match(tier_table(), line)
    }

    open spec fn wf(&self) -> bool {
        self.tiers() == tier_table()
    }

    fn match_line(&self, line: &str) -> (r: Option<MatchResult>) {
        let ghost tiers = self.tiers();
        let n = self.regex_configs.len();
        let mut i: usize = 0;
        proof {
            assert(tiers.subrange(0, n as int) =~= tiers);
        }
        while i < n
            invariant
                n == self.regex_configs@.len(),
                tiers == self.tiers(),
                tiers == tier_table(),
                i <= n,
                first_tier_match(tiers, line@) == first_tier_match(tiers.subrange(i as int, n as int), line@),
            decreases n - i,
        {
            let config = &self.regex_configs[i];
            proof {
                assert(tiers.subrange(i as int, n as int).drop_first() =~= tiers.subrange(i + 1, n as int));
                assert(tiers.subrange(i as int, n as int)[0] == (config.pattern.source(), config.line_number_idx as int));
            }
            if let Some(groups) = captures(&config.pattern, line) {
                return match_from_captures(&groups, config.line_number_idx);
            }
            i = i + 1;
        }
        proof {
            assert(tiers.subrange(n as int, n as int).len() == 0);
        }
        None
    }
}


/// A word that may name a file: letters, digits, `_` and `-`, then an optional
/// line number.
pub const WORD_PATTERN: &'static str = r"\b([a-zA-Z0-9_-]+)[:-]?(\d+)?\b";

/// The first word match, left to right, whose word is one of `files`, or whose
/// word less a trailing `-` and digits is; the search stops at a match that
/// lacks its word group.
pub open spec fn first_cached_word(all: Seq<Seq<Option<Seq<char>>>>, files: Set<Seq<char>>) -> Option<MatchView>
    decreases all.len(),
{
    if all.len() == 0 {
        None
    } else {
        match group_at(all[0], 1) {
            None => None,
            Some(w) => if files.contains(w) {
                Some((w, line_number_of(group_at(all[0], 2))))
            } else if files.contains(split_line_number(w, group_at(all[0], 2)).0) {
                Some(split_line_number(w, group_at(all[0], 2)))
            } else {
                first_cached_word(all.drop_first(), files)
            },
        }
    }
}

/// The characters of each string.
pub open spec fn names_of(v: Seq<String>) -> Seq<Seq<char>> {
    v.map_values(|f: String| f@)
}

/// Whether a directory entry's name can stand for a file without an extension.
pub open spec fn is_extensionless(name: Seq<char>) -> bool {
    !name.contains('.')
}

/// The names that the single-file tier accepts, given the names of the files
/// directly in the working directory.
pub open spec fn cached_names(entries: Seq<Seq<char>>) -> Set<Seq<char>> {
    Set::new(|w: Seq<char>| entries.contains(w) && is_extensionless(w))
}

/// The match for `line`: the first path tier that matches, else the first word
/// that is one of `cache`.
pub open spec fn line_match(cache: Set<Seq<char>>, line: Seq<char>) -> Option<MatchView> {
    match first_tier_match(tier_table(), line) {
        Some(m) => Some(m),
        None => first_cached_word(regex_captures_all(WORD_PATTERN@, line), cache),
    }
}

fn has_dot(s: &str) -> (r: bool)
    ensures
        r == s@.contains('.'),
{
    let n = s.unicode_len();
    let mut i: usize = 0;
    while i < n
        invariant
            n == s@.len(),
            i <= n,
            forall|k: int| 0 <= k < i ==> s@[k] != '.',
        decreases n - i,
    {
        if s.get_char(i) == '.' {
            return true;
        }
        i = i + 1;
    }
    false
}

/// Matches a bare file name without an extension, but only one that names a
/// file found directly in the working directory when the matcher was built.
pub struct SingleFileMatcher {
    cached_single_files: Vec<String>,
    word_pattern: Pattern,
}

impl SingleFileMatcher {
    /// The cached file names.
    pub closed spec fn files(&self) -> Seq<Seq<char>> {
        names_of(self.cached_single_files@)
    }

    /// The names that this matcher accepts.
    pub open spec fn cache(&self) -> Set<Seq<char>> {
        self.files().to_set()
    }

    /// The source of the word pattern.
    pub closed spec fn word_source(&self) -> Seq<char> {
        self.word_pattern.source()
    }

    /// Builds the matcher from the names of the files directly in the working
    /// directory; the names that hold a `.` are left out. `None` if the word
    /// pattern does not compile.
    pub fn new(entries: Vec<String>) -> (r: Option<Self>)
        ensures
            r is Some <==> regex_compiles(WORD_PATTERN@),
            r matches Some(m) ==> m.wf() && m.cache() == cached_names(names_of(entries@)),
    {
        let word_pattern = compile(WORD_PATTERN)?;
        let ghost ev = names_of(entries@);
        let mut cached_single_files: Vec<String> = Vec::new();
        let mut i: usize = 0;
        while i < entries.len()
            invariant
                i <= entries@.len(),
                ev == names_of(entries@),
                forall|w: Seq<char>| #[trigger] names_of(cached_single_files@).contains(w) <==> (
                    ev.subrange(0, i as int).contains(w) && is_extensionless(w)),
            decreases entries.len() - i,
        {
            let ghost before = names_of(cached_single_files@);
            let name = &entries[i];
            let keep = !has_dot(name.as_str());
            if keep {
                cached_single_files.push(name.clone());
            }
            proof {
                let after = names_of(cached_single_files@);
                if keep {
                    assert(after =~= before.push(name@));
                } else {
                    assert(after =~= before);
                }
                let pre = ev.subrange(0, i as int);
                let cur = ev.subrange(0, i + 1);
                assert(cur =~= pre.push(name@));
                assert forall|w: Seq<char>| #[trigger] after.contains(w) <==> (
                    cur.contains(w) && is_extensionless(w)) by {
                    if after.contains(w) {
                        let k = choose|k: int| 0 <= k < after.len() && after[k] == w;
                        if keep && k == before.len() {
                            assert(cur[i as int] == w);
                        } else {
                            assert(before[k] == w);
                            assert(before.contains(w));
                            let j = choose|j: int| 0 <= j < pre.len() && pre[j] == w;
                            assert(cur[j] == w);
                        }
                    }
                    if cur.contains(w) && is_extensionless(w) {
                        let j = choose|j: int| 0 <= j < cur.len() && cur[j] == w;
                        if j == i {
                            assert(after[after.len() - 1] == w);
                        } else {
                            assert(pre[j] == w);
                            assert(pre.contains(w));
                            assert(before.contains(w));
                            let k = choose|k: int| 0 <= k < before.len() && before[k] == w;
                            assert(after[k] == w);
                        }
                    }
                }
            }
            i = i + 1;
        }
        let r = SingleFileMatcher { cached_single_files, word_pattern };
        proof {
            assert(ev.subrange(0, entries@.len() as int) =~= ev);
            assert(r.cache() =~= cached_names(ev));
        }
        Some(r)
    }

    fn is_cached(&self, word: &String) -> (r: bool)
        ensures
            r == self.cache().contains(word@),
    {
        let n = self.cached_single_files.len();
        let mut i: usize = 0;
        while i < n
            invariant
                n == self.cached_single_files@.len(),
                i <= n,
                forall|k: int| 0 <= k < i ==> self.files()[k] != word@,
            decreases n - i,
        {
            if self.cached_single_files[i] == *word {
                proof {
                    assert(self.files()[i as int] == word@);
                }
                return true;
            }
            i = i + 1;
        }
        false
    }
}

impl Matcher for SingleFileMatcher {
    open spec fn spec_match_line(&self, line: Seq<char>) -> Option<MatchView> {
        first_cached_word(regex_captures_all(WORD_PATTERN@, line), self.cache())
    }

    open spec fn wf(&self) -> bool {
        self.word_source() == WORD_PATTERN@
    }

    fn match_line(&self, line: &str) -> (r: Option<MatchResult>) {
        let all = captures_all(&self.word_pattern, line);
        let ghost a = all.deep_view();
        let ghost files = self.cache();
        let n = all.len();
        let mut i: usize = 0;
        proof {
            assert(a.subrange(0, n as int) =~= a);
        }
        while i < n
            invariant
                n == all@.len(),
                a == all.deep_view(),
                a == regex_captures_all(WORD_PATTERN@, line@),
                files == self.cache(),
                i <= n,
                first_cached_word(a, files) == first_cached_word(a.subrange(i as int, n as int), files),
            decreases n - i,
        {
            let groups = &all[i];
            proof {
                assert(a.subrange(i as int, n as int).drop_first() =~= a.subrange(i + 1, n as int));
                assert(a.subrange(i as int, n as int)[0] == groups.deep_view());
            }
            if groups.len() < 2 {
                return None;
            }
            match &groups[1] {
                None => {
                    proof {
                        assert(groups.deep_view()[1] is None);
                    }
                    return None;
                },
                Some(word) => {
                    proof {
                        assert(groups.deep_view()[1] == Some(word@));
                    }
                    if self.is_cached(word) {
                        let line_number = group_line_number(groups, 2);
                        return Some(MatchResult { path: word.clone(), line_number });
                    }
                    let split = split_line_number_of(word.as_str(), groups, 2);
                    if self.is_cached(&split.path) {
                        return Some(split);
                    }
                },
            }
            i = i + 1;
        }
        None
    }
}

/// The full matcher: the path patterns first, then the cached single files.
pub struct FilePathParser {
    regex_matcher: RegexMatcher,
    single_file_matcher: SingleFileMatcher,
}

impl FilePathParser {
    pub closed spec fn regex_part(&self) -> RegexMatcher {
        self.regex_matcher
    }

    pub closed spec fn single_file_part(&self) -> SingleFileMatcher {
        self.single_file_matcher
    }

    /// The names that the single-file tier accepts.
    pub open spec fn cache(&self) -> Set<Seq<char>> {
        self.single_file_part().cache()
    }

    /// Builds both matchers; `entries` are the names of the files directly in
    /// the working directory. `None` if a pattern does not compile.
    pub fn new(entries: Vec<String>) -> (r: Option<Self>)
        ensures
            r is Some <==> all_patterns_compile(),
            r matches Some(p) ==> p.wf() && p.cache() == cached_names(names_of(entries@)),
    {
        let regex_matcher = RegexMatcher::new()?;
        let single_file_matcher = SingleFileMatcher::new(entries)?;
        Some(FilePathParser { regex_matcher, single_file_matcher })
    }
}

impl Matcher for FilePathParser {
    open spec fn spec_match_line(&self, line: Seq<char>) -> Option<MatchView> {
        line_match(self.cache(), line)
    }

    open spec fn wf(&self) -> bool {
        self.regex_part().wf() && self.single_file_part().wf()
    }

    fn match_line(&self, line: &str) -> (r: Option<MatchResult>) {
        match self.regex_matcher.match_line(line) {
            Some(m) => Some(m),
            None => self.single_file_matcher.match_line(line),
        }
    }
}

/// A run of ASCII digits whose value fits in a `u32` reads as that value.
pub proof fn law_digits_read_as_number(digits: Seq<char>)
    requires
        digits.len() > 0,
        all_digits(digits),
        digits_value(digits) <= u32::MAX,
    ensures
        parse_u32_spec(digits) == Some(digits_value(digits) as u32),
{
    assert(is_digit(digits[0]));
}

/// A winning tier whose path group holds a path without a diff prefix, and whose
/// line-number group holds digits that fit, gives that path and that number.
pub proof fn law_path_and_line_number(groups: Seq<Option<Seq<char>>>, line_number_idx: int, path: Seq<char>, digits: Seq<char>)
    requires
        groups.len() > 1,
        groups[1] == Some(path),
        strip_diff_prefix(path) == path,
        0 <= line_number_idx < groups.len(),
        groups[line_number_idx] == Some(digits),
        digits.len() > 0,
        all_digits(digits),
        digits_value(digits) <= u32::MAX,
    ensures
        tier_result(groups, line_number_idx) == Some((path, Some(digits_value(digits) as u32))),
{
    law_digits_read_as_number(digits);
}

/// A path captured with a leading `a/` or `b/` is reported without it.
pub proof fn law_diff_prefix_stripped(path: Seq<char>)
    ensures
        strip_diff_prefix(seq!['a', '/'] + path) == path,
        strip_diff_prefix(seq!['b', '/'] + path) == path,
{
    let a = seq!['a', '/'] + path;
    let b = seq!['b', '/'] + path;
    assert(a[0] == 'a' && a[1] == '/');
    assert(b[0] == 'b' && b[1] == '/');
    assert(a.subrange(2, a.len() as int) =~= path);
    assert(b.subrange(2, b.len() as int) =~= path);
}

/// The single-file tier reports only names in its cache, and with an empty
/// cache it reports nothing.
pub proof fn law_single_file_needs_cache(all: Seq<Seq<Option<Seq<char>>>>, cache: Set<Seq<char>>)
    ensures
        first_cached_word(all, cache) matches Some(m) ==> cache.contains(m.0),
        cache == Set::<Seq<char>>::empty() ==> first_cached_word(all, cache) is None,
    decreases all.len(),
{
    if all.len() > 0 {
        law_single_file_needs_cache(all.drop_first(), cache);
    }
}

/// What the single-file matcher reports is one of the cached names, and a
/// matcher built from an empty directory listing reports nothing.
pub proof fn law_extensionless_needs_listing(m: SingleFileMatcher, line: Seq<char>)
    ensures
        m.spec_match_line(line) matches Some(r) ==> m.cache().contains(r.0),
        m.cache() == Set::<Seq<char>>::empty() ==> m.spec_match_line(line) is None,
{
    law_single_file_needs_cache(regex_captures_all(WORD_PATTERN@, line), m.cache());
}

/// An empty directory listing gives an empty cache.
pub proof fn law_empty_listing_empty_cache(entries: Seq<Seq<char>>)
    requires
        entries.len() == 0,
    ensures
        cached_names(entries) == Set::<Seq<char>>::empty(),
{
    assert(cached_names(entries) =~= Set::<Seq<char>>::empty());
}

/// Digits appended to a sequence add their number to its trailing digits.
proof fn lemma_trailing_digits(x: Seq<char>, d: Seq<char>)
    requires
        all_digits(d),
    ensures
        trailing_digit_count(x + d) == d.len() + trailing_digit_count(x),
    decreases d.len(),
{
    if d.len() == 0 {
        assert(x + d =~= x);
    } else {
        let dl = d.drop_last();
        assert(all_digits(dl)) by {
            assert forall|i: int| 0 <= i < dl.len() implies is_digit(#[trigger] dl[i]) by {
                assert(dl[i] == d[i]);
            }
        }
        lemma_trailing_digits(x, dl);
        assert((x + d).drop_last() =~= x + dl);
        assert((x + d).last() == d[d.len() - 1]);
        assert(is_digit(d[d.len() - 1]));
    }
}

/// A winning tier whose path group ends in `-` and digits, and whose
/// line-number group took no part, reports the path without them and the
/// digits as the line number.
pub proof fn law_dash_line_number(groups: Seq<Option<Seq<char>>>, line_number_idx: int, name: Seq<char>, digits: Seq<char>)
    requires
        groups.len() > 1,
        groups[1] == Some(name + seq!['-'] + digits),
        strip_diff_prefix(name + seq!['-'] + digits) == name + seq!['-'] + digits,
        group_at(groups, line_number_idx) is None,
        name.len() > 0,
        name.last() != '/',
        digits.len() > 0,
        all_digits(digits),
        digits_value(digits) <= u32::MAX,
    ensures
        tier_result(groups, line_number_idx) == Some((name, Some(digits_value(digits) as u32))),
{
    let x = name + seq!['-'];
    let p = x + digits;
    assert(name + seq!['-'] + digits == p);
    lemma_trailing_digits(x, digits);
    assert(x.last() == '-');
    assert(!is_digit(x.last()));
    assert(trailing_digit_count(x) == 0);
    let k = name.len() as int;
    assert(p[k] == '-');
    assert(p[k - 1] == name.last());
    assert(dash_number_at(p) == Some(k));
    assert(p.subrange(0, k) =~= name);
    assert(p.subrange(k + 1, p.len() as int) =~= digits);
    law_digits_read_as_number(digits);
}

/// The single-file tier reports nothing on a line where no word it finds is
/// cached, neither as it stands nor without a trailing `-` and digits.
pub proof fn law_no_cached_word_no_match(all: Seq<Seq<Option<Seq<char>>>>, cache: Set<Seq<char>>)
    requires
        forall|i: int| 0 <= i < all.len() ==> match #[trigger] group_at(all[i], 1) {
            Some(w) => !cache.contains(w) && !cache.contains(split_line_number(w, group_at(all[i], 2)).0),
            None => true,
        },
    ensures
        first_cached_word(all, cache) is None,
    decreases all.len(),
{
    if all.len() > 0 {
        let rest = all.drop_first();
        assert forall|i: int| 0 <= i < rest.len() implies match #[trigger] group_at(rest[i], 1) {
            Some(w) => !cache.contains(w) && !cache.contains(split_line_number(w, group_at(rest[i], 2)).0),
            None => true,
        } by {
            assert(rest[i] == all[i + 1]);
            assert(group_at(all[i + 1], 1) == group_at(rest[i], 1));
        }
        law_no_cached_word_no_match(rest, cache);
        assert(group_at(all[0], 1) == group_at(all[0], 1));
    }
}

} // verus!
