//! The candidate pipeline: the paths matched on each line of input, each kept
//! once, in the order in which they were first seen.

use crate::parser::{all_patterns_compile, cached_names, line_match, names_of, FilePathParser, Matcher};
use vstd::prelude::*;

verus! {

/// The paths matched on `lines`, in order, one for each line that has a match.
pub open spec fn matched_paths(cache: Set<Seq<char>>, lines: Seq<Seq<char>>) -> Seq<Seq<char>>
    decreases lines.len(),
{
    if lines.len() == 0 {
        seq![]
    } else {
        let rest = matched_paths(cache, lines.drop_last());
        match line_match(cache, lines.last()) {
            Some(m) => rest.push(m.0),
            None => rest,
        }
    }
}

/// `s` with each value kept at its first occurrence only.
pub open spec fn first_occurrences(s: Seq<Seq<char>>) -> Seq<Seq<char>>
    decreases s.len(),
{
    if s.len() == 0 {
        seq![]
    } else if s.drop_last().contains(s.last()) {
        first_occurrences(s.drop_last())
    } else {
        first_occurrences(s.drop_last()).push(s.last())
    }
}

/// A value occurs in `first_occurrences(s)` exactly when it occurs in `s`.
pub proof fn lemma_first_occurrences_contains(s: Seq<Seq<char>>, x: Seq<char>)
    ensures
        first_occurrences(s).contains(x) <==> s.contains(x),
    decreases s.len(),
{
    if s.len() > 0 {
        let p = s.drop_last();
        lemma_first_occurrences_contains(p, x);
        lemma_first_occurrences_contains(p, s.last());
        assert(s =~= p.push(s.last()));
        if s.contains(x) {
            let k = choose|k: int| 0 <= k < s.len() && s[k] == x;
            if k < p.len() {
                assert(p[k] == x);
            }
        }
        if p.contains(x) {
            let k = choose|k: int| 0 <= k < p.len() && p[k] == x;
            assert(s[k] == x);
        }
        if !p.contains(s.last()) {
            let f = first_occurrences(p);
            assert(first_occurrences(s) == f.push(s.last()));
            if f.push(s.last()).contains(x) {
                let k = choose|k: int| 0 <= k < f.len() + 1 && f.push(s.last())[k] == x;
                if k < f.len() {
                    assert(f[k] == x);
                }
            }
            if f.contains(x) {
                let k = choose|k: int| 0 <= k < f.len() && f[k] == x;
                assert(f.push(s.last())[k] == x);
            }
            assert(f.push(s.last())[f.len() as int] == s.last());
        }
    }
}

/// No value occurs twice in `first_occurrences(s)`.
pub proof fn law_first_occurrences_unique(s: Seq<Seq<char>>)
    ensures
        first_occurrences(s).no_duplicates(),
    decreases s.len(),
{
    if s.len() > 0 {
        let p = s.drop_last();
        law_first_occurrences_unique(p);
        lemma_first_occurrences_contains(p, s.last());
    }
}

/// Keeping first occurrences twice keeps the same sequence as doing it once.
pub proof fn law_first_occurrences_idempotent(s: Seq<Seq<char>>)
    ensures
        first_occurrences(first_occurrences(s)) == first_occurrences(s),
{
    law_first_occurrences_unique(s);
    law_distinct_paths_keep_order(first_occurrences(s));
}

/// A sequence without duplicates keeps every value, in the same order.
pub proof fn law_distinct_paths_keep_order(s: Seq<Seq<char>>)
    requires
        s.no_duplicates(),
    ensures
        first_occurrences(s) == s,
    decreases s.len(),
{
    if s.len() > 0 {
        let p = s.drop_last();
        assert(p.no_duplicates()) by {
            assert forall|i: int, j: int| 0 <= i < p.len() && 0 <= j < p.len() && i != j implies p[i] != p[j] by {
                assert(s[i] == p[i] && s[j] == p[j]);
            }
        }
        law_distinct_paths_keep_order(p);
        if p.contains(s.last()) {
            let k = choose|k: int| 0 <= k < p.len() && p[k] == s.last();
            assert(s[k] == s[s.len() - 1]);
        }
        assert(s =~= p.push(s.last()));
    }
}

fn contains_path(paths: &Vec<String>, path: &String) -> (r: bool)
    ensures
        r == names_of(paths@).contains(path@),
{
    let n = paths.len();
    let mut i: usize = 0;
    while i < n
        invariant
            n == paths@.len(),
            i <= n,
            forall|k: int| 0 <= k < i ==> names_of(paths@)[k] != path@,
        decreases n - i,
    {
        if paths[i] == *path {
            proof {
                assert(names_of(paths@)[i as int] == path@);
            }
            return true;
        }
        i = i + 1;
    }
    false
}

/// The path matched on each line of `lines`, each kept once, in the order in
/// which it was first seen.
pub fn run_with_input(lines: Vec<String>, parser: &FilePathParser) -> (r: Vec<String>)
    requires
        parser.wf(),
    ensures
        names_of(r@) == first_occurrences(matched_paths(parser.cache(), names_of(lines@))),
{
    let ghost cache = parser.cache();
    let ghost ls = names_of(lines@);
    let mut matches: Vec<String> = Vec::new();
    let n = lines.len();
    let mut i: usize = 0;
    while i < n
        invariant
            n == lines@.len(),
            ls == names_of(lines@),
            cache == parser.cache(),
            parser.wf(),
            i <= n,
            names_of(matches@) == first_occurrences(matched_paths(cache, ls.subrange(0, i as int))),
        decreases n - i,
    {
        let ghost before = names_of(matches@);
        let ghost sub = ls.subrange(0, i + 1);
        proof {
            assert(sub.drop_last() =~= ls.subrange(0, i as int));
            assert(sub.last() == lines@[i as int]@);
        }
        if let Some(match_result) = parser.match_line(lines[i].as_str()) {
            let ghost m = matched_paths(cache, ls.subrange(0, i as int));
            proof {
                assert(matched_paths(cache, sub) == m.push(match_result.path@));
                assert(m.push(match_result.path@).drop_last() =~= m);
                lemma_first_occurrences_contains(m, match_result.path@);
            }
            if !contains_path(&matches, &match_result.path) {
                matches.push(match_result.path);
                proof {
                    assert(names_of(matches@) =~= before.push(match_result.path@));
                }
            }
        }
        i = i + 1;
    }
    proof {
        assert(ls.subrange(0, n as int) =~= ls);
    }
    matches
}

/// The candidates found in `lines`, with `entries` the names of the files
/// directly in the working directory; `None` if a pattern does not compile.
pub fn run(lines: Vec<String>, entries: Vec<String>) -> (r: Option<Vec<String>>)
    ensures
        r is Some <==> all_patterns_compile(),
        r matches Some(v) ==> names_of(v@) == first_occurrences(
            matched_paths(cached_names(names_of(entries@)), names_of(lines@)),
        ),
{
    let parser = FilePathParser::new(entries)?;
    Some(run_with_input(lines, &parser))
}

/// The paths whose flag in `exists` is set, in order.
pub open spec fn existing(paths: Seq<Seq<char>>, exists: Seq<bool>) -> Seq<Seq<char>>
    decreases paths.len(),
{
    if paths.len() == 0 || exists.len() == 0 {
        seq![]
    } else {
        let rest = existing(paths.drop_last(), exists.drop_last());
        if exists.last() {
            rest.push(paths.last())
        } else {
            rest
        }
    }
}

/// Drops the paths that do not exist: `exists` holds, for each path, whether it
/// was found on disk.
pub fn keep_existing(paths: Vec<String>, exists: Vec<bool>) -> (r: Vec<String>)
    requires
        paths@.len() == exists@.len(),
    ensures
        names_of(r@) == existing(names_of(paths@), exists@),
{
    let n = paths.len();
    let ghost ps = names_of(paths@);
    let mut r: Vec<String> = Vec::new();
    let mut i: usize = 0;
    while i < n
        invariant
            n == paths@.len(),
            n == exists@.len(),
            ps == names_of(paths@),
            i <= n,
            names_of(r@) == existing(ps.subrange(0, i as int), exists@.subrange(0, i as int)),
        decreases n - i,
    {
        let ghost before = names_of(r@);
        proof {
            assert(ps.subrange(0, i + 1).drop_last() =~= ps.subrange(0, i as int));
            assert(exists@.subrange(0, i + 1).drop_last() =~= exists@.subrange(0, i as int));
        }
        if exists[i] {
            r.push(paths[i].clone());
            proof {
                assert(names_of(r@) =~= before.push(ps[i as int]));
            }
        }
        i = i + 1;
    }
    proof {
        assert(ps.subrange(0, n as int) =~= ps);
        assert(exists@.subrange(0, n as int) =~= exists@);
    }
    r
}

/// Dropping the paths that do not exist after keeping first occurrences gives
/// what keeping first occurrences of the existing paths gives: whether a path
/// exists depends on the path alone.
pub proof fn law_existence_filter_commutes(s: Seq<Seq<char>>, on_disk: spec_fn(Seq<char>) -> bool)
    ensures
        existing(first_occurrences(s), first_occurrences(s).map_values(on_disk))
            == first_occurrences(s.filter(on_disk)),
    decreases s.len(),
{
    if s.len() > 0 {
        let p = s.drop_last();
        let x = s.last();
        assert(s =~= p.push(x));
        p.lemma_filter_push(x, on_disk);
        law_existence_filter_commutes(p, on_disk);
        let fp = first_occurrences(p);
        if p.contains(x) {
            if on_disk(x) {
                let k = choose|k: int| 0 <= k < p.len() && p[k] == x;
                broadcast use vstd::seq_lib::group_filter_ensures;
                assert(p.filter(on_disk).contains(p[k]));
                assert(p.filter(on_disk).push(x).drop_last() =~= p.filter(on_disk));
            }
        } else {
            let f = fp.push(x);
            assert(f.drop_last() =~= fp);
            assert(f.map_values(on_disk).drop_last() =~= fp.map_values(on_disk));
            assert(f.map_values(on_disk).last() == on_disk(x));
            if on_disk(x) {
                if p.filter(on_disk).contains(x) {
                    p.lemma_filter_contains_rev(on_disk, x);
                }
                assert(!p.filter(on_disk).contains(x));
                assert(p.filter(on_disk).push(x).drop_last() =~= p.filter(on_disk));
            }
        }
    }
}

} // verus!
