//! The filter engine: user filters and an optional search query, compiled
//! into regexes, deciding per line whether it is shown and in which color.

use vstd::prelude::*;

use crate::errors::CoreError;
use crate::indexer::line_at;
use crate::indexer::lossy_of;

verus! {

// ------------------------------------------------------------------
// Trusted boundary around the regex crate.
// ------------------------------------------------------------------

#[verifier::external_type_specification]
#[verifier::external_body]
pub struct ExRegex(regex::Regex);

/// Whether `regex::Regex::new` accepts `pattern`: compilation is a
/// deterministic function of the pattern alone (the crate's default size
/// limit is fixed).
pub uninterp spec fn regex_ok(pattern: Seq<char>) -> bool;

/// What `regex::Regex::is_match` returns for a regex compiled from
/// `pattern` when run on `line`: a deterministic function of the two.
pub uninterp spec fn regex_match(pattern: Seq<char>, line: Seq<char>) -> bool;

/// A compiled regex, remembering the pattern it was compiled from.
pub struct CompiledRegex {
    regex: regex::Regex,
    pattern: String,
}

impl CompiledRegex {
    /// The pattern this regex was compiled from.
    pub closed spec fn spec_pattern(self) -> Seq<char> {
        self.pattern@
    }
}

/// Relies on `regex::Regex::new`: it succeeds exactly on the patterns the
/// crate accepts, and the compiled regex is determined by the pattern.
#[verifier::external_body]
fn regex_compile(pattern: &str) -> (r: Result<CompiledRegex, String>)
    ensures
        r is Ok <==> regex_ok(pattern@),
        r is Ok ==> r->Ok_0.spec_pattern() == pattern@,
{
    match regex::Regex::new(pattern) {
        Ok(regex) => Ok(CompiledRegex { regex, pattern: pattern.to_owned() }),
        Err(e) => Err(format!("{}", e)),
    }
}

/// Relies on `regex::Regex::is_match`: the result depends on the compiled
/// pattern and the haystack alone.
#[verifier::external_body]
fn regex_is_match(re: &CompiledRegex, line: &str) -> (r: bool)
    ensures
        r == regex_match(re.spec_pattern(), line@),
{
    re.regex.is_match(line)
}

/// Relies on std's `format!` macro: the result is the two pieces, in order.
#[verifier::external_body]
fn concat_strs(a: &str, b: &str) -> (r: String)
    ensures
        r@ == a@ + b@,
{
    format!("{}{}", a, b)
}

// ------------------------------------------------------------------
// Filters.
// ------------------------------------------------------------------

/// One user filter. `is_include` decides inclusion versus exclusion.
#[derive(Debug, Clone)]
pub struct LogFilter {
    pub id: String,
    pub pattern: String,
    pub is_include: bool,
    pub is_enabled: bool,
    pub color: Option<String>,
    pub text_color: Option<String>,
}

impl LogFilter {
    /// A filter takes part in matching only when it is enabled and its
    /// pattern is non-empty.
    pub open spec fn spec_compiled(self) -> bool {
        self.is_enabled && self.pattern@.len() > 0
    }
}

/// Whether a single filter's regex hits the line.
pub open spec fn filter_hits(f: LogFilter, line: Seq<char>) -> bool {
    regex_match(f.pattern@, line)
}

/// The sentinel color used when a matching filter has no color of its own,
/// and for plain search hits.
pub open spec fn default_color() -> Seq<char> {
    "#fa5feb"@
}

/// The color a single filter paints with.
pub open spec fn filter_color(f: LogFilter) -> Seq<char> {
    match f.color {
        Some(c) => c@,
        None => default_color(),
    }
}

/// The prefix that makes the search query case-insensitive.
pub open spec fn ci_prefix() -> Seq<char> {
    "(?i)"@
}

/// The regex pattern a search query is compiled to.
pub open spec fn search_pattern(query: Seq<char>) -> Seq<char> {
    ci_prefix() + query
}

/// The filters that survive compilation, in input order: those enabled with
/// a non-empty pattern.
pub open spec fn compiled_of(fs: Seq<LogFilter>) -> Seq<LogFilter>
    decreases fs.len(),
{
    if fs.len() == 0 {
        Seq::empty()
    } else if fs[0].spec_compiled() {
        seq![fs[0]] + compiled_of(fs.drop_first())
    } else {
        compiled_of(fs.drop_first())
    }
}

/// Every pattern that would be compiled is one the regex crate accepts.
pub open spec fn filters_ok(filters: Seq<LogFilter>) -> bool {
    forall|i: int|
        0 <= i < compiled_of(filters).len() ==> regex_ok(
            #[trigger] compiled_of(filters)[i].pattern@,
        )
}

/// The search query is empty or compiles as a case-insensitive regex.
pub open spec fn search_ok(query: Seq<char>) -> bool {
    query.len() == 0 || regex_ok(search_pattern(query))
}

/// Some filter is enabled with a non-empty pattern.
pub open spec fn some_filter_compiled(filters: Seq<LogFilter>) -> bool {
    exists|i: int| 0 <= i < filters.len() && (#[trigger] filters[i]).spec_compiled()
}

/// The color of the first inclusion filter at or past position `i` whose
/// regex hits the line, if any.
pub open spec fn first_include_color_from(fs: Seq<LogFilter>, line: Seq<char>, i: int) -> Option<
    Seq<char>,
>
    decreases fs.len() - i when 0 <= i <= fs.len()
{
    if i >= fs.len() {
        None
    } else if fs[i].is_include && filter_hits(fs[i], line) {
        Some(filter_color(fs[i]))
    } else {
        first_include_color_from(fs, line, i + 1)
    }
}

/// The search regex, when one is set: the query wrapped case-insensitively.
pub open spec fn search_opt(query: Seq<char>) -> Option<Seq<char>> {
    if query.len() == 0 {
        None
    } else {
        Some(search_pattern(query))
    }
}

/// Some retained filter is an inclusion filter.
pub open spec fn rule_has_includes(fs: Seq<LogFilter>) -> bool {
    exists|i: int| 0 <= i < fs.len() && (#[trigger] fs[i]).is_include
}

/// Some exclusion filter hits the line.
pub open spec fn rule_excluded(fs: Seq<LogFilter>, line: Seq<char>) -> bool {
    exists|i: int|
        0 <= i < fs.len() && !(#[trigger] fs[i]).is_include && filter_hits(fs[i], line)
}

/// The search regex, when set, hits the line.
pub open spec fn rule_search_passes(search: Option<Seq<char>>, line: Seq<char>) -> bool {
    match search {
        Some(p) => regex_match(p, line),
        None => true,
    }
}

/// Some inclusion filter hits the line.
pub open spec fn rule_included(fs: Seq<LogFilter>, line: Seq<char>) -> bool {
    exists|i: int|
        0 <= i < fs.len() && (#[trigger] fs[i]).is_include && filter_hits(fs[i], line)
}

/// The acceptance rule: no exclusion hits, the search (when set) hits, and
/// either there are no inclusion filters or some inclusion hits.
pub open spec fn rule_matches(fs: Seq<LogFilter>, search: Option<Seq<char>>, line: Seq<char>) -> bool {
    &&& !rule_excluded(fs, line)
    &&& rule_search_passes(search, line)
    &&& (!rule_has_includes(fs) || rule_included(fs, line))
}

/// The color rule: after the exclusion and search gates, the color of the
/// first matching inclusion filter; with no inclusion filters, the sentinel
/// color exactly when a search is set (and hit).
pub open spec fn rule_color(fs: Seq<LogFilter>, search: Option<Seq<char>>, line: Seq<char>) -> Option<
    Seq<char>,
> {
    if rule_excluded(fs, line) || !rule_search_passes(search, line) {
        None
    } else if !rule_has_includes(fs) {
        if search is Some {
            Some(default_color())
        } else {
            None
        }
    } else {
        first_include_color_from(fs, line, 0)
    }
}

// ------------------------------------------------------------------
// The engine.
// ------------------------------------------------------------------

/// Compiled, immutable bundle of filters and an optional search regex.
pub struct FilterEngine {
    filters: Vec<(LogFilter, CompiledRegex)>,
    search_regex: Option<CompiledRegex>,
}

/// The filters of a sequence of compiled pairs, in order.
spec fn fst_of(ps: Seq<(LogFilter, CompiledRegex)>) -> Seq<LogFilter> {
    ps.map_values(|p: (LogFilter, CompiledRegex)| p.0)
}

impl FilterEngine {
    /// The retained filters, in input order.
    pub closed spec fn spec_filters(self) -> Seq<LogFilter> {
        fst_of(self.filters@)
    }

    /// The pattern of the search regex, if one is set.
    pub closed spec fn spec_search(self) -> Option<Seq<char>> {
        match self.search_regex {
            Some(c) => Some(c.spec_pattern()),
            None => None,
        }
    }

    /// Every stored regex was compiled from the filter it is paired with.
    pub closed spec fn wf(self) -> bool {
        forall|i: int|
            0 <= i < self.filters@.len() ==> (#[trigger] self.filters@[i]).1.spec_pattern()
                == self.filters@[i].0.pattern@
    }

    pub open spec fn spec_has_includes(self) -> bool {
        rule_has_includes(self.spec_filters())
    }

    /// Some exclusion filter hits the line.
    pub open spec fn spec_excluded(self, line: Seq<char>) -> bool {
        rule_excluded(self.spec_filters(), line)
    }

    /// The search regex, when set, hits the line.
    pub open spec fn spec_search_passes(self, line: Seq<char>) -> bool {
        rule_search_passes(self.spec_search(), line)
    }

    /// Some inclusion filter hits the line.
    pub open spec fn spec_included(self, line: Seq<char>) -> bool {
        rule_included(self.spec_filters(), line)
    }

    /// The acceptance rule, over this engine's filters and search.
    pub open spec fn spec_matches(self, line: Seq<char>) -> bool {
        rule_matches(self.spec_filters(), self.spec_search(), line)
    }

    /// The color rule, over this engine's filters and search.
    pub open spec fn spec_match_color(self, line: Seq<char>) -> Option<Seq<char>> {
        rule_color(self.spec_filters(), self.spec_search(), line)
    }

    /// Compiles the enabled, non-empty filters in order; fails on the first
    /// pattern the regex crate rejects, naming that filter.
    pub fn new(filters: Vec<LogFilter>) -> (r: Result<FilterEngine, CoreError>)
        ensures
            r is Ok <==> (forall|i: int|
                0 <= i < compiled_of(filters@).len() ==> regex_ok(
                    #[trigger] compiled_of(filters@)[i].pattern@,
                )),
            match r {
                Ok(engine) => {
                    &&& engine.wf()
                    &&& engine.spec_filters() == compiled_of(filters@)
                    &&& engine.spec_search() is None
                },
                Err(e) => exists|i: int|
                    {
                        &&& 0 <= i < compiled_of(filters@).len()
                        &&& !regex_ok(#[trigger] compiled_of(filters@)[i].pattern@)
                        &&& (forall|j: int|
                            0 <= j < i ==> regex_ok(#[trigger] compiled_of(filters@)[j].pattern@))
                        &&& (e matches CoreError::InvalidFilterRegex { id, reason: _ } && id@
                            == compiled_of(filters@)[i].id@)
                    },
            },
    {
        let ghost all = filters@;
        let mut rest = filters;
        let mut compiled: Vec<(LogFilter, CompiledRegex)> = Vec::new();
        while rest.len() > 0
            invariant
                all == filters@,
                compiled_of(all) == fst_of(compiled@) + compiled_of(rest@),
                forall|i: int|
                    0 <= i < compiled@.len() ==> (#[trigger] compiled@[i]).1.spec_pattern()
                        == compiled@[i].0.pattern@,
                forall|i: int|
                    0 <= i < compiled@.len() ==> regex_ok(#[trigger] compiled@[i].0.pattern@),
            decreases rest@.len(),
        {
            let ghost rest_before = rest@;
            let ghost kept = fst_of(compiled@);
            let f = rest.remove(0);
            proof {
                assert(rest_before[0] == f);
                assert(rest_before.drop_first() =~= rest@);
            }
            if f.is_enabled && !f.pattern.as_str().is_empty() {
                proof {
                    assert(f.spec_compiled());
                    assert(compiled_of(rest_before) =~= seq![f] + compiled_of(rest@));
                }
                match regex_compile(f.pattern.as_str()) {
                    Ok(c) => {
                        let ghost before_push = compiled@;
                        compiled.push((f, c));
                        proof {
                            assert(fst_of(compiled@) =~= fst_of(before_push) + seq![f]);
                            assert(compiled_of(all) =~= fst_of(compiled@) + compiled_of(rest@));
                        }
                    },
                    Err(reason) => {
                        proof {
                            let i = kept.len() as int;
                            assert(compiled_of(all) =~= kept + seq![f] + compiled_of(rest@));
                            assert(compiled_of(all)[i] == f);
                            assert(!regex_ok(compiled_of(all)[i].pattern@));
                            assert(forall|j: int|
                                0 <= j < i ==> #[trigger] compiled_of(all)[j] == kept[j]);
                            assert(forall|j: int|
                                0 <= j < i ==> #[trigger] kept[j] == compiled@[j].0);
                            assert(forall|j: int|
                                0 <= j < i ==> regex_ok(
                                    #[trigger] compiled_of(all)[j].pattern@,
                                ));
                        }
                        return Err(CoreError::InvalidFilterRegex { id: f.id, reason });
                    },
                }
            } else {
                proof {
                    assert(!f.spec_compiled());
                    assert(compiled_of(rest_before) =~= compiled_of(rest@));
                }
            }
        }
        proof {
            assert(compiled_of(rest@) =~= Seq::<LogFilter>::empty());
            assert(compiled_of(all) =~= fst_of(compiled@));
        }
        Ok(FilterEngine { filters: compiled, search_regex: None })
    }

    /// Sets or clears the search overlay. A non-empty query is wrapped to
    /// match case-insensitively; an empty query clears the overlay. On
    /// failure nothing changes.
    pub fn set_search_query(&mut self, query: &str) -> (r: Result<(), CoreError>)
        requires
            old(self).wf(),
        ensures
            final(self).wf(),
            final(self).spec_filters() == old(self).spec_filters(),
            r is Ok <==> (query@.len() == 0 || regex_ok(search_pattern(query@))),
            match r {
                Ok(_) => final(self).spec_search() == (if query@.len() == 0 {
                    None::<Seq<char>>
                } else {
                    Some(search_pattern(query@))
                }),
                Err(e) => final(self).spec_search() == old(self).spec_search() && e matches
                    CoreError::InvalidSearchRegex { .. },
            },
    {
        if query.is_empty() {
            self.search_regex = None;
            Ok(())
        } else {
            let wrapped = concat_strs("(?i)", query);
            match regex_compile(wrapped.as_str()) {
                Ok(c) => {
                    self.search_regex = Some(c);
                    Ok(())
                },
                Err(reason) => Err(CoreError::InvalidSearchRegex { reason }),
            }
        }
    }

    /// Whether the line passes the acceptance rule.
    pub fn matches(&self, line: &str) -> (r: bool)
        requires
            self.wf(),
        ensures
            r == self.spec_matches(line@),
    {
        let n = self.filters.len();

        // Exclusions reject first.
        let mut i: usize = 0;
        while i < n
            invariant
                self.wf(),
                n == self.filters@.len(),
                i <= n,
                forall|j: int|
                    0 <= j < i ==> (#[trigger] self.spec_filters()[j]).is_include || !filter_hits(
                        self.spec_filters()[j],
                        line@,
                    ),
            decreases n - i,
        {
            let p = &self.filters[i];
            proof {
                assert(self.spec_filters()[i as int] == self.filters@[i as int].0);
            }
            if !p.0.is_include && regex_is_match(&p.1, line) {
                proof {
                    assert(self.spec_excluded(line@));
                }
                return false;
            }
            i += 1;
        }
        assert(!self.spec_excluded(line@));

        // The search overlay, when set, must hit.
        match &self.search_regex {
            Some(re) => {
                if !regex_is_match(re, line) {
                    return false;
                }
            },
            None => {},
        }

        // With inclusion filters present, one of them must hit.
        let mut seen_include = false;
        let mut i: usize = 0;
        while i < n
            invariant
                self.wf(),
                n == self.filters@.len(),
                i <= n,
                !self.spec_excluded(line@),
                self.spec_search_passes(line@),
                seen_include == exists|j: int|
                    0 <= j < i && (#[trigger] self.spec_filters()[j]).is_include,
                forall|j: int|
                    0 <= j < i ==> !((#[trigger] self.spec_filters()[j]).is_include && filter_hits(
                        self.spec_filters()[j],
                        line@,
                    )),
            decreases n - i,
        {
            let p = &self.filters[i];
            proof {
                assert(self.spec_filters()[i as int] == self.filters@[i as int].0);
            }
            if p.0.is_include {
                seen_include = true;
                if regex_is_match(&p.1, line) {
                    proof {
                        assert(self.spec_included(line@));
                        assert(self.spec_has_includes());
                    }
                    return true;
                }
            }
            i += 1;
        }
        !seen_include
    }

    /// The color the line is painted with, when it is accepted and a filter
    /// or a search query gives it one.
    pub fn get_match_color(&self, line: &str) -> (r: Option<String>)
        requires
            self.wf(),
        ensures
            match r {
                Some(c) => self.spec_match_color(line@) == Some(c@),
                None => self.spec_match_color(line@) is None,
            },
    {
        let n = self.filters.len();

        // Exclusions reject first.
        let mut i: usize = 0;
        while i < n
            invariant
                self.wf(),
                n == self.filters@.len(),
                i <= n,
                forall|j: int|
                    0 <= j < i ==> (#[trigger] self.spec_filters()[j]).is_include || !filter_hits(
                        self.spec_filters()[j],
                        line@,
                    ),
            decreases n - i,
        {
            let p = &self.filters[i];
            proof {
                assert(self.spec_filters()[i as int] == self.filters@[i as int].0);
            }
            if !p.0.is_include && regex_is_match(&p.1, line) {
                proof {
                    assert(self.spec_excluded(line@));
                }
                return None;
            }
            i += 1;
        }
        assert(!self.spec_excluded(line@));

        // The search overlay, when set, must hit.
        match &self.search_regex {
            Some(re) => {
                if !regex_is_match(re, line) {
                    return None;
                }
            },
            None => {},
        }

        // The first matching inclusion filter decides the color.
        let mut seen_include = false;
        let mut i: usize = 0;
        while i < n
            invariant
                self.wf(),
                n == self.filters@.len(),
                i <= n,
                !self.spec_excluded(line@),
                self.spec_search_passes(line@),
                seen_include == exists|j: int|
                    0 <= j < i && (#[trigger] self.spec_filters()[j]).is_include,
                first_include_color_from(self.spec_filters(), line@, 0)
                    == first_include_color_from(self.spec_filters(), line@, i as int),
            decreases n - i,
        {
            let p = &self.filters[i];
            proof {
                assert(self.spec_filters()[i as int] == self.filters@[i as int].0);
            }
            if p.0.is_include {
                seen_include = true;
                if regex_is_match(&p.1, line) {
                    let c = match &p.0.color {
                        Some(c) => c.clone(),
                        None => "#fa5feb".to_owned(),
                    };
                    proof {
                        assert(self.spec_has_includes());
                        assert(first_include_color_from(self.spec_filters(), line@, i as int)
                            == Some(filter_color(self.spec_filters()[i as int])));
                    }
                    return Some(c);
                }
            }
            i += 1;
        }
        if seen_include {
            // Inclusion filters exist but none hit: no color.
            assert(self.spec_has_includes());
            assert(first_include_color_from(self.spec_filters(), line@, n as int) is None);
            None
        } else {
            // No inclusion filters: the sentinel color marks search hits.
            assert(!self.spec_has_includes());
            match &self.search_regex {
                Some(_) => Some("#fa5feb".to_owned()),
                None => None,
            }
        }
    }
}

// ------------------------------------------------------------------
// Bulk operations.
// ------------------------------------------------------------------

/// The views of a sequence of owned lines.
pub open spec fn views_of_strings(lines: Seq<String>) -> Seq<Seq<char>> {
    lines.map_values(|s: String| s@)
}

/// How many of the first `n` lines a single pattern hits.
pub open spec fn count_hits_upto(pattern: Seq<char>, lines: Seq<Seq<char>>, n: int) -> int
    decreases n,
{
    if n <= 0 {
        0
    } else {
        count_hits_upto(pattern, lines, n - 1) + if regex_match(pattern, lines[n - 1]) {
            1int
        } else {
            0int
        }
    }
}

/// How many of the first `n` offsets start a line the pattern hits.
pub open spec fn count_hits_at_offsets_upto(
    pattern: Seq<char>,
    m: Seq<u8>,
    offs: Seq<usize>,
    n: int,
) -> int
    decreases n,
{
    if n <= 0 {
        0
    } else {
        count_hits_at_offsets_upto(pattern, m, offs, n - 1) + if regex_match(
            pattern,
            lossy_of(line_at(m, offs[n - 1] as int)),
        ) {
            1int
        } else {
            0int
        }
    }
}

/// Of the first `n` line indices, those whose line the engine accepts.
pub open spec fn matching_indices_upto(
    engine: FilterEngine,
    lines: Seq<Seq<char>>,
    n: int,
) -> Seq<int>
    decreases n,
{
    if n <= 0 {
        Seq::empty()
    } else if engine.spec_matches(lines[n - 1]) {
        matching_indices_upto(engine, lines, n - 1).push(n - 1)
    } else {
        matching_indices_upto(engine, lines, n - 1)
    }
}

impl FilterEngine {
    /// For every retained filter, in order, how many of the lines that
    /// filter alone hits — not the composite rule.
    pub fn get_match_counts(&self, lines: &[String]) -> (r: Vec<(String, usize)>)
        requires
            self.wf(),
        ensures
            r@.len() == self.spec_filters().len(),
            forall|i: int|
                0 <= i < r@.len() ==> (#[trigger] r@[i]).0@ == self.spec_filters()[i].id@
                    && r@[i].1 == count_hits_upto(
                    self.spec_filters()[i].pattern@,
                    views_of_strings(lines@),
                    lines@.len() as int,
                ),
    {
        let nf = self.filters.len();
        let nl = lines.len();
        let mut r: Vec<(String, usize)> = Vec::new();
        let mut i: usize = 0;
        while i < nf
            invariant
                self.wf(),
                nf == self.filters@.len(),
                nl == lines@.len(),
                i <= nf,
                r@.len() == i,
                forall|k: int|
                    0 <= k < i ==> (#[trigger] r@[k]).0@ == self.spec_filters()[k].id@ && r@[k].1
                        == count_hits_upto(
                        self.spec_filters()[k].pattern@,
                        views_of_strings(lines@),
                        lines@.len() as int,
                    ),
            decreases nf - i,
        {
            let p = &self.filters[i];
            proof {
                assert(self.spec_filters()[i as int] == self.filters@[i as int].0);
            }
            let ghost pattern = self.spec_filters()[i as int].pattern@;
            let mut count: usize = 0;
            let mut j: usize = 0;
            while j < nl
                invariant
                    self.wf(),
                    nl == lines@.len(),
                    j <= nl,
                    count <= j,
                    pattern == p.1.spec_pattern(),
                    count == count_hits_upto(pattern, views_of_strings(lines@), j as int),
                decreases nl - j,
            {
                proof {
                    assert(views_of_strings(lines@)[j as int] == lines@[j as int]@);
                }
                if regex_is_match(&p.1, lines[j].as_str()) {
                    count += 1;
                }
                j += 1;
            }
            r.push((p.0.id.clone(), count));
            i += 1;
        }
        r
    }

    /// The same per-filter counts, but over the lines starting at the given
    /// offsets of the indexed file.
    pub fn get_match_counts_from_offsets(
        &self,
        indexer: &crate::indexer::Indexer,
        offsets: &[usize],
    ) -> (r: Vec<(String, usize)>)
        requires
            self.wf(),
            forall|i: int|
                0 <= i < offsets@.len() ==> ((#[trigger] offsets@[i]) as int)
                    < indexer.bytes().len(),
        ensures
            r@.len() == self.spec_filters().len(),
            forall|i: int|
                0 <= i < r@.len() ==> (#[trigger] r@[i]).0@ == self.spec_filters()[i].id@
                    && r@[i].1 == count_hits_at_offsets_upto(
                    self.spec_filters()[i].pattern@,
                    indexer.bytes(),
                    offsets@,
                    offsets@.len() as int,
                ),
    {
        let nf = self.filters.len();
        let nl = offsets.len();
        let mut r: Vec<(String, usize)> = Vec::new();
        let mut i: usize = 0;
        while i < nf
            invariant
                self.wf(),
                nf == self.filters@.len(),
                nl == offsets@.len(),
                forall|k: int|
                    0 <= k < offsets@.len() ==> ((#[trigger] offsets@[k]) as int)
                        < indexer.bytes().len(),
                i <= nf,
                r@.len() == i,
                forall|k: int|
                    0 <= k < i ==> (#[trigger] r@[k]).0@ == self.spec_filters()[k].id@ && r@[k].1
                        == count_hits_at_offsets_upto(
                        self.spec_filters()[k].pattern@,
                        indexer.bytes(),
                        offsets@,
                        offsets@.len() as int,
                    ),
            decreases nf - i,
        {
            let p = &self.filters[i];
            proof {
                assert(self.spec_filters()[i as int] == self.filters@[i as int].0);
            }
            let ghost pattern = self.spec_filters()[i as int].pattern@;
            let mut count: usize = 0;
            let mut j: usize = 0;
            while j < nl
                invariant
                    self.wf(),
                    nl == offsets@.len(),
                    forall|k: int|
                        0 <= k < offsets@.len() ==> ((#[trigger] offsets@[k]) as int)
                            < indexer.bytes().len(),
                    j <= nl,
                    count <= j,
                    pattern == p.1.spec_pattern(),
                    count == count_hits_at_offsets_upto(
                        pattern,
                        indexer.bytes(),
                        offsets@,
                        j as int,
                    ),
                decreases nl - j,
            {
                let line = indexer.get_line_at_offset_raw(offsets[j]);
                if regex_is_match(&p.1, line.as_str()) {
                    count += 1;
                }
                j += 1;
            }
            r.push((p.0.id.clone(), count));
            i += 1;
        }
        r
    }

    /// The indices of the lines the acceptance rule keeps, in ascending
    /// order.
    pub fn filter_indices(&self, lines: &[String]) -> (r: Vec<usize>)
        requires
            self.wf(),
        ensures
            r@.map_values(|u: usize| u as int) == matching_indices_upto(
                *self,
                views_of_strings(lines@),
                lines@.len() as int,
            ),
    {
        let nl = lines.len();
        let mut r: Vec<usize> = Vec::new();
        let mut j: usize = 0;
        while j < nl
            invariant
                self.wf(),
                nl == lines@.len(),
                j <= nl,
                r@.map_values(|u: usize| u as int) == matching_indices_upto(
                    *self,
                    views_of_strings(lines@),
                    j as int,
                ),
            decreases nl - j,
        {
            proof {
                assert(views_of_strings(lines@)[j as int] == lines@[j as int]@);
            }
            let ghost before = r@;
            if self.matches(lines[j].as_str()) {
                r.push(j);
                proof {
                    assert(r@.map_values(|u: usize| u as int) =~= before.map_values(
                        |u: usize| u as int,
                    ).push(j as int));
                }
            }
            j += 1;
        }
        r
    }
}

// ------------------------------------------------------------------
// Laws.
// ------------------------------------------------------------------

/// A line gets a color exactly when it is accepted and there is something to
/// color it with: an inclusion filter or a search query.
pub proof fn lemma_color_accept_agreement(
    fs: Seq<LogFilter>,
    search: Option<Seq<char>>,
    line: Seq<char>,
)
    ensures
        rule_color(fs, search, line) is Some <==> (rule_matches(fs, search, line) && (
        rule_has_includes(fs) || search is Some)),
{
    if !rule_excluded(fs, line) && rule_search_passes(search, line) && rule_has_includes(fs) {
        lemma_first_include_color_some(fs, line, 0);
    }
}

/// With no filter enabled and non-empty, nothing survives compilation.
pub proof fn lemma_compiled_of_empty(fs: Seq<LogFilter>)
    requires
        !some_filter_compiled(fs),
    ensures
        compiled_of(fs) == Seq::<LogFilter>::empty(),
    decreases fs.len(),
{
    if fs.len() > 0 {
        assert(!fs[0].spec_compiled());
        assert forall|i: int| 0 <= i < fs.drop_first().len() implies !(
        #[trigger] fs.drop_first()[i]).spec_compiled() by {
            assert(fs.drop_first()[i] == fs[i + 1]);
        }
        lemma_compiled_of_empty(fs.drop_first());
    }
}

/// `first_include_color_from` finds a color exactly when some inclusion
/// filter at or past `i` hits the line.
proof fn lemma_first_include_color_some(fs: Seq<LogFilter>, line: Seq<char>, i: int)
    requires
        0 <= i <= fs.len(),
    ensures
        first_include_color_from(fs, line, i) is Some <==> exists|j: int|
            i <= j < fs.len() && (#[trigger] fs[j]).is_include && filter_hits(fs[j], line),
    decreases fs.len() - i,
{
    if i < fs.len() {
        lemma_first_include_color_some(fs, line, i + 1);
    }
}

} // verus!
