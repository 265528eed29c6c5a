//! The session controller: the process-wide state holding the one active
//! data source — an indexed file or a live stream — and the query surface
//! over it.

use vstd::prelude::*;

use crate::errors::CoreError;
use crate::filter::FilterEngine;
use crate::filter::LogFilter;
use crate::filter::compiled_of;
use crate::filter::count_hits_at_offsets_upto;
use crate::filter::count_hits_upto;
use crate::filter::filters_ok;
use crate::filter::rule_color;
use crate::filter::rule_matches;
use crate::filter::search_ok;
use crate::filter::search_opt;
use crate::filter::some_filter_compiled;
use crate::filter::views_of_strings;
use crate::indexer::Indexer;
use crate::indexer::MinimapBucket;
use crate::indexer::build_buckets;
use crate::indexer::buckets_correct;
use crate::indexer::display_line;
use crate::indexer::line_colors_spec;
use crate::indexer::line_starts;
use crate::indexer::matching_upto;
use crate::indexer::mmap_view;
use crate::indexer::sum_counts;
use crate::indexer::view_colors;

verus! {

/// The outcome of applying filters: how many lines the active view shows
/// now, and for every retained filter how many lines it alone hits.
#[derive(Debug)]
pub struct FilterResult {
    pub visible_count: usize,
    pub filter_counts: Vec<(String, usize)>,
}

/// The one active data source.
enum Source {
    /// Nothing opened yet.
    Idle,
    /// An indexed file, with the filtered offset list when filters are in
    /// force.
    File { indexer: Indexer, filtered: Option<Vec<usize>> },
    /// A live stream: the engine that lines are filtered with at ingest,
    /// the buffer of accepted lines, and whether the ingester still runs.
    /// The buffer outlives the ingester so reads keep working after a stop.
    Stream { engine: Option<FilterEngine>, buffer: Vec<String>, active: bool },
}

/// The session: the single source and everything derived from it.
pub struct Session {
    source: Source,
}

impl Session {
    /// No source is set.
    pub closed spec fn spec_is_idle(self) -> bool {
        self.source is Idle
    }

    /// A file is the source.
    pub closed spec fn spec_is_file(self) -> bool {
        self.source is File
    }

    /// A stream is the source, running or stopped.
    pub closed spec fn spec_is_stream(self) -> bool {
        self.source is Stream
    }

    /// The stream ingester is running.
    pub closed spec fn stream_active(self) -> bool {
        match self.source {
            Source::Stream { active, .. } => active,
            _ => false,
        }
    }

    /// The lines the stream has accepted so far.
    pub closed spec fn stream_buffer(self) -> Seq<String> {
        match self.source {
            Source::Stream { buffer, .. } => buffer@,
            _ => Seq::empty(),
        }
    }

    /// Whether the stream's engine accepts the line; with no engine every
    /// line is accepted.
    pub closed spec fn stream_accepts(self, line: Seq<char>) -> bool {
        match self.source {
            Source::Stream { engine: Some(e), .. } => e.spec_matches(line),
            _ => true,
        }
    }

    /// The stream was started without any filter or search.
    pub closed spec fn stream_unfiltered(self) -> bool {
        match self.source {
            Source::Stream { engine, .. } => engine is None,
            _ => true,
        }
    }

    /// The file indexer, when a file is the source.
    pub closed spec fn file_indexer(self) -> Indexer {
        match self.source {
            Source::File { indexer, .. } => indexer,
            _ => arbitrary(),
        }
    }

    /// The filtered offset list, when a file is the source and filters are
    /// in force.
    pub closed spec fn file_filtered(self) -> Option<Seq<usize>> {
        match self.source {
            Source::File { filtered: Some(v), .. } => Some(v@),
            _ => None,
        }
    }

    /// Everything the session relies on: the file is indexed and every
    /// filtered offset points into it; a stream engine is well formed.
    pub closed spec fn wf(self) -> bool {
        match self.source {
            Source::Idle => true,
            Source::File { indexer, filtered } => {
                &&& indexer.wf()
                &&& indexer.indexed()
                &&& match filtered {
                    Some(v) => forall|i: int|
                        0 <= i < v@.len() ==> ((#[trigger] v@[i]) as int) < indexer.bytes().len(),
                    None => true,
                }
            },
            Source::Stream { engine, .. } => match engine {
                Some(e) => e.wf(),
                None => true,
            },
        }
    }

    /// How many lines the active view serves.
    pub closed spec fn view_len(self) -> int {
        match self.source {
            Source::Idle => 0,
            Source::Stream { buffer, .. } => buffer@.len() as int,
            Source::File { indexer, filtered } => match filtered {
                Some(v) => v@.len() as int,
                None => indexer.spec_offsets().len() as int,
            },
        }
    }

    /// The `i`-th line of the active view.
    pub closed spec fn view_line(self, i: int) -> Seq<char> {
        match self.source {
            Source::Idle => arbitrary(),
            Source::Stream { buffer, .. } => buffer@[i]@,
            Source::File { indexer, filtered } => match filtered {
                Some(v) => display_line(indexer.bytes(), v@[i] as int),
                None => display_line(indexer.bytes(), indexer.spec_offsets()[i]),
            },
        }
    }

    /// A fresh session with no source.
    pub fn new() -> (r: Session)
        ensures
            r.wf(),
            r.spec_is_idle(),
            !r.stream_active(),
    {
        Session { source: Source::Idle }
    }

    /// Whether the live stream is currently running.
    pub fn is_stream_active(&self) -> (r: bool)
        ensures
            r == self.stream_active(),
    {
        match &self.source {
            Source::Stream { active, .. } => *active,
            _ => false,
        }
    }

    /// Installs a freshly mapped file as the source: any stream stops and
    /// its buffer is dropped, the file is indexed, the filtered view is
    /// cleared. Returns the line count.
    pub fn open_file(&mut self, path: String, mmap: memmap2::Mmap) -> (r: usize)
        requires
            old(self).wf(),
        ensures
            final(self).wf(),
            !final(self).stream_active(),
            final(self).spec_is_file(),
            final(self).file_indexer().indexed(),
            final(self).file_indexer().bytes() == mmap_view(mmap),
            final(self).file_indexer().spec_path() == path@,
            final(self).file_filtered() is None,
            r == line_starts(mmap_view(mmap)).len(),
    {
        let mut indexer = Indexer::new(path, mmap);
        indexer.index();
        let count = indexer.line_count();
        self.source = Source::File { indexer, filtered: None };
        count
    }

    /// Stops the stream. The buffer stays, so reads keep serving it; a
    /// stopped or absent stream makes this a no-op.
    pub fn stop_stream(&mut self)
        requires
            old(self).wf(),
        ensures
            final(self).wf(),
            !final(self).stream_active(),
            final(self).spec_is_stream() == old(self).spec_is_stream(),
            final(self).spec_is_file() == old(self).spec_is_file(),
            final(self).spec_is_idle() == old(self).spec_is_idle(),
            final(self).stream_buffer() == old(self).stream_buffer(),
            final(self).view_len() == old(self).view_len(),
            forall|i: int|
                0 <= i < old(self).view_len() ==> final(self).view_line(i) == old(self).view_line(
                    i,
                ),
            final(self).file_filtered() == old(self).file_filtered(),
            final(self).file_indexer() == old(self).file_indexer(),
    {
        match &mut self.source {
            Source::Stream { active, .. } => {
                *active = false;
            },
            _ => {},
        }
    }

    /// Feeds one line read from the stream: when the ingester is running,
    /// the line is appended exactly when the ingest engine accepts it.
    /// Existing buffer entries are never rewritten and the buffer never
    /// shrinks.
    pub fn ingest_line(&mut self, line: String) -> (appended: bool)
        requires
            old(self).wf(),
        ensures
            final(self).wf(),
            !old(self).stream_active() ==> !appended && *final(self) == *old(self),
            old(self).stream_active() ==> {
                &&& appended == old(self).stream_accepts(line@)
                &&& appended ==> final(self).stream_buffer() == old(self).stream_buffer().push(
                    line,
                )
                &&& !appended ==> final(self).stream_buffer() == old(self).stream_buffer()
                &&& final(self).stream_active()
                &&& final(self).spec_is_stream()
                &&& final(self).stream_buffer().len() >= old(self).stream_buffer().len()
                &&& forall|i: int|
                    0 <= i < old(self).stream_buffer().len() ==> final(self).stream_buffer()[i]
                        == old(self).stream_buffer()[i]
                &&& forall|l: Seq<char>|
                    final(self).stream_accepts(l) == old(self).stream_accepts(l)
            },
    {
        match &mut self.source {
            Source::Stream { engine, buffer, active } => {
                if !*active {
                    return false;
                }
                let accepted = match engine {
                    Some(e) => e.matches(line.as_str()),
                    None => true,
                };
                if accepted {
                    buffer.push(line);
                }
                accepted
            },
            _ => false,
        }
    }
}

/// The color the rule gives each buffered stream line.
pub open spec fn buffer_colors_spec(
    fs: Seq<LogFilter>,
    search: Option<Seq<char>>,
    lines: Seq<String>,
) -> Seq<Option<Seq<char>>> {
    Seq::new(lines.len(), |i: int| rule_color(fs, search, lines[i]@))
}

/// Whether any filter would survive compilation.
fn any_filter_compiled(filters: &Vec<LogFilter>) -> (r: bool)
    ensures
        r == some_filter_compiled(filters@),
{
    let n = filters.len();
    let mut i: usize = 0;
    while i < n
        invariant
            n == filters@.len(),
            i <= n,
            forall|j: int| 0 <= j < i ==> !(#[trigger] filters@[j]).spec_compiled(),
        decreases n - i,
    {
        let f = &filters[i];
        if f.is_enabled && !f.pattern.as_str().is_empty() {
            assert(filters@[i as int].spec_compiled());
            return true;
        }
        i += 1;
    }
    false
}

/// Compiles the filters and installs the search query: the engine every
/// command builds from its request.
fn build_engine(filters: Vec<LogFilter>, search_query: &str) -> (r: Result<
    FilterEngine,
    CoreError,
>)
    ensures
        r is Ok <==> filters_ok(filters@) && search_ok(search_query@),
        match r {
            Ok(e) => {
                &&& e.wf()
                &&& e.spec_filters() == compiled_of(filters@)
                &&& e.spec_search() == search_opt(search_query@)
            },
            Err(e) => (e matches CoreError::InvalidFilterRegex { .. } && !filters_ok(filters@))
                || (e matches CoreError::InvalidSearchRegex { .. } && filters_ok(filters@)
                && !search_ok(search_query@)),
        },
{
    match FilterEngine::new(filters) {
        Ok(mut engine) => match engine.set_search_query(search_query) {
            Ok(_) => Ok(engine),
            Err(e) => Err(e),
        },
        Err(e) => Err(e),
    }
}

impl Session {
    /// Applies a filter set and search query. With a running stream the
    /// buffer is left as ingested and only counted; with a file the
    /// filtered offset list is rebuilt, or cleared when nothing is asked
    /// for. Without a source, or with a stopped stream, nothing is there to
    /// filter. On an error nothing changes.
    pub fn apply_filters(&mut self, filters: Vec<LogFilter>, search_query: &str) -> (r: Result<
        FilterResult,
        CoreError,
    >)
        requires
            old(self).wf(),
        ensures
            final(self).wf(),
            (old(self).spec_is_idle() || (old(self).spec_is_stream() && !old(
                self,
            ).stream_active())) ==> ((r matches Err(CoreError::NoSource)) && *final(self) == *old(
                self,
            )),
            old(self).stream_active() ==> {
                &&& *final(self) == *old(self)
                &&& (r is Ok <==> filters_ok(filters@) && search_ok(search_query@))
                &&& match r {
                    Ok(fr) => {
                        &&& fr.visible_count == old(self).stream_buffer().len()
                        &&& fr.filter_counts@.len() == compiled_of(filters@).len()
                        &&& forall|i: int|
                            0 <= i < fr.filter_counts@.len() ==> (
                            #[trigger] fr.filter_counts@[i]).0@ == compiled_of(filters@)[i].id@
                                && fr.filter_counts@[i].1 == count_hits_upto(
                                compiled_of(filters@)[i].pattern@,
                                views_of_strings(old(self).stream_buffer()),
                                old(self).stream_buffer().len() as int,
                            )
                    },
                    Err(e) => (e matches CoreError::InvalidFilterRegex { .. } && !filters_ok(
                        filters@,
                    )) || (e matches CoreError::InvalidSearchRegex { .. } && filters_ok(filters@)
                        && !search_ok(search_query@)),
                }
            },
            old(self).spec_is_file() ==> {
                &&& final(self).spec_is_file()
                &&& final(self).file_indexer() == old(self).file_indexer()
                &&& if !some_filter_compiled(filters@) && search_query@.len() == 0 {
                    r matches Ok(fr) && final(self).file_filtered() is None && fr.visible_count
                        == old(self).file_indexer().spec_offsets().len() && fr.filter_counts@.len()
                        == 0
                } else {
                    &&& (r is Ok <==> filters_ok(filters@) && search_ok(search_query@))
                    &&& match r {
                        Ok(fr) => ({
                            let m = old(self).file_indexer().bytes();
                            let offs = matching_upto(
                                m,
                                compiled_of(filters@),
                                search_opt(search_query@),
                                old(self).file_indexer().spec_offsets(),
                                old(self).file_indexer().spec_offsets().len() as int,
                            );
                            match final(self).file_filtered() {
                                Some(v) => {
                                    &&& v.map_values(|o: usize| o as int) == offs
                                    &&& fr.visible_count == v.len()
                                    &&& fr.filter_counts@.len() == compiled_of(filters@).len()
                                    &&& forall|i: int|
                                        0 <= i < fr.filter_counts@.len() ==> (
                                        #[trigger] fr.filter_counts@[i]).0@ == compiled_of(
                                            filters@,
                                        )[i].id@ && fr.filter_counts@[i].1
                                            == count_hits_at_offsets_upto(
                                            compiled_of(filters@)[i].pattern@,
                                            m,
                                            v,
                                            v.len() as int,
                                        )
                                },
                                None => false,
                            }
                        }),
                        Err(e) => *final(self) == *old(self) && ((e matches
                        CoreError::InvalidFilterRegex { .. } && !filters_ok(filters@)) || (e
                            matches CoreError::InvalidSearchRegex { .. } && filters_ok(filters@)
                            && !search_ok(search_query@))),
                    }
                }
            },
    {
        match &mut self.source {
            Source::Idle => Err(CoreError::NoSource),
            Source::Stream { buffer, active, .. } => {
                if !*active {
                    return Err(CoreError::NoSource);
                }
                let engine = match build_engine(filters, search_query) {
                    Ok(e) => e,
                    Err(e) => {
                        return Err(e);
                    },
                };
                let counts = engine.get_match_counts(buffer.as_slice());
                Ok(FilterResult { visible_count: buffer.len(), filter_counts: counts })
            },
            Source::File { indexer, filtered } => {
                let has_search = !search_query.is_empty();
                let has_filters = any_filter_compiled(&filters);
                if !has_search && !has_filters {
                    *filtered = None;
                    return Ok(
                        FilterResult {
                            visible_count: indexer.line_count(),
                            filter_counts: Vec::new(),
                        },
                    );
                }
                let engine = match build_engine(filters, search_query) {
                    Ok(e) => e,
                    Err(e) => {
                        return Err(e);
                    },
                };
                let offsets = indexer.apply_filters(&engine);
                let visible = offsets.len();
                let counts = engine.get_match_counts_from_offsets(indexer, offsets.as_slice());
                *filtered = Some(offsets);
                Ok(FilterResult { visible_count: visible, filter_counts: counts })
            },
        }
    }

    /// Up to `count` lines of the active view from `start_index` on: the
    /// stream buffer (running or stopped), the filtered offsets, or the
    /// full table. Overshoot returns what is there, an empty sequence when
    /// the start is past the end.
    pub fn get_log_lines(&self, start_index: usize, count: usize) -> (r: Result<
        Vec<String>,
        CoreError,
    >)
        requires
            self.wf(),
        ensures
            self.spec_is_idle() ==> r matches Err(CoreError::NoSource),
            !self.spec_is_idle() ==> match r {
                Ok(lines) => {
                    &&& lines@.len() == (if start_index as int <= self.view_len() {
                        if self.view_len() - start_index < count {
                            self.view_len() - start_index
                        } else {
                            count as int
                        }
                    } else {
                        0int
                    })
                    &&& forall|j: int|
                        0 <= j < lines@.len() ==> (#[trigger] lines@[j])@ == self.view_line(
                            start_index + j,
                        )
                },
                Err(_) => false,
            },
    {
        match &self.source {
            Source::Idle => Err(CoreError::NoSource),
            Source::Stream { buffer, .. } => {
                let mut lines: Vec<String> = Vec::new();
                let total = buffer.len();
                if start_index >= total {
                    return Ok(lines);
                }
                let take = if total - start_index < count {
                    total - start_index
                } else {
                    count
                };
                let mut j: usize = 0;
                while j < take
                    invariant
                        total == buffer@.len(),
                        start_index + take <= total,
                        j <= take,
                        lines@.len() == j,
                        forall|k: int|
                            0 <= k < j ==> (#[trigger] lines@[k])@ == buffer@[start_index + k]@,
                    decreases take - j,
                {
                    lines.push(buffer[start_index + j].clone());
                    j += 1;
                }
                Ok(lines)
            },
            Source::File { indexer, filtered } => {
                let mut lines: Vec<String> = Vec::new();
                let total = match filtered {
                    Some(v) => v.len(),
                    None => indexer.line_count(),
                };
                if start_index >= total {
                    return Ok(lines);
                }
                let take = if total - start_index < count {
                    total - start_index
                } else {
                    count
                };
                let mut j: usize = 0;
                while j < take
                    invariant
                        self.wf(),
                        self.source is File,
                        indexer == self.file_indexer(),
                        indexer.wf(),
                        indexer.indexed(),
                        match filtered {
                            Some(v) => self.file_filtered() == Some(v@) && total == v@.len()
                                && forall|i: int|
                                0 <= i < v@.len() ==> ((#[trigger] v@[i]) as int)
                                    < indexer.bytes().len(),
                            None => self.file_filtered() is None && total
                                == indexer.spec_offsets().len(),
                        },
                        start_index + take <= total,
                        j <= take,
                        lines@.len() == j,
                        forall|k: int|
                            0 <= k < j ==> (#[trigger] lines@[k])@ == self.view_line(
                                start_index + k,
                            ),
                    decreases take - j,
                {
                    let line = match filtered {
                        Some(v) => indexer.get_line_from_offsets(v.as_slice(), start_index + j),
                        None => indexer.get_line(start_index + j),
                    };
                    match line {
                        Some(l) => {
                            lines.push(l);
                        },
                        None => {
                            proof {
                                assert(false);
                            }
                        },
                    }
                    j += 1;
                }
                Ok(lines)
            },
        }
    }

    /// Starts a live stream: the buffer restarts empty, the ingester is
    /// marked running, and an ingest engine is compiled unless neither a
    /// filter nor a search is given. Any previous source is discarded. On
    /// an error nothing changes; the caller spawns the subprocess and, if
    /// that fails, stops the stream again.
    pub fn start_stream(&mut self, filters: Vec<LogFilter>, search_query: &str) -> (r: Result<
        (),
        CoreError,
    >)
        requires
            old(self).wf(),
        ensures
            final(self).wf(),
            r is Ok <==> filters_ok(filters@) && search_ok(search_query@),
            match r {
                Ok(_) => {
                    &&& final(self).spec_is_stream()
                    &&& final(self).stream_active()
                    &&& final(self).stream_buffer().len() == 0
                    &&& final(self).stream_unfiltered() == (!some_filter_compiled(filters@)
                        && search_query@.len() == 0)
                    &&& forall|l: Seq<char>|
                        final(self).stream_accepts(l) == rule_matches(
                            compiled_of(filters@),
                            search_opt(search_query@),
                            l,
                        )
                },
                Err(e) => *final(self) == *old(self) && ((e matches CoreError::InvalidFilterRegex {
                    ..
                } && !filters_ok(filters@)) || (e matches CoreError::InvalidSearchRegex { .. }
                    && filters_ok(filters@) && !search_ok(search_query@))),
            },
    {
        let has_search = !search_query.is_empty();
        let has_filters = any_filter_compiled(&filters);
        let engine: Option<FilterEngine> = if !has_search && !has_filters {
            proof {
                crate::filter::lemma_compiled_of_empty(filters@);
            }
            None
        } else {
            match build_engine(filters, search_query) {
                Ok(e) => Some(e),
                Err(e) => {
                    return Err(e);
                },
            }
        };
        self.source = Source::Stream { engine, buffer: Vec::new(), active: true };
        Ok(())
    }

    /// The minimap under the given filters and search: over the active
    /// offsets in file mode, over the buffer with a running stream. An
    /// empty buffer or a zero bucket count yields an empty minimap before
    /// any compilation is attempted.
    pub fn get_minimap_data(
        &self,
        filters: Vec<LogFilter>,
        search_query: &str,
        buckets: usize,
    ) -> (r: Result<Vec<MinimapBucket>, CoreError>)
        requires
            self.wf(),
        ensures
            (self.spec_is_idle() || (self.spec_is_stream() && !self.stream_active())) ==> r
                matches Err(CoreError::NoSource),
            self.stream_active() ==> {
                if self.stream_buffer().len() == 0 || buckets == 0 {
                    r matches Ok(v) && v@.len() == 0
                } else {
                    &&& (r is Ok <==> filters_ok(filters@) && search_ok(search_query@))
                    &&& match r {
                        Ok(v) => ({
                            let cols = buffer_colors_spec(
                                compiled_of(filters@),
                                search_opt(search_query@),
                                self.stream_buffer(),
                            );
                            buckets_correct(cols, buckets as int, v@) && sum_counts(v@)
                                <= self.stream_buffer().len()
                        }),
                        Err(e) => (e matches CoreError::InvalidFilterRegex { .. } && !filters_ok(
                            filters@,
                        )) || (e matches CoreError::InvalidSearchRegex { .. } && filters_ok(
                            filters@,
                        ) && !search_ok(search_query@)),
                    }
                }
            },
            self.spec_is_file() ==> {
                &&& (r is Ok <==> filters_ok(filters@) && search_ok(search_query@))
                &&& match r {
                    Ok(v) => ({
                        let active = match self.file_filtered() {
                            Some(f) => f,
                            None => self.file_indexer().spec_offset_table(),
                        };
                        let cols = line_colors_spec(
                            self.file_indexer().bytes(),
                            compiled_of(filters@),
                            search_opt(search_query@),
                            active,
                        );
                        buckets_correct(cols, buckets as int, v@) && sum_counts(v@)
                            <= active.len()
                    }),
                    Err(e) => (e matches CoreError::InvalidFilterRegex { .. } && !filters_ok(
                        filters@,
                    )) || (e matches CoreError::InvalidSearchRegex { .. } && filters_ok(filters@)
                        && !search_ok(search_query@)),
                }
            },
    {
        match &self.source {
            Source::Idle => Err(CoreError::NoSource),
            Source::Stream { buffer, active, .. } => {
                if !*active {
                    return Err(CoreError::NoSource);
                }
                if buffer.len() == 0 || buckets == 0 {
                    return Ok(Vec::new());
                }
                let engine = match build_engine(filters, search_query) {
                    Ok(e) => e,
                    Err(e) => {
                        return Err(e);
                    },
                };
                let ghost cols = buffer_colors_spec(
                    engine.spec_filters(),
                    engine.spec_search(),
                    buffer@,
                );
                let n = buffer.len();
                let mut colors: Vec<Option<String>> = Vec::new();
                let mut i: usize = 0;
                while i < n
                    invariant
                        engine.wf(),
                        n == buffer@.len(),
                        cols == buffer_colors_spec(
                            engine.spec_filters(),
                            engine.spec_search(),
                            buffer@,
                        ),
                        i <= n,
                        colors@.len() == i,
                        forall|k: int|
                            0 <= k < i ==> (match #[trigger] colors@[k] {
                                Some(c) => cols[k] == Some(c@),
                                None => cols[k] is None,
                            }),
                    decreases n - i,
                {
                    let c = engine.get_match_color(buffer[i].as_str());
                    colors.push(c);
                    i += 1;
                }
                proof {
                    assert forall|k: int| 0 <= k < colors@.len() implies #[trigger] view_colors(
                        colors@,
                    )[k] == cols[k] by {
                        assert(view_colors(colors@)[k] == (match colors@[k] {
                            Some(s) => Some(s@),
                            None => None,
                        }));
                    }
                    assert(view_colors(colors@) =~= cols);
                }
                Ok(build_buckets(colors.as_slice(), buckets))
            },
            Source::File { indexer, filtered } => {
                let engine = match build_engine(filters, search_query) {
                    Ok(e) => e,
                    Err(e) => {
                        return Err(e);
                    },
                };
                let active: Option<&[usize]> = match filtered {
                    Some(v) => Some(v.as_slice()),
                    None => None,
                };
                Ok(indexer.get_minimap_data(&engine, buckets, active))
            },
        }
    }
}

} // verus!
