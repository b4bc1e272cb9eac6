//! Defensive projection of raw catalog responses into domain records.
//!
//! A response arrives as one of three wire shapes whose fields are all
//! optional: an absent or wrong-typed field is `None`. Two disciplines
//! coexist: the lenient path degrades missing data to safe defaults and
//! skips malformed entries, while the strict path reports structural
//! problems as errors. Call sites choose per call which guarantee they
//! need.

use vstd::prelude::*;

verus! {

use vstd::string::StringExecFns;
use crate::models::{Anime, AnimeV, AppError, EpisodeMeta, EpisodeNumber, EpisodeStream,
    EpisodeStreamV, TranslationType};
use crate::text::{has_http_prefix, parse_digits_range, plus_at, spec_parse_u16, starts_with_http,
    trim_bounds, trimmed};

/// One edge of a search response, each field as the wire had it.
#[derive(Clone, Debug, PartialEq)]
pub struct SearchEdge {
    pub id: Option<String>,
    pub name: Option<String>,
    pub sub_count: Option<u64>,
    pub dub_count: Option<u64>,
}

/// A search response: the edge list, when the response carried one.
#[derive(Clone, Debug, PartialEq)]
pub struct SearchResponse {
    pub edges: Option<Vec<SearchEdge>>,
}

/// An episode-list response: per-track lists of episode-number strings.
/// An entry that was not a string is `None`.
#[derive(Clone, Debug, PartialEq)]
pub struct EpisodeListResponse {
    pub sub_episodes: Option<Vec<Option<String>>>,
    pub dub_episodes: Option<Vec<Option<String>>>,
}

/// One record of a stream-source response.
#[derive(Clone, Debug, PartialEq)]
pub struct StreamEntry {
    pub source_url: Option<String>,
    pub source_name: Option<String>,
    pub quality: Option<String>,
}

/// A stream-source response: the source list, when the response carried
/// one.
#[derive(Clone, Debug, PartialEq)]
pub struct SourcesResponse {
    pub source_urls: Option<Vec<StreamEntry>>,
}

/// The view of an optional string, empty when absent.
pub open spec fn opt_str_view(s: Option<String>) -> Seq<char> {
    match s {
        Some(t) => t@,
        None => Seq::empty(),
    }
}

/// An episode count that is known and positive.
pub open spec fn count_pos(c: Option<u64>) -> bool {
    match c {
        Some(n) => n > 0,
        None => false,
    }
}

/// The tracks a search edge advertises: `Sub` when the sub count is
/// positive, `Dub` when the dub count is, in that order.
pub open spec fn edge_translations(e: SearchEdge) -> Seq<TranslationType> {
    if count_pos(e.sub_count) && count_pos(e.dub_count) {
        seq![TranslationType::Sub, TranslationType::Dub]
    } else if count_pos(e.sub_count) {
        seq![TranslationType::Sub]
    } else if count_pos(e.dub_count) {
        seq![TranslationType::Dub]
    } else {
        Seq::empty()
    }
}

/// The episode count of an edge: the sub count when known, else the dub
/// count, else zero.
pub open spec fn edge_episode_count(e: SearchEdge) -> u64 {
    match e.sub_count {
        Some(n) => n,
        None => match e.dub_count {
            Some(n) => n,
            None => 0,
        },
    }
}

/// The title record one search edge projects to.
pub open spec fn anime_of_edge(e: SearchEdge, a: AnimeV) -> bool {
    &&& a.id == opt_str_view(e.id)
    &&& a.title == opt_str_view(e.name)
    &&& a.available_translations == edge_translations(e)
    &&& a.episode_count == edge_episode_count(e) as usize
}

fn string_or_empty(s: &Option<String>) -> (r: String)
    ensures
        r@ == opt_str_view(*s),
{
    match s {
        Some(t) => t.clone(),
        None => String::new(),
    }
}

/// Projects a search response to title records, one per edge; absent
/// fields degrade to the empty string or a zero count.
pub fn parse_search_results(data: &SearchResponse) -> (r: Vec<Anime>)
    ensures
        match data.edges {
            Some(edges) => r@.len() == edges@.len() && (forall|i: int|
                0 <= i < edges@.len() ==> anime_of_edge(#[trigger] edges@[i], r@[i]@)),
            None => r@.len() == 0,
        },
{
    let mut results: Vec<Anime> = Vec::new();
    let edges = match &data.edges {
        None => {
            return results;
        },
        Some(e) => e,
    };
    let mut i: usize = 0;
    while i < edges.len()
        invariant
            0 <= i <= edges@.len(),
            results@.len() == i,
            forall|j: int| 0 <= j < i ==> anime_of_edge(#[trigger] edges@[j], results@[j]@),
        decreases edges@.len() - i,
    {
        let e = &edges[i];
        let id = string_or_empty(&e.id);
        let title = string_or_empty(&e.name);
        let mut translations: Vec<TranslationType> = Vec::new();
        let sub_pos = match e.sub_count {
            Some(n) => n > 0,
            None => false,
        };
        let dub_pos = match e.dub_count {
            Some(n) => n > 0,
            None => false,
        };
        if sub_pos {
            translations.push(TranslationType::Sub);
        }
        if dub_pos {
            translations.push(TranslationType::Dub);
        }
        proof {
            assert(translations@ =~= edge_translations(edges@[i as int]));
        }
        let count = match e.sub_count {
            Some(n) => n,
            None => match e.dub_count {
                Some(n) => n,
                None => 0,
            },
        };
        results.push(
            Anime {
                id,
                title,
                available_translations: translations,
                episode_count: count as usize,
            },
        );
        i = i + 1;
    }
    results
}

/// A title advertises every track whose episode count is positive: `Sub`
/// when the sub count is, and `Dub` when the dub count is.
pub proof fn lemma_translations_reported(e: SearchEdge, a: AnimeV)
    requires
        anime_of_edge(e, a),
    ensures
        count_pos(e.sub_count) ==> a.available_translations.contains(TranslationType::Sub),
        count_pos(e.dub_count) ==> a.available_translations.contains(TranslationType::Dub),
{
    if count_pos(e.sub_count) {
        assert(a.available_translations[0] == TranslationType::Sub);
    }
    if count_pos(e.dub_count) {
        if count_pos(e.sub_count) {
            assert(a.available_translations[1] == TranslationType::Dub);
        } else {
            assert(a.available_translations[0] == TranslationType::Dub);
        }
    }
}

/// A title's advertised tracks hold no duplicates.
pub proof fn lemma_translations_distinct(e: SearchEdge)
    ensures
        edge_translations(e).no_duplicates(),
{
    let ts = edge_translations(e);
    assert forall|i: int, j: int| 0 <= i < j < ts.len() implies ts[i] != ts[j] by {
        assert(ts[0] == TranslationType::Sub && ts[1] == TranslationType::Dub);
    }
}

/// The episode record one list entry yields: present exactly when the
/// entry is a string that parses as an episode number.
pub open spec fn episode_of_entry(entry: Option<String>) -> Option<EpisodeMeta> {
    match entry {
        Some(s) => match EpisodeNumber::spec_parse(s@) {
            Some(n) => Some(EpisodeMeta { number: n, released: true }),
            None => None,
        },
        None => None,
    }
}

/// The episode records of a track's entry list, in entry order.
pub open spec fn episodes_of(entries: Seq<Option<String>>) -> Seq<EpisodeMeta>
    decreases entries.len(),
{
    if entries.len() == 0 {
        Seq::empty()
    } else {
        let rest = episodes_of(entries.drop_last());
        match episode_of_entry(entries.last()) {
            Some(m) => rest.push(m),
            None => rest,
        }
    }
}

proof fn lemma_episodes_of_take_succ(entries: Seq<Option<String>>, i: int)
    requires
        0 <= i < entries.len(),
    ensures
        episodes_of(entries.take(i + 1)) == match episode_of_entry(entries[i]) {
            Some(m) => episodes_of(entries.take(i)).push(m),
            None => episodes_of(entries.take(i)),
        },
{
    assert(entries.take(i + 1).drop_last() =~= entries.take(i));
    assert(entries.take(i + 1).last() == entries[i]);
}

/// An episode record is emitted exactly for the entries that are strings
/// parseable as episode numbers: every emitted number is the parse of a
/// string present in the list, and a non-numeric or absent entry yields
/// none.
pub proof fn lemma_episodes_of_membership(entries: Seq<Option<String>>, m: EpisodeMeta)
    ensures
        episodes_of(entries).contains(m) <==> exists|i: int|
            0 <= i < entries.len() && episode_of_entry(#[trigger] entries[i]) == Some(m),
    decreases entries.len(),
{
    broadcast use vstd::seq_lib::lemma_seq_contains_after_push;

    if entries.len() > 0 {
        let rest = entries.drop_last();
        lemma_episodes_of_membership(rest, m);
        if episodes_of(entries).contains(m) {
            if episode_of_entry(entries.last()) == Some(m) {
                assert(entries[entries.len() - 1] == entries.last());
            } else {
                assert(episodes_of(rest).contains(m));
                let i = choose|i: int|
                    0 <= i < rest.len() && episode_of_entry(#[trigger] rest[i]) == Some(m);
                assert(entries[i] == rest[i]);
            }
        }
        if exists|i: int|
            0 <= i < entries.len() && episode_of_entry(#[trigger] entries[i]) == Some(m) {
            let i = choose|i: int|
                0 <= i < entries.len() && episode_of_entry(#[trigger] entries[i]) == Some(m);
            if i < entries.len() - 1 {
                assert(rest[i] == entries[i]);
                assert(episodes_of(rest).contains(m));
            } else {
                assert(entries.last() == entries[i]);
            }
        }
    }
}

/// The entry list the requested track selects.
pub open spec fn selected_entries(data: EpisodeListResponse, t: TranslationType) -> Option<
    Vec<Option<String>>,
> {
    match t {
        TranslationType::Sub => data.sub_episodes,
        TranslationType::Dub => data.dub_episodes,
    }
}

/// Projects an episode-list response for one track: every string entry
/// that parses as an episode number becomes a released episode, in entry
/// order; other entries are dropped.
pub fn parse_episode_list(data: &EpisodeListResponse, translation: TranslationType) -> (r: Vec<
    EpisodeMeta,
>)
    ensures
        match selected_entries(*data, translation) {
            Some(entries) => r@ == episodes_of(entries@),
            None => r@.len() == 0,
        },
{
    let mut episodes: Vec<EpisodeMeta> = Vec::new();
    let list = match translation {
        TranslationType::Sub => &data.sub_episodes,
        TranslationType::Dub => &data.dub_episodes,
    };
    let entries = match list {
        None => {
            return episodes;
        },
        Some(e) => e,
    };
    let mut i: usize = 0;
    while i < entries.len()
        invariant
            0 <= i <= entries@.len(),
            episodes@ == episodes_of(entries@.take(i as int)),
        decreases entries@.len() - i,
    {
        proof {
            lemma_episodes_of_take_succ(entries@, i as int);
        }
        let entry = &entries[i];
        match entry {
            Some(s) => {
                match EpisodeNumber::parse(s.as_str()) {
                    Some(n) => {
                        episodes.push(EpisodeMeta { number: n, released: true });
                    },
                    None => {},
                }
            },
            None => {},
        }
        i = i + 1;
    }
    proof {
        assert(entries@.take(entries@.len() as int) =~= entries@);
    }
    episodes
}

/// An entry the lenient path emits: its URL field is present and begins
/// with the scheme prefix.
pub open spec fn kept_entry(e: StreamEntry) -> bool {
    match e.source_url {
        Some(u) => starts_with_http(u@),
        None => false,
    }
}

/// The provider name, `"Unknown"` when absent.
pub open spec fn provider_or_unknown(s: Option<String>) -> Seq<char> {
    match s {
        Some(t) => t@,
        None => "Unknown"@,
    }
}

/// The stream record the lenient path emits for a kept entry: quality is
/// not inspected there and stays zero.
pub open spec fn lenient_stream_of(e: StreamEntry) -> EpisodeStreamV {
    EpisodeStreamV {
        quality: 0,
        url: opt_str_view(e.source_url),
        provider: provider_or_unknown(e.source_name),
    }
}

/// The lenient projection of a source list: kept entries, in order.
pub open spec fn lenient_streams(entries: Seq<StreamEntry>) -> Seq<EpisodeStreamV>
    decreases entries.len(),
{
    if entries.len() == 0 {
        Seq::empty()
    } else {
        let rest = lenient_streams(entries.drop_last());
        if kept_entry(entries.last()) {
            rest.push(lenient_stream_of(entries.last()))
        } else {
            rest
        }
    }
}

proof fn lemma_lenient_streams_take_succ(entries: Seq<StreamEntry>, i: int)
    requires
        0 <= i < entries.len(),
    ensures
        lenient_streams(entries.take(i + 1)) == if kept_entry(entries[i]) {
            lenient_streams(entries.take(i)).push(lenient_stream_of(entries[i]))
        } else {
            lenient_streams(entries.take(i))
        },
{
    assert(entries.take(i + 1).drop_last() =~= entries.take(i));
    assert(entries.take(i + 1).last() == entries[i]);
}

/// A stream record is emitted exactly for the entries whose URL field is
/// present and begins with the scheme prefix; no other field matters for
/// whether an entry is kept.
pub proof fn lemma_lenient_streams_membership(entries: Seq<StreamEntry>, s: EpisodeStreamV)
    ensures
        lenient_streams(entries).contains(s) <==> exists|i: int|
            0 <= i < entries.len() && kept_entry(#[trigger] entries[i]) && lenient_stream_of(
                entries[i],
            ) == s,
    decreases entries.len(),
{
    broadcast use vstd::seq_lib::lemma_seq_contains_after_push;

    if entries.len() > 0 {
        let rest = entries.drop_last();
        lemma_lenient_streams_membership(rest, s);
        if lenient_streams(entries).contains(s) {
            if kept_entry(entries.last()) && lenient_stream_of(entries.last()) == s {
                assert(entries[entries.len() - 1] == entries.last());
            } else {
                assert(lenient_streams(rest).contains(s));
                let i = choose|i: int|
                    0 <= i < rest.len() && kept_entry(#[trigger] rest[i]) && lenient_stream_of(
                        rest[i],
                    ) == s;
                assert(entries[i] == rest[i]);
            }
        }
        if exists|i: int|
            0 <= i < entries.len() && kept_entry(#[trigger] entries[i]) && lenient_stream_of(
                entries[i],
            ) == s {
            let i = choose|i: int|
                0 <= i < entries.len() && kept_entry(#[trigger] entries[i]) && lenient_stream_of(
                    entries[i],
                ) == s;
            if i < entries.len() - 1 {
                assert(rest[i] == entries[i]);
                assert(lenient_streams(rest).contains(s));
            } else {
                assert(entries.last() == entries[i]);
            }
        }
    }
}

fn provider_of(s: &Option<String>) -> (r: String)
    ensures
        r@ == provider_or_unknown(*s),
{
    match s {
        Some(t) => t.clone(),
        None => String::from_str("Unknown"),
    }
}

/// Extracts usable stream records leniently: an entry is emitted exactly
/// when its URL field is present and begins with the scheme prefix;
/// everything else is skipped without error.
pub fn parse_stream_sources(data: &SourcesResponse) -> (r: Vec<EpisodeStream>)
    ensures
        match data.source_urls {
            Some(entries) => r@.len() == lenient_streams(entries@).len() && (forall|j: int|
                0 <= j < r@.len() ==> #[trigger] r@[j]@ == lenient_streams(entries@)[j]),
            None => r@.len() == 0,
        },
{
    let mut streams: Vec<EpisodeStream> = Vec::new();
    let entries = match &data.source_urls {
        None => {
            return streams;
        },
        Some(e) => e,
    };
    let mut i: usize = 0;
    while i < entries.len()
        invariant
            0 <= i <= entries@.len(),
            streams@.len() == lenient_streams(entries@.take(i as int)).len(),
            forall|j: int|
                0 <= j < streams@.len() ==> #[trigger] streams@[j]@ == lenient_streams(
                    entries@.take(i as int),
                )[j],
        decreases entries@.len() - i,
    {
        proof {
            lemma_lenient_streams_take_succ(entries@, i as int);
        }
        let e = &entries[i];
        match &e.source_url {
            Some(u) => {
                if has_http_prefix(u.as_str()) {
                    let provider = provider_of(&e.source_name);
                    streams.push(EpisodeStream { quality: 0, url: u.clone(), provider });
                }
            },
            None => {},
        }
        i = i + 1;
    }
    proof {
        assert(entries@.take(entries@.len() as int) =~= entries@);
    }
    streams
}

/// The quality a stream entry carries: its quality field, trimmed and read
/// as a 16-bit number, or 720 when the field is absent or unreadable.
pub open spec fn quality_of(q: Option<String>) -> u16 {
    match q {
        Some(s) => match spec_parse_u16(trimmed(s@)) {
            Some(v) => v,
            None => 720,
        },
        None => 720,
    }
}

/// Reads the quality field of a stream entry, falling back to the fixed
/// default of 720.
pub fn parse_quality(q: &Option<String>) -> (r: u16)
    ensures
        r == quality_of(*q),
{
    let s = match q {
        None => {
            return 720;
        },
        Some(s) => s,
    };
    let (lo, hi) = trim_bounds(s.as_str());
    let ghost t = trimmed(s@);
    let start = if lo < hi && plus_at(s.as_str(), lo) {
        lo + 1
    } else {
        lo
    };
    proof {
        if lo < hi && s@[lo as int] == '+' {
            assert(t.drop_first() =~= s@.subrange(lo + 1, hi as int));
        }
    }
    match parse_digits_range(s.as_str(), start, hi, 65535) {
        Some(v) => v as u16,
        None => 720,
    }
}

/// The stream record the strict path emits for a kept entry: the quality
/// field is read, with its fixed default.
pub open spec fn strict_stream_of(e: StreamEntry) -> EpisodeStreamV {
    EpisodeStreamV {
        quality: quality_of(e.quality),
        url: opt_str_view(e.source_url),
        provider: provider_or_unknown(e.source_name),
    }
}

/// The strict projection of a source list: kept entries, in order, with
/// their quality read.
pub open spec fn strict_streams(entries: Seq<StreamEntry>) -> Seq<EpisodeStreamV>
    decreases entries.len(),
{
    if entries.len() == 0 {
        Seq::empty()
    } else {
        let rest = strict_streams(entries.drop_last());
        if kept_entry(entries.last()) {
            rest.push(strict_stream_of(entries.last()))
        } else {
            rest
        }
    }
}

proof fn lemma_strict_streams_take_succ(entries: Seq<StreamEntry>, i: int)
    requires
        0 <= i < entries.len(),
    ensures
        strict_streams(entries.take(i + 1)) == if kept_entry(entries[i]) {
            strict_streams(entries.take(i)).push(strict_stream_of(entries[i]))
        } else {
            strict_streams(entries.take(i))
        },
{
    assert(entries.take(i + 1).drop_last() =~= entries.take(i));
    assert(entries.take(i + 1).last() == entries[i]);
}

/// Strictly validates a stream-source response: a missing or wrong-typed
/// source list and a missing URL field are reported, and so is a response
/// with no usable stream; otherwise the kept entries are returned with
/// their quality read.
pub fn parse_complex_data(data: &SourcesResponse) -> (r: Result<Vec<EpisodeStream>, AppError>)
    ensures
        match data.source_urls {
            None => (r matches Err(AppError::ParsingError(m)) && m@
                == "Expected sourceUrls to be an array"@),
            Some(entries) => {
                if entries@.len() == 0 {
                    r == Err::<Vec<EpisodeStream>, AppError>(AppError::NoStreamsAvailable)
                } else if exists|i: int|
                    0 <= i < entries@.len() && (#[trigger] entries@[i]).source_url is None {
                    r matches Err(AppError::ParsingError(m)) && m@ == "Missing sourceUrl field"@
                } else if strict_streams(entries@).len() == 0 {
                    r == Err::<Vec<EpisodeStream>, AppError>(AppError::NoStreamsAvailable)
                } else {
                    r matches Ok(v) && v@.len() == strict_streams(entries@).len() && (forall|
                        j: int,
                    |
                        0 <= j < v@.len() ==> #[trigger] v@[j]@ == strict_streams(entries@)[j])
                }
            },
        },
{
    let entries = match &data.source_urls {
        None => {
            return Err(AppError::ParsingError(String::from_str(
                "Expected sourceUrls to be an array",
            )));
        },
        Some(e) => e,
    };
    if entries.len() == 0 {
        return Err(AppError::NoStreamsAvailable);
    }
    let mut streams: Vec<EpisodeStream> = Vec::new();
    let mut i: usize = 0;
    while i < entries.len()
        invariant
            data.source_urls == Some(*entries),
            entries@.len() > 0,
            0 <= i <= entries@.len(),
            forall|k: int| 0 <= k < i ==> (#[trigger] entries@[k]).source_url is Some,
            streams@.len() == strict_streams(entries@.take(i as int)).len(),
            forall|j: int|
                0 <= j < streams@.len() ==> #[trigger] streams@[j]@ == strict_streams(
                    entries@.take(i as int),
                )[j],
        decreases entries@.len() - i,
    {
        proof {
            lemma_strict_streams_take_succ(entries@, i as int);
        }
        let e = &entries[i];
        let url = match &e.source_url {
            None => {
                proof {
                    assert((entries@[i as int]).source_url is None);
                }
                return Err(AppError::ParsingError(String::from_str("Missing sourceUrl field")));
            },
            Some(u) => u,
        };
        if has_http_prefix(url.as_str()) {
            let provider = provider_of(&e.source_name);
            let q = parse_quality(&e.quality);
            streams.push(EpisodeStream { quality: q, url: url.clone(), provider });
        }
        i = i + 1;
    }
    proof {
        assert(entries@.take(entries@.len() as int) =~= entries@);
    }
    if streams.len() == 0 {
        return Err(AppError::NoStreamsAvailable);
    }
    Ok(streams)
}

} // verus!
