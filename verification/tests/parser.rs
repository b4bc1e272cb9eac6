use ani_cli_rs::models::{AppError, EpisodeNumber, TranslationType};
use ani_cli_rs::parser::{
    parse_complex_data, parse_episode_list, parse_quality, parse_search_results,
    parse_stream_sources, EpisodeListResponse, SearchEdge, SearchResponse, SourcesResponse,
    StreamEntry,
};

fn edge(
    id: Option<&str>,
    name: Option<&str>,
    sub_count: Option<u64>,
    dub_count: Option<u64>,
) -> SearchEdge {
    SearchEdge {
        id: id.map(|s| s.to_string()),
        name: name.map(|s| s.to_string()),
        sub_count,
        dub_count,
    }
}

fn entry(url: Option<&str>, name: Option<&str>, quality: Option<&str>) -> StreamEntry {
    StreamEntry {
        source_url: url.map(|s| s.to_string()),
        source_name: name.map(|s| s.to_string()),
        quality: quality.map(|s| s.to_string()),
    }
}

#[test]
fn search_one_edge_with_both_tracks() {
    let data = SearchResponse {
        edges: Some(vec![edge(Some("abc123"), Some("Naruto"), Some(220), Some(200))]),
    };
    let results = parse_search_results(&data);
    assert_eq!(results.len(), 1);
    assert_eq!(results[0].id, "abc123");
    assert_eq!(results[0].title, "Naruto");
    assert_eq!(
        results[0].available_translations,
        vec![TranslationType::Sub, TranslationType::Dub]
    );
    assert_eq!(results[0].episode_count, 220);
}

#[test]
fn search_counts_pick_sub_then_dub() {
    let data = SearchResponse {
        edges: Some(vec![
            edge(Some("a"), Some("A"), None, Some(12)),
            edge(Some("b"), Some("B"), Some(0), Some(5)),
            edge(Some("c"), Some("C"), None, None),
        ]),
    };
    let results = parse_search_results(&data);
    assert_eq!(results.len(), 3);
    // No sub count: the dub count stands in.
    assert_eq!(results[0].available_translations, vec![TranslationType::Dub]);
    assert_eq!(results[0].episode_count, 12);
    // A known sub count of zero still wins over the dub count.
    assert_eq!(results[1].available_translations, vec![TranslationType::Dub]);
    assert_eq!(results[1].episode_count, 0);
    // Nothing known at all.
    assert_eq!(results[2].available_translations, vec![]);
    assert_eq!(results[2].episode_count, 0);
}

#[test]
fn search_defaults_missing_fields() {
    let data = SearchResponse { edges: Some(vec![edge(None, None, Some(3), None)]) };
    let results = parse_search_results(&data);
    assert_eq!(results.len(), 1);
    assert_eq!(results[0].id, "");
    assert_eq!(results[0].title, "");
    assert_eq!(results[0].available_translations, vec![TranslationType::Sub]);
    assert_eq!(results[0].episode_count, 3);
}

#[test]
fn search_without_edges_is_empty() {
    let data = SearchResponse { edges: None };
    assert_eq!(parse_search_results(&data).len(), 0);
}

#[test]
fn episode_list_drops_non_numeric_entries() {
    let data = EpisodeListResponse {
        sub_episodes: Some(vec![
            Some("1".to_string()),
            Some("2".to_string()),
            Some("5.5".to_string()),
            Some("movie".to_string()),
        ]),
        dub_episodes: None,
    };
    let episodes = parse_episode_list(&data, TranslationType::Sub);
    let numbers: Vec<EpisodeNumber> = episodes.iter().map(|e| e.number).collect();
    assert_eq!(
        numbers,
        vec![
            EpisodeNumber { whole: 1, thousandths: 0 },
            EpisodeNumber { whole: 2, thousandths: 0 },
            EpisodeNumber { whole: 5, thousandths: 500 },
        ]
    );
    assert!(episodes.iter().all(|e| e.released));
}

#[test]
fn episode_list_selects_the_requested_track() {
    let data = EpisodeListResponse {
        sub_episodes: Some(vec![Some("1".to_string())]),
        dub_episodes: Some(vec![Some("2".to_string()), None]),
    };
    let sub = parse_episode_list(&data, TranslationType::Sub);
    let dub = parse_episode_list(&data, TranslationType::Dub);
    assert_eq!(sub.len(), 1);
    assert_eq!(sub[0].number, EpisodeNumber { whole: 1, thousandths: 0 });
    // The non-string entry is dropped.
    assert_eq!(dub.len(), 1);
    assert_eq!(dub[0].number, EpisodeNumber { whole: 2, thousandths: 0 });
}

#[test]
fn episode_list_without_track_is_empty() {
    let data = EpisodeListResponse { sub_episodes: None, dub_episodes: None };
    assert_eq!(parse_episode_list(&data, TranslationType::Sub).len(), 0);
}

#[test]
fn lenient_streams_keep_only_http_urls() {
    let data = SourcesResponse {
        source_urls: Some(vec![
            entry(Some("https://host/video.m3u8"), Some("Alpha"), None),
            entry(Some("ftp://host/video"), Some("Beta"), None),
            entry(None, Some("Gamma"), None),
            entry(Some("http://mirror/video"), None, None),
        ]),
    };
    let streams = parse_stream_sources(&data);
    assert_eq!(streams.len(), 2);
    assert_eq!(streams[0].url, "https://host/video.m3u8");
    assert_eq!(streams[0].provider, "Alpha");
    assert_eq!(streams[0].quality, 0);
    assert_eq!(streams[1].url, "http://mirror/video");
    assert_eq!(streams[1].provider, "Unknown");
}

#[test]
fn lenient_streams_without_list_are_empty() {
    let data = SourcesResponse { source_urls: None };
    assert_eq!(parse_stream_sources(&data).len(), 0);
}

#[test]
fn strict_empty_source_list_is_an_error() {
    let data = SourcesResponse { source_urls: Some(vec![]) };
    assert_eq!(parse_complex_data(&data), Err(AppError::NoStreamsAvailable));
}

#[test]
fn strict_missing_list_is_a_parsing_error() {
    let data = SourcesResponse { source_urls: None };
    assert_eq!(
        parse_complex_data(&data),
        Err(AppError::ParsingError(
            "Expected sourceUrls to be an array".to_string()
        ))
    );
}

#[test]
fn strict_missing_url_field_is_a_parsing_error() {
    let data = SourcesResponse {
        source_urls: Some(vec![
            entry(Some("https://host/a"), None, None),
            entry(None, Some("Beta"), None),
        ]),
    };
    assert_eq!(
        parse_complex_data(&data),
        Err(AppError::ParsingError("Missing sourceUrl field".to_string()))
    );
}

#[test]
fn strict_keeps_http_urls_and_reads_quality() {
    let data = SourcesResponse {
        source_urls: Some(vec![
            entry(Some("https://host/a"), Some("Alpha"), Some("1080")),
            entry(Some("mailto:nobody"), Some("Beta"), Some("480")),
            entry(Some("http://host/c"), None, Some(" 720 ")),
        ]),
    };
    let streams = parse_complex_data(&data).unwrap();
    assert_eq!(streams.len(), 2);
    assert_eq!(streams[0].url, "https://host/a");
    assert_eq!(streams[0].provider, "Alpha");
    assert_eq!(streams[0].quality, 1080);
    assert_eq!(streams[1].url, "http://host/c");
    assert_eq!(streams[1].provider, "Unknown");
    assert_eq!(streams[1].quality, 720);
}

#[test]
fn strict_all_entries_unusable_is_an_error() {
    let data = SourcesResponse {
        source_urls: Some(vec![entry(Some("ftp://host/a"), Some("Alpha"), None)]),
    };
    assert_eq!(parse_complex_data(&data), Err(AppError::NoStreamsAvailable));
}

#[test]
fn quality_falls_back_to_the_fixed_default() {
    assert_eq!(parse_quality(&None), 720);
    assert_eq!(parse_quality(&Some("1080".to_string())), 1080);
    assert_eq!(parse_quality(&Some(" 480\t".to_string())), 480);
    assert_eq!(parse_quality(&Some("+360".to_string())), 360);
    assert_eq!(parse_quality(&Some("abc".to_string())), 720);
    assert_eq!(parse_quality(&Some("".to_string())), 720);
    // A value over 16 bits does not read.
    assert_eq!(parse_quality(&Some("70000".to_string())), 720);
}
