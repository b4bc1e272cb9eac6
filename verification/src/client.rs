//! Request shaping for the three GraphQL operations against the catalog
//! service, and the fixed transport configuration. The transport itself
//! lives outside the library: callers serialise these request values,
//! post them, and drive the retry policy of [`crate::retry`].

use vstd::prelude::*;

verus! {

use crate::models::TranslationType;

/// The one endpoint every operation posts to.
pub const BASE_API: &'static str = "https://api.allanime.day/api";

/// The referer the service requires.
pub const REFERER: &'static str = "https://allmanga.to";

/// The user agent the service requires.
pub const USER_AGENT: &'static str =
    "Mozilla/5.0 (Windows NT 10.0; Win64; x64; rv:121.0) Gecko/20100101 Firefox/121.0";

/// Seconds one attempt may take before the transport gives up.
pub const TIMEOUT_SECS: u64 = 30;

/// The GraphQL document of the search operation.
pub const SEARCH_QUERY_DOC: &'static str = "\n        query(\n            $search: SearchInput,\n            $limit: Int,\n            $page: Int,\n            $translationType: VaildTranslationTypeEnumType,\n            $countryOrigin: VaildCountryOriginEnumType\n        ) {\n            shows(\n                search: $search,\n                limit: $limit,\n                page: $page,\n                translationType: $translationType,\n                countryOrigin: $countryOrigin\n            ) {\n                edges {\n                    _id\n                    name\n                    availableEpisodes\n                    __typename\n                }\n            }\n        }\n    ";

/// The GraphQL document of the episode-list operation.
pub const EPISODE_LIST_QUERY_DOC: &'static str = "\n        query ($showId: String!) {\n            show(_id: $showId) {\n                _id\n                availableEpisodesDetail\n            }\n        }\n    ";

/// The GraphQL document of the episode-sources operation.
pub const EPISODE_SOURCES_QUERY_DOC: &'static str = "\n        query (\n            $showId: String!,\n            $translationType: VaildTranslationTypeEnumType!,\n            $episodeString: String!\n        ) {\n            episode(\n                showId: $showId,\n                translationType: $translationType,\n                episodeString: $episodeString\n            ) {\n                episodeString\n                sourceUrls\n            }\n        }\n    ";

/// The fixed transport configuration, read-only after construction: one
/// endpoint, two required headers, one timeout.
pub struct TransportConfig {
    pub base_url: &'static str,
    pub referer: &'static str,
    pub user_agent: &'static str,
    pub timeout_secs: u64,
}

/// The one configuration the client runs with.
pub fn transport_config() -> (r: TransportConfig)
    ensures
        r.base_url@ == BASE_API@,
        r.referer@ == REFERER@,
        r.user_agent@ == USER_AGENT@,
        r.timeout_secs == TIMEOUT_SECS,
{
    TransportConfig {
        base_url: BASE_API,
        referer: REFERER,
        user_agent: USER_AGENT,
        timeout_secs: TIMEOUT_SECS,
    }
}

/// A search request: its GraphQL document and every variable.
pub struct SearchRequest {
    pub query_doc: &'static str,
    pub allow_adult: bool,
    pub allow_unknown: bool,
    pub query: String,
    pub limit: u64,
    pub page: u64,
    pub translation_type: &'static str,
    pub country_origin: &'static str,
}

/// Shapes the search operation: adult and unknown content off, the first
/// page of at most forty results, the fixed default translation filter,
/// and any country of origin.
pub fn search_request(query: &str) -> (r: SearchRequest)
    ensures
        r.query_doc@ == SEARCH_QUERY_DOC@,
        r.allow_adult == false,
        r.allow_unknown == false,
        r.query@ == query@,
        r.limit == 40,
        r.page == 1,
        r.translation_type@ == "sub"@,
        r.country_origin@ == "ALL"@,
{
    SearchRequest {
        query_doc: SEARCH_QUERY_DOC,
        allow_adult: false,
        allow_unknown: false,
        query: query.to_owned(),
        limit: 40,
        page: 1,
        translation_type: "sub",
        country_origin: "ALL",
    }
}

/// An episode-list request: its GraphQL document and the one variable.
pub struct EpisodeListRequest {
    pub query_doc: &'static str,
    pub show_id: String,
}

/// Shapes the episode-list operation for one title.
pub fn episode_list_request(anime_id: &str) -> (r: EpisodeListRequest)
    ensures
        r.query_doc@ == EPISODE_LIST_QUERY_DOC@,
        r.show_id@ == anime_id@,
{
    EpisodeListRequest { query_doc: EPISODE_LIST_QUERY_DOC, show_id: anime_id.to_owned() }
}

/// An episode-sources request: its GraphQL document and every variable.
pub struct EpisodeSourcesRequest {
    pub query_doc: &'static str,
    pub show_id: String,
    pub translation_type: &'static str,
    pub episode_string: String,
}

/// Shapes the episode-sources operation for one episode of one title in
/// one track.
pub fn episode_sources_request(
    anime_id: &str,
    episode_number: &str,
    translation: TranslationType,
) -> (r: EpisodeSourcesRequest)
    ensures
        r.query_doc@ == EPISODE_SOURCES_QUERY_DOC@,
        r.show_id@ == anime_id@,
        r.translation_type@ == translation.wire_token(),
        r.episode_string@ == episode_number@,
{
    EpisodeSourcesRequest {
        query_doc: EPISODE_SOURCES_QUERY_DOC,
        show_id: anime_id.to_owned(),
        translation_type: translation.to_wire(),
        episode_string: episode_number.to_owned(),
    }
}

} // verus!
