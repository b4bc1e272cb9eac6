use ani_cli_rs::models::{
    Anime, EpisodeMeta, EpisodeNumber, HistoryEntry, SelectedAnime, TranslationType,
};

#[test]
fn wire_tokens_of_both_tracks() {
    assert_eq!(TranslationType::Sub.to_wire(), "sub");
    assert_eq!(TranslationType::Dub.to_wire(), "dub");
}

#[test]
fn wire_tokens_round_trip() {
    assert_eq!(
        TranslationType::from_wire(TranslationType::Sub.to_wire()),
        Some(TranslationType::Sub)
    );
    assert_eq!(
        TranslationType::from_wire(TranslationType::Dub.to_wire()),
        Some(TranslationType::Dub)
    );
    assert_eq!(TranslationType::from_wire("raw"), None);
    assert_eq!(TranslationType::from_wire(""), None);
    assert_eq!(TranslationType::from_wire("subs"), None);
}

#[test]
fn whole_episode_numbers_parse() {
    assert_eq!(
        EpisodeNumber::parse("1"),
        Some(EpisodeNumber { whole: 1, thousandths: 0 })
    );
    assert_eq!(
        EpisodeNumber::parse("220"),
        Some(EpisodeNumber { whole: 220, thousandths: 0 })
    );
    assert_eq!(
        EpisodeNumber::parse("0"),
        Some(EpisodeNumber { whole: 0, thousandths: 0 })
    );
}

#[test]
fn fractional_episode_numbers_parse() {
    assert_eq!(
        EpisodeNumber::parse("5.5"),
        Some(EpisodeNumber { whole: 5, thousandths: 500 })
    );
    assert_eq!(
        EpisodeNumber::parse("1.25"),
        Some(EpisodeNumber { whole: 1, thousandths: 250 })
    );
    assert_eq!(
        EpisodeNumber::parse("12.125"),
        Some(EpisodeNumber { whole: 12, thousandths: 125 })
    );
    // Digits past the third fractional place are ignored.
    assert_eq!(
        EpisodeNumber::parse("1.2345"),
        Some(EpisodeNumber { whole: 1, thousandths: 234 })
    );
    // A trailing dot reads as a whole number.
    assert_eq!(
        EpisodeNumber::parse("7."),
        Some(EpisodeNumber { whole: 7, thousandths: 0 })
    );
}

#[test]
fn malformed_episode_numbers_are_rejected() {
    assert_eq!(EpisodeNumber::parse("movie"), None);
    assert_eq!(EpisodeNumber::parse(""), None);
    assert_eq!(EpisodeNumber::parse("."), None);
    assert_eq!(EpisodeNumber::parse(".5"), None);
    assert_eq!(EpisodeNumber::parse("-1"), None);
    assert_eq!(EpisodeNumber::parse("1.2.3"), None);
    assert_eq!(EpisodeNumber::parse("1a"), None);
    // The whole part must fit in 64 bits.
    assert_eq!(EpisodeNumber::parse("99999999999999999999"), None);
}

#[test]
fn selection_and_history_keep_their_shape() {
    let anime = Anime {
        id: "abc123".to_string(),
        title: "Naruto".to_string(),
        available_translations: vec![TranslationType::Sub],
        episode_count: 220,
    };
    let episodes = vec![EpisodeMeta {
        number: EpisodeNumber { whole: 1, thousandths: 0 },
        released: true,
    }];
    let selected = SelectedAnime {
        anime: anime.clone(),
        translation: TranslationType::Sub,
        episodes: episodes.clone(),
    };
    assert_eq!(selected.anime, anime);
    assert_eq!(selected.episodes, episodes);

    let entry = HistoryEntry {
        anime_id: anime.id.clone(),
        last_episode: EpisodeNumber { whole: 1, thousandths: 0 },
        translation: TranslationType::Sub,
    };
    assert_eq!(entry.anime_id, "abc123");
}

#[test]
fn episode_number_order_is_numeric() {
    let one = EpisodeNumber::parse("1").unwrap();
    let special = EpisodeNumber::parse("5.5").unwrap();
    let six = EpisodeNumber::parse("6").unwrap();
    assert!(one.le(&special));
    assert!(special.le(&six));
    assert!(!six.le(&special));
    assert!(six.le(&six));
}
