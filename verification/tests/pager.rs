use ani_cli_rs::models::{EpisodeMeta, EpisodeNumber, TranslationType};
use ani_cli_rs::pager::{sort_episodes, Pager};
use ani_cli_rs::parser::{parse_episode_list, EpisodeListResponse};

fn ep(whole: u64, thousandths: u16) -> EpisodeMeta {
    EpisodeMeta { number: EpisodeNumber { whole, thousandths }, released: true }
}

fn whole_numbers(items: &[EpisodeMeta]) -> Vec<u64> {
    items.iter().map(|e| e.number.whole).collect()
}

#[test]
fn sorting_is_numeric_not_lexical() {
    let mut v = vec![ep(10, 0), ep(2, 0), ep(5, 500), ep(1, 0), ep(5, 0)];
    sort_episodes(&mut v);
    assert_eq!(
        v,
        vec![ep(1, 0), ep(2, 0), ep(5, 0), ep(5, 500), ep(10, 0)]
    );
}

#[test]
fn sorting_keeps_duplicates() {
    let mut v = vec![ep(3, 0), ep(3, 0), ep(1, 0)];
    sort_episodes(&mut v);
    assert_eq!(v, vec![ep(1, 0), ep(3, 0), ep(3, 0)]);
}

#[test]
fn fractional_specials_sort_between_whole_episodes() {
    let episodes = vec![ep(2, 0), ep(5, 500), ep(1, 0), ep(6, 0)];
    let pager = Pager::new(episodes, 25);
    let items = pager.current_page_items();
    assert_eq!(
        items,
        vec![ep(1, 0), ep(2, 0), ep(5, 500), ep(6, 0)]
    );
}

#[test]
fn pages_are_fixed_size_with_a_short_last_page() {
    let episodes: Vec<EpisodeMeta> = (1..=60).map(|n| ep(n, 0)).collect();
    let mut pager = Pager::new(episodes, 25);
    assert!(!pager.has_prev());
    assert!(pager.has_next());
    assert_eq!(whole_numbers(&pager.current_page_items()), (1..=25).collect::<Vec<u64>>());

    pager.next_page();
    assert!(pager.has_prev());
    assert!(pager.has_next());
    assert_eq!(whole_numbers(&pager.current_page_items()), (26..=50).collect::<Vec<u64>>());

    pager.next_page();
    assert!(pager.has_prev());
    assert!(!pager.has_next());
    assert_eq!(whole_numbers(&pager.current_page_items()), (51..=60).collect::<Vec<u64>>());
}

#[test]
fn paging_is_clamped_at_both_ends() {
    let episodes: Vec<EpisodeMeta> = (1..=30).map(|n| ep(n, 0)).collect();
    let mut pager = Pager::new(episodes, 25);
    pager.prev_page();
    assert_eq!(whole_numbers(&pager.current_page_items()), (1..=25).collect::<Vec<u64>>());
    pager.next_page();
    pager.next_page();
    pager.next_page();
    assert_eq!(whole_numbers(&pager.current_page_items()), (26..=30).collect::<Vec<u64>>());
}

#[test]
fn forward_then_backward_returns_to_the_same_items() {
    let episodes: Vec<EpisodeMeta> = (1..=80).map(|n| ep(n, 0)).collect();
    let mut pager = Pager::new(episodes, 25);
    let first = pager.current_page_items();
    for _ in 0..3 {
        pager.next_page();
    }
    for _ in 0..3 {
        pager.prev_page();
    }
    assert_eq!(pager.current_page_items(), first);
}

#[test]
fn forward_then_backward_from_the_first_page_survives_clamping() {
    let episodes: Vec<EpisodeMeta> = (1..=30).map(|n| ep(n, 0)).collect();
    let mut pager = Pager::new(episodes, 7);
    let first = pager.current_page_items();
    for _ in 0..20 {
        pager.next_page();
    }
    for _ in 0..20 {
        pager.prev_page();
    }
    assert_eq!(pager.current_page_items(), first);
}

#[test]
fn page_size_one_pages_one_episode_at_a_time() {
    let episodes = vec![ep(2, 0), ep(1, 0)];
    let mut pager = Pager::new(episodes, 1);
    assert_eq!(whole_numbers(&pager.current_page_items()), vec![1]);
    pager.next_page();
    assert_eq!(whole_numbers(&pager.current_page_items()), vec![2]);
    assert!(!pager.has_next());
}

#[test]
fn selecting_an_offset_yields_its_episode_number() {
    let episodes: Vec<EpisodeMeta> = (1..=30).map(|n| ep(n, 0)).collect();
    let mut pager = Pager::new(episodes, 25);
    assert_eq!(pager.select(0), Some(EpisodeNumber { whole: 1, thousandths: 0 }));
    pager.next_page();
    assert_eq!(pager.select(2), Some(EpisodeNumber { whole: 28, thousandths: 0 }));
    assert_eq!(pager.select(5), None);
}

#[test]
fn parsed_episode_lists_page_in_sorted_order() {
    let data = EpisodeListResponse {
        sub_episodes: Some(vec![
            Some("5.5".to_string()),
            Some("1".to_string()),
            Some("movie".to_string()),
            Some("2".to_string()),
        ]),
        dub_episodes: None,
    };
    let episodes = parse_episode_list(&data, TranslationType::Sub);
    let pager = Pager::new(episodes, 25);
    let numbers: Vec<EpisodeNumber> = pager
        .current_page_items()
        .iter()
        .map(|e| e.number)
        .collect();
    assert_eq!(
        numbers,
        vec![
            EpisodeNumber { whole: 1, thousandths: 0 },
            EpisodeNumber { whole: 2, thousandths: 0 },
            EpisodeNumber { whole: 5, thousandths: 500 },
        ]
    );
}

#[test]
fn an_empty_list_pages_as_one_empty_page() {
    let mut pager = Pager::new(Vec::new(), 25);
    assert_eq!(pager.current_page_items(), Vec::new());
    assert!(!pager.has_next());
    assert!(!pager.has_prev());
    pager.next_page();
    assert_eq!(pager.current_page_items(), Vec::new());
}
