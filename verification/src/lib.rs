pub mod client;
pub mod models;
pub mod pager;
pub mod parser;
pub mod retry;
pub mod text;

pub use models::{
    Anime, AppError, EpisodeMeta, EpisodeNumber, EpisodeStream, HistoryEntry, SelectedAnime,
    TranslationType,
};
