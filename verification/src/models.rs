//! Core data structures shared by the response parser, the client and the
//! pager, together with the episode-number grammar.

use vstd::prelude::*;

verus! {

use vstd::string::StrSliceExecFns;
use crate::text::{
    all_digits, digit_value, digits_val, is_ascii_digit, lemma_digits_val_bounds,
    parse_digits_range,
};

/// Language track of a title: subtitled or dubbed.
#[derive(Clone, Copy, Debug, PartialEq, Eq, Structural)]
pub enum TranslationType {
    Sub,
    Dub,
}

impl TranslationType {
    /// The wire token the catalog service uses for this track.
    pub open spec fn wire_token(self) -> Seq<char> {
        match self {
            TranslationType::Sub => "sub"@,
            TranslationType::Dub => "dub"@,
        }
    }

    pub fn to_wire(self) -> (r: &'static str)
        ensures
            r@ == self.wire_token(),
    {
        match self {
            TranslationType::Sub => "sub",
            TranslationType::Dub => "dub",
        }
    }

    /// The track a wire token names, if any.
    pub open spec fn spec_from_wire(s: Seq<char>) -> Option<TranslationType> {
        if s == "sub"@ {
            Some(TranslationType::Sub)
        } else if s == "dub"@ {
            Some(TranslationType::Dub)
        } else {
            None
        }
    }

    pub fn from_wire(s: &str) -> (r: Option<TranslationType>)
        ensures
            r == Self::spec_from_wire(s@),
    {
        proof {
            reveal_strlit("sub");
            reveal_strlit("dub");
        }
        if s.unicode_len() != 3 {
            return None;
        }
        let c0 = s.get_char(0);
        let c1 = s.get_char(1);
        let c2 = s.get_char(2);
        if c0 == 's' && c1 == 'u' && c2 == 'b' {
            assert(s@ =~= "sub"@);
            Some(TranslationType::Sub)
        } else if c0 == 'd' && c1 == 'u' && c2 == 'b' {
            assert(s@ =~= "dub"@);
            Some(TranslationType::Dub)
        } else {
            assert(s@ != "sub"@ && s@ != "dub"@);
            None
        }
    }

    /// The two wire tokens round-trip: decoding what a track encodes to
    /// gives the track back.
    pub proof fn lemma_wire_round_trip(t: TranslationType)
        ensures
            Self::spec_from_wire(t.wire_token()) == Some(t),
    {
        reveal_strlit("sub");
        reveal_strlit("dub");
        assert("sub"@[0] != "dub"@[0]);
    }
}

/// A non-negative episode number, held as a whole part and a fractional
/// part in thousandths so that fractional "special" episodes (such as 5.5)
/// order correctly between whole episodes.
#[derive(Clone, Copy, Debug, PartialEq, Eq, Structural)]
pub struct EpisodeNumber {
    pub whole: u64,
    pub thousandths: u16,
}

/// First index of `'.'` in `s`, or `s.len()` when there is none.
pub open spec fn find_dot(s: Seq<char>) -> int
    decreases s.len(),
{
    if s.len() == 0 {
        0
    } else if s.first() == '.' {
        0
    } else {
        1 + find_dot(s.drop_first())
    }
}

proof fn lemma_find_dot(s: Seq<char>)
    ensures
        0 <= find_dot(s) <= s.len(),
        forall|i: int| 0 <= i < find_dot(s) ==> s[i] != '.',
        find_dot(s) < s.len() ==> s[find_dot(s)] == '.',
    decreases s.len(),
{
    if s.len() > 0 && s.first() != '.' {
        lemma_find_dot(s.drop_first());
        assert forall|i: int| 0 <= i < find_dot(s) implies s[i] != '.' by {
            if i >= 1 {
                assert(s[i] == s.drop_first()[i - 1]);
            }
        }
    }
}

/// Value in thousandths of a fraction digit string: its first three digits,
/// right-padded with zeros; digits past the third are ignored.
pub open spec fn frac_thousandths(fr: Seq<char>) -> int {
    if fr.len() == 0 {
        0
    } else if fr.len() == 1 {
        digits_val(fr) * 100
    } else if fr.len() == 2 {
        digits_val(fr) * 10
    } else {
        digits_val(fr.take(3))
    }
}

impl EpisodeNumber {
    /// The fractional part is a count of thousandths.
    pub open spec fn wf(self) -> bool {
        self.thousandths < 1000
    }

    /// Numeric order, whole part first.
    pub open spec fn spec_le(self, other: Self) -> bool {
        self.whole < other.whole || (self.whole == other.whole && self.thousandths
            <= other.thousandths)
    }

    pub fn le(&self, other: &Self) -> (r: bool)
        ensures
            r == self.spec_le(*other),
    {
        self.whole < other.whole || (self.whole == other.whole && self.thousandths
            <= other.thousandths)
    }

    /// The grammar of episode-number strings: one or more digits, an
    /// optional dot, then zero or more fraction digits. The whole part must
    /// fit in 64 bits; fraction digits past the third are ignored.
    pub open spec fn spec_parse(s: Seq<char>) -> Option<EpisodeNumber> {
        let d = find_dot(s);
        let ip = s.take(d);
        let fr = s.skip(d + 1);
        if d == s.len() {
            if ip.len() > 0 && all_digits(ip) && digits_val(ip) <= u64::MAX {
                Some(EpisodeNumber { whole: digits_val(ip) as u64, thousandths: 0 })
            } else {
                None
            }
        } else {
            if ip.len() > 0 && all_digits(ip) && digits_val(ip) <= u64::MAX && all_digits(fr) {
                Some(
                    EpisodeNumber {
                        whole: digits_val(ip) as u64,
                        thousandths: frac_thousandths(fr) as u16,
                    },
                )
            } else {
                None
            }
        }
    }

    pub fn parse(s: &str) -> (r: Option<EpisodeNumber>)
        ensures
            r == Self::spec_parse(s@),
            r is Some ==> r->0.wf(),
    {
        let n = s.unicode_len();
        let mut d: usize = 0;
        while d < n && !dot_at(s, d)
            invariant
                0 <= d <= n == s@.len(),
                forall|i: int| 0 <= i < d ==> s@[i] != '.',
            decreases n - d,
        {
            d = d + 1;
        }
        proof {
            lemma_find_dot(s@);
            let f = find_dot(s@);
            if f < d {
                assert(s@[f] == '.');
                assert(false);
            }
            if d < f {
                assert(s@[d as int] == '.');
                assert(false);
            }
        }
        let ghost ip = s@.take(d as int);
        let whole = match parse_digits_range(s, 0, d, u64::MAX) {
            Some(v) => v,
            None => {
                assert(s@.subrange(0, d as int) =~= ip);
                return None;
            },
        };
        assert(s@.subrange(0, d as int) =~= ip);
        proof {
            lemma_digits_val_bounds(ip);
        }
        if d == n {
            return Some(EpisodeNumber { whole, thousandths: 0 });
        }
        let ghost fr = s@.skip(d + 1);
        if !all_digits_range(s, d + 1, n) {
            assert(s@.subrange(d + 1, n as int) =~= fr);
            return None;
        }
        assert(s@.subrange(d + 1, n as int) =~= fr);
        let fl = n - d - 1;
        proof {
            assert(fl == fr.len());
            if fl >= 1 {
                assert(is_ascii_digit(s@[d + 1])) by {
                    assert(fr[0] == s@[d + 1]);
                }
            }
            if fl >= 2 {
                assert(is_ascii_digit(s@[d + 2])) by {
                    assert(fr[1] == s@[d + 2]);
                }
            }
            if fl >= 3 {
                assert(is_ascii_digit(s@[d + 3])) by {
                    assert(fr[2] == s@[d + 3]);
                }
            }
        }
        let th: u16 = if fl == 0 {
            0
        } else if fl == 1 {
            digit_at(s, d + 1) * 100
        } else if fl == 2 {
            digit_at(s, d + 1) * 100 + digit_at(s, d + 2) * 10
        } else {
            digit_at(s, d + 1) * 100 + digit_at(s, d + 2) * 10 + digit_at(s, d + 3)
        };
        proof {
            assert(digits_val(Seq::<char>::empty()) == 0);
            if fr.len() == 1 {
                assert(fr.drop_last() =~= Seq::<char>::empty());
                assert(fr.last() == s@[d + 1]);
                assert(digits_val(fr) == digit_value(s@[d + 1]));
                assert(frac_thousandths(fr) == digit_value(s@[d + 1]) * 100);
            } else if fr.len() == 2 {
                assert(fr.drop_last() =~= fr.take(1));
                assert(fr.take(1).drop_last() =~= Seq::<char>::empty());
                assert(fr.last() == s@[d + 2]);
                assert(fr.take(1).last() == s@[d + 1]);
                assert(digits_val(fr.take(1)) == digit_value(s@[d + 1]));
                assert(digits_val(fr) == digit_value(s@[d + 1]) * 10 + digit_value(s@[d + 2]));
                assert(frac_thousandths(fr) == digit_value(s@[d + 1]) * 100 + digit_value(
                    s@[d + 2],
                ) * 10);
            } else if fr.len() >= 3 {
                let f3 = fr.take(3);
                assert(f3.drop_last() =~= fr.take(2));
                assert(fr.take(2).drop_last() =~= fr.take(1));
                assert(fr.take(1).drop_last() =~= Seq::<char>::empty());
                assert(f3.last() == s@[d + 3]);
                assert(fr.take(2).last() == s@[d + 2]);
                assert(fr.take(1).last() == s@[d + 1]);
                assert(digits_val(fr.take(1)) == digit_value(s@[d + 1]));
                assert(digits_val(fr.take(2)) == digit_value(s@[d + 1]) * 10 + digit_value(
                    s@[d + 2],
                ));
                assert(digits_val(f3) == digits_val(fr.take(2)) * 10 + digit_value(s@[d + 3]));
                assert(frac_thousandths(fr) == digit_value(s@[d + 1]) * 100 + digit_value(
                    s@[d + 2],
                ) * 10 + digit_value(s@[d + 3]));
            }
        }
        Some(EpisodeNumber { whole, thousandths: th })
    }
}

fn dot_at(s: &str, i: usize) -> (r: bool)
    requires
        i < s@.len(),
    ensures
        r == (s@[i as int] == '.'),
{
    s.get_char(i) == '.'
}

fn digit_at(s: &str, i: usize) -> (v: u16)
    requires
        i < s@.len(),
        is_ascii_digit(s@[i as int]),
    ensures
        v as int == digit_value(s@[i as int]),
        v <= 9,
{
    let c = s.get_char(i);
    ((c as u32) - 48) as u16
}

fn all_digits_range(s: &str, lo: usize, hi: usize) -> (r: bool)
    requires
        lo <= hi <= s@.len(),
    ensures
        r == all_digits(s@.subrange(lo as int, hi as int)),
{
    let ghost t = s@.subrange(lo as int, hi as int);
    let mut j: usize = lo;
    while j < hi
        invariant
            lo <= j <= hi <= s@.len(),
            t == s@.subrange(lo as int, hi as int),
            forall|i: int| 0 <= i < j - lo ==> is_ascii_digit(#[trigger] t[i]),
        decreases hi - j,
    {
        let c = s.get_char(j);
        let u = c as u32;
        assert(c == t[j - lo]);
        if u < 48 || u > 57 {
            assert(!is_ascii_digit(t[j - lo]));
            return false;
        }
        j = j + 1;
    }
    true
}

/// One selectable episode: its number, and whether it has been released.
/// The parser only ever emits released episodes, since the catalog lists
/// unreleased ones by omission.
#[derive(Clone, Copy, Debug, PartialEq, Eq, Structural)]
pub struct EpisodeMeta {
    pub number: EpisodeNumber,
    pub released: bool,
}

/// One title from a search response.
#[derive(Clone, Debug, PartialEq)]
pub struct Anime {
    pub id: String,
    pub title: String,
    pub available_translations: Vec<TranslationType>,
    pub episode_count: usize,
}

/// Spec-level image of an [`Anime`].
pub struct AnimeV {
    pub id: Seq<char>,
    pub title: Seq<char>,
    pub available_translations: Seq<TranslationType>,
    pub episode_count: usize,
}

impl View for Anime {
    type V = AnimeV;

    open spec fn view(&self) -> AnimeV {
        AnimeV {
            id: self.id@,
            title: self.title@,
            available_translations: self.available_translations@,
            episode_count: self.episode_count,
        }
    }
}

/// One playable source for an episode.
#[derive(Clone, Debug, PartialEq)]
pub struct EpisodeStream {
    pub quality: u16,
    pub url: String,
    pub provider: String,
}

/// Spec-level image of an [`EpisodeStream`].
pub struct EpisodeStreamV {
    pub quality: u16,
    pub url: Seq<char>,
    pub provider: Seq<char>,
}

impl View for EpisodeStream {
    type V = EpisodeStreamV;

    open spec fn view(&self) -> EpisodeStreamV {
        EpisodeStreamV { quality: self.quality, url: self.url@, provider: self.provider@ }
    }
}

/// The unit handed to the playback flow: one title, the chosen track, and
/// its episodes.
#[derive(Clone, Debug, PartialEq)]
pub struct SelectedAnime {
    pub anime: Anime,
    pub translation: TranslationType,
    pub episodes: Vec<EpisodeMeta>,
}

/// Watch-progress record, persisted by an external collaborator.
#[derive(Clone, Debug, PartialEq)]
pub struct HistoryEntry {
    pub anime_id: String,
    pub last_episode: EpisodeNumber,
    pub translation: TranslationType,
}

/// Every failure the client or the parser can report.
#[derive(Clone, Debug, PartialEq)]
pub enum AppError {
    /// The transport could not complete the request.
    RequestError(String),
    /// A JSON document could not be decoded.
    JsonError(String),
    /// The response body could not be decoded as JSON.
    JsonRequestError(String),
    /// The transport could not be configured.
    ClientError(String),
    /// The service answered with this non-success HTTP status.
    ApiError(u16),
    /// A response had the wrong shape for the strict parsing path.
    ParsingError(String),
    NoStreamsAvailable,
    NoEpisodesAvailable,
    UnknownError(String),
}

} // verus!
