//! The typed pieces of one title record: the identifier, the classification
//! token set, and the record itself with its specification-level view.

use vstd::prelude::*;
use crate::bytes::{all_digits, digits_val, lower, parses_as_u64};
use crate::genre::Genres;

verus! {

/// A catalog identifier: `tt` followed by a decimal digit string.  The
/// canonical form for indexing and equality is the decoded unsigned integer,
/// so `tt0000123` and any re-serialization of it compare equal.
#[derive(Debug, Clone, Copy, PartialEq, Eq, Structural)]
pub struct TitleId {
    pub num: u64,
}

/// An identifier field is well-shaped when it starts with `tt`, continues
/// with at least one decimal digit, and its value fits in 64 bits.
pub open spec fn valid_title_id(s: Seq<u8>) -> bool {
    s.len() >= 3 && s[0] == 116 && s[1] == 116 && all_digits(s.skip(2)) && parses_as_u64(s.skip(2))
}

/// The canonical integer value of a well-shaped identifier field.
pub open spec fn title_id_val(s: Seq<u8>) -> nat {
    digits_val(s.skip(2))
}

impl TitleId {
    /// Decoding an identifier field: `Some` exactly on well-shaped input,
    /// and then the canonical integer value is the digit string's value.
    pub fn parse(s: &[u8]) -> (r: Option<TitleId>)
        ensures
            r is Some <==> valid_title_id(s@),
            r is Some ==> r->0.num == title_id_val(s@),
    {
        if s.len() < 3 {
            return None;
        }
        if s[0] != 116 || s[1] != 116 {
            return None;
        }
        let digits = vstd::slice::slice_subrange(s, 2, s.len());
        match crate::bytes::parse_u64(digits) {
            Some(num) => Some(TitleId { num }),
            None => None,
        }
    }
}

/// The classification token set of the dump format.  A record is stored only
/// when its classification is movie-like or series-like; the others are
/// accepted by the parser and skipped by the caller.
#[derive(Debug, Clone, Copy, PartialEq, Eq, Structural)]
pub enum TitleType {
    Short,
    Movie,
    Video,
    VideoGame,
    TvMovie,
    TvSeries,
    TvEpisode,
    TvShort,
    TvMiniSeries,
    TvSpecial,
    RadioSeries,
    RadioEpisode,
}

/// The dump token that names each classification.
pub open spec fn title_type_token(t: TitleType) -> Seq<u8> {
    match t {
        TitleType::Short => seq![115u8, 104u8, 111u8, 114u8, 116u8],  // "short"
        TitleType::Movie => seq![109u8, 111u8, 118u8, 105u8, 101u8],  // "movie"
        TitleType::Video => seq![118u8, 105u8, 100u8, 101u8, 111u8],  // "video"
        TitleType::VideoGame => seq![118u8, 105u8, 100u8, 101u8, 111u8, 71u8, 97u8, 109u8, 101u8],  // "videoGame"
        TitleType::TvMovie => seq![116u8, 118u8, 77u8, 111u8, 118u8, 105u8, 101u8],  // "tvMovie"
        TitleType::TvSeries => seq![116u8, 118u8, 83u8, 101u8, 114u8, 105u8, 101u8, 115u8],  // "tvSeries"
        TitleType::TvEpisode => seq![116u8, 118u8, 69u8, 112u8, 105u8, 115u8, 111u8, 100u8, 101u8],  // "tvEpisode"
        TitleType::TvShort => seq![116u8, 118u8, 83u8, 104u8, 111u8, 114u8, 116u8],  // "tvShort"
        TitleType::TvMiniSeries => seq![116u8, 118u8, 77u8, 105u8, 110u8, 105u8, 83u8, 101u8, 114u8, 105u8, 101u8, 115u8],  // "tvMiniSeries"
        TitleType::TvSpecial => seq![116u8, 118u8, 83u8, 112u8, 101u8, 99u8, 105u8, 97u8, 108u8],  // "tvSpecial"
        TitleType::RadioSeries => seq![114u8, 97u8, 100u8, 105u8, 111u8, 83u8, 101u8, 114u8, 105u8, 101u8, 115u8],  // "radioSeries"
        TitleType::RadioEpisode => seq![114u8, 97u8, 100u8, 105u8, 111u8, 69u8, 112u8, 105u8, 115u8, 111u8, 100u8, 101u8],  // "radioEpisode"
    }
}

/// Decoding one classification token; `None` exactly when it is unknown.
pub open spec fn spec_parse_title_type(s: Seq<u8>) -> Option<TitleType> {
    if s == title_type_token(TitleType::Short) {
        Some(TitleType::Short)
    } else if s == title_type_token(TitleType::Movie) {
        Some(TitleType::Movie)
    } else if s == title_type_token(TitleType::Video) {
        Some(TitleType::Video)
    } else if s == title_type_token(TitleType::VideoGame) {
        Some(TitleType::VideoGame)
    } else if s == title_type_token(TitleType::TvMovie) {
        Some(TitleType::TvMovie)
    } else if s == title_type_token(TitleType::TvSeries) {
        Some(TitleType::TvSeries)
    } else if s == title_type_token(TitleType::TvEpisode) {
        Some(TitleType::TvEpisode)
    } else if s == title_type_token(TitleType::TvShort) {
        Some(TitleType::TvShort)
    } else if s == title_type_token(TitleType::TvMiniSeries) {
        Some(TitleType::TvMiniSeries)
    } else if s == title_type_token(TitleType::TvSpecial) {
        Some(TitleType::TvSpecial)
    } else if s == title_type_token(TitleType::RadioSeries) {
        Some(TitleType::RadioSeries)
    } else if s == title_type_token(TitleType::RadioEpisode) {
        Some(TitleType::RadioEpisode)
    } else {
        None
    }
}

/// The movie-like classifications: stored in a shard's movie sequence.
pub open spec fn spec_is_movie(t: TitleType) -> bool {
    t == TitleType::Movie || t == TitleType::TvMovie
}

/// The series-like classifications: stored in a shard's series sequence.
pub open spec fn spec_is_series(t: TitleType) -> bool {
    t == TitleType::TvSeries || t == TitleType::TvMiniSeries
}

impl TitleType {
    /// Executable classification-token decoding.
    pub fn parse(s: &[u8]) -> (r: Option<TitleType>)
        ensures
            r == spec_parse_title_type(s@),
    {
        let pat_short: [u8; 5] = [115, 104, 111, 114, 116];
        if crate::bytes::bytes_eq(s, pat_short.as_slice()) {
            proof { assert(pat_short@ =~= title_type_token(TitleType::Short)); }
            return Some(TitleType::Short);
        }
        let pat_movie: [u8; 5] = [109, 111, 118, 105, 101];
        if crate::bytes::bytes_eq(s, pat_movie.as_slice()) {
            proof { assert(pat_movie@ =~= title_type_token(TitleType::Movie)); }
            return Some(TitleType::Movie);
        }
        let pat_video: [u8; 5] = [118, 105, 100, 101, 111];
        if crate::bytes::bytes_eq(s, pat_video.as_slice()) {
            proof { assert(pat_video@ =~= title_type_token(TitleType::Video)); }
            return Some(TitleType::Video);
        }
        let pat_videogame: [u8; 9] = [118, 105, 100, 101, 111, 71, 97, 109, 101];
        if crate::bytes::bytes_eq(s, pat_videogame.as_slice()) {
            proof { assert(pat_videogame@ =~= title_type_token(TitleType::VideoGame)); }
            return Some(TitleType::VideoGame);
        }
        let pat_tvmovie: [u8; 7] = [116, 118, 77, 111, 118, 105, 101];
        if crate::bytes::bytes_eq(s, pat_tvmovie.as_slice()) {
            proof { assert(pat_tvmovie@ =~= title_type_token(TitleType::TvMovie)); }
            return Some(TitleType::TvMovie);
        }
        let pat_tvseries: [u8; 8] = [116, 118, 83, 101, 114, 105, 101, 115];
        if crate::bytes::bytes_eq(s, pat_tvseries.as_slice()) {
            proof { assert(pat_tvseries@ =~= title_type_token(TitleType::TvSeries)); }
            return Some(TitleType::TvSeries);
        }
        let pat_tvepisode: [u8; 9] = [116, 118, 69, 112, 105, 115, 111, 100, 101];
        if crate::bytes::bytes_eq(s, pat_tvepisode.as_slice()) {
            proof { assert(pat_tvepisode@ =~= title_type_token(TitleType::TvEpisode)); }
            return Some(TitleType::TvEpisode);
        }
        let pat_tvshort: [u8; 7] = [116, 118, 83, 104, 111, 114, 116];
        if crate::bytes::bytes_eq(s, pat_tvshort.as_slice()) {
            proof { assert(pat_tvshort@ =~= title_type_token(TitleType::TvShort)); }
            return Some(TitleType::TvShort);
        }
        let pat_tvminiseries: [u8; 12] = [116, 118, 77, 105, 110, 105, 83, 101, 114, 105, 101, 115];
        if crate::bytes::bytes_eq(s, pat_tvminiseries.as_slice()) {
            proof { assert(pat_tvminiseries@ =~= title_type_token(TitleType::TvMiniSeries)); }
            return Some(TitleType::TvMiniSeries);
        }
        let pat_tvspecial: [u8; 9] = [116, 118, 83, 112, 101, 99, 105, 97, 108];
        if crate::bytes::bytes_eq(s, pat_tvspecial.as_slice()) {
            proof { assert(pat_tvspecial@ =~= title_type_token(TitleType::TvSpecial)); }
            return Some(TitleType::TvSpecial);
        }
        let pat_radioseries: [u8; 11] = [114, 97, 100, 105, 111, 83, 101, 114, 105, 101, 115];
        if crate::bytes::bytes_eq(s, pat_radioseries.as_slice()) {
            proof { assert(pat_radioseries@ =~= title_type_token(TitleType::RadioSeries)); }
            return Some(TitleType::RadioSeries);
        }
        let pat_radioepisode: [u8; 12] = [114, 97, 100, 105, 111, 69, 112, 105, 115, 111, 100, 101];
        if crate::bytes::bytes_eq(s, pat_radioepisode.as_slice()) {
            proof { assert(pat_radioepisode@ =~= title_type_token(TitleType::RadioEpisode)); }
            return Some(TitleType::RadioEpisode);
        }
        None
    }

    /// Movie-like test, mirroring [`spec_is_movie`].
    pub fn is_movie(&self) -> (r: bool)
        ensures
            r == spec_is_movie(*self),
    {
        match self {
            TitleType::Movie => true,
            TitleType::TvMovie => true,
            _ => false,
        }
    }

    /// Series-like test, mirroring [`spec_is_series`].
    pub fn is_series(&self) -> (r: bool)
        ensures
            r == spec_is_series(*self),
    {
        match self {
            TitleType::TvSeries => true,
            TitleType::TvMiniSeries => true,
            _ => false,
        }
    }
}

/// The two stored classifications.  Every query names the side it searches;
/// records of any other classification are never stored.
#[derive(Debug, Clone, Copy, PartialEq, Eq, Structural)]
pub enum Classification {
    Movie,
    Series,
}

/// The specification-level image of one stored record.
#[verifier::ext_equal]
pub ghost struct TitleView {
    pub id: u64,
    pub title_type: TitleType,
    pub primary: Seq<u8>,
    pub original: Seq<u8>,
    pub is_adult: bool,
    pub start_year: Option<u16>,
    pub end_year: Option<u16>,
    pub runtime_minutes: Option<u16>,
    pub genres: u32,
}

impl TitleView {
    /// The lowercased primary name, as the name index keys it.
    pub open spec fn lc_primary(self) -> Seq<u8> {
        lower(self.primary)
    }

    /// The lowercased original name, as the name index keys it.
    pub open spec fn lc_original(self) -> Seq<u8> {
        lower(self.original)
    }
}

/// One decoded title record.  Text fields are owned byte strings, so a
/// record outlives the raw buffer it was decoded from.  A record never
/// changes after construction.
#[derive(Debug)]
pub struct Title {
    pub title_id: TitleId,
    pub title_type: TitleType,
    pub primary_title: Vec<u8>,
    pub original_title: Vec<u8>,
    pub is_adult: bool,
    pub start_year: Option<u16>,
    pub end_year: Option<u16>,
    pub runtime_minutes: Option<u16>,
    pub genres: Genres,
}

impl View for Title {
    type V = TitleView;

    open spec fn view(&self) -> TitleView {
        TitleView {
            id: self.title_id.num,
            title_type: self.title_type,
            primary: self.primary_title@,
            original: self.original_title@,
            is_adult: self.is_adult,
            start_year: self.start_year,
            end_year: self.end_year,
            runtime_minutes: self.runtime_minutes,
            genres: self.genres@,
        }
    }
}

impl Title {
    /// An owned copy of the record whose view equals this record's view.
    pub fn duplicate(&self) -> (r: Title)
        ensures
            r@ == self@,
    {
        let r = Title {
            title_id: self.title_id,
            title_type: self.title_type,
            primary_title: crate::bytes::copy_bytes(&self.primary_title),
            original_title: crate::bytes::copy_bytes(&self.original_title),
            is_adult: self.is_adult,
            start_year: self.start_year,
            end_year: self.end_year,
            runtime_minutes: self.runtime_minutes,
            genres: self.genres,
        };
        proof {
            assert(r@ =~= self@);
        }
        r
    }
}

} // verus!
