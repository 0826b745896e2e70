//! The genre enumeration and the bit-set that a record stores its genres in.
//! Membership testing and union are constant-time on the underlying word;
//! duplicate tags in the input collapse into one bit.

use vstd::prelude::*;

verus! {

/// The fixed enumeration of genre tags that the dump may carry.  An input
/// token outside this set is a hard parse error, never silently dropped.
#[derive(Debug, Clone, Copy, PartialEq, Eq, Structural)]
pub enum Genre {
    Action,
    Adult,
    Adventure,
    Animation,
    Biography,
    Comedy,
    Crime,
    Documentary,
    Drama,
    Family,
    Fantasy,
    FilmNoir,
    GameShow,
    History,
    Horror,
    Music,
    Musical,
    Mystery,
    News,
    RealityTv,
    Romance,
    SciFi,
    Short,
    Sport,
    TalkShow,
    Thriller,
    War,
    Western,
}

/// The dump token that names each genre.
pub open spec fn genre_token(g: Genre) -> Seq<u8> {
    match g {
        Genre::Action => seq![65u8, 99u8, 116u8, 105u8, 111u8, 110u8],  // "Action"
        Genre::Adult => seq![65u8, 100u8, 117u8, 108u8, 116u8],  // "Adult"
        Genre::Adventure => seq![65u8, 100u8, 118u8, 101u8, 110u8, 116u8, 117u8, 114u8, 101u8],  // "Adventure"
        Genre::Animation => seq![65u8, 110u8, 105u8, 109u8, 97u8, 116u8, 105u8, 111u8, 110u8],  // "Animation"
        Genre::Biography => seq![66u8, 105u8, 111u8, 103u8, 114u8, 97u8, 112u8, 104u8, 121u8],  // "Biography"
        Genre::Comedy => seq![67u8, 111u8, 109u8, 101u8, 100u8, 121u8],  // "Comedy"
        Genre::Crime => seq![67u8, 114u8, 105u8, 109u8, 101u8],  // "Crime"
        Genre::Documentary => seq![68u8, 111u8, 99u8, 117u8, 109u8, 101u8, 110u8, 116u8, 97u8, 114u8, 121u8],  // "Documentary"
        Genre::Drama => seq![68u8, 114u8, 97u8, 109u8, 97u8],  // "Drama"
        Genre::Family => seq![70u8, 97u8, 109u8, 105u8, 108u8, 121u8],  // "Family"
        Genre::Fantasy => seq![70u8, 97u8, 110u8, 116u8, 97u8, 115u8, 121u8],  // "Fantasy"
        Genre::FilmNoir => seq![70u8, 105u8, 108u8, 109u8, 45u8, 78u8, 111u8, 105u8, 114u8],  // "Film-Noir"
        Genre::GameShow => seq![71u8, 97u8, 109u8, 101u8, 45u8, 83u8, 104u8, 111u8, 119u8],  // "Game-Show"
        Genre::History => seq![72u8, 105u8, 115u8, 116u8, 111u8, 114u8, 121u8],  // "History"
        Genre::Horror => seq![72u8, 111u8, 114u8, 114u8, 111u8, 114u8],  // "Horror"
        Genre::Music => seq![77u8, 117u8, 115u8, 105u8, 99u8],  // "Music"
        Genre::Musical => seq![77u8, 117u8, 115u8, 105u8, 99u8, 97u8, 108u8],  // "Musical"
        Genre::Mystery => seq![77u8, 121u8, 115u8, 116u8, 101u8, 114u8, 121u8],  // "Mystery"
        Genre::News => seq![78u8, 101u8, 119u8, 115u8],  // "News"
        Genre::RealityTv => seq![82u8, 101u8, 97u8, 108u8, 105u8, 116u8, 121u8, 45u8, 84u8, 86u8],  // "Reality-TV"
        Genre::Romance => seq![82u8, 111u8, 109u8, 97u8, 110u8, 99u8, 101u8],  // "Romance"
        Genre::SciFi => seq![83u8, 99u8, 105u8, 45u8, 70u8, 105u8],  // "Sci-Fi"
        Genre::Short => seq![83u8, 104u8, 111u8, 114u8, 116u8],  // "Short"
        Genre::Sport => seq![83u8, 112u8, 111u8, 114u8, 116u8],  // "Sport"
        Genre::TalkShow => seq![84u8, 97u8, 108u8, 107u8, 45u8, 83u8, 104u8, 111u8, 119u8],  // "Talk-Show"
        Genre::Thriller => seq![84u8, 104u8, 114u8, 105u8, 108u8, 108u8, 101u8, 114u8],  // "Thriller"
        Genre::War => seq![87u8, 97u8, 114u8],  // "War"
        Genre::Western => seq![87u8, 101u8, 115u8, 116u8, 101u8, 114u8, 110u8],  // "Western"
    }
}

/// The single bit that stands for each genre in the bit-set.
pub open spec fn genre_mask(g: Genre) -> u32 {
    match g {
        Genre::Action => 1,
        Genre::Adult => 2,
        Genre::Adventure => 4,
        Genre::Animation => 8,
        Genre::Biography => 16,
        Genre::Comedy => 32,
        Genre::Crime => 64,
        Genre::Documentary => 128,
        Genre::Drama => 256,
        Genre::Family => 512,
        Genre::Fantasy => 1024,
        Genre::FilmNoir => 2048,
        Genre::GameShow => 4096,
        Genre::History => 8192,
        Genre::Horror => 16384,
        Genre::Music => 32768,
        Genre::Musical => 65536,
        Genre::Mystery => 131072,
        Genre::News => 262144,
        Genre::RealityTv => 524288,
        Genre::Romance => 1048576,
        Genre::SciFi => 2097152,
        Genre::Short => 4194304,
        Genre::Sport => 8388608,
        Genre::TalkShow => 16777216,
        Genre::Thriller => 33554432,
        Genre::War => 67108864,
        Genre::Western => 134217728,
    }
}

/// Decoding one genre token; `None` exactly when the token is unknown.
pub open spec fn spec_parse_genre(s: Seq<u8>) -> Option<Genre> {
    if s == genre_token(Genre::Action) {
        Some(Genre::Action)
    } else if s == genre_token(Genre::Adult) {
        Some(Genre::Adult)
    } else if s == genre_token(Genre::Adventure) {
        Some(Genre::Adventure)
    } else if s == genre_token(Genre::Animation) {
        Some(Genre::Animation)
    } else if s == genre_token(Genre::Biography) {
        Some(Genre::Biography)
    } else if s == genre_token(Genre::Comedy) {
        Some(Genre::Comedy)
    } else if s == genre_token(Genre::Crime) {
        Some(Genre::Crime)
    } else if s == genre_token(Genre::Documentary) {
        Some(Genre::Documentary)
    } else if s == genre_token(Genre::Drama) {
        Some(Genre::Drama)
    } else if s == genre_token(Genre::Family) {
        Some(Genre::Family)
    } else if s == genre_token(Genre::Fantasy) {
        Some(Genre::Fantasy)
    } else if s == genre_token(Genre::FilmNoir) {
        Some(Genre::FilmNoir)
    } else if s == genre_token(Genre::GameShow) {
        Some(Genre::GameShow)
    } else if s == genre_token(Genre::History) {
        Some(Genre::History)
    } else if s == genre_token(Genre::Horror) {
        Some(Genre::Horror)
    } else if s == genre_token(Genre::Music) {
        Some(Genre::Music)
    } else if s == genre_token(Genre::Musical) {
        Some(Genre::Musical)
    } else if s == genre_token(Genre::Mystery) {
        Some(Genre::Mystery)
    } else if s == genre_token(Genre::News) {
        Some(Genre::News)
    } else if s == genre_token(Genre::RealityTv) {
        Some(Genre::RealityTv)
    } else if s == genre_token(Genre::Romance) {
        Some(Genre::Romance)
    } else if s == genre_token(Genre::SciFi) {
        Some(Genre::SciFi)
    } else if s == genre_token(Genre::Short) {
        Some(Genre::Short)
    } else if s == genre_token(Genre::Sport) {
        Some(Genre::Sport)
    } else if s == genre_token(Genre::TalkShow) {
        Some(Genre::TalkShow)
    } else if s == genre_token(Genre::Thriller) {
        Some(Genre::Thriller)
    } else if s == genre_token(Genre::War) {
        Some(Genre::War)
    } else if s == genre_token(Genre::Western) {
        Some(Genre::Western)
    } else {
        None
    }
}

/// Executable genre-token decoding.
pub fn parse_genre(s: &[u8]) -> (r: Option<Genre>)
    ensures
        r == spec_parse_genre(s@),
{
    let pat_action: [u8; 6] = [65, 99, 116, 105, 111, 110];
    if crate::bytes::bytes_eq(s, pat_action.as_slice()) {
        proof { assert(pat_action@ =~= genre_token(Genre::Action)); }
        return Some(Genre::Action);
    }
    let pat_adult: [u8; 5] = [65, 100, 117, 108, 116];
    if crate::bytes::bytes_eq(s, pat_adult.as_slice()) {
        proof { assert(pat_adult@ =~= genre_token(Genre::Adult)); }
        return Some(Genre::Adult);
    }
    let pat_adventure: [u8; 9] = [65, 100, 118, 101, 110, 116, 117, 114, 101];
    if crate::bytes::bytes_eq(s, pat_adventure.as_slice()) {
        proof { assert(pat_adventure@ =~= genre_token(Genre::Adventure)); }
        return Some(Genre::Adventure);
    }
    let pat_animation: [u8; 9] = [65, 110, 105, 109, 97, 116, 105, 111, 110];
    if crate::bytes::bytes_eq(s, pat_animation.as_slice()) {
        proof { assert(pat_animation@ =~= genre_token(Genre::Animation)); }
        return Some(Genre::Animation);
    }
    let pat_biography: [u8; 9] = [66, 105, 111, 103, 114, 97, 112, 104, 121];
    if crate::bytes::bytes_eq(s, pat_biography.as_slice()) {
        proof { assert(pat_biography@ =~= genre_token(Genre::Biography)); }
        return Some(Genre::Biography);
    }
    let pat_comedy: [u8; 6] = [67, 111, 109, 101, 100, 121];
    if crate::bytes::bytes_eq(s, pat_comedy.as_slice()) {
        proof { assert(pat_comedy@ =~= genre_token(Genre::Comedy)); }
        return Some(Genre::Comedy);
    }
    let pat_crime: [u8; 5] = [67, 114, 105, 109, 101];
    if crate::bytes::bytes_eq(s, pat_crime.as_slice()) {
        proof { assert(pat_crime@ =~= genre_token(Genre::Crime)); }
        return Some(Genre::Crime);
    }
    let pat_documentary: [u8; 11] = [68, 111, 99, 117, 109, 101, 110, 116, 97, 114, 121];
    if crate::bytes::bytes_eq(s, pat_documentary.as_slice()) {
        proof { assert(pat_documentary@ =~= genre_token(Genre::Documentary)); }
        return Some(Genre::Documentary);
    }
    let pat_drama: [u8; 5] = [68, 114, 97, 109, 97];
    if crate::bytes::bytes_eq(s, pat_drama.as_slice()) {
        proof { assert(pat_drama@ =~= genre_token(Genre::Drama)); }
        return Some(Genre::Drama);
    }
    let pat_family: [u8; 6] = [70, 97, 109, 105, 108, 121];
    if crate::bytes::bytes_eq(s, pat_family.as_slice()) {
        proof { assert(pat_family@ =~= genre_token(Genre::Family)); }
        return Some(Genre::Family);
    }
    let pat_fantasy: [u8; 7] = [70, 97, 110, 116, 97, 115, 121];
    if crate::bytes::bytes_eq(s, pat_fantasy.as_slice()) {
        proof { assert(pat_fantasy@ =~= genre_token(Genre::Fantasy)); }
        return Some(Genre::Fantasy);
    }
    let pat_filmnoir: [u8; 9] = [70, 105, 108, 109, 45, 78, 111, 105, 114];
    if crate::bytes::bytes_eq(s, pat_filmnoir.as_slice()) {
        proof { assert(pat_filmnoir@ =~= genre_token(Genre::FilmNoir)); }
        return Some(Genre::FilmNoir);
    }
    let pat_gameshow: [u8; 9] = [71, 97, 109, 101, 45, 83, 104, 111, 119];
    if crate::bytes::bytes_eq(s, pat_gameshow.as_slice()) {
        proof { assert(pat_gameshow@ =~= genre_token(Genre::GameShow)); }
        return Some(Genre::GameShow);
    }
    let pat_history: [u8; 7] = [72, 105, 115, 116, 111, 114, 121];
    if crate::bytes::bytes_eq(s, pat_history.as_slice()) {
        proof { assert(pat_history@ =~= genre_token(Genre::History)); }
        return Some(Genre::History);
    }
    let pat_horror: [u8; 6] = [72, 111, 114, 114, 111, 114];
    if crate::bytes::bytes_eq(s, pat_horror.as_slice()) {
        proof { assert(pat_horror@ =~= genre_token(Genre::Horror)); }
        return Some(Genre::Horror);
    }
    let pat_music: [u8; 5] = [77, 117, 115, 105, 99];
    if crate::bytes::bytes_eq(s, pat_music.as_slice()) {
        proof { assert(pat_music@ =~= genre_token(Genre::Music)); }
        return Some(Genre::Music);
    }
    let pat_musical: [u8; 7] = [77, 117, 115, 105, 99, 97, 108];
    if crate::bytes::bytes_eq(s, pat_musical.as_slice()) {
        proof { assert(pat_musical@ =~= genre_token(Genre::Musical)); }
        return Some(Genre::Musical);
    }
    let pat_mystery: [u8; 7] = [77, 121, 115, 116, 101, 114, 121];
    if crate::bytes::bytes_eq(s, pat_mystery.as_slice()) {
        proof { assert(pat_mystery@ =~= genre_token(Genre::Mystery)); }
        return Some(Genre::Mystery);
    }
    let pat_news: [u8; 4] = [78, 101, 119, 115];
    if crate::bytes::bytes_eq(s, pat_news.as_slice()) {
        proof { assert(pat_news@ =~= genre_token(Genre::News)); }
        return Some(Genre::News);
    }
    let pat_realitytv: [u8; 10] = [82, 101, 97, 108, 105, 116, 121, 45, 84, 86];
    if crate::bytes::bytes_eq(s, pat_realitytv.as_slice()) {
        proof { assert(pat_realitytv@ =~= genre_token(Genre::RealityTv)); }
        return Some(Genre::RealityTv);
    }
    let pat_romance: [u8; 7] = [82, 111, 109, 97, 110, 99, 101];
    if crate::bytes::bytes_eq(s, pat_romance.as_slice()) {
        proof { assert(pat_romance@ =~= genre_token(Genre::Romance)); }
        return Some(Genre::Romance);
    }
    let pat_scifi: [u8; 6] = [83, 99, 105, 45, 70, 105];
    if crate::bytes::bytes_eq(s, pat_scifi.as_slice()) {
        proof { assert(pat_scifi@ =~= genre_token(Genre::SciFi)); }
        return Some(Genre::SciFi);
    }
    let pat_short: [u8; 5] = [83, 104, 111, 114, 116];
    if crate::bytes::bytes_eq(s, pat_short.as_slice()) {
        proof { assert(pat_short@ =~= genre_token(Genre::Short)); }
        return Some(Genre::Short);
    }
    let pat_sport: [u8; 5] = [83, 112, 111, 114, 116];
    if crate::bytes::bytes_eq(s, pat_sport.as_slice()) {
        proof { assert(pat_sport@ =~= genre_token(Genre::Sport)); }
        return Some(Genre::Sport);
    }
    let pat_talkshow: [u8; 9] = [84, 97, 108, 107, 45, 83, 104, 111, 119];
    if crate::bytes::bytes_eq(s, pat_talkshow.as_slice()) {
        proof { assert(pat_talkshow@ =~= genre_token(Genre::TalkShow)); }
        return Some(Genre::TalkShow);
    }
    let pat_thriller: [u8; 8] = [84, 104, 114, 105, 108, 108, 101, 114];
    if crate::bytes::bytes_eq(s, pat_thriller.as_slice()) {
        proof { assert(pat_thriller@ =~= genre_token(Genre::Thriller)); }
        return Some(Genre::Thriller);
    }
    let pat_war: [u8; 3] = [87, 97, 114];
    if crate::bytes::bytes_eq(s, pat_war.as_slice()) {
        proof { assert(pat_war@ =~= genre_token(Genre::War)); }
        return Some(Genre::War);
    }
    let pat_western: [u8; 7] = [87, 101, 115, 116, 101, 114, 110];
    if crate::bytes::bytes_eq(s, pat_western.as_slice()) {
        proof { assert(pat_western@ =~= genre_token(Genre::Western)); }
        return Some(Genre::Western);
    }
    None
}

/// A set of genres as a bit-set over [`genre_mask`] bits.  The view is the
/// underlying word; an empty word is the empty set.
#[derive(Debug, Clone, Copy, PartialEq, Eq, Structural)]
pub struct Genres {
    bits: u32,
}

impl View for Genres {
    type V = u32;

    closed spec fn view(&self) -> u32 {
        self.bits
    }
}

impl Genres {
    /// The empty genre set.
    pub fn new() -> (r: Genres)
        ensures
            r@ == 0u32,
    {
        Genres { bits: 0 }
    }

    /// Executable access to the genre's bit.
    pub fn mask_of(g: Genre) -> (r: u32)
        ensures
            r == genre_mask(g),
    {
        match g {
            Genre::Action => 1,
            Genre::Adult => 2,
            Genre::Adventure => 4,
            Genre::Animation => 8,
            Genre::Biography => 16,
            Genre::Comedy => 32,
            Genre::Crime => 64,
            Genre::Documentary => 128,
            Genre::Drama => 256,
            Genre::Family => 512,
            Genre::Fantasy => 1024,
            Genre::FilmNoir => 2048,
            Genre::GameShow => 4096,
            Genre::History => 8192,
            Genre::Horror => 16384,
            Genre::Music => 32768,
            Genre::Musical => 65536,
            Genre::Mystery => 131072,
            Genre::News => 262144,
            Genre::RealityTv => 524288,
            Genre::Romance => 1048576,
            Genre::SciFi => 2097152,
            Genre::Short => 4194304,
            Genre::Sport => 8388608,
            Genre::TalkShow => 16777216,
            Genre::Thriller => 33554432,
            Genre::War => 67108864,
            Genre::Western => 134217728,
        }
    }

    /// Adding a genre sets its bit and nothing else; adding a genre that is
    /// already present leaves the set unchanged.
    pub fn add_genre(&mut self, g: Genre)
        ensures
            final(self)@ == old(self)@ | genre_mask(g),
    {
        let m = Genres::mask_of(g);
        self.bits = self.bits | m;
    }

    /// Membership test: the genre's bit is set.
    pub fn has(&self, g: Genre) -> (r: bool)
        ensures
            r == ((self@ & genre_mask(g)) != 0),
    {
        let m = Genres::mask_of(g);
        (self.bits & m) != 0
    }
}

} // verus!
