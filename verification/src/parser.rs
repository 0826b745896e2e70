//! Decoding one dump line into a typed record.  A line is split on the tab
//! byte into fields; each field is decoded by the rules of the dump format.
//! The functions here are pure: they return a decoded value or an error and
//! touch no shared state.

use vstd::prelude::*;
use crate::bytes::{
    all_digits, digits_val, is_ascii_digit, parses_as_u16, parses_as_u64, split_on, TAB,
};
use crate::error::Error;
use crate::genre::{genre_mask, spec_parse_genre, Genre, Genres};
use crate::title::{
    spec_is_movie, spec_is_series, spec_parse_title_type, title_id_val, valid_title_id, Title,
    TitleId, TitleType, TitleView,
};

verus! {

/// The sentinel token that marks an absent optional field.
pub open spec fn sentinel() -> Seq<u8> {
    seq![92u8, 78u8]  // "\N"
}

/// Decoding an optional numeric field: the sentinel means absent, otherwise
/// the field must be a `u16`; anything else is a failure (`None`).
pub open spec fn spec_parse_opt_u16(s: Seq<u8>) -> Option<Option<u16>> {
    if s == sentinel() {
        Some(None)
    } else if parses_as_u16(s) {
        Some(Some(digits_val(s) as u16))
    } else {
        None
    }
}

/// Executable decoding of an optional numeric field.
pub fn parse_opt_u16(s: &[u8]) -> (r: Option<Option<u16>>)
    ensures
        r == spec_parse_opt_u16(s@),
{
    let pat_na: [u8; 2] = [92, 78];
    if crate::bytes::bytes_eq(s, pat_na.as_slice()) {
        proof {
            assert(pat_na@ =~= sentinel());
        }
        return Some(None);
    }
    match crate::bytes::parse_u16(s) {
        Some(v) => Some(Some(v)),
        None => None,
    }
}

/// The genre bits contributed by a comma-separated list of genre tokens,
/// or `None` if any token is unknown.
pub open spec fn genres_of_parts(parts: Seq<Seq<u8>>) -> Option<u32>
    decreases parts.len(),
{
    if parts.len() == 0 {
        Some(0u32)
    } else {
        match genres_of_parts(parts.drop_last()) {
            None => None,
            Some(bits) => match spec_parse_genre(parts.last()) {
                None => None,
                Some(g) => Some(bits | genre_mask(g)),
            },
        }
    }
}

/// Once a prefix of the token list has failed, every extension fails too.
proof fn lemma_genres_none_extends(parts: Seq<Seq<u8>>, i: int)
    requires
        0 <= i <= parts.len(),
        genres_of_parts(parts.take(i)) is None,
    ensures
        genres_of_parts(parts) is None,
    decreases parts.len() - i,
{
    if i < parts.len() {
        assert(parts.take(i + 1).drop_last() =~= parts.take(i));
        lemma_genres_none_extends(parts, i + 1);
    } else {
        assert(parts.take(i) =~= parts);
    }
}

/// Decoding the genre field: the sentinel means the empty set, otherwise a
/// comma-separated list of known tokens, folded into the bit-set.
pub open spec fn spec_parse_genres(s: Seq<u8>) -> Option<u32> {
    if s == sentinel() {
        Some(0u32)
    } else {
        genres_of_parts(split_on(s, crate::bytes::COMMA))
    }
}

/// Executable decoding of the genre field.
pub fn parse_genres(s: &[u8]) -> (r: Option<Genres>)
    ensures
        match r {
            Some(g) => spec_parse_genres(s@) == Some(g@),
            None => spec_parse_genres(s@) is None,
        },
{
    let pat_na: [u8; 2] = [92, 78];
    let mut out = Genres::new();
    if crate::bytes::bytes_eq(s, pat_na.as_slice()) {
        proof {
            assert(pat_na@ =~= sentinel());
        }
        return Some(out);
    }
    let parts = crate::bytes::split_bytes(s, crate::bytes::COMMA);
    let ghost ps = parts.deep_view();
    let mut i: usize = 0;
    while i < parts.len()
        invariant
            i <= parts.len(),
            ps == parts.deep_view(),
            ps.len() == parts.len(),
            s@ != sentinel(),
            ps == split_on(s@, crate::bytes::COMMA),
            genres_of_parts(ps.take(i as int)) == Some(out@),
        decreases parts.len() - i,
    {
        proof {
            assert(ps.take(i + 1 as int).drop_last() =~= ps.take(i as int));
            assert(parts@[i as int]@ == ps[i as int]);
        }
        match crate::genre::parse_genre(&parts[i]) {
            Some(g) => {
                out.add_genre(g);
            },
            None => {
                proof {
                    lemma_genres_none_extends(ps, i + 1);
                }
                return None;
            },
        }
        i = i + 1;
    }
    proof {
        assert(ps.take(ps.len() as int) =~= ps);
    }
    Some(out)
}

/// Decoding one title line, field by field in dump order.  The first failing
/// field names the error; a line whose classification is neither movie-like
/// nor series-like is accepted and yields no record, even when later fields
/// are missing or malformed.
pub open spec fn spec_parse_title_line(line: Seq<u8>) -> Result<Option<TitleView>, Error> {
    let fs = split_on(line, TAB);
    if !valid_title_id(fs[0]) {
        Err(Error::InvalidIdentifier)
    } else if fs.len() < 2 {
        Err(Error::UnexpectedEof)
    } else {
        match spec_parse_title_type(fs[1]) {
            None => Err(Error::InvalidClassification),
            Some(tt) => {
                if !spec_is_movie(tt) && !spec_is_series(tt) {
                    Ok(None)
                } else if fs.len() < 3 {
                    Err(Error::UnexpectedEof)
                } else if fs.len() < 4 {
                    Err(Error::UnexpectedEof)
                } else if fs.len() < 5 {
                    Err(Error::UnexpectedEof)
                } else if !(fs[4] == seq![48u8] || fs[4] == seq![49u8]) {
                    Err(Error::InvalidAdultFlag)
                } else if fs.len() < 6 {
                    Err(Error::UnexpectedEof)
                } else {
                    match spec_parse_opt_u16(fs[5]) {
                        None => Err(Error::InvalidYear),
                        Some(start_year) => {
                            if fs.len() < 7 {
                                Err(Error::UnexpectedEof)
                            } else {
                                match spec_parse_opt_u16(fs[6]) {
                                    None => Err(Error::InvalidEndYear),
                                    Some(end_year) => {
                                        if fs.len() < 8 {
                                            Err(Error::UnexpectedEof)
                                        } else {
                                            match spec_parse_opt_u16(fs[7]) {
                                                None => Err(Error::InvalidRuntime),
                                                Some(runtime) => {
                                                    if fs.len() < 9 {
                                                        Err(Error::UnexpectedEof)
                                                    } else {
                                                        match spec_parse_genres(fs[8]) {
                                                            None => Err(Error::InvalidGenre),
                                                            Some(gbits) => Ok(
                                                                Some(
                                                                    TitleView {
                                                                        id: title_id_val(fs[0]) as u64,
                                                                        title_type: tt,
                                                                        primary: fs[2],
                                                                        original: fs[3],
                                                                        is_adult: fs[4] == seq![49u8],
                                                                        start_year,
                                                                        end_year,
                                                                        runtime_minutes: runtime,
                                                                        genres: gbits,
                                                                    },
                                                                ),
                                                            ),
                                                        }
                                                    }
                                                },
                                            }
                                        }
                                    },
                                }
                            }
                        },
                    }
                }
            },
        }
    }
}

/// The view of a title-parse result, for stating contracts.
pub open spec fn title_result_view(r: Result<Option<Title>, Error>) -> Result<
    Option<TitleView>,
    Error,
> {
    match r {
        Ok(None) => Ok(None),
        Ok(Some(t)) => Ok(Some(t@)),
        Err(e) => Err(e),
    }
}

/// Executable decoding of one title line (newline already stripped).
/// `Ok(None)` means the line was well-formed up to its classification but is
/// neither movie-like nor series-like, and is skipped by the caller.
pub fn parse_title_line(line: &[u8]) -> (r: Result<Option<Title>, Error>)
    ensures
        title_result_view(r) == spec_parse_title_line(line@),
        r matches Ok(Some(t)) ==> spec_is_movie(t@.title_type) || spec_is_series(t@.title_type),
{
    let fields = crate::bytes::split_bytes(line, TAB);
    let ghost fs = fields.deep_view();
    proof {
        crate::bytes::lemma_split_on_len(line@, TAB);
        assert(fields@.len() == fs.len());
    }
    proof {
        assert(fields@[0]@ == fs[0]);
    }
    let title_id = match TitleId::parse(&fields[0]) {
        Some(id) => id,
        None => {
            return Err(Error::InvalidIdentifier);
        },
    };
    if fields.len() < 2 {
        return Err(Error::UnexpectedEof);
    }
    proof {
        assert(fields@[1]@ == fs[1]);
    }
    let title_type = match TitleType::parse(&fields[1]) {
        Some(tt) => tt,
        None => {
            return Err(Error::InvalidClassification);
        },
    };
    if !title_type.is_movie() && !title_type.is_series() {
        return Ok(None);
    }
    if fields.len() < 5 {
        return Err(Error::UnexpectedEof);
    }
    proof {
        assert(fields@[2]@ == fs[2]);
        assert(fields@[3]@ == fs[3]);
        assert(fields@[4]@ == fs[4]);
    }
    let pat_zero: [u8; 1] = [48];
    let pat_one: [u8; 1] = [49];
    let is_zero = crate::bytes::bytes_eq(&fields[4], pat_zero.as_slice());
    let is_one = crate::bytes::bytes_eq(&fields[4], pat_one.as_slice());
    proof {
        assert(pat_zero@ =~= seq![48u8]);
        assert(pat_one@ =~= seq![49u8]);
    }
    if !is_zero && !is_one {
        return Err(Error::InvalidAdultFlag);
    }
    let is_adult = is_one;
    if fields.len() < 6 {
        return Err(Error::UnexpectedEof);
    }
    proof {
        assert(fields@[5]@ == fs[5]);
    }
    let start_year = match parse_opt_u16(&fields[5]) {
        Some(v) => v,
        None => {
            return Err(Error::InvalidYear);
        },
    };
    if fields.len() < 7 {
        return Err(Error::UnexpectedEof);
    }
    proof {
        assert(fields@[6]@ == fs[6]);
    }
    let end_year = match parse_opt_u16(&fields[6]) {
        Some(v) => v,
        None => {
            return Err(Error::InvalidEndYear);
        },
    };
    if fields.len() < 8 {
        return Err(Error::UnexpectedEof);
    }
    proof {
        assert(fields@[7]@ == fs[7]);
    }
    let runtime_minutes = match parse_opt_u16(&fields[7]) {
        Some(v) => v,
        None => {
            return Err(Error::InvalidRuntime);
        },
    };
    if fields.len() < 9 {
        return Err(Error::UnexpectedEof);
    }
    proof {
        assert(fields@[8]@ == fs[8]);
    }
    let genres = match parse_genres(&fields[8]) {
        Some(g) => g,
        None => {
            return Err(Error::InvalidGenre);
        },
    };
    let mut fields = fields;
    let original_title = fields.swap_remove(3);
    let primary_title = fields.swap_remove(2);
    let title = Title {
        title_id,
        title_type,
        primary_title,
        original_title,
        is_adult,
        start_year,
        end_year,
        runtime_minutes,
        genres,
    };
    proof {
        assert(title@ =~= spec_parse_title_line(line@)->Ok_0->Some_0);
    }
    Ok(Some(title))
}

/// A well-shaped rating field: decimal digits, a dot, and exactly one
/// fractional digit, with the scaled value at most 100.
pub open spec fn valid_rating(s: Seq<u8>) -> bool {
    s.len() >= 3 && s[s.len() - 2] == 46 && is_ascii_digit(s[s.len() - 1]) && all_digits(
        s.take(s.len() - 2),
    ) && rating_val(s) <= 100
}

/// The rating scaled by ten: one-decimal precision as an integer.
pub open spec fn rating_val(s: Seq<u8>) -> nat {
    digits_val(s.take(s.len() - 2)) * 10 + (s[s.len() - 1] - 48) as nat
}

/// Decoding one rating line: identifier, scaled rating, vote count.
pub open spec fn spec_parse_rating_line(line: Seq<u8>) -> Result<(u64, u8, u64), Error> {
    let fs = split_on(line, TAB);
    if !valid_title_id(fs[0]) {
        Err(Error::InvalidIdentifier)
    } else if fs.len() < 2 {
        Err(Error::UnexpectedEof)
    } else if !valid_rating(fs[1]) {
        Err(Error::InvalidRating)
    } else if fs.len() < 3 {
        Err(Error::UnexpectedEof)
    } else if !parses_as_u64(fs[2]) {
        Err(Error::InvalidVoteCount)
    } else {
        Ok(((title_id_val(fs[0]) as u64), rating_val(fs[1]) as u8, digits_val(fs[2]) as u64))
    }
}

/// Executable decoding of one rating line.
pub fn parse_rating_line(line: &[u8]) -> (r: Result<(TitleId, u8, u64), Error>)
    ensures
        match r {
            Ok((id, rating, votes)) => spec_parse_rating_line(line@) == Ok::<_, Error>(
                (id.num, rating, votes),
            ),
            Err(e) => spec_parse_rating_line(line@) == Err::<(u64, u8, u64), _>(e),
        },
{
    let fields = crate::bytes::split_bytes(line, TAB);
    let ghost fs = fields.deep_view();
    proof {
        crate::bytes::lemma_split_on_len(line@, TAB);
        assert(fields@[0]@ == fs[0]);
    }
    let title_id = match TitleId::parse(&fields[0]) {
        Some(id) => id,
        None => {
            return Err(Error::InvalidIdentifier);
        },
    };
    if fields.len() < 2 {
        return Err(Error::UnexpectedEof);
    }
    proof {
        assert(fields@[1]@ == fs[1]);
    }
    let rf = &fields[1];
    if rf.len() < 3 {
        return Err(Error::InvalidRating);
    }
    let dot = rf[rf.len() - 2];
    let frac = rf[rf.len() - 1];
    if dot != 46 || frac < 48 || frac > 57 {
        return Err(Error::InvalidRating);
    }
    let whole = vstd::slice::slice_subrange(rf.as_slice(), 0, rf.len() - 2);
    let rating: u8 = match crate::bytes::parse_u16(whole) {
        Some(v) => {
            if v > 10 || v * 10 + ((frac - 48) as u16) > 100 {
                return Err(Error::InvalidRating);
            }
            (v * 10 + ((frac - 48) as u16)) as u8
        },
        None => {
            return Err(Error::InvalidRating);
        },
    };
    if fields.len() < 3 {
        return Err(Error::UnexpectedEof);
    }
    proof {
        assert(fields@[2]@ == fs[2]);
    }
    let votes = match crate::bytes::parse_u64(&fields[2]) {
        Some(v) => v,
        None => {
            return Err(Error::InvalidVoteCount);
        },
    };
    Ok((title_id, rating, votes))
}

} // verus!
