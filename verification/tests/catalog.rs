//! Shard-level scenarios: parsing, insertion, lookups, duplicate handling.

use tvrank::basics::Basics;
use tvrank::error::Error;
use tvrank::genre::Genre;
use tvrank::parser::parse_title_line;
use tvrank::title::{Classification, TitleId, TitleType};

#[test]
fn two_lines_one_shard() {
    let mut shard = Basics::new();
    shard
        .insert(b"tt0000001\tmovie\tTest\tTest\t0\t2000\t\\N\t90\tDrama")
        .unwrap();
    shard
        .insert(b"tt0000002\tmovie\tOther\tOther\t0\t\\N\t\\N\t\\N\t\\N")
        .unwrap();
    assert_eq!(shard.n_movies(), 2);
    assert_eq!(shard.n_series(), 0);

    let by_year = shard.lookup_by_name_year(Classification::Movie, b"test", 2000);
    assert_eq!(by_year.len(), 1);
    let first = &by_year[0];
    assert_eq!(first.title_id.num, 1);
    assert_eq!(first.primary_title, b"Test".to_vec());
    assert_eq!(first.start_year, Some(2000));
    assert_eq!(first.runtime_minutes, Some(90));
    assert!(first.genres.has(Genre::Drama));
    assert!(!first.genres.has(Genre::Comedy));

    let by_name = shard.lookup_by_name(Classification::Movie, b"other");
    assert_eq!(by_name.len(), 1);
    let second = &by_name[0];
    assert_eq!(second.title_id.num, 2);
    assert_eq!(second.start_year, None);
    assert_eq!(second.end_year, None);
    assert_eq!(second.runtime_minutes, None);
}

#[test]
fn duplicate_identifier_fails() {
    let mut shard = Basics::new();
    shard
        .insert(b"tt0000001\tmovie\tTest\tTest\t0\t2000\t\\N\t90\tDrama")
        .unwrap();
    let err = shard
        .insert(b"tt0000001\tmovie\tAnother\tAnother\t0\t1999\t\\N\t80\tComedy")
        .unwrap_err();
    assert_eq!(err, Error::DuplicateIdentifier(TitleId { num: 1 }));
}

#[test]
fn duplicate_identifier_series_fails_too() {
    let mut shard = Basics::new();
    shard
        .insert(b"tt0000007\ttvSeries\tShow\tShow\t0\t1999\t2003\t\\N\tDrama")
        .unwrap();
    let err = shard
        .insert(b"tt0000007\ttvSeries\tShow Two\tShow Two\t0\t2001\t\\N\t\\N\t\\N")
        .unwrap_err();
    assert_eq!(err, Error::DuplicateIdentifier(TitleId { num: 7 }));
}

#[test]
fn insert_then_lookup_by_identifier() {
    let mut shard = Basics::new();
    shard
        .insert(b"tt0000123\tmovie\tSome Film\tSome Film\t0\t1984\t\\N\t101\tDrama,Comedy")
        .unwrap();
    let id = TitleId { num: 123 };
    let hit = shard
        .lookup_by_identifier(Classification::Movie, &id)
        .unwrap();
    assert_eq!(hit.title_id.num, 123);
    assert_eq!(hit.start_year, Some(1984));
    assert!(hit.genres.has(Genre::Drama));
    assert!(hit.genres.has(Genre::Comedy));
    assert!(shard
        .lookup_by_identifier(Classification::Series, &id)
        .is_none());
}

#[test]
fn original_name_registered_when_different() {
    let mut shard = Basics::new();
    shard
        .insert(b"tt0000004\tmovie\tThe Castle\tDas Schloss\t0\t1997\t\\N\t123\tDrama")
        .unwrap();
    let via_primary = shard.lookup_by_name(Classification::Movie, b"the castle");
    let via_original = shard.lookup_by_name(Classification::Movie, b"das schloss");
    assert_eq!(via_primary.len(), 1);
    assert_eq!(via_original.len(), 1);
    assert_eq!(via_primary[0].title_id.num, 4);
    assert_eq!(via_original[0].title_id.num, 4);
}

#[test]
fn equal_names_registered_once() {
    let mut shard = Basics::new();
    shard
        .insert(b"tt0000005\tmovie\tSame\tSame\t0\t2001\t\\N\t95\tDrama")
        .unwrap();
    let hits = shard.lookup_by_name_year(Classification::Movie, b"same", 2001);
    assert_eq!(hits.len(), 1);
}

#[test]
fn skipped_classification_has_no_effect() {
    let mut shard = Basics::new();
    shard.insert(b"tt0000009\ttvEpisode\tEp\tEp").unwrap();
    assert_eq!(shard.n_movies(), 0);
    assert_eq!(shard.n_series(), 0);
}

#[test]
fn series_go_to_the_series_side() {
    let mut shard = Basics::new();
    shard
        .insert(b"tt0000010\ttvMiniSeries\tMini\tMini\t0\t2010\t2011\t\\N\tDrama")
        .unwrap();
    assert_eq!(shard.n_movies(), 0);
    assert_eq!(shard.n_series(), 1);
    let hits = shard.lookup_by_name_year(Classification::Series, b"mini", 2010);
    assert_eq!(hits.len(), 1);
    assert_eq!(hits[0].title_type, TitleType::TvMiniSeries);
    assert_eq!(hits[0].end_year, Some(2011));
}

#[test]
fn parse_errors_by_field() {
    assert_eq!(
        parse_title_line(b"xx0000001\tmovie\tA\tA\t0\t\\N\t\\N\t\\N\t\\N").unwrap_err(),
        Error::InvalidIdentifier
    );
    assert_eq!(parse_title_line(b"tt0000001").unwrap_err(), Error::UnexpectedEof);
    assert_eq!(
        parse_title_line(b"tt0000001\tbogus\tA\tA\t0\t\\N\t\\N\t\\N\t\\N").unwrap_err(),
        Error::InvalidClassification
    );
    assert_eq!(
        parse_title_line(b"tt0000001\tmovie\tA\tA\t2\t\\N\t\\N\t\\N\t\\N").unwrap_err(),
        Error::InvalidAdultFlag
    );
    assert_eq!(
        parse_title_line(b"tt0000001\tmovie\tA\tA\t0\t20x0\t\\N\t\\N\t\\N").unwrap_err(),
        Error::InvalidYear
    );
    assert_eq!(
        parse_title_line(b"tt0000001\tmovie\tA\tA\t0\t2000\tnope\t\\N\t\\N").unwrap_err(),
        Error::InvalidEndYear
    );
    assert_eq!(
        parse_title_line(b"tt0000001\tmovie\tA\tA\t0\t2000\t\\N\t-3\t\\N").unwrap_err(),
        Error::InvalidRuntime
    );
    assert_eq!(
        parse_title_line(b"tt0000001\tmovie\tA\tA\t0\t2000\t\\N\t90\tNotAGenre").unwrap_err(),
        Error::InvalidGenre
    );
    assert_eq!(
        parse_title_line(b"tt0000001\tmovie\tA\tA\t0\t2000\t\\N\t90").unwrap_err(),
        Error::UnexpectedEof
    );
}

#[test]
fn parser_accepts_and_skips() {
    // a skipped classification needs no further fields
    assert!(parse_title_line(b"tt0000001\tshort\tS\tS").unwrap().is_none());
    // a stored one decodes every field
    let t = parse_title_line(b"tt0000042\tmovie\tAnswer\tAntwort\t1\t1979\t\\N\t42\tSci-Fi")
        .unwrap()
        .unwrap();
    assert_eq!(t.title_id.num, 42);
    assert_eq!(t.title_type, TitleType::Movie);
    assert!(t.is_adult);
    assert_eq!(t.primary_title, b"Answer".to_vec());
    assert_eq!(t.original_title, b"Antwort".to_vec());
    assert_eq!(t.start_year, Some(1979));
    assert_eq!(t.runtime_minutes, Some(42));
    assert!(t.genres.has(Genre::SciFi));
}

#[test]
fn identifier_padding_is_canonical() {
    let mut shard = Basics::new();
    shard
        .insert(b"tt0000123\tmovie\tPadded\tPadded\t0\t\\N\t\\N\t\\N\t\\N")
        .unwrap();
    // a re-serialization with other padding compares equal through the
    // decoded integer
    let hit = shard.lookup_by_identifier(Classification::Movie, &TitleId { num: 123 });
    assert!(hit.is_some());
}
