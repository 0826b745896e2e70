//! Service-level scenarios: loading from buffers, fan-out queries, ratings.

use tvrank::error::Error;
use tvrank::keywords::KeywordSet;
use tvrank::ratings::Ratings;
use tvrank::service::Service;
use tvrank::title::{Classification, TitleId};

fn titles_buf() -> Vec<u8> {
    let mut b = Vec::new();
    b.extend_from_slice(b"header\n");
    b.extend_from_slice(b"tt0000001\tmovie\tTest\tTest\t0\t2000\t\\N\t90\tDrama\n");
    b.extend_from_slice(b"tt0000002\tmovie\tOther\tOther\t0\t\\N\t\\N\t\\N\t\\N\n");
    b.extend_from_slice(b"tt0000003\ttvSeries\tShow\tShow\t0\t1999\t2004\t\\N\tComedy\n");
    b.extend_from_slice(b"tt0000004\tmovie\tTest\tEssai\t0\t2000\t\\N\t80\tDrama\n");
    b
}

fn ratings_buf() -> Vec<u8> {
    let mut b = Vec::new();
    b.extend_from_slice(b"header\n");
    b.extend_from_slice(b"tt0000001\t8.4\t15000\n");
    b.extend_from_slice(b"tt0000003\t7.0\t900\n");
    b
}

#[test]
fn load_and_query_one_shard() {
    let svc = Service::new(1, &titles_buf(), &ratings_buf()).unwrap();
    assert_eq!(svc.n_shards(), 1);

    let movies = svc.movie(b"test", Some(2000));
    assert_eq!(movies.len(), 2);
    assert_eq!(movies[0].title_id.num, 1);
    assert_eq!(movies[1].title_id.num, 4);

    let none = svc.movie(b"test", Some(1999));
    assert!(none.is_empty());

    let series = svc.series(b"show", None);
    assert_eq!(series.len(), 1);
    assert_eq!(series[0].title_id.num, 3);
}

#[test]
fn load_and_query_many_shards() {
    for n in 1..=5usize {
        let svc = Service::new(n, &titles_buf(), &ratings_buf()).unwrap();
        assert_eq!(svc.n_shards(), n);

        // the merged answer is the union of the per-shard answers: the same
        // records come back whatever the shard count
        let movies = svc.movie(b"test", Some(2000));
        let mut ids: Vec<u64> = movies.iter().map(|t| t.title_id.num).collect();
        ids.sort();
        assert_eq!(ids, vec![1, 4]);

        let by_id = svc.by_identifier(Classification::Movie, &TitleId { num: 2 });
        assert_eq!(by_id.len(), 1);
        assert_eq!(by_id[0].primary_title, b"Other".to_vec());
    }
}

#[test]
fn keyword_query_across_shards() {
    let svc = Service::new(2, &titles_buf(), &ratings_buf()).unwrap();
    let kw = KeywordSet::new(b"test").unwrap();
    let hits = svc.by_keywords(Classification::Movie, &kw);
    let mut ids: Vec<u64> = hits.iter().map(|t| t.title_id.num).collect();
    ids.sort();
    ids.dedup();
    assert_eq!(ids, vec![1, 4]);
}

#[test]
fn rating_lookup() {
    let svc = Service::new(2, &titles_buf(), &ratings_buf()).unwrap();
    assert_eq!(svc.rating(&TitleId { num: 1 }), Some((84, 15000)));
    assert_eq!(svc.rating(&TitleId { num: 3 }), Some((70, 900)));
    assert_eq!(svc.rating(&TitleId { num: 2 }), None);
}

#[test]
fn rating_line_decoding() {
    let mut rt = Ratings::new();
    rt.insert(b"tt0000001\t8.4\t15000").unwrap();
    assert_eq!(rt.get(&TitleId { num: 1 }), Some((84, 15000)));
    assert_eq!(rt.get(&TitleId { num: 2 }), None);
}

#[test]
fn rating_errors() {
    let mut rt = Ratings::new();
    assert_eq!(
        rt.insert(b"tt0000001\t8.44\t15000").unwrap_err(),
        Error::InvalidRating
    );
    assert_eq!(rt.insert(b"tt0000001\tten\t15000").unwrap_err(), Error::InvalidRating);
    assert_eq!(
        rt.insert(b"tt0000001\t8.4\tmany").unwrap_err(),
        Error::InvalidVoteCount
    );
    rt.insert(b"tt0000001\t8.4\t15000").unwrap();
    assert_eq!(
        rt.insert(b"tt0000001\t9.0\t2").unwrap_err(),
        Error::DuplicateIdentifier(TitleId { num: 1 })
    );
}

#[test]
fn construction_fails_on_malformed_dump() {
    let mut bad = Vec::new();
    bad.extend_from_slice(b"header\n");
    bad.extend_from_slice(b"tt0000001\tmovie\tA\tA\t0\tbad\t\\N\t\\N\tDrama\n");
    let err = Service::new(2, &bad, &ratings_buf()).unwrap_err();
    assert_eq!(err, Error::InvalidYear);
}

#[test]
fn construction_fails_on_bad_ratings() {
    let mut bad = Vec::new();
    bad.extend_from_slice(b"header\n");
    bad.extend_from_slice(b"tt0000001\t8.4\n");
    let err = Service::new(1, &titles_buf(), &bad).unwrap_err();
    assert_eq!(err, Error::UnexpectedEof);
}

#[test]
fn empty_dumps_load_fine() {
    let svc = Service::new(3, b"header\n", b"header\n").unwrap();
    assert_eq!(svc.n_shards(), 3);
    assert!(svc.movie(b"anything", None).is_empty());
    assert_eq!(svc.rating(&TitleId { num: 1 }), None);
}
