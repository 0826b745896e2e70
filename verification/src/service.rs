//! The load/query orchestrator: one construction pass partitions the title
//! dump's lines into `n` contiguous chunks, builds one shard per chunk and
//! the single ratings table, and fails fast on the first error.  After
//! construction everything is immutable; every query asks all shards and
//! concatenates their answers in shard order.

use vstd::prelude::*;
use crate::basics::{
    keyword_cookies, records_of, shard_insert, Basics, BasicsV,
};
use crate::bytes::{split_on, LF};
use crate::error::Error;
use crate::index::{lookup_cookies, name_cookies};
use crate::keywords::KeywordSet;
use crate::ratings::{ratings_body, ratings_build, Ratings};
use crate::title::{Classification, Title, TitleId, TitleView};

verus! {

/// The lines of the title dump: everything after the header line.
pub open spec fn titles_body(buf: Seq<u8>) -> Seq<Seq<u8>> {
    split_on(buf, LF).drop_first()
}

/// Folding a line sequence into one shard: empty lines are skipped, every
/// other line is inserted, and the first error aborts the build.
#[verifier::opaque]
pub open spec fn build_shard(lines: Seq<Seq<u8>>) -> Result<BasicsV, Error>
    decreases lines.len(),
{
    if lines.len() == 0 {
        Ok(BasicsV::empty())
    } else {
        match build_shard(lines.drop_last()) {
            Err(e) => Err(e),
            Ok(m) => {
                if lines.last().len() == 0 {
                    Ok(m)
                } else {
                    let (m2, r) = shard_insert(m, lines.last());
                    match r {
                        Ok(u) => Ok(m2),
                        Err(e) => Err(e),
                    }
                }
            },
        }
    }
}

/// Once a prefix fails, the whole build fails the same way.
pub proof fn lemma_build_shard_err(lines: Seq<Seq<u8>>, i: int)
    requires
        0 <= i <= lines.len(),
        build_shard(lines.take(i)) is Err,
    ensures
        build_shard(lines) == build_shard(lines.take(i)),
    decreases lines.len() - i,
{
    reveal(build_shard);
    if i < lines.len() {
        assert(lines.take(i + 1).drop_last() =~= lines.take(i));
        lemma_build_shard_err(lines, i + 1);
    } else {
        assert(lines.take(i) =~= lines);
    }
}

/// The chunk length used to partition `total` lines over `n` shards: the
/// ceiling of their quotient.
pub open spec fn chunk_size(total: nat, n: nat) -> nat
    recommends
        n >= 1,
{
    total / n + if total % n == 0 {
        0nat
    } else {
        1nat
    }
}

/// `n` chunks of the ceiling size always cover the whole body.
proof fn lemma_chunk_size_covers(total: nat, n: nat)
    requires
        n >= 1,
    ensures
        total <= n * chunk_size(total, n),
{
    let q = total / n;
    let r = total % n;
    vstd::arithmetic::div_mod::lemma_fundamental_div_mod(total as int, n as int);
    if r == 0 {
        assert(n * chunk_size(total, n) == n * q) by (nonlinear_arith)
            requires chunk_size(total, n) == q,
        ;
        assert(total == n * q + r);
    } else {
        assert(n * chunk_size(total, n) == n * q + n) by (nonlinear_arith)
            requires chunk_size(total, n) == q + 1,
        ;
        vstd::arithmetic::div_mod::lemma_mod_bound(total as int, n as int);
        assert(total == n * q + r);
    }
}

/// Cutting the dump body into `n` chunks of `k` lines each (the last ones
/// shorter or empty when the lines run out), and folding each chunk into
/// its shard, stopping at the first error.
#[verifier::opaque]
pub open spec fn build_shards(body: Seq<Seq<u8>>, k: nat, n: nat) -> Result<Seq<BasicsV>, Error>
    decreases n,
{
    if n == 0 {
        Ok(Seq::empty())
    } else {
        let m = if k < body.len() {
            k as int
        } else {
            body.len() as int
        };
        match build_shard(body.take(m)) {
            Err(e) => Err(e),
            Ok(b) => match build_shards(body.skip(m), k, (n - 1) as nat) {
                Err(e) => Err(e),
                Ok(bs) => Ok(seq![b] + bs),
            },
        }
    }
}

/// The views of a shard vector.
pub open spec fn shards_views(s: Seq<Basics>) -> Seq<BasicsV> {
    Seq::new(s.len(), |i: int| s[i]@)
}

/// Unfolding one successful chunk out of [`build_shards`].
proof fn lemma_build_shards_step_ok(body: Seq<Seq<u8>>, k: nat, n: nat, start: int, end: int, b: BasicsV)
    requires
        n >= 1,
        0 <= start <= end <= body.len(),
        end - start == if (k as int) < body.len() - start {
            k as int
        } else {
            body.len() - start
        },
        build_shard(body.subrange(start, end)) == Ok::<_, Error>(b),
    ensures
        build_shards(body.skip(start), k, n) == (match build_shards(
            body.skip(end),
            k,
            (n - 1) as nat,
        ) {
            Ok(bs) => Ok::<_, Error>(seq![b] + bs),
            Err(e) => Err::<Seq<BasicsV>, _>(e),
        }),
{
    reveal(build_shards);
    let seg = body.skip(start);
    let m = if k < seg.len() {
        k as int
    } else {
        seg.len() as int
    };
    assert(m == end - start);
    assert(seg.take(m) =~= body.subrange(start, end));
    assert(seg.skip(m) =~= body.skip(end));
}

/// Unfolding one failing chunk out of [`build_shards`].
proof fn lemma_build_shards_step_err(
    body: Seq<Seq<u8>>,
    k: nat,
    n: nat,
    start: int,
    end: int,
    e: Error,
)
    requires
        n >= 1,
        0 <= start <= end <= body.len(),
        end - start == if (k as int) < body.len() - start {
            k as int
        } else {
            body.len() - start
        },
        build_shard(body.subrange(start, end)) == Err::<BasicsV, _>(e),
    ensures
        build_shards(body.skip(start), k, n) == Err::<Seq<BasicsV>, _>(e),
{
    reveal(build_shards);
    let seg = body.skip(start);
    let m = if k < seg.len() {
        k as int
    } else {
        seg.len() as int
    };
    assert(m == end - start);
    assert(seg.take(m) =~= body.subrange(start, end));
}

/// The records of one shard side that a title-name query selects: the exact
/// (name, year) bucket, or every year of the name when no year is given.
pub open spec fn shard_title_query(
    m: BasicsV,
    c: Classification,
    name: Seq<u8>,
    year: Option<u16>,
) -> Seq<TitleView> {
    match year {
        Some(y) => records_of(m.side(c).records, lookup_cookies(m.side(c).titles, name, Some(y))),
        None => records_of(m.side(c).records, name_cookies(m.side(c).titles, name)),
    }
}

/// The per-shard answers of a title-name query, concatenated in shard order.
pub open spec fn merged_title_query(
    shards: Seq<BasicsV>,
    c: Classification,
    name: Seq<u8>,
    year: Option<u16>,
) -> Seq<TitleView>
    decreases shards.len(),
{
    if shards.len() == 0 {
        Seq::empty()
    } else {
        merged_title_query(shards.drop_last(), c, name, year) + shard_title_query(
            shards.last(),
            c,
            name,
            year,
        )
    }
}

/// The records of one shard side that a keyword query selects.
pub open spec fn shard_keyword_query(m: BasicsV, c: Classification, kws: Seq<Seq<u8>>) -> Seq<
    TitleView,
> {
    records_of(m.side(c).records, keyword_cookies(m.side(c).titles, kws))
}

/// The per-shard answers of a keyword query, concatenated in shard order.
pub open spec fn merged_keyword_query(
    shards: Seq<BasicsV>,
    c: Classification,
    kws: Seq<Seq<u8>>,
) -> Seq<TitleView>
    decreases shards.len(),
{
    if shards.len() == 0 {
        Seq::empty()
    } else {
        merged_keyword_query(shards.drop_last(), c, kws) + shard_keyword_query(
            shards.last(),
            c,
            kws,
        )
    }
}

/// The records of one shard side that an identifier query selects: at most
/// one.
pub open spec fn shard_id_query(m: BasicsV, c: Classification, id: u64) -> Seq<TitleView> {
    if m.side(c).ids.contains_key(id) {
        seq![m.side(c).records[m.side(c).ids[id] as int]]
    } else {
        Seq::empty()
    }
}

/// The per-shard answers of an identifier query, concatenated in shard
/// order.
pub open spec fn merged_id_query(shards: Seq<BasicsV>, c: Classification, id: u64) -> Seq<
    TitleView,
>
    decreases shards.len(),
{
    if shards.len() == 0 {
        Seq::empty()
    } else {
        merged_id_query(shards.drop_last(), c, id) + shard_id_query(shards.last(), c, id)
    }
}

/// The specification-level image of a loaded service.
#[verifier::ext_equal]
pub ghost struct ServiceV {
    pub shards: Seq<BasicsV>,
    pub ratings: Map<u64, (u8, u64)>,
}

impl ServiceV {
    pub open spec fn wf(self) -> bool {
        forall|i: int| 0 <= i < self.shards.len() ==> (#[trigger] self.shards[i]).wf()
    }
}

/// The loaded catalog: a fixed collection of shards plus one ratings table,
/// immutable once construction returns.
#[derive(Debug)]
pub struct Service {
    shards: Vec<Basics>,
    ratings: Ratings,
}

impl View for Service {
    type V = ServiceV;

    closed spec fn view(&self) -> ServiceV {
        ServiceV { shards: shards_views(self.shards@), ratings: self.ratings@ }
    }
}

/// Folding one contiguous segment of the dump's line list (the lines at
/// positions `start + 1 .. end + 1`, past the header) into a fresh shard.
fn build_shard_from(all: &Vec<Vec<u8>>, start: usize, end: usize) -> (r: Result<Basics, Error>)
    requires
        start <= end,
        end + 1 <= all@.len(),
    ensures
        ({
            let seg = all.deep_view().subrange(start + 1 as int, end + 1 as int);
            match r {
                Ok(b) => build_shard(seg) == Ok::<_, Error>(b@) && b@.wf(),
                Err(e) => build_shard(seg) == Err::<BasicsV, _>(e),
            }
        }),
{
    let ghost seg = all.deep_view().subrange(start + 1 as int, end + 1 as int);
    let mut shard = Basics::new();
    proof {
        reveal(build_shard);
        assert(seg.take(0) =~= Seq::<Seq<u8>>::empty());
    }
    let mut j = start;
    while j < end
        invariant
            start <= j <= end,
            end + 1 <= all@.len(),
            seg == all.deep_view().subrange(start + 1 as int, end + 1 as int),
            build_shard(seg.take(j - start)) == Ok::<_, Error>(shard@),
            shard@.wf(),
        decreases end - j,
    {
        proof {
            reveal(build_shard);
            assert(seg.take(j - start + 1).drop_last() =~= seg.take(j - start));
            assert(seg.take(j - start + 1).last() == seg[j - start]);
            assert(all@[j + 1 as int]@ == all.deep_view()[j + 1 as int]);
            assert(seg[j - start] == all.deep_view()[j + 1 as int]);
        }
        let line = &all[j + 1];
        if line.len() > 0 {
            match shard.insert(line.as_slice()) {
                Ok(u) => {},
                Err(e) => {
                    proof {
                        reveal(build_shard);
                        assert(build_shard(seg.take(j - start + 1)) == Err::<BasicsV, _>(e));
                        lemma_build_shard_err(seg, j - start + 1);
                    }
                    return Err(e);
                },
            }
        }
        j = j + 1;
    }
    proof {
        assert(seg.take(seg.len() as int) =~= seg);
    }
    Ok(shard)
}

impl Service {
    /// Loading the whole catalog.  The title dump's body is cut into `n`
    /// contiguous chunks of [`chunk_size`] lines, one per shard; each chunk
    /// is folded into its shard and the ratings buffer into the table.  The
    /// first error — in shard order, with the ratings build after every
    /// shard — aborts the construction, and nothing partially loaded is
    /// returned.
    ///
    /// A duplicate identifier is only detected when both records land in
    /// the same shard; with more than one shard, a duplicate split across
    /// two chunks is not caught.  This matches the partitioned
    /// construction, where no shared identifier index exists.
    pub fn new(n: usize, titles_buf: &[u8], ratings_buf: &[u8]) -> (r: Result<Service, Error>)
        requires
            1 <= n,
        ensures
            ({
                let body = titles_body(titles_buf@);
                let k = chunk_size(body.len(), n as nat);
                match r {
                    Ok(s) => {
                        &&& s@.shards.len() == n
                        &&& build_shards(body, k, n as nat) == Ok::<_, Error>(s@.shards)
                        &&& ratings_build(ratings_body(ratings_buf@)) == Ok::<_, Error>(s@.ratings)
                        &&& s@.wf()
                    },
                    Err(e) => {
                        ||| build_shards(body, k, n as nat) == Err::<Seq<BasicsV>, _>(e)
                        ||| (build_shards(body, k, n as nat) is Ok && ratings_build(
                            ratings_body(ratings_buf@),
                        ) == Err::<Map<u64, (u8, u64)>, _>(e))
                    },
                }
            }),
    {
        let all = crate::bytes::split_bytes(titles_buf, LF);
        let ghost av = all.deep_view();
        let ghost body = titles_body(titles_buf@);
        proof {
            crate::bytes::lemma_split_on_len(titles_buf@, LF);
            assert(all@.len() == av.len());
            assert(body =~= av.drop_first());
        }
        let total = all.len() - 1;
        let k = total / n + if total % n == 0 {
            0
        } else {
            1
        };
        let ghost kn = k as nat;
        proof {
            assert(kn == chunk_size(body.len(), n as nat));
        }
        let mut shards: Vec<Basics> = Vec::new();
        let mut start: usize = 0;
        let mut i: usize = 0;
        proof {
            lemma_chunk_size_covers(body.len(), n as nat);
            assert(total - 0 <= n * k);
            assert(body.skip(0) =~= body);
            assert(shards_views(shards@) =~= Seq::<BasicsV>::empty());
            if build_shards(body, kn, n as nat) is Ok {
                assert(shards_views(shards@) + build_shards(body, kn, n as nat)->Ok_0 =~= build_shards(
                    body,
                    kn,
                    n as nat,
                )->Ok_0);
            }
        }
        while i < n
            invariant
                1 <= n,
                i <= n,
                start <= total,
                total - start <= (n - i) * k,
                i == n ==> start == total,
                total == all@.len() - 1,
                av == all.deep_view(),
                all@.len() == av.len(),
                body == av.drop_first(),
                body == titles_body(titles_buf@),
                body.len() == total,
                kn == k as nat,
                kn == chunk_size(body.len(), n as nat),
                shards@.len() == i,
                forall|j: int| 0 <= j < i ==> (#[trigger] shards@[j]@).wf(),
                ({
                    let rest = build_shards(body.skip(start as int), kn, (n - i) as nat);
                    build_shards(body, kn, n as nat) == match rest {
                        Ok(bs) => Ok::<_, Error>(shards_views(shards@) + bs),
                        Err(e) => Err::<Seq<BasicsV>, _>(e),
                    }
                }),
            decreases n - i,
        {
            let end = if total - start < k {
                total
            } else {
                start + k
            };
            proof {
                assert(av.subrange(start + 1 as int, end + 1 as int) =~= body.subrange(
                    start as int,
                    end as int,
                ));
            }
            let ghost views0 = shards_views(shards@);
            let shard = match build_shard_from(&all, start, end) {
                Ok(b) => b,
                Err(e) => {
                    proof {
                        lemma_build_shards_step_err(
                            body,
                            kn,
                            (n - i) as nat,
                            start as int,
                            end as int,
                            e,
                        );
                    }
                    return Err(e);
                },
            };
            proof {
                lemma_build_shards_step_ok(
                    body,
                    kn,
                    (n - i) as nat,
                    start as int,
                    end as int,
                    shard@,
                );
            }
            shards.push(shard);
            proof {
                assert(shards_views(shards@) =~= views0.push(shard@));
                let rest2 = build_shards(body.skip(end as int), kn, (n - i - 1) as nat);
                if rest2 is Ok {
                    assert(views0 + (seq![shard@] + rest2->Ok_0) =~= shards_views(shards@)
                        + rest2->Ok_0);
                }
            }
            proof {
                assert((n - i) * k - k == (n - i - 1) * k) by (nonlinear_arith);
                if i + 1 == n && end < total {
                    assert(total - end <= (n - i - 1) * k);
                    assert((n - i - 1) * k == 0) by (nonlinear_arith)
                        requires i + 1 == n,
                    ;
                }
            }
            start = end;
            i = i + 1;
        }
        proof {
            reveal(build_shards);
            assert(body.skip(start as int) =~= Seq::<Seq<u8>>::empty());
            assert(shards_views(shards@) + Seq::<BasicsV>::empty() =~= shards_views(shards@));
        }
        let ratings = match Ratings::new_from_buf(ratings_buf) {
            Ok(rt) => rt,
            Err(e) => {
                return Err(e);
            },
        };
        let s = Service { shards, ratings };
        proof {
            assert forall|x: int| 0 <= x < s@.shards.len() implies (#[trigger] s@.shards[x]).wf() by {
                assert(s@.shards[x] == shards@[x]@);
            }
        }
        Ok(s)
    }

    /// The number of shards.
    pub fn n_shards(&self) -> (r: usize)
        ensures
            r == self@.shards.len(),
    {
        self.shards.len()
    }

    /// One side's title-name query, fanned out and concatenated.
    fn title_query(&self, c: Classification, name: &[u8], year: &Option<u16>) -> (r: Vec<Title>)
        requires
            self@.wf(),
        ensures
            crate::basics::titles_view(r@) == merged_title_query(self@.shards, c, name@, *year),
    {
        let mut r: Vec<Title> = Vec::new();
        let mut i: usize = 0;
        while i < self.shards.len()
            invariant
                i <= self.shards.len(),
                self@.wf(),
                self@.shards.len() == self.shards@.len(),
                crate::basics::titles_view(r@) == merged_title_query(
                    self@.shards.take(i as int),
                    c,
                    name@,
                    *year,
                ),
            decreases self.shards.len() - i,
        {
            proof {
                assert(self@.shards.take(i + 1 as int).drop_last() =~= self@.shards.take(i as int));
                assert(self@.shards.take(i + 1 as int).last() == self@.shards[i as int]);
                assert(self@.shards[i as int] == self.shards@[i as int]@);
                assert(self@.shards[i as int].wf());
            }
            let ghost r0 = crate::basics::titles_view(r@);
            let mut part = match year {
                Some(y) => self.shards[i].lookup_by_name_year(c, name, *y),
                None => self.shards[i].lookup_by_name(c, name),
            };
            let ghost pv = crate::basics::titles_view(part@);
            r.append(&mut part);
            proof {
                assert(crate::basics::titles_view(r@) =~= r0 + pv);
                assert(r0 + pv =~= merged_title_query(self@.shards.take(i + 1 as int), c, name@, *year));
            }
            i = i + 1;
        }
        proof {
            assert(self@.shards.take(self@.shards.len() as int) =~= self@.shards);
        }
        r
    }

    /// Movie records under a lowercased name, with an optional exact year.
    pub fn movie(&self, name: &[u8], year: Option<u16>) -> (r: Vec<Title>)
        requires
            self@.wf(),
        ensures
            crate::basics::titles_view(r@) == merged_title_query(
                self@.shards,
                Classification::Movie,
                name@,
                year,
            ),
    {
        self.title_query(Classification::Movie, name, &year)
    }

    /// Series records under a lowercased name, with an optional exact year.
    pub fn series(&self, name: &[u8], year: Option<u16>) -> (r: Vec<Title>)
        requires
            self@.wf(),
        ensures
            crate::basics::titles_view(r@) == merged_title_query(
                self@.shards,
                Classification::Series,
                name@,
                year,
            ),
    {
        self.title_query(Classification::Series, name, &year)
    }

    /// Records of every name matching the keyword set, fanned out and
    /// concatenated.
    pub fn by_keywords(&self, c: Classification, kw: &KeywordSet) -> (r: Vec<Title>)
        requires
            self@.wf(),
        ensures
            crate::basics::titles_view(r@) == merged_keyword_query(self@.shards, c, kw@),
    {
        let mut r: Vec<Title> = Vec::new();
        let mut i: usize = 0;
        while i < self.shards.len()
            invariant
                i <= self.shards.len(),
                self@.wf(),
                self@.shards.len() == self.shards@.len(),
                crate::basics::titles_view(r@) == merged_keyword_query(
                    self@.shards.take(i as int),
                    c,
                    kw@,
                ),
            decreases self.shards.len() - i,
        {
            proof {
                assert(self@.shards.take(i + 1 as int).drop_last() =~= self@.shards.take(i as int));
                assert(self@.shards.take(i + 1 as int).last() == self@.shards[i as int]);
                assert(self@.shards[i as int] == self.shards@[i as int]@);
                assert(self@.shards[i as int].wf());
            }
            let ghost r0 = crate::basics::titles_view(r@);
            let mut part = self.shards[i].lookup_by_keywords(c, kw);
            let ghost pv = crate::basics::titles_view(part@);
            r.append(&mut part);
            proof {
                assert(crate::basics::titles_view(r@) =~= r0 + pv);
                assert(r0 + pv =~= merged_keyword_query(self@.shards.take(i + 1 as int), c, kw@));
            }
            i = i + 1;
        }
        proof {
            assert(self@.shards.take(self@.shards.len() as int) =~= self@.shards);
        }
        r
    }

    /// Records under an identifier, fanned out and concatenated: at most one
    /// per shard, and — absent a duplicate split across shards — at most one
    /// in all.
    pub fn by_identifier(&self, c: Classification, id: &TitleId) -> (r: Vec<Title>)
        requires
            self@.wf(),
        ensures
            crate::basics::titles_view(r@) == merged_id_query(self@.shards, c, id.num),
    {
        let mut r: Vec<Title> = Vec::new();
        let mut i: usize = 0;
        while i < self.shards.len()
            invariant
                i <= self.shards.len(),
                self@.wf(),
                self@.shards.len() == self.shards@.len(),
                crate::basics::titles_view(r@) == merged_id_query(
                    self@.shards.take(i as int),
                    c,
                    id.num,
                ),
            decreases self.shards.len() - i,
        {
            proof {
                assert(self@.shards.take(i + 1 as int).drop_last() =~= self@.shards.take(i as int));
                assert(self@.shards.take(i + 1 as int).last() == self@.shards[i as int]);
                assert(self@.shards[i as int] == self.shards@[i as int]@);
                assert(self@.shards[i as int].wf());
            }
            let ghost r0 = crate::basics::titles_view(r@);
            match self.shards[i].lookup_by_identifier(c, id) {
                Some(t) => {
                    let ghost tv = t@;
                    r.push(t);
                    proof {
                        assert(crate::basics::titles_view(r@) =~= r0.push(tv));
                        assert(r0.push(tv) =~= merged_id_query(
                            self@.shards.take(i + 1 as int),
                            c,
                            id.num,
                        ));
                    }
                },
                None => {
                    proof {
                        assert(crate::basics::titles_view(r@) =~= merged_id_query(
                            self@.shards.take(i + 1 as int),
                            c,
                            id.num,
                        ));
                    }
                },
            }
            i = i + 1;
        }
        proof {
            assert(self@.shards.take(self@.shards.len() as int) =~= self@.shards);
        }
        r
    }

    /// The scaled rating and vote count of an identifier, if known.
    pub fn rating(&self, id: &TitleId) -> (r: Option<(u8, u64)>)
        ensures
            match r {
                Some(p) => self@.ratings.contains_key(id.num) && self@.ratings[id.num] == p,
                None => !self@.ratings.contains_key(id.num),
            },
    {
        self.ratings.get(id)
    }
}

} // verus!

verus! {

/// The multiset union of per-shard title-name answers.
pub open spec fn title_query_multiset(
    shards: Seq<BasicsV>,
    c: Classification,
    name: Seq<u8>,
    year: Option<u16>,
) -> vstd::multiset::Multiset<TitleView>
    decreases shards.len(),
{
    if shards.len() == 0 {
        vstd::multiset::Multiset::empty()
    } else {
        title_query_multiset(shards.drop_last(), c, name, year).add(
            shard_title_query(shards.last(), c, name, year).to_multiset(),
        )
    }
}

/// A merged title-name query holds exactly the multiset union of the
/// per-shard answers: nothing is lost and nothing is duplicated by the
/// merge, for any number of shards.
pub proof fn lemma_merged_title_query_multiset(
    shards: Seq<BasicsV>,
    c: Classification,
    name: Seq<u8>,
    year: Option<u16>,
)
    ensures
        merged_title_query(shards, c, name, year).to_multiset() == title_query_multiset(
            shards,
            c,
            name,
            year,
        ),
    decreases shards.len(),
{
    if shards.len() == 0 {
        assert(merged_title_query(shards, c, name, year).to_multiset()
            =~= vstd::multiset::Multiset::<TitleView>::empty()) by {
            broadcast use vstd::seq_lib::group_to_multiset_ensures;
        }
    } else {
        lemma_merged_title_query_multiset(shards.drop_last(), c, name, year);
        vstd::seq_lib::lemma_multiset_commutative(
            merged_title_query(shards.drop_last(), c, name, year),
            shard_title_query(shards.last(), c, name, year),
        );
    }
}

/// The multiset union of per-shard keyword answers.
pub open spec fn keyword_query_multiset(
    shards: Seq<BasicsV>,
    c: Classification,
    kws: Seq<Seq<u8>>,
) -> vstd::multiset::Multiset<TitleView>
    decreases shards.len(),
{
    if shards.len() == 0 {
        vstd::multiset::Multiset::empty()
    } else {
        keyword_query_multiset(shards.drop_last(), c, kws).add(
            shard_keyword_query(shards.last(), c, kws).to_multiset(),
        )
    }
}

/// A merged keyword query holds exactly the multiset union of the per-shard
/// answers.
pub proof fn lemma_merged_keyword_query_multiset(
    shards: Seq<BasicsV>,
    c: Classification,
    kws: Seq<Seq<u8>>,
)
    ensures
        merged_keyword_query(shards, c, kws).to_multiset() == keyword_query_multiset(
            shards,
            c,
            kws,
        ),
    decreases shards.len(),
{
    if shards.len() == 0 {
        assert(merged_keyword_query(shards, c, kws).to_multiset()
            =~= vstd::multiset::Multiset::<TitleView>::empty()) by {
            broadcast use vstd::seq_lib::group_to_multiset_ensures;
        }
    } else {
        lemma_merged_keyword_query_multiset(shards.drop_last(), c, kws);
        vstd::seq_lib::lemma_multiset_commutative(
            merged_keyword_query(shards.drop_last(), c, kws),
            shard_keyword_query(shards.last(), c, kws),
        );
    }
}

/// The multiset union of per-shard identifier answers.
pub open spec fn id_query_multiset(shards: Seq<BasicsV>, c: Classification, id: u64) -> vstd::multiset::Multiset<TitleView>
    decreases shards.len(),
{
    if shards.len() == 0 {
        vstd::multiset::Multiset::empty()
    } else {
        id_query_multiset(shards.drop_last(), c, id).add(
            shard_id_query(shards.last(), c, id).to_multiset(),
        )
    }
}

/// A merged identifier query holds exactly the multiset union of the
/// per-shard answers.
pub proof fn lemma_merged_id_query_multiset(shards: Seq<BasicsV>, c: Classification, id: u64)
    ensures
        merged_id_query(shards, c, id).to_multiset() == id_query_multiset(shards, c, id),
    decreases shards.len(),
{
    if shards.len() == 0 {
        assert(merged_id_query(shards, c, id).to_multiset()
            =~= vstd::multiset::Multiset::<TitleView>::empty()) by {
            broadcast use vstd::seq_lib::group_to_multiset_ensures;
        }
    } else {
        lemma_merged_id_query_multiset(shards.drop_last(), c, id);
        vstd::seq_lib::lemma_multiset_commutative(
            merged_id_query(shards.drop_last(), c, id),
            shard_id_query(shards.last(), c, id),
        );
    }
}

} // verus!
