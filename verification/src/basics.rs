//! One shard of the title catalog: two dense record sequences (movies and
//! series), each with a name index and an identifier index.  A record's
//! position at insertion time is its cookie; cookies are issued only right
//! after a push and are never invalidated, so every issued cookie stays
//! valid for the shard's lifetime.

use vstd::prelude::*;
use std::collections::HashMap;
use crate::error::Error;
use crate::index::{
    entry_cookies, find_name, find_year, insert_name, insert_name_spec, lemma_find_name,
    lemma_find_year, lookup_cookies, name_cookies, names_view, NameEntry, NameEntryV, YearEntryV,
};
use crate::keywords::{kw_matches, KeywordSet};
use crate::parser::spec_parse_title_line;
use crate::title::{spec_is_movie, Classification, Title, TitleId, TitleView};
use crate::bytes::lower;

verus! {

broadcast use vstd::std_specs::hash::group_hash_axioms;

/// The views of a record sequence.
pub open spec fn titles_view(v: Seq<Title>) -> Seq<TitleView> {
    Seq::new(v.len(), |i: int| v[i]@)
}

/// The records selected by a cookie list, in list order.
pub open spec fn records_of(recs: Seq<TitleView>, cs: Seq<usize>) -> Seq<TitleView> {
    Seq::new(cs.len(), |i: int| recs[cs[i] as int])
}

/// The cookies of every name entry whose name matches the keyword set, in
/// index order.
pub open spec fn keyword_cookies(idx: Seq<NameEntryV>, kws: Seq<Seq<u8>>) -> Seq<usize>
    decreases idx.len(),
{
    if idx.len() == 0 {
        Seq::empty()
    } else {
        keyword_cookies(idx.drop_last(), kws) + if kw_matches(kws, idx.last().name) {
            entry_cookies(idx.last().years)
        } else {
            Seq::empty()
        }
    }
}

/// Every cookie in a bucket points below `n`.
pub open spec fn wf_bucket(y: YearEntryV, n: nat) -> bool {
    forall|k: int| 0 <= k < y.cookies.len() ==> (#[trigger] y.cookies[k] as nat) < n
}

/// Years are distinct within an entry and every bucket is well-formed.
pub open spec fn wf_entry(e: NameEntryV, n: nat) -> bool {
    (forall|a: int, b: int|
        0 <= a < b < e.years.len() ==> (#[trigger] e.years[a]).year != (#[trigger] e.years[b]).year)
        && (forall|a: int| 0 <= a < e.years.len() ==> wf_bucket(#[trigger] e.years[a], n))
}

/// Names are distinct across the index and every entry is well-formed.
pub open spec fn wf_index(idx: Seq<NameEntryV>, n: nat) -> bool {
    (forall|a: int, b: int|
        0 <= a < b < idx.len() ==> (#[trigger] idx[a]).name != (#[trigger] idx[b]).name)
        && (forall|a: int| 0 <= a < idx.len() ==> wf_entry(#[trigger] idx[a], n))
}

/// The specification-level image of one classification's records and
/// indices.
#[verifier::ext_equal]
pub ghost struct SideV {
    pub records: Seq<TitleView>,
    pub titles: Seq<NameEntryV>,
    pub ids: Map<u64, usize>,
}

impl SideV {
    /// Well-formedness: the name index and the identifier index only hold
    /// cookies that point at stored records.
    pub open spec fn wf(self) -> bool {
        wf_index(self.titles, self.records.len()) && (forall|id: u64|
            self.ids.contains_key(id) ==> (#[trigger] self.ids[id] as nat) < self.records.len())
    }

    /// The empty side.
    pub open spec fn empty() -> SideV {
        SideV { records: Seq::empty(), titles: Seq::empty(), ids: Map::empty() }
    }
}

/// Inserting one decoded record into a side: the record is appended and its
/// fresh cookie registered, first under the identifier (a duplicate is fatal,
/// with the append already done), then under the lowercased primary name,
/// and — only when the original name differs byte-for-byte from the primary
/// name — under the lowercased original name too, all under the record's
/// start year.
pub open spec fn side_insert(s: SideV, t: TitleView) -> (SideV, Result<(), Error>) {
    let c = s.records.len() as usize;
    let recs2 = s.records.push(t);
    let ids2 = s.ids.insert(t.id, c);
    if s.ids.contains_key(t.id) {
        (
            SideV { records: recs2, titles: s.titles, ids: ids2 },
            Err(Error::DuplicateIdentifier(TitleId { num: t.id })),
        )
    } else {
        let idx1 = insert_name_spec(s.titles, lower(t.primary), t.start_year, c);
        let idx2 = if t.original != t.primary {
            insert_name_spec(idx1, lower(t.original), t.start_year, c)
        } else {
            idx1
        };
        (SideV { records: recs2, titles: idx2, ids: ids2 }, Ok(()))
    }
}

/// The specification-level image of a whole shard.
#[verifier::ext_equal]
pub ghost struct BasicsV {
    pub movies: SideV,
    pub series: SideV,
}

impl BasicsV {
    pub open spec fn wf(self) -> bool {
        self.movies.wf() && self.series.wf()
    }

    pub open spec fn empty() -> BasicsV {
        BasicsV { movies: SideV::empty(), series: SideV::empty() }
    }

    /// The side a classification selects.
    pub open spec fn side(self, c: Classification) -> SideV {
        match c {
            Classification::Movie => self.movies,
            Classification::Series => self.series,
        }
    }
}

/// Feeding one line to a shard: a parse error leaves the shard unchanged; a
/// line that is neither movie-like nor series-like is skipped with success;
/// otherwise the record goes to its classification's side.
pub open spec fn shard_insert(m: BasicsV, line: Seq<u8>) -> (BasicsV, Result<(), Error>) {
    match spec_parse_title_line(line) {
        Err(e) => (m, Err(e)),
        Ok(None) => (m, Ok(())),
        Ok(Some(t)) => {
            if spec_is_movie(t.title_type) {
                let (s2, r) = side_insert(m.movies, t);
                (BasicsV { movies: s2, series: m.series }, r)
            } else {
                let (s2, r) = side_insert(m.series, t);
                (BasicsV { movies: m.movies, series: s2 }, r)
            }
        },
    }
}

/// Registering a cookie keeps an index well-formed, as long as the cookie
/// points below the (possibly grown) record count.
pub proof fn lemma_insert_name_wf(
    idx: Seq<NameEntryV>,
    name: Seq<u8>,
    year: Option<u16>,
    c: usize,
    n1: nat,
    n2: nat,
)
    requires
        wf_index(idx, n1),
        n1 <= n2,
        (c as nat) < n2,
    ensures
        wf_index(insert_name_spec(idx, name, year, c), n2),
{
    let i = find_name(idx, name);
    lemma_find_name(idx, name);
    assert forall|a: int| 0 <= a < idx.len() implies wf_entry(#[trigger] idx[a], n2) by {
        assert(wf_entry(idx[a], n1));
        assert forall|x: int| 0 <= x < idx[a].years.len() implies wf_bucket(
            #[trigger] idx[a].years[x],
            n2,
        ) by {
            assert(wf_bucket(idx[a].years[x], n1));
        }
    }
    if i < 0 {
        let e = NameEntryV { name, years: seq![YearEntryV { year, cookies: seq![c] }] };
        assert(wf_entry(e, n2));
        let idx2 = idx.push(e);
        assert forall|a: int, b: int| 0 <= a < b < idx2.len() implies (#[trigger] idx2[a]).name != (
        #[trigger] idx2[b]).name by {
            if b == idx2.len() - 1 {
                assert(idx2[a] == idx[a]);
                assert(idx[a].name != name);
            }
        }
    } else {
        let e = idx[i];
        let j = find_year(e.years, year);
        lemma_find_year(e.years, year);
        assert(wf_entry(e, n1));
        let e2 = if j < 0 {
            NameEntryV {
                name: e.name,
                years: e.years.push(YearEntryV { year, cookies: seq![c] }),
            }
        } else {
            NameEntryV {
                name: e.name,
                years: e.years.update(
                    j,
                    YearEntryV { year: e.years[j].year, cookies: e.years[j].cookies.push(c) },
                ),
            }
        };
        if j < 0 {
            assert forall|a: int, b: int| 0 <= a < b < e2.years.len() implies (
            #[trigger] e2.years[a]).year != (#[trigger] e2.years[b]).year by {
                if b == e2.years.len() - 1 {
                    assert(e2.years[a] == e.years[a]);
                    assert(e.years[a].year != year);
                }
            }
            assert forall|a: int| 0 <= a < e2.years.len() implies wf_bucket(
                #[trigger] e2.years[a],
                n2,
            ) by {
                if a < e2.years.len() - 1 {
                    assert(e2.years[a] == e.years[a]);
                    assert(wf_bucket(e.years[a], n2));
                }
            }
            assert(wf_entry(e2, n2));
        } else {
            assert forall|a: int| 0 <= a < e2.years.len() implies wf_bucket(
                #[trigger] e2.years[a],
                n2,
            ) by {
                assert(wf_bucket(e.years[a], n2));
                if a == j {
                    assert forall|k: int| 0 <= k < e2.years[a].cookies.len() implies (
                    #[trigger] e2.years[a].cookies[k] as nat) < n2 by {
                        if k < e2.years[a].cookies.len() - 1 {
                            assert(e2.years[a].cookies[k] == e.years[j].cookies[k]);
                        }
                    }
                }
            }
            assert(wf_entry(e2, n2));
        }
        let idx2 = idx.update(i, e2);
        assert forall|a: int, b: int| 0 <= a < b < idx2.len() implies (#[trigger] idx2[a]).name != (
        #[trigger] idx2[b]).name by {
            assert(idx2[a].name == idx[a].name);
            assert(idx2[b].name == idx[b].name);
        }
        assert forall|a: int| 0 <= a < idx2.len() implies wf_entry(#[trigger] idx2[a], n2) by {
            if a != i {
                assert(idx2[a] == idx[a]);
            }
        }
    }
}

/// One classification's records and indices.
#[derive(Debug)]
pub struct CatalogSide {
    records: Vec<Title>,
    titles: Vec<NameEntry>,
    ids: HashMap<u64, usize>,
}

impl View for CatalogSide {
    type V = SideV;

    closed spec fn view(&self) -> SideV {
        SideV { records: titles_view(self.records@), titles: names_view(self.titles@), ids: self.ids@ }
    }
}

impl CatalogSide {
    /// A fresh, empty side.
    pub fn new() -> (r: CatalogSide)
        ensures
            r@ == SideV::empty(),
            r@.wf(),
    {
        let r = CatalogSide { records: Vec::new(), titles: Vec::new(), ids: HashMap::new() };
        proof {
            assert(r@ =~~= SideV::empty());
        }
        r
    }

    /// Appending one decoded record, mirroring [`side_insert`].
    pub fn insert_title(&mut self, t: Title) -> (r: Result<(), Error>)
        requires
            old(self)@.wf(),
        ensures
            final(self)@.wf(),
            ({
                let (s2, res) = side_insert(old(self)@, t@);
                final(self)@ == s2 && r == res
            }),
    {
        let ghost s0 = self@;
        let c = self.records.len();
        let id = t.title_id.num;
        let year = t.start_year;
        let lc_primary = crate::bytes::to_lowercase(t.primary_title.as_slice());
        let differs = !crate::bytes::bytes_eq(
            t.original_title.as_slice(),
            t.primary_title.as_slice(),
        );
        let lc_original = crate::bytes::to_lowercase(t.original_title.as_slice());
        self.records.push(t);
        proof {
            assert(titles_view(self.records@) =~= s0.records.push(t@));
        }
        let prev = self.ids.insert(id, c);
        if prev.is_some() {
            proof {
                let (s2, res) = side_insert(s0, t@);
                assert(self@ =~~= s2);
                assert forall|i: u64| self@.ids.contains_key(i) implies (
                #[trigger] self@.ids[i] as nat) < self@.records.len() by {
                    if i != id {
                        assert(s0.ids[i] == self@.ids[i]);
                    }
                }
            }
            return Err(Error::DuplicateIdentifier(TitleId { num: id }));
        }
        insert_name(&mut self.titles, lc_primary, year, c);
        if differs {
            insert_name(&mut self.titles, lc_original, year, c);
        }
        proof {
            let (s2, res) = side_insert(s0, t@);
            assert(self@ =~~= s2);
            lemma_insert_name_wf(
                s0.titles,
                lower(t@.primary),
                year,
                c,
                s0.records.len(),
                self@.records.len(),
            );
            if t@.original != t@.primary {
                lemma_insert_name_wf(
                    insert_name_spec(s0.titles, lower(t@.primary), year, c),
                    lower(t@.original),
                    year,
                    c,
                    self@.records.len(),
                    self@.records.len(),
                );
            }
            assert forall|i: u64| self@.ids.contains_key(i) implies (
            #[trigger] self@.ids[i] as nat) < self@.records.len() by {
                if i != id {
                    assert(s0.ids[i] == self@.ids[i]);
                }
            }
        }
        Ok(())
    }

    /// The number of stored records.
    pub fn len(&self) -> (r: usize)
        ensures
            r == self@.records.len(),
    {
        self.records.len()
    }

    /// Owned copies of the records a cookie list selects.
    fn records_for(&self, cookies: &Vec<usize>) -> (r: Vec<Title>)
        requires
            forall|k: int|
                0 <= k < cookies@.len() ==> (#[trigger] cookies@[k] as nat) < self@.records.len(),
        ensures
            titles_view(r@) == records_of(self@.records, cookies@),
    {
        let mut r: Vec<Title> = Vec::new();
        let mut i: usize = 0;
        while i < cookies.len()
            invariant
                i <= cookies.len(),
                forall|k: int|
                    0 <= k < cookies@.len() ==> (#[trigger] cookies@[k] as nat)
                        < self@.records.len(),
                self@.records.len() == self.records@.len(),
                titles_view(r@) == records_of(self@.records, cookies@.take(i as int)),
            decreases cookies.len() - i,
        {
            let ghost r0 = titles_view(r@);
            let c = cookies[i];
            r.push(self.records[c].duplicate());
            proof {
                assert(titles_view(r@) =~= r0.push(self@.records[cookies@[i as int] as int]));
                assert(records_of(self@.records, cookies@.take(i + 1 as int)) =~= records_of(
                    self@.records,
                    cookies@.take(i as int),
                ).push(self@.records[cookies@[i as int] as int]));
            }
            i = i + 1;
        }
        proof {
            assert(cookies@.take(cookies@.len() as int) =~= cookies@);
        }
        r
    }

    /// The cookies of one name entry across all of its year buckets.
    fn collect_entry_cookies(e: &NameEntry) -> (r: Vec<usize>)
        ensures
            r@ == entry_cookies(e@.years),
    {
        let mut r: Vec<usize> = Vec::new();
        let mut j: usize = 0;
        while j < e.years.len()
            invariant
                j <= e.years.len(),
                r@ == entry_cookies(e@.years.take(j as int)),
                e@.years.len() == e.years@.len(),
            decreases e.years.len() - j,
        {
            proof {
                assert(e@.years.take(j + 1 as int).drop_last() =~= e@.years.take(j as int));
                assert(e@.years.take(j + 1 as int).last() == e@.years[j as int]);
            }
            let ghost r0 = r@;
            let bucket = &e.years[j];
            let mut k: usize = 0;
            while k < bucket.cookies.len()
                invariant
                    k <= bucket.cookies.len(),
                    r@ == r0 + bucket.cookies@.take(k as int),
                decreases bucket.cookies.len() - k,
            {
                r.push(bucket.cookies[k]);
                proof {
                    assert(bucket.cookies@.take(k + 1 as int) =~= bucket.cookies@.take(
                        k as int,
                    ).push(bucket.cookies@[k as int]));
                    assert(r@ =~= r0 + bucket.cookies@.take(k + 1 as int));
                }
                k = k + 1;
            }
            proof {
                assert(bucket.cookies@.take(bucket.cookies@.len() as int) =~= bucket.cookies@);
                assert(e@.years[j as int].cookies == bucket.cookies@);
                assert(r@ =~= entry_cookies(e@.years.take(j + 1 as int)));
            }
            j = j + 1;
        }
        proof {
            assert(e@.years.take(e@.years.len() as int) =~= e@.years);
        }
        r
    }

    /// Records under the exact (name, year) key.
    fn by_name_year(&self, name: &[u8], year: Option<u16>) -> (r: Vec<Title>)
        requires
            self@.wf(),
        ensures
            titles_view(r@) == records_of(
                self@.records,
                lookup_cookies(self@.titles, name@, year),
            ),
    {
        proof {
            lemma_find_name(self@.titles, name@);
        }
        match crate::index::find_name_at(&self.titles, name) {
            None => {
                let r = Vec::new();
                proof {
                    assert(titles_view(r@) =~= records_of(
                        self@.records,
                        lookup_cookies(self@.titles, name@, year),
                    ));
                }
                r
            },
            Some(i) => {
                proof {
                    assert(self@.titles[i as int] == self.titles@[i as int]@);
                    lemma_find_year(self@.titles[i as int].years, year);
                }
                match crate::index::find_year_at(&self.titles[i].years, &year) {
                    None => {
                        let r = Vec::new();
                        proof {
                            assert(titles_view(r@) =~= records_of(
                                self@.records,
                                lookup_cookies(self@.titles, name@, year),
                            ));
                        }
                        r
                    },
                    Some(j) => {
                        proof {
                            assert(wf_entry(self@.titles[i as int], self@.records.len()));
                            assert(wf_bucket(
                                self@.titles[i as int].years[j as int],
                                self@.records.len(),
                            ));
                            assert(self@.titles[i as int].years[j as int].cookies
                                == self.titles@[i as int].years@[j as int].cookies@);
                        }
                        self.records_for(&self.titles[i].years[j].cookies)
                    },
                }
            },
        }
    }

    /// Records under a name, across all registered years.
    fn by_name(&self, name: &[u8]) -> (r: Vec<Title>)
        requires
            self@.wf(),
        ensures
            titles_view(r@) == records_of(self@.records, name_cookies(self@.titles, name@)),
    {
        proof {
            lemma_find_name(self@.titles, name@);
        }
        match crate::index::find_name_at(&self.titles, name) {
            None => {
                let r = Vec::new();
                proof {
                    assert(titles_view(r@) =~= records_of(
                        self@.records,
                        name_cookies(self@.titles, name@),
                    ));
                }
                r
            },
            Some(i) => {
                proof {
                    assert(self@.titles[i as int] == self.titles@[i as int]@);
                }
                let cookies = CatalogSide::collect_entry_cookies(&self.titles[i]);
                proof {
                    lemma_entry_cookies_wf(
                        self@.titles[i as int].years,
                        self@.records.len(),
                    );
                }
                self.records_for(&cookies)
            },
        }
    }

    /// Records of every name that matches the keyword set.
    fn by_keywords(&self, kw: &KeywordSet) -> (r: Vec<Title>)
        requires
            self@.wf(),
        ensures
            titles_view(r@) == records_of(self@.records, keyword_cookies(self@.titles, kw@)),
    {
        let mut cookies: Vec<usize> = Vec::new();
        let mut i: usize = 0;
        while i < self.titles.len()
            invariant
                i <= self.titles.len(),
                self@.wf(),
                self@.titles.len() == self.titles@.len(),
                cookies@ == keyword_cookies(self@.titles.take(i as int), kw@),
                forall|k: int|
                    0 <= k < cookies@.len() ==> (#[trigger] cookies@[k] as nat)
                        < self@.records.len(),
            decreases self.titles.len() - i,
        {
            proof {
                assert(self@.titles.take(i + 1 as int).drop_last() =~= self@.titles.take(i as int));
                assert(self@.titles.take(i + 1 as int).last() == self@.titles[i as int]);
                assert(self@.titles[i as int] == self.titles@[i as int]@);
            }
            let ghost c0 = cookies@;
            let matched = kw.matches(self.titles[i].name.as_slice());
            if matched {
                let extra = CatalogSide::collect_entry_cookies(&self.titles[i]);
                proof {
                    lemma_entry_cookies_wf(self@.titles[i as int].years, self@.records.len());
                }
                let mut k: usize = 0;
                while k < extra.len()
                    invariant
                        k <= extra.len(),
                        cookies@ == c0 + extra@.take(k as int),
                        forall|x: int|
                            0 <= x < extra@.len() ==> (#[trigger] extra@[x] as nat)
                                < self@.records.len(),
                        forall|x: int|
                            0 <= x < c0.len() ==> (#[trigger] c0[x] as nat) < self@.records.len(),
                    decreases extra.len() - k,
                {
                    cookies.push(extra[k]);
                    proof {
                        assert(extra@.take(k + 1 as int) =~= extra@.take(k as int).push(
                            extra@[k as int],
                        ));
                        assert(cookies@ =~= c0 + extra@.take(k + 1 as int));
                    }
                    k = k + 1;
                }
                proof {
                    assert(extra@.take(extra@.len() as int) =~= extra@);
                    assert(cookies@ =~= keyword_cookies(self@.titles.take(i + 1 as int), kw@));
                }
            } else {
                proof {
                    assert(cookies@ =~= keyword_cookies(self@.titles.take(i + 1 as int), kw@));
                }
            }
            i = i + 1;
        }
        proof {
            assert(self@.titles.take(self@.titles.len() as int) =~= self@.titles);
        }
        self.records_for(&cookies)
    }

    /// The record an identifier selects, if any.
    fn by_id(&self, id: u64) -> (r: Option<Title>)
        requires
            self@.wf(),
        ensures
            match r {
                Some(t) => self@.ids.contains_key(id) && t@ == self@.records[self@.ids[id] as int],
                None => !self@.ids.contains_key(id),
            },
    {
        match self.ids.get(&id) {
            Some(c) => {
                let c = *c;
                proof {
                    assert(self@.ids.contains_key(id) && self@.ids[id] == c);
                    assert((c as nat) < self@.records.len());
                }
                Some(self.records[c].duplicate())
            },
            None => None,
        }
    }
}

/// Every cookie that an entry's buckets hold points below `n`.
pub proof fn lemma_entry_cookies_wf(ys: Seq<YearEntryV>, n: nat)
    requires
        forall|a: int| 0 <= a < ys.len() ==> wf_bucket(#[trigger] ys[a], n),
    ensures
        forall|k: int| 0 <= k < entry_cookies(ys).len() ==> (#[trigger] entry_cookies(ys)[k] as nat)
            < n,
    decreases ys.len(),
{
    if ys.len() > 0 {
        lemma_entry_cookies_wf(ys.drop_last(), n);
        assert(wf_bucket(ys.last(), n));
        assert forall|k: int| 0 <= k < entry_cookies(ys).len() implies (
        #[trigger] entry_cookies(ys)[k] as nat) < n by {
            let pre = entry_cookies(ys.drop_last());
            if k < pre.len() {
                assert(entry_cookies(ys)[k] == pre[k]);
            } else {
                assert(entry_cookies(ys)[k] == ys.last().cookies[k - pre.len()]);
            }
        }
    }
}

/// One shard of the catalog: movie and series records with their indices.
#[derive(Debug)]
pub struct Basics {
    movies: CatalogSide,
    series: CatalogSide,
}

impl View for Basics {
    type V = BasicsV;

    closed spec fn view(&self) -> BasicsV {
        BasicsV { movies: self.movies@, series: self.series@ }
    }
}

impl Basics {
    /// A fresh, empty shard.
    pub fn new() -> (r: Basics)
        ensures
            r@ == BasicsV::empty(),
            r@.wf(),
    {
        let r = Basics { movies: CatalogSide::new(), series: CatalogSide::new() };
        proof {
            assert(r@ =~~= BasicsV::empty());
        }
        r
    }

    /// Feeding one title line to the shard, mirroring [`shard_insert`]: a
    /// parse error or a duplicate identifier is fatal to the shard.
    pub fn insert(&mut self, line: &[u8]) -> (r: Result<(), Error>)
        requires
            old(self)@.wf(),
        ensures
            final(self)@.wf(),
            ({
                let (m2, res) = shard_insert(old(self)@, line@);
                final(self)@ == m2 && r == res
            }),
    {
        match crate::parser::parse_title_line(line) {
            Err(e) => Err(e),
            Ok(None) => Ok(()),
            Ok(Some(t)) => {
                if t.title_type.is_movie() {
                    let r = self.movies.insert_title(t);
                    proof {
                        let (m2, res) = shard_insert(old(self)@, line@);
                        assert(self@ =~~= m2);
                    }
                    r
                } else {
                    let r = self.series.insert_title(t);
                    proof {
                        let (m2, res) = shard_insert(old(self)@, line@);
                        assert(self@ =~~= m2);
                    }
                    r
                }
            },
        }
    }

    /// The number of stored movie records.
    pub fn n_movies(&self) -> (r: usize)
        ensures
            r == self@.movies.records.len(),
    {
        self.movies.len()
    }

    /// The number of stored series records.
    pub fn n_series(&self) -> (r: usize)
        ensures
            r == self@.series.records.len(),
    {
        self.series.len()
    }

    /// Records under the exact (lowercased name, year) key of one side.
    pub fn lookup_by_name_year(&self, c: Classification, name: &[u8], year: u16) -> (r: Vec<Title>)
        requires
            self@.wf(),
        ensures
            titles_view(r@) == records_of(
                self@.side(c).records,
                lookup_cookies(self@.side(c).titles, name@, Some(year)),
            ),
    {
        match c {
            Classification::Movie => self.movies.by_name_year(name, Some(year)),
            Classification::Series => self.series.by_name_year(name, Some(year)),
        }
    }

    /// Records under a lowercased name, across all years including the
    /// "no year" bucket.
    pub fn lookup_by_name(&self, c: Classification, name: &[u8]) -> (r: Vec<Title>)
        requires
            self@.wf(),
        ensures
            titles_view(r@) == records_of(
                self@.side(c).records,
                name_cookies(self@.side(c).titles, name@),
            ),
    {
        match c {
            Classification::Movie => self.movies.by_name(name),
            Classification::Series => self.series.by_name(name),
        }
    }

    /// Records of every registered name whose token set contains the
    /// keyword set.
    pub fn lookup_by_keywords(&self, c: Classification, kw: &KeywordSet) -> (r: Vec<Title>)
        requires
            self@.wf(),
        ensures
            titles_view(r@) == records_of(
                self@.side(c).records,
                keyword_cookies(self@.side(c).titles, kw@),
            ),
    {
        match c {
            Classification::Movie => self.movies.by_keywords(kw),
            Classification::Series => self.series.by_keywords(kw),
        }
    }

    /// The record an identifier selects on one side, if any.
    pub fn lookup_by_identifier(&self, c: Classification, id: &TitleId) -> (r: Option<Title>)
        requires
            self@.wf(),
        ensures
            match r {
                Some(t) => self@.side(c).ids.contains_key(id.num) && t@ == self@.side(
                    c,
                ).records[self@.side(c).ids[id.num] as int],
                None => !self@.side(c).ids.contains_key(id.num),
            },
    {
        match c {
            Classification::Movie => self.movies.by_id(id.num),
            Classification::Series => self.series.by_id(id.num),
        }
    }
}

} // verus!

verus! {

/// Inserting a fresh record and then looking it up finds it again: the
/// identifier index maps the identifier to the new record, and the bucket
/// under the lowercased primary name and start year — and, when the
/// original name differs, the one under the lowercased original name —
/// contains it.
pub proof fn lemma_insert_then_lookup(s: SideV, t: TitleView)
    requires
        s.wf(),
        s.records.len() < usize::MAX,
        !s.ids.contains_key(t.id),
    ensures
        ({
            let (s2, r) = side_insert(s, t);
            let c = s.records.len() as usize;
            &&& r == Ok::<(), Error>(())
            &&& s2.ids.contains_key(t.id) && s2.records[s2.ids[t.id] as int] == t
            &&& records_of(
                s2.records,
                lookup_cookies(s2.titles, lower(t.primary), t.start_year),
            ).contains(t)
            &&& t.original != t.primary ==> records_of(
                s2.records,
                lookup_cookies(s2.titles, lower(t.original), t.start_year),
            ).contains(t)
        }),
{
    let (s2, r) = side_insert(s, t);
    let c = s.records.len() as usize;
    let idx1 = insert_name_spec(s.titles, lower(t.primary), t.start_year, c);
    crate::index::lemma_insert_name_lookup(s.titles, lower(t.primary), t.start_year, c);
    if t.original != t.primary {
        crate::index::lemma_insert_name_lookup(idx1, lower(t.original), t.start_year, c);
    }
    let bp = lookup_cookies(s2.titles, lower(t.primary), t.start_year);
    assert(bp.contains(c)) by {
        if t.original != t.primary && lower(t.original) == lower(t.primary) {
            assert(bp == lookup_cookies(idx1, lower(t.primary), t.start_year).push(c));
        } else if t.original != t.primary {
            assert(bp == lookup_cookies(idx1, lower(t.primary), t.start_year));
            assert(bp == lookup_cookies(s.titles, lower(t.primary), t.start_year).push(c));
        } else {
            assert(bp == lookup_cookies(s.titles, lower(t.primary), t.start_year).push(c));
        }
        assert(bp.last() == c);
    }
    assert(s2.records[c as int] == t);
    let ip = choose|k: int| 0 <= k < bp.len() && bp[k] == c;
    assert(records_of(s2.records, bp)[ip] == t);
    assert(records_of(s2.records, bp).contains(t));
    if t.original != t.primary {
        let bo = lookup_cookies(s2.titles, lower(t.original), t.start_year);
        assert(bo.contains(c)) by {
            assert(bo == lookup_cookies(idx1, lower(t.original), t.start_year).push(c));
            assert(bo.last() == c);
        }
        let io = choose|k: int| 0 <= k < bo.len() && bo[k] == c;
        assert(records_of(s2.records, bo)[io] == t);
        assert(records_of(s2.records, bo).contains(t));
    }
}

/// Registration is exact: the bucket under the lowercased primary name and
/// the start year gains the fresh cookie at its end; when the original name
/// differs byte-for-byte and also lowercases differently, so does that
/// name's bucket; and when the two names are equal, the new cookie stands in
/// its bucket exactly once — no duplicate registration exists for it.
pub proof fn lemma_single_registration(s: SideV, t: TitleView)
    requires
        s.wf(),
        s.records.len() < usize::MAX,
        !s.ids.contains_key(t.id),
    ensures
        ({
            let (s2, r) = side_insert(s, t);
            let c = s.records.len() as usize;
            let bp = lookup_cookies(s2.titles, lower(t.primary), t.start_year);
            &&& (t.original == t.primary || lower(t.original) != lower(t.primary)) ==> bp
                == lookup_cookies(s.titles, lower(t.primary), t.start_year).push(c)
            &&& (t.original != t.primary && lower(t.original) != lower(t.primary))
                ==> lookup_cookies(s2.titles, lower(t.original), t.start_year) == lookup_cookies(
                s.titles,
                lower(t.original),
                t.start_year,
            ).push(c)
            &&& t.original == t.primary ==> bp.len() >= 1 && bp.last() == c && (forall|k: int|
                0 <= k < bp.len() - 1 ==> bp[k] != c)
        }),
{
    let (s2, r) = side_insert(s, t);
    let c = s.records.len() as usize;
    let idx1 = insert_name_spec(s.titles, lower(t.primary), t.start_year, c);
    crate::index::lemma_insert_name_lookup(s.titles, lower(t.primary), t.start_year, c);
    if t.original != t.primary {
        crate::index::lemma_insert_name_lookup(idx1, lower(t.original), t.start_year, c);
    }
    if t.original == t.primary {
        let b0 = lookup_cookies(s.titles, lower(t.primary), t.start_year);
        let bp = lookup_cookies(s2.titles, lower(t.primary), t.start_year);
        assert(bp == b0.push(c));
        lemma_lookup_cookies_wf(s.titles, lower(t.primary), t.start_year, s.records.len());
        assert forall|k: int| 0 <= k < bp.len() - 1 implies bp[k] != c by {
            assert(bp[k] == b0[k]);
            assert((b0[k] as nat) < s.records.len());
        }
    }
}

/// Every cookie a bucket lookup yields points below the record count.
pub proof fn lemma_lookup_cookies_wf(
    idx: Seq<NameEntryV>,
    name: Seq<u8>,
    year: Option<u16>,
    n: nat,
)
    requires
        wf_index(idx, n),
    ensures
        forall|k: int|
            0 <= k < lookup_cookies(idx, name, year).len() ==> (#[trigger] lookup_cookies(
                idx,
                name,
                year,
            )[k] as nat) < n,
{
    let i = find_name(idx, name);
    crate::index::lemma_find_name(idx, name);
    if i >= 0 {
        let j = find_year(idx[i].years, year);
        crate::index::lemma_find_year(idx[i].years, year);
        if j >= 0 {
            assert(wf_entry(idx[i], n));
            assert(wf_bucket(idx[i].years[j], n));
        }
    }
}

/// A duplicate identifier always fails the insert with that identifier's
/// error, whatever the record's classification, and whatever else the
/// payload holds.
pub proof fn lemma_duplicate_identifier(m: BasicsV, line: Seq<u8>, t: TitleView)
    requires
        spec_parse_title_line(line) == Ok::<Option<TitleView>, Error>(Some(t)),
        spec_is_movie(t.title_type) ==> m.movies.ids.contains_key(t.id),
        !spec_is_movie(t.title_type) ==> m.series.ids.contains_key(t.id),
    ensures
        shard_insert(m, line).1 == Err::<(), Error>(
            Error::DuplicateIdentifier(TitleId { num: t.id }),
        ),
{
}

} // verus!
