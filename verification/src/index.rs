//! The name index of one shard side: an ordered association from lowercased
//! name to years to cookie lists.  Keys are kept distinct at both levels, so
//! one registration adds exactly one cookie to exactly one bucket.

use vstd::prelude::*;

verus! {

/// One year bucket: the cookies registered under a (name, year) key, in
/// registration order.
#[derive(Debug)]
pub struct YearEntry {
    pub year: Option<u16>,
    pub cookies: Vec<usize>,
}

/// The specification-level image of a year bucket.
#[verifier::ext_equal]
pub ghost struct YearEntryV {
    pub year: Option<u16>,
    pub cookies: Seq<usize>,
}

impl View for YearEntry {
    type V = YearEntryV;

    open spec fn view(&self) -> YearEntryV {
        YearEntryV { year: self.year, cookies: self.cookies@ }
    }
}

/// One name entry: the year buckets registered under a lowercased name.
#[derive(Debug)]
pub struct NameEntry {
    pub name: Vec<u8>,
    pub years: Vec<YearEntry>,
}

/// The specification-level image of a name entry.
#[verifier::ext_equal]
pub ghost struct NameEntryV {
    pub name: Seq<u8>,
    pub years: Seq<YearEntryV>,
}

/// The views of a year-bucket sequence.
pub open spec fn years_view(v: Seq<YearEntry>) -> Seq<YearEntryV> {
    Seq::new(v.len(), |i: int| v[i]@)
}

impl View for NameEntry {
    type V = NameEntryV;

    open spec fn view(&self) -> NameEntryV {
        NameEntryV { name: self.name@, years: years_view(self.years@) }
    }
}

/// The views of a name-entry sequence: the whole index.
pub open spec fn names_view(v: Seq<NameEntry>) -> Seq<NameEntryV> {
    Seq::new(v.len(), |i: int| v[i]@)
}

/// The position of the first entry for `name`, or -1 when none exists.
pub open spec fn find_name(idx: Seq<NameEntryV>, name: Seq<u8>) -> int
    decreases idx.len(),
{
    if idx.len() == 0 {
        -1
    } else if idx[0].name == name {
        0
    } else {
        let r = find_name(idx.drop_first(), name);
        if r < 0 {
            -1
        } else {
            r + 1
        }
    }
}

/// What [`find_name`] returns: the first matching position, or -1 exactly
/// when the name is absent.
pub proof fn lemma_find_name(idx: Seq<NameEntryV>, name: Seq<u8>)
    ensures
        ({
            let r = find_name(idx, name);
            &&& r >= 0 ==> r < idx.len() && idx[r].name == name && (forall|k: int|
                0 <= k < r ==> (#[trigger] idx[k]).name != name)
            &&& r < 0 ==> forall|k: int| 0 <= k < idx.len() ==> (#[trigger] idx[k]).name != name
        }),
    decreases idx.len(),
{
    if idx.len() > 0 && idx[0].name != name {
        let tail = idx.drop_first();
        lemma_find_name(tail, name);
        let r0 = find_name(tail, name);
        let r = find_name(idx, name);
        if r0 >= 0 {
            assert(tail[r0] == idx[r0 + 1]);
            assert forall|k: int| 0 <= k < r implies (#[trigger] idx[k]).name != name by {
                if k > 0 {
                    assert(tail[k - 1] == idx[k]);
                }
            }
        } else {
            assert forall|k: int| 0 <= k < idx.len() implies (#[trigger] idx[k]).name != name by {
                if k > 0 {
                    assert(tail[k - 1] == idx[k]);
                }
            }
        }
    }
}

/// The position of the first bucket for `year`, or -1 when none exists.
pub open spec fn find_year(ys: Seq<YearEntryV>, year: Option<u16>) -> int
    decreases ys.len(),
{
    if ys.len() == 0 {
        -1
    } else if ys[0].year == year {
        0
    } else {
        let r = find_year(ys.drop_first(), year);
        if r < 0 {
            -1
        } else {
            r + 1
        }
    }
}

/// What [`find_year`] returns, in the same shape as [`lemma_find_name`].
pub proof fn lemma_find_year(ys: Seq<YearEntryV>, year: Option<u16>)
    ensures
        ({
            let r = find_year(ys, year);
            &&& r >= 0 ==> r < ys.len() && ys[r].year == year && (forall|k: int|
                0 <= k < r ==> (#[trigger] ys[k]).year != year)
            &&& r < 0 ==> forall|k: int| 0 <= k < ys.len() ==> (#[trigger] ys[k]).year != year
        }),
    decreases ys.len(),
{
    if ys.len() > 0 && ys[0].year != year {
        let tail = ys.drop_first();
        lemma_find_year(tail, year);
        let r0 = find_year(tail, year);
        let r = find_year(ys, year);
        if r0 >= 0 {
            assert(tail[r0] == ys[r0 + 1]);
            assert forall|k: int| 0 <= k < r implies (#[trigger] ys[k]).year != year by {
                if k > 0 {
                    assert(tail[k - 1] == ys[k]);
                }
            }
        } else {
            assert forall|k: int| 0 <= k < ys.len() implies (#[trigger] ys[k]).year != year by {
                if k > 0 {
                    assert(tail[k - 1] == ys[k]);
                }
            }
        }
    }
}

/// Equality of two optional years.
pub fn opt_u16_eq(a: &Option<u16>, b: &Option<u16>) -> (r: bool)
    ensures
        r == (*a == *b),
{
    match (a, b) {
        (Some(x), Some(y)) => *x == *y,
        (None, None) => true,
        _ => false,
    }
}

/// Executable first-position search for a name.
pub fn find_name_at(idx: &Vec<NameEntry>, name: &[u8]) -> (r: Option<usize>)
    ensures
        match r {
            Some(i) => i < idx@.len() && find_name(names_view(idx@), name@) == i,
            None => find_name(names_view(idx@), name@) == -1,
        },
{
    let ghost v = names_view(idx@);
    let mut i: usize = 0;
    while i < idx.len()
        invariant
            i <= idx.len(),
            v == names_view(idx@),
            forall|k: int| 0 <= k < i ==> (#[trigger] v[k]).name != name@,
        decreases idx.len() - i,
    {
        proof {
            assert(v[i as int].name == idx@[i as int].name@);
        }
        if crate::bytes::bytes_eq(idx[i].name.as_slice(), name) {
            proof {
                lemma_find_name(v, name@);
            }
            return Some(i);
        }
        i = i + 1;
    }
    proof {
        lemma_find_name(v, name@);
    }
    None
}

/// Executable first-position search for a year bucket.
pub fn find_year_at(ys: &Vec<YearEntry>, year: &Option<u16>) -> (r: Option<usize>)
    ensures
        match r {
            Some(j) => j < ys@.len() && find_year(years_view(ys@), *year) == j,
            None => find_year(years_view(ys@), *year) == -1,
        },
{
    let ghost v = years_view(ys@);
    let mut j: usize = 0;
    while j < ys.len()
        invariant
            j <= ys.len(),
            v == years_view(ys@),
            forall|k: int| 0 <= k < j ==> (#[trigger] v[k]).year != *year,
        decreases ys.len() - j,
    {
        proof {
            assert(v[j as int].year == ys@[j as int].year);
        }
        if opt_u16_eq(&ys[j].year, year) {
            proof {
                lemma_find_year(v, *year);
            }
            return Some(j);
        }
        j = j + 1;
    }
    proof {
        lemma_find_year(v, *year);
    }
    None
}

/// Registering one cookie under a (name, year) key: a fresh name entry, a
/// fresh year bucket under a known name, or a push onto the existing bucket.
pub open spec fn insert_name_spec(
    idx: Seq<NameEntryV>,
    name: Seq<u8>,
    year: Option<u16>,
    cookie: usize,
) -> Seq<NameEntryV> {
    let i = find_name(idx, name);
    if i < 0 {
        idx.push(
            NameEntryV { name, years: seq![YearEntryV { year, cookies: seq![cookie] }] },
        )
    } else {
        let e = idx[i];
        let j = find_year(e.years, year);
        let e2 = if j < 0 {
            NameEntryV {
                name: e.name,
                years: e.years.push(YearEntryV { year, cookies: seq![cookie] }),
            }
        } else {
            NameEntryV {
                name: e.name,
                years: e.years.update(
                    j,
                    YearEntryV { year: e.years[j].year, cookies: e.years[j].cookies.push(cookie) },
                ),
            }
        };
        idx.update(i, e2)
    }
}

/// Executable registration of one cookie, mirroring [`insert_name_spec`].
pub fn insert_name(idx: &mut Vec<NameEntry>, name: Vec<u8>, year: Option<u16>, cookie: usize)
    ensures
        names_view(final(idx)@) == insert_name_spec(names_view(old(idx)@), name@, year, cookie),
{
    let ghost v0 = names_view(old(idx)@);
    match find_name_at(idx, name.as_slice()) {
        None => {
            let mut cookies: Vec<usize> = Vec::new();
            cookies.push(cookie);
            let mut years: Vec<YearEntry> = Vec::new();
            years.push(YearEntry { year, cookies });
            proof {
                assert(years_view(years@) =~= seq![YearEntryV { year, cookies: seq![cookie] }]);
            }
            idx.push(NameEntry { name, years });
            proof {
                assert(names_view(idx@) =~~= insert_name_spec(v0, name@, year, cookie));
            }
        },
        Some(i) => {
            let ghost e = v0[i as int];
            let entry = &mut idx[i];
            let ghost years0 = years_view(entry.years@);
            match find_year_at(&entry.years, &year) {
                None => {
                    let mut cookies: Vec<usize> = Vec::new();
                    cookies.push(cookie);
                    entry.years.push(YearEntry { year, cookies });
                    proof {
                        assert(years_view(entry.years@) =~~= years0.push(
                            YearEntryV { year, cookies: seq![cookie] },
                        ));
                    }
                },
                Some(j) => {
                    entry.years[j].cookies.push(cookie);
                    proof {
                        assert(years_view(entry.years@) =~~= years0.update(
                            j as int,
                            YearEntryV {
                                year: years0[j as int].year,
                                cookies: years0[j as int].cookies.push(cookie),
                            },
                        ));
                    }
                },
            }
            proof {
                assert(names_view(idx@) =~~= insert_name_spec(v0, name@, year, cookie));
            }
        },
    }
}

/// The cookies of one name entry across all of its year buckets, in bucket
/// order then registration order.
pub open spec fn entry_cookies(ys: Seq<YearEntryV>) -> Seq<usize>
    decreases ys.len(),
{
    if ys.len() == 0 {
        Seq::empty()
    } else {
        entry_cookies(ys.drop_last()) + ys.last().cookies
    }
}

/// The bucket registered under an exact (name, year) key, or empty.
pub open spec fn lookup_cookies(
    idx: Seq<NameEntryV>,
    name: Seq<u8>,
    year: Option<u16>,
) -> Seq<usize> {
    let i = find_name(idx, name);
    if i < 0 {
        Seq::empty()
    } else {
        let j = find_year(idx[i].years, year);
        if j < 0 {
            Seq::empty()
        } else {
            idx[i].years[j].cookies
        }
    }
}

/// Every cookie registered under a name, across all years, or empty.
pub open spec fn name_cookies(idx: Seq<NameEntryV>, name: Seq<u8>) -> Seq<usize> {
    let i = find_name(idx, name);
    if i < 0 {
        Seq::empty()
    } else {
        entry_cookies(idx[i].years)
    }
}

} // verus!

verus! {

/// Finding a name ignores a pushed entry with a different name.
proof fn lemma_find_name_push(idx: Seq<NameEntryV>, e: NameEntryV, name: Seq<u8>)
    requires
        e.name != name,
    ensures
        find_name(idx.push(e), name) == find_name(idx, name),
    decreases idx.len(),
{
    if idx.len() == 0 {
        assert(idx.push(e)[0] == e);
        assert(idx.push(e).drop_first() =~= Seq::<NameEntryV>::empty());
        assert(find_name(Seq::<NameEntryV>::empty(), name) == -1);
        assert(find_name(idx.push(e), name) == -1);
        assert(find_name(idx, name) == -1);
    } else {
        assert(idx.push(e)[0] == idx[0]);
        assert(idx.push(e).drop_first() =~= idx.drop_first().push(e));
        lemma_find_name_push(idx.drop_first(), e, name);
        assert(find_name(idx.push(e).drop_first(), name) == find_name(idx.drop_first(), name));
        if idx[0].name == name {
            assert(find_name(idx.push(e), name) == 0);
            assert(find_name(idx, name) == 0);
        }
    }
}

/// Finding a name only looks at the names, not the rest of the entries.
proof fn lemma_find_name_same(idx1: Seq<NameEntryV>, idx2: Seq<NameEntryV>, name: Seq<u8>)
    requires
        idx1.len() == idx2.len(),
        forall|k: int| 0 <= k < idx1.len() ==> (#[trigger] idx2[k]).name == idx1[k].name,
    ensures
        find_name(idx2, name) == find_name(idx1, name),
    decreases idx1.len(),
{
    if idx1.len() > 0 {
        assert(idx2[0].name == idx1[0].name);
        assert(forall|k: int|
            0 <= k < idx1.drop_first().len() ==> (#[trigger] idx2.drop_first()[k]).name
                == idx1.drop_first()[k].name);
        lemma_find_name_same(idx1.drop_first(), idx2.drop_first(), name);
    }
}

/// Finding a year ignores a pushed bucket with a different year.
proof fn lemma_find_year_push(ys: Seq<YearEntryV>, b: YearEntryV, year: Option<u16>)
    requires
        b.year != year,
    ensures
        find_year(ys.push(b), year) == find_year(ys, year),
    decreases ys.len(),
{
    if ys.len() == 0 {
        assert(ys.push(b)[0] == b);
        assert(ys.push(b).drop_first() =~= Seq::<YearEntryV>::empty());
        assert(find_year(Seq::<YearEntryV>::empty(), year) == -1);
        assert(find_year(ys.push(b), year) == -1);
        assert(find_year(ys, year) == -1);
    } else {
        assert(ys.push(b)[0] == ys[0]);
        assert(ys.push(b).drop_first() =~= ys.drop_first().push(b));
        lemma_find_year_push(ys.drop_first(), b, year);
        assert(find_year(ys.push(b).drop_first(), year) == find_year(ys.drop_first(), year));
        if ys[0].year == year {
            assert(find_year(ys.push(b), year) == 0);
            assert(find_year(ys, year) == 0);
        }
    }
}

/// Finding a year only looks at the years, not the cookies.
proof fn lemma_find_year_same(ys1: Seq<YearEntryV>, ys2: Seq<YearEntryV>, year: Option<u16>)
    requires
        ys1.len() == ys2.len(),
        forall|k: int| 0 <= k < ys1.len() ==> (#[trigger] ys2[k]).year == ys1[k].year,
    ensures
        find_year(ys2, year) == find_year(ys1, year),
    decreases ys1.len(),
{
    if ys1.len() > 0 {
        assert(ys2[0].year == ys1[0].year);
        assert(forall|k: int|
            0 <= k < ys1.drop_first().len() ==> (#[trigger] ys2.drop_first()[k]).year
                == ys1.drop_first()[k].year);
        lemma_find_year_same(ys1.drop_first(), ys2.drop_first(), year);
    }
}

/// What one registration does to every bucket: the registered (name, year)
/// bucket gains exactly the new cookie at its end, and every other bucket is
/// untouched.
pub proof fn lemma_insert_name_lookup(
    idx: Seq<NameEntryV>,
    name: Seq<u8>,
    year: Option<u16>,
    c: usize,
)
    ensures
        lookup_cookies(insert_name_spec(idx, name, year, c), name, year) == lookup_cookies(
            idx,
            name,
            year,
        ).push(c),
        forall|n2: Seq<u8>, y2: Option<u16>|
            n2 != name || y2 != year ==> #[trigger] lookup_cookies(
                insert_name_spec(idx, name, year, c),
                n2,
                y2,
            ) == lookup_cookies(idx, n2, y2),
{
    let idx2 = insert_name_spec(idx, name, year, c);
    let i = find_name(idx, name);
    lemma_find_name(idx, name);
    let newbucket = YearEntryV { year, cookies: seq![c] };
    if i < 0 {
        let e_new = NameEntryV { name, years: seq![newbucket] };
        assert(idx2 == idx.push(e_new));
        lemma_find_name(idx2, name);
        let r2 = find_name(idx2, name);
        assert(idx2[idx.len() as int] == e_new);
        if r2 < 0 {
            assert(idx2[idx.len() as int].name != name);
            assert(false);
        }
        if r2 < idx.len() {
            assert(idx2[r2] == idx[r2]);
            assert(false);
        }
        assert(r2 == idx.len());
        assert(idx2[r2] == e_new);
        assert(find_year(e_new.years, year) == 0);
        assert(e_new.years[0].cookies == seq![c]);
        assert(lookup_cookies(idx, name, year) =~= Seq::<usize>::empty());
        assert(lookup_cookies(idx2, name, year) =~= lookup_cookies(idx, name, year).push(c));
    } else {
        let e = idx[i];
        let j = find_year(e.years, year);
        lemma_find_year(e.years, year);
        let e2 = if j < 0 {
            NameEntryV { name: e.name, years: e.years.push(newbucket) }
        } else {
            NameEntryV {
                name: e.name,
                years: e.years.update(
                    j,
                    YearEntryV { year: e.years[j].year, cookies: e.years[j].cookies.push(c) },
                ),
            }
        };
        assert(idx2 == idx.update(i, e2));
        assert(forall|k: int| 0 <= k < idx.len() ==> (#[trigger] idx2[k]).name == idx[k].name);
        lemma_find_name_same(idx, idx2, name);
        assert(find_name(idx2, name) == i);
        assert(idx2[i] == e2);
        if j < 0 {
            lemma_find_year(e2.years, year);
            let j2 = find_year(e2.years, year);
            assert(e2.years[e.years.len() as int] == newbucket);
            if j2 < 0 {
                assert(e2.years[e.years.len() as int].year != year);
                assert(false);
            }
            if j2 < e.years.len() {
                assert(e2.years[j2] == e.years[j2]);
                assert(false);
            }
            assert(j2 == e.years.len());
            assert(e2.years[j2].cookies == seq![c]);
            assert(lookup_cookies(idx, name, year) =~= Seq::<usize>::empty());
            assert(lookup_cookies(idx2, name, year) =~= lookup_cookies(idx, name, year).push(c));
        } else {
            assert(forall|k: int|
                0 <= k < e.years.len() ==> (#[trigger] e2.years[k]).year == e.years[k].year);
            lemma_find_year_same(e.years, e2.years, year);
            assert(find_year(e2.years, year) == j);
            assert(e2.years[j].cookies == e.years[j].cookies.push(c));
        }
    }
    assert forall|n2: Seq<u8>, y2: Option<u16>| n2 != name || y2 != year implies #[trigger] lookup_cookies(
        idx2,
        n2,
        y2,
    ) == lookup_cookies(idx, n2, y2) by {
        lemma_find_name(idx, n2);
        lemma_find_name(idx2, n2);
        if n2 != name {
            if i < 0 {
                let e_new = NameEntryV { name, years: seq![newbucket] };
                lemma_find_name_push(idx, e_new, n2);
                let a = find_name(idx, n2);
                if a >= 0 {
                    assert(idx2[a] == idx[a]);
                }
            } else {
                assert(forall|k: int|
                    0 <= k < idx.len() ==> (#[trigger] idx2[k]).name == idx[k].name);
                lemma_find_name_same(idx, idx2, n2);
                let a = find_name(idx, n2);
                if a >= 0 {
                    assert(idx[a].name == n2);
                    assert(a != i);
                    assert(idx2[a] == idx[a]);
                }
            }
        } else {
            // same name, different year: the entry is found at the same
            // position, and within it the other year's bucket is untouched
            if i < 0 {
                let e_new = NameEntryV { name, years: seq![newbucket] };
                let r2 = find_name(idx2, name);
                assert(r2 == idx.len() && idx2[r2] == e_new);
                lemma_find_year(e_new.years, y2);
                let j2 = find_year(e_new.years, y2);
                if j2 >= 0 {
                    assert(e_new.years[j2].year == y2);
                    assert(j2 == 0 && newbucket.year == year);
                    assert(false);
                }
                assert(lookup_cookies(idx2, n2, y2) =~= Seq::<usize>::empty());
                assert(lookup_cookies(idx, n2, y2) =~= Seq::<usize>::empty());
            } else {
                let e = idx[i];
                let j = find_year(e.years, year);
                lemma_find_year(e.years, year);
                let e2 = idx2[i];
                assert(find_name(idx2, name) == i);
                if j < 0 {
                    lemma_find_year_push(e.years, newbucket, y2);
                    let b2 = find_year(e.years, y2);
                    lemma_find_year(e.years, y2);
                    if b2 >= 0 {
                        assert(e2.years[b2] == e.years[b2]);
                    }
                } else {
                    assert(forall|k: int|
                        0 <= k < e.years.len() ==> (#[trigger] e2.years[k]).year
                            == e.years[k].year);
                    lemma_find_year_same(e.years, e2.years, y2);
                    let b2 = find_year(e.years, y2);
                    lemma_find_year(e.years, y2);
                    if b2 >= 0 {
                        assert(e.years[b2].year == y2);
                        assert(b2 != j);
                        assert(e2.years[b2] == e.years[b2]);
                    }
                }
            }
        }
    }
}

} // verus!
