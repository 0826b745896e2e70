//! The ratings table: one non-sharded mapping from identifier to the scaled
//! rating and the vote count, built once from the ratings dump.

use vstd::prelude::*;
use std::collections::HashMap;
use crate::bytes::{split_on, LF};
use crate::error::Error;
use crate::parser::spec_parse_rating_line;
use crate::title::TitleId;

verus! {

broadcast use vstd::std_specs::hash::group_hash_axioms;

/// Feeding one line to the table: empty lines are skipped; a parse error
/// leaves the table unchanged; a duplicate identifier is fatal, with the
/// entry already replaced.
pub open spec fn ratings_line_step(m: Map<u64, (u8, u64)>, line: Seq<u8>) -> (
    Map<u64, (u8, u64)>,
    Result<(), Error>,
) {
    if line.len() == 0 {
        (m, Ok(()))
    } else {
        match spec_parse_rating_line(line) {
            Err(e) => (m, Err(e)),
            Ok((id, rating, votes)) => {
                if m.contains_key(id) {
                    (m.insert(id, (rating, votes)), Err(Error::DuplicateIdentifier(TitleId { num: id })))
                } else {
                    (m.insert(id, (rating, votes)), Ok(()))
                }
            },
        }
    }
}

/// Folding a line sequence into a table, stopping at the first error.
pub open spec fn ratings_build(lines: Seq<Seq<u8>>) -> Result<Map<u64, (u8, u64)>, Error>
    decreases lines.len(),
{
    if lines.len() == 0 {
        Ok(Map::empty())
    } else {
        match ratings_build(lines.drop_last()) {
            Err(e) => Err(e),
            Ok(m) => {
                let (m2, r) = ratings_line_step(m, lines.last());
                match r {
                    Ok(u) => Ok(m2),
                    Err(e) => Err(e),
                }
            },
        }
    }
}

/// Once a prefix fails, the whole build fails the same way.
pub proof fn lemma_ratings_build_err(lines: Seq<Seq<u8>>, i: int)
    requires
        0 <= i <= lines.len(),
        ratings_build(lines.take(i)) is Err,
    ensures
        ratings_build(lines) == ratings_build(lines.take(i)),
    decreases lines.len() - i,
{
    if i < lines.len() {
        assert(lines.take(i + 1).drop_last() =~= lines.take(i));
        lemma_ratings_build_err(lines, i + 1);
    } else {
        assert(lines.take(i) =~= lines);
    }
}

/// The lines of the ratings dump: everything after the header line.
pub open spec fn ratings_body(buf: Seq<u8>) -> Seq<Seq<u8>> {
    split_on(buf, LF).drop_first()
}

/// The identifier-to-(rating, votes) table.
#[derive(Debug)]
pub struct Ratings {
    table: HashMap<u64, (u8, u64)>,
}

impl View for Ratings {
    type V = Map<u64, (u8, u64)>;

    closed spec fn view(&self) -> Map<u64, (u8, u64)> {
        self.table@
    }
}

impl Ratings {
    /// A fresh, empty table.
    pub fn new() -> (r: Ratings)
        ensures
            r@ == Map::<u64, (u8, u64)>::empty(),
    {
        Ratings { table: HashMap::new() }
    }

    /// Feeding one rating line, mirroring [`ratings_line_step`].
    pub fn insert(&mut self, line: &[u8]) -> (r: Result<(), Error>)
        ensures
            ({
                let (m2, res) = ratings_line_step(old(self)@, line@);
                final(self)@ == m2 && r == res
            }),
    {
        if line.len() == 0 {
            return Ok(());
        }
        match crate::parser::parse_rating_line(line) {
            Err(e) => Err(e),
            Ok((id, rating, votes)) => {
                let prev = self.table.insert(id.num, (rating, votes));
                if prev.is_some() {
                    Err(Error::DuplicateIdentifier(id))
                } else {
                    Ok(())
                }
            },
        }
    }

    /// Building the whole table from the raw ratings buffer: the header line
    /// is discarded, then every line feeds the table in order, and the first
    /// error aborts the build.
    pub fn new_from_buf(buf: &[u8]) -> (r: Result<Ratings, Error>)
        ensures
            match r {
                Ok(rt) => ratings_build(ratings_body(buf@)) == Ok::<_, Error>(rt@),
                Err(e) => ratings_build(ratings_body(buf@)) == Err::<Map<u64, (u8, u64)>, _>(e),
            },
    {
        let lines = crate::bytes::split_bytes(buf, LF);
        let ghost body = ratings_body(buf@);
        proof {
            crate::bytes::lemma_split_on_len(buf@, LF);
            assert(lines@.len() == split_on(buf@, LF).len());
        }
        let mut rt = Ratings::new();
        let mut i: usize = 1;
        while i < lines.len()
            invariant
                1 <= i <= lines.len(),
                lines.deep_view() == split_on(buf@, LF),
                lines@.len() == split_on(buf@, LF).len(),
                body == ratings_body(buf@),
                body.len() == lines@.len() - 1,
                ratings_build(body.take(i - 1 as int)) == Ok::<_, Error>(rt@),
            decreases lines.len() - i,
        {
            proof {
                assert(body.take(i as int).drop_last() =~= body.take(i - 1 as int));
                assert(body.take(i as int).last() == body[i - 1 as int]);
                assert(lines@[i as int]@ == lines.deep_view()[i as int]);
                assert(body[i - 1 as int] == lines.deep_view()[i as int]);
            }
            match rt.insert(&lines[i]) {
                Ok(u) => {},
                Err(e) => {
                    proof {
                        lemma_ratings_build_err(body, i as int);
                    }
                    return Err(e);
                },
            }
            i = i + 1;
        }
        proof {
            assert(body.take(body.len() as int) =~= body);
        }
        Ok(rt)
    }

    /// The scaled rating and vote count of an identifier, if known.
    pub fn get(&self, id: &TitleId) -> (r: Option<(u8, u64)>)
        ensures
            match r {
                Some(p) => self@.contains_key(id.num) && self@[id.num] == p,
                None => !self@.contains_key(id.num),
            },
    {
        match self.table.get(&id.num) {
            Some(p) => Some(*p),
            None => None,
        }
    }
}

} // verus!
