//! A list of transcripts with lookup by name and by gene.
use vstd::prelude::*;
use crate::text::str_eq;
use crate::transcript::Transcript;

verus! {

/// The transcripts of `ts[..n]` whose name is `name` (`by_gene` false) or
/// whose gene is `name` (`by_gene` true), in order.
pub open spec fn matching(ts: Seq<Transcript>, name: Seq<char>, by_gene: bool, n: int) -> Seq<
    Transcript,
>
    decreases n,
{
    if n <= 0 || n > ts.len() {
        seq![]
    } else {
        let t = ts[n - 1];
        let key = if by_gene {
            t.spec_gene()
        } else {
            t.spec_name()
        };
        if key == name {
            matching(ts, name, by_gene, n - 1).push(t)
        } else {
            matching(ts, name, by_gene, n - 1)
        }
    }
}

/// Transcripts in the order they were added.
#[derive(Debug)]
pub struct Transcripts {
    list: Vec<Transcript>,
}

impl Transcripts {
    pub closed spec fn spec_list(&self) -> Seq<Transcript> {
        self.list@
    }

    pub fn new() -> (r: Self)
        ensures
            r.spec_list().len() == 0,
    {
        Transcripts { list: Vec::new() }
    }

    pub fn with_capacity(capacity: usize) -> (r: Self)
        ensures
            r.spec_list().len() == 0,
    {
        Transcripts { list: Vec::with_capacity(capacity) }
    }

    fn find(&self, name: &str, by_gene: bool) -> (r: Vec<&Transcript>)
        ensures
            r@.map_values(|t: &Transcript| *t) == matching(self.list@, name@, by_gene, self.list@.len() as int),
    {
        let mut res: Vec<&Transcript> = Vec::new();
        let mut i: usize = 0;
        while i < self.list.len()
            invariant
                0 <= i <= self.list@.len(),
                res@.map_values(|t: &Transcript| *t) == matching(self.list@, name@, by_gene, i as int),
            decreases self.list@.len() - i,
        {
            let t = &self.list[i];
            let key = if by_gene {
                t.gene()
            } else {
                t.name()
            };
            if str_eq(key, name) {
                let ghost before = res@;
                res.push(t);
                proof {
                    assert(res@.map_values(|t: &Transcript| *t) =~= before.map_values(|t: &Transcript| *t).push(*t));
                }
            }
            i = i + 1;
        }
        res
    }

    /// The transcripts of the given name, in order.
    pub fn by_name(&self, name: &str) -> (r: Vec<&Transcript>)
        ensures
            r@.map_values(|t: &Transcript| *t) == matching(self.spec_list(), name@, false, self.spec_list().len() as int),
    {
        self.find(name, false)
    }

    /// The transcripts of the given gene, in order, or `None` if there is
    /// none.
    pub fn by_gene(&self, gene: &str) -> (r: Option<Vec<&Transcript>>)
        ensures
            ({
                let m = matching(self.spec_list(), gene@, true, self.spec_list().len() as int);
                &&& m.len() == 0 ==> r is None
                &&& m.len() > 0 ==> r is Some && r->0@.map_values(|t: &Transcript| *t) == m
            }),
    {
        let res = self.find(gene, true);
        if res.len() == 0 {
            None
        } else {
            Some(res)
        }
    }

    /// Adds a transcript at the end.
    pub fn push(&mut self, record: Transcript)
        ensures
            final(self).spec_list() == old(self).spec_list().push(record),
    {
        self.list.push(record);
    }

    pub fn len(&self) -> (r: usize)
        ensures
            r == self.spec_list().len(),
    {
        self.list.len()
    }

    pub fn is_empty(&self) -> (r: bool)
        ensures
            r == (self.spec_list().len() == 0),
    {
        self.list.len() == 0
    }

    pub fn as_vec(&self) -> (r: &Vec<Transcript>)
        ensures
            r@ == self.spec_list(),
    {
        &self.list
    }

    pub fn to_vec(self) -> (r: Vec<Transcript>)
        ensures
            r@ == self.spec_list(),
    {
        self.list
    }
}

} // verus!
