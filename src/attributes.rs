//! The attribute column of a GTF line.
use vstd::prelude::*;
use vstd::string::StringSliceAdditionalSpecFns;
use vstd::utf8::decode_utf8;
use crate::errors::ParseGtfError;
use crate::gtf::attribute_of;
use crate::text::{joined, owned, piece, split_on, split_ranges, str_eq, strip_back, strip_both, trim_range};
use crate::transcript::Transcript;

verus! {

broadcast use vstd::utf8::encode_utf8_decode_utf8;

/// The attributes of a GTF line: gene id, transcript id, and all others in
/// their order.
#[derive(Debug)]
pub struct Attributes {
    transcript: String,
    gene: String,
    others: Vec<(String, String)>,
}

/// What the attributes `items[..n]` give: the last gene id, the last
/// transcript id, and the other key/value pairs in order; `None` if one of
/// them is malformed.
pub open spec fn attribute_fold(items: Seq<Seq<u8>>, n: int) -> Option<
    (Option<Seq<char>>, Option<Seq<char>>, Seq<(Seq<char>, Seq<char>)>),
>
    decreases n,
{
    if n <= 0 || n > items.len() {
        Some((None, None, seq![]))
    } else {
        match (attribute_fold(items, n - 1), attribute_of(strip_both(items[n - 1], true, 0))) {
            (Some((g, t, o)), Some((k, v))) => {
                let key = decode_utf8(k);
                let value = decode_utf8(v);
                if key == "gene_id"@ {
                    Some((Some(value), t, o))
                } else if key == "transcript_id"@ {
                    Some((g, Some(value), o))
                } else {
                    Some((g, t, o.push((key, value))))
                }
            },
            _ => None,
        }
    }
}

/// The attributes of a column: items separated by `;`, trailing `;`
/// ignored.
pub open spec fn column_items(b: Seq<u8>) -> Seq<Seq<u8>> {
    split_on(strip_back(b, false, 0x3b), 0x3b)
}

/// Splits one attribute, surrounding whitespace removed, at its first
/// space into key and value; the value loses its surrounding double quotes.
pub fn parse_attribute(attr: &str) -> (r: Result<(&str, &str), ParseGtfError>)
    ensures
        match attribute_of(strip_both(attr.spec_bytes(), true, 0)) {
            Some((k, v)) => r is Ok && r->Ok_0.0.spec_bytes() == k && r->Ok_0.1.spec_bytes() == v,
            None => r is Err,
        },
{
    let b = attr.as_bytes();
    let (a, e) = trim_range(b, 0, b.len(), true, 0);
    proof {
        assert(b@.subrange(0, b@.len() as int) =~= b@);
    }
    let t = piece(attr, a, e);
    match crate::gtf::parse_attribute(t) {
        Ok(x) => Ok(x),
        Err(_) => {
            let m = joined("Unable to parse the attribute\n\n", attr);
            Err(ParseGtfError { message: m.concat("\nPlease check your GTF input.") })
        },
    }
}

impl Attributes {
    pub closed spec fn spec_gene(&self) -> Seq<char> {
        self.gene@
    }

    pub closed spec fn spec_transcript(&self) -> Seq<char> {
        self.transcript@
    }

    pub closed spec fn spec_others(&self) -> Seq<(Seq<char>, Seq<char>)> {
        self.others@.map_values(|p: (String, String)| (p.0@, p.1@))
    }

    /// Parses an attribute column. Fails on a malformed attribute and
    /// where the gene id or the transcript id is missing; a repeated id
    /// takes its last value.
    pub fn from_str(s: &str) -> (r: Result<Self, ParseGtfError>)
        ensures
            match attribute_fold(column_items(s.spec_bytes()), column_items(s.spec_bytes()).len() as int) {
                Some((Some(g), Some(t), o)) => r is Ok && r->Ok_0.spec_gene() == g
                    && r->Ok_0.spec_transcript() == t && r->Ok_0.spec_others() == o,
                _ => r is Err,
            },
    {
        let b = s.as_bytes();
        let mut end = b.len();
        assert(b@.subrange(0, b@.len() as int) =~= b@);
        while end > 0 && b[end - 1] == 0x3b
            invariant
                0 <= end <= b@.len(),
                strip_back(b@, false, 0x3b) == strip_back(b@.subrange(0, end as int), false, 0x3b),
                end == b@.len() || b@[end as int] == 0x3b,
            decreases end,
        {
            proof {
                assert(b@.subrange(0, end as int).drop_last() =~= b@.subrange(0, end - 1));
            }
            end = end - 1;
        }
        proof {
            assert(b@.subrange(0, b@.len() as int) =~= b@);
        }
        let body = piece(s, 0, end);
        let ghost items = column_items(s.spec_bytes());
        proof {
            assert(body.spec_bytes() =~= strip_back(b@, false, 0x3b));
        }
        let bb = body.as_bytes();
        let ranges = split_ranges(bb, 0x3b);
        let mut gene: Option<String> = None;
        let mut transcript: Option<String> = None;
        let mut others: Vec<(String, String)> = Vec::new();
        let mut k: usize = 0;
        proof {
            assert(others@.map_values(|p: (String, String)| (p.0@, p.1@)) =~= Seq::<(Seq<char>, Seq<char>)>::empty());
        }
        while k < ranges.len()
            invariant
                0 <= k <= ranges@.len(),
                ranges@.len() == items.len(),
                items == split_on(bb@, 0x3b),
                bb@ == body.spec_bytes(),
                items == column_items(s.spec_bytes()),
                forall|j: int|
                    0 <= j < ranges@.len() ==> {
                        &&& (#[trigger] ranges@[j]).0 <= ranges@[j].1 <= bb@.len()
                        &&& bb@.subrange(ranges@[j].0 as int, ranges@[j].1 as int) == items[j]
                        &&& (ranges@[j].0 == 0 || bb@[ranges@[j].0 - 1] == 0x3b)
                        &&& (ranges@[j].1 == bb@.len() || bb@[ranges@[j].1 as int] == 0x3b)
                    },
                attribute_fold(items, k as int) == Some(
                    (
                        match gene {
                            Some(x) => Some(x@),
                            None => None::<Seq<char>>,
                        },
                        match transcript {
                            Some(x) => Some(x@),
                            None => None::<Seq<char>>,
                        },
                        others@.map_values(|p: (String, String)| (p.0@, p.1@)),
                    ),
                ),
            decreases ranges@.len() - k,
        {
            let (a, e) = ranges[k];
            let item = piece(body, a, e);
            proof {
                assert(item.spec_bytes() == items[k as int]);
            }
            let (key, value) = match parse_attribute(item) {
                Ok(x) => x,
                Err(err) => {
                    proof {
                        assert(attribute_of(strip_both(items[k as int], true, 0)) is None);
                        assert(attribute_fold(items, k as int + 1) is None);
                        lemma_fold_fails(items, k as int + 1, items.len() as int);
                    }
                    let m = joined("Unable to parse the attribute column\n\n>>>", s);
                    return Err(ParseGtfError::from_chain(err, m.concat("<<<\n\n").as_str()));
                },
            };
            proof {
                assert(decode_utf8(key.spec_bytes()) == key@);
                assert(decode_utf8(value.spec_bytes()) == value@);
            }
            if str_eq(key, "gene_id") {
                gene = Some(owned(value));
            } else if str_eq(key, "transcript_id") {
                transcript = Some(owned(value));
            } else {
                let ghost before = others@;
                others.push((owned(key), owned(value)));
                proof {
                    assert(others@.map_values(|p: (String, String)| (p.0@, p.1@)) =~= before.map_values(
                        |p: (String, String)| (p.0@, p.1@),
                    ).push((key@, value@)));
                }
            }
            k = k + 1;
        }
        match (gene, transcript) {
            (Some(gene), Some(transcript)) => Ok(Attributes { gene, transcript, others }),
            (None, None) => Err(ParseGtfError { message: joined("missing gene_id and transcript_id in ", s) }),
            (None, Some(_)) => Err(ParseGtfError { message: joined("missing gene_id in ", s) }),
            (Some(_), None) => Err(ParseGtfError { message: joined("missing transcript_id in ", s) }),
        }
    }

    pub fn gene(&self) -> (r: &str)
        ensures
            r@ == self.spec_gene(),
    {
        self.gene.as_str()
    }

    pub fn transcript(&self) -> (r: &str)
        ensures
            r@ == self.spec_transcript(),
    {
        self.transcript.as_str()
    }

    /// All attributes: the gene id, the transcript id, then the others.
    pub fn all(&self) -> (r: Vec<(&str, &str)>)
        ensures
            r@.len() == self.spec_others().len() + 2,
            r@[0].0@ == "gene_id"@ && r@[0].1@ == self.spec_gene(),
            r@[1].0@ == "transcript_id"@ && r@[1].1@ == self.spec_transcript(),
            forall|k: int|
                0 <= k < self.spec_others().len() ==> (#[trigger] r@[k + 2]).0@ == self.spec_others()[k].0
                    && r@[k + 2].1@ == self.spec_others()[k].1,
    {
        let mut res: Vec<(&str, &str)> = Vec::new();
        res.push(("gene_id", self.gene.as_str()));
        res.push(("transcript_id", self.transcript.as_str()));
        let mut i: usize = 0;
        while i < self.others.len()
            invariant
                0 <= i <= self.others@.len(),
                res@.len() == i + 2,
                res@[0].0@ == "gene_id"@ && res@[0].1@ == self.gene@,
                res@[1].0@ == "transcript_id"@ && res@[1].1@ == self.transcript@,
                forall|k: int|
                    0 <= k < i ==> (#[trigger] res@[k + 2]).0@ == self.others@[k].0@ && res@[k + 2].1@
                        == self.others@[k].1@,
            decreases self.others@.len() - i,
        {
            let pair = &self.others[i];
            res.push((pair.0.as_str(), pair.1.as_str()));
            i = i + 1;
        }
        res
    }

    /// The attributes of a transcript: its gene and its name, nothing else.
    pub fn from_transcript(transcript: &Transcript) -> (r: Self)
        ensures
            r.spec_gene() == transcript.spec_gene(),
            r.spec_transcript() == transcript.spec_name(),
            r.spec_others().len() == 0,
    {
        let name = owned(transcript.name());
        let gene = owned(transcript.gene());
        let r = Attributes { transcript: name, gene, others: Vec::new() };
        assert(r.spec_others() =~= Seq::<(Seq<char>, Seq<char>)>::empty());
        r
    }
}

proof fn lemma_fold_fails(items: Seq<Seq<u8>>, k: int, n: int)
    requires
        1 <= k <= n <= items.len(),
        attribute_fold(items, k) is None,
    ensures
        attribute_fold(items, n) is None,
    decreases n - k,
{
    if k < n {
        lemma_fold_fails(items, k, n - 1);
    }
}

} // verus!
