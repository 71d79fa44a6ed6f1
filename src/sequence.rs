//! Nucleotide sequences.
use vstd::prelude::*;
use crate::errors::AtgError;
use crate::text::str_eq;
use vstd::std_specs::iter::IteratorSpec;

verus! {

/// One base of a nucleotide sequence.
#[derive(Clone, Copy, Debug, PartialEq, Eq, Structural)]
pub enum Nucleotide {
    A,
    C,
    G,
    T,
    N,
}

/// The base that a character stands for, in either case.
pub open spec fn base_of_char(c: char) -> Option<Nucleotide> {
    if c == 'a' || c == 'A' {
        Some(Nucleotide::A)
    } else if c == 'c' || c == 'C' {
        Some(Nucleotide::C)
    } else if c == 'g' || c == 'G' {
        Some(Nucleotide::G)
    } else if c == 't' || c == 'T' {
        Some(Nucleotide::T)
    } else if c == 'n' || c == 'N' {
        Some(Nucleotide::N)
    } else {
        None
    }
}

/// The base that a byte of a reference file stands for, in either case.
pub open spec fn base_of_byte(b: u8) -> Option<Nucleotide> {
    if b == 0x41 || b == 0x61 {
        Some(Nucleotide::A)
    } else if b == 0x43 || b == 0x63 {
        Some(Nucleotide::C)
    } else if b == 0x47 || b == 0x67 {
        Some(Nucleotide::G)
    } else if b == 0x54 || b == 0x74 {
        Some(Nucleotide::T)
    } else if b == 0x4e || b == 0x6e {
        Some(Nucleotide::N)
    } else {
        None
    }
}

/// A line terminator: LF or CR.
pub open spec fn is_line_end(b: u8) -> bool {
    b == 0x0a || b == 0x0d
}

/// The bases of raw reference bytes with the line terminators removed, or
/// `None` if some other byte is not a base.
pub open spec fn decode_bytes(b: Seq<u8>) -> Option<Seq<Nucleotide>>
    decreases b.len(),
{
    if b.len() == 0 {
        Some(seq![])
    } else {
        match decode_bytes(b.drop_last()) {
            None => None,
            Some(s) => if is_line_end(b.last()) {
                Some(s)
            } else {
                match base_of_byte(b.last()) {
                    Some(n) => Some(s.push(n)),
                    None => None,
                }
            },
        }
    }
}

/// The bases of a text, or `None` if some character is not a base.
pub open spec fn decode_chars(s: Seq<char>) -> Option<Seq<Nucleotide>>
    decreases s.len(),
{
    if s.len() == 0 {
        Some(seq![])
    } else {
        match (decode_chars(s.drop_last()), base_of_char(s.last())) {
            (Some(x), Some(n)) => Some(x.push(n)),
            _ => None,
        }
    }
}

impl Nucleotide {
    /// The pairing base: A with T, C with G, N with N.
    pub open spec fn spec_complement(self) -> Nucleotide {
        match self {
            Nucleotide::A => Nucleotide::T,
            Nucleotide::C => Nucleotide::G,
            Nucleotide::G => Nucleotide::C,
            Nucleotide::T => Nucleotide::A,
            Nucleotide::N => Nucleotide::N,
        }
    }

    /// The upper-case letter of the base.
    pub open spec fn spec_char(self) -> char {
        match self {
            Nucleotide::A => 'A',
            Nucleotide::C => 'C',
            Nucleotide::G => 'G',
            Nucleotide::T => 'T',
            Nucleotide::N => 'N',
        }
    }

    /// The base of a letter, in either case.
    pub fn new(c: &char) -> (r: Result<Self, AtgError>)
        ensures
            match base_of_char(*c) {
                Some(n) => r == Ok::<Nucleotide, AtgError>(n),
                None => r is Err && r->Err_0.message@ == "Invalid nucleotide"@,
            },
    {
        let c = *c;
        if c == 'a' || c == 'A' {
            Ok(Nucleotide::A)
        } else if c == 'c' || c == 'C' {
            Ok(Nucleotide::C)
        } else if c == 'g' || c == 'G' {
            Ok(Nucleotide::G)
        } else if c == 't' || c == 'T' {
            Ok(Nucleotide::T)
        } else if c == 'n' || c == 'N' {
            Ok(Nucleotide::N)
        } else {
            Err(AtgError::new("Invalid nucleotide"))
        }
    }

    /// The base that a one-letter text names, in either case.
    pub fn from_str(s: &str) -> (r: Result<Self, AtgError>)
        ensures
            s@.len() == 1 && base_of_char(s@[0]) is Some ==> r == Ok::<Nucleotide, AtgError>(
                base_of_char(s@[0]).unwrap(),
            ),
            !(s@.len() == 1 && base_of_char(s@[0]) is Some) ==> r is Err,
    {
        proof {
            reveal_strlit("a");
            reveal_strlit("A");
            reveal_strlit("c");
            reveal_strlit("C");
            reveal_strlit("g");
            reveal_strlit("G");
            reveal_strlit("t");
            reveal_strlit("T");
            reveal_strlit("n");
            reveal_strlit("N");
        }
        if str_eq(s, "a") || str_eq(s, "A") {
            Ok(Nucleotide::A)
        } else if str_eq(s, "c") || str_eq(s, "C") {
            Ok(Nucleotide::C)
        } else if str_eq(s, "g") || str_eq(s, "G") {
            Ok(Nucleotide::G)
        } else if str_eq(s, "t") || str_eq(s, "T") {
            Ok(Nucleotide::T)
        } else if str_eq(s, "n") || str_eq(s, "N") {
            Ok(Nucleotide::N)
        } else {
            proof {
                if s@.len() == 1 && base_of_char(s@[0]) is Some {
                    let c = s@[0];
                    assert(s@ =~= seq![c]);
                    assert("a"@ =~= seq!['a']);
                    assert("A"@ =~= seq!['A']);
                    assert("c"@ =~= seq!['c']);
                    assert("C"@ =~= seq!['C']);
                    assert("g"@ =~= seq!['g']);
                    assert("G"@ =~= seq!['G']);
                    assert("t"@ =~= seq!['t']);
                    assert("T"@ =~= seq!['T']);
                    assert("n"@ =~= seq!['n']);
                    assert("N"@ =~= seq!['N']);
                }
            }
            Err(AtgError::new("Invalid nucleotide"))
        }
    }

    /// The base of a byte of a reference file; line terminators and other
    /// bytes give an error.
    pub fn from_byte(b: u8) -> (r: Result<Self, AtgError>)
        ensures
            match base_of_byte(b) {
                Some(n) => r == Ok::<Nucleotide, AtgError>(n),
                None => r is Err,
            },
    {
        if b == 0x41 || b == 0x61 {
            Ok(Nucleotide::A)
        } else if b == 0x43 || b == 0x63 {
            Ok(Nucleotide::C)
        } else if b == 0x47 || b == 0x67 {
            Ok(Nucleotide::G)
        } else if b == 0x54 || b == 0x74 {
            Ok(Nucleotide::T)
        } else if b == 0x4e || b == 0x6e {
            Ok(Nucleotide::N)
        } else if b == 0x0a || b == 0x0d {
            Err(AtgError::new("newline"))
        } else {
            Err(AtgError::new("invalid nucleotide"))
        }
    }

    pub fn complement(&self) -> (r: Self)
        ensures
            r == self.spec_complement(),
    {
        match self {
            Nucleotide::A => Nucleotide::T,
            Nucleotide::C => Nucleotide::G,
            Nucleotide::G => Nucleotide::C,
            Nucleotide::T => Nucleotide::A,
            Nucleotide::N => Nucleotide::N,
        }
    }

    /// The byte of the upper-case letter.
    pub fn to_bytes(self) -> (r: u8)
        ensures
            r == self.spec_char() as u8,
    {
        match self {
            Nucleotide::A => 0x41,
            Nucleotide::C => 0x43,
            Nucleotide::G => 0x47,
            Nucleotide::T => 0x54,
            Nucleotide::N => 0x4e,
        }
    }

    /// The upper-case letter.
    pub fn to_char(self) -> (r: char)
        ensures
            r == self.spec_char(),
    {
        match self {
            Nucleotide::A => 'A',
            Nucleotide::C => 'C',
            Nucleotide::G => 'G',
            Nucleotide::T => 'T',
            Nucleotide::N => 'N',
        }
    }
}

/// The complement of each base.
pub open spec fn complement_of(s: Seq<Nucleotide>) -> Seq<Nucleotide> {
    s.map_values(|n: Nucleotide| n.spec_complement())
}

/// The bases in reverse order.
pub open spec fn reverse_of(s: Seq<Nucleotide>) -> Seq<Nucleotide> {
    Seq::new(s.len(), |i: int| s[s.len() - 1 - i])
}

/// The reverse complement: the bases reversed, then complemented.
pub open spec fn reverse_complement_of(s: Seq<Nucleotide>) -> Seq<Nucleotide> {
    complement_of(reverse_of(s))
}

/// A sequence of nucleotides.
#[derive(Debug)]
pub struct Sequence {
    sequence: Vec<Nucleotide>,
}

impl View for Sequence {
    type V = Seq<Nucleotide>;

    closed spec fn view(&self) -> Seq<Nucleotide> {
        self.sequence@
    }
}

impl Sequence {
    pub fn new() -> (r: Self)
        ensures
            r@ == Seq::<Nucleotide>::empty(),
    {
        Sequence { sequence: Vec::new() }
    }

    pub fn with_capacity(capacity: usize) -> (r: Self)
        ensures
            r@ == Seq::<Nucleotide>::empty(),
    {
        Sequence { sequence: Vec::with_capacity(capacity) }
    }

    /// The bases of a text; fails on any character that is not a base.
    pub fn from_str(s: &str) -> (r: Result<Self, AtgError>)
        ensures
            match decode_chars(s@) {
                Some(x) => r is Ok && r->Ok_0@ == x,
                None => r is Err,
            },
    {
        let mut sequence: Vec<Nucleotide> = Vec::new();
        let mut it = s.chars();
        let ghost mut k: int = 0;
        loop
            invariant
                0 <= k <= s@.len(),
                it.remaining() == s@.subrange(k, s@.len() as int),
                decode_chars(s@.subrange(0, k)) == Some(sequence@),
            ensures
                decode_chars(s@) == Some(sequence@),
            decreases s@.len() - k,
        {
            match it.next() {
                Some(c) => {
                    proof {
                        assert(s@.subrange(0, k + 1).drop_last() =~= s@.subrange(0, k));
                        assert(s@.subrange(k, s@.len() as int)[0] == s@[k]);
                        assert(s@.subrange(k + 1, s@.len() as int) =~= s@.subrange(
                            k,
                            s@.len() as int,
                        ).drop_first());
                    }
                    let n = match Nucleotide::new(&c) {
                        Ok(n) => n,
                        Err(e) => {
                            proof {
                                lemma_decode_chars_prefix(s@, k + 1);
                            }
                            return Err(e);
                        },
                    };
                    sequence.push(n);
                    proof {
                        k = k + 1;
                    }
                },
                None => {
                    assert(s@.subrange(0, s@.len() as int) =~= s@);
                    break ;
                },
            }
        }
        Ok(Sequence { sequence })
    }

    /// The bases of raw reference bytes: line terminators are dropped and
    /// any other byte that is not a base is an error. `len` is a hint for
    /// the number of bases.
    pub fn from_raw_bytes(bytes: &[u8], len: usize) -> (r: Result<Self, AtgError>)
        ensures
            match decode_bytes(bytes@) {
                Some(x) => r is Ok && r->Ok_0@ == x,
                None => r is Err && r->Err_0.message@ == "Invalid nucleotide"@,
            },
    {
        let mut seq = Self::with_capacity(len);
        let mut i: usize = 0;
        while i < bytes.len()
            invariant
                0 <= i <= bytes@.len(),
                decode_bytes(bytes@.subrange(0, i as int)) == Some(seq@),
            decreases bytes@.len() - i,
        {
            let b = bytes[i];
            proof {
                assert(bytes@.subrange(0, i + 1).drop_last() =~= bytes@.subrange(0, i as int));
            }
            if b != 0x0a && b != 0x0d {
                match Nucleotide::from_byte(b) {
                    Ok(n) => {
                        seq.sequence.push(n);
                    },
                    Err(_) => {
                        proof {
                            lemma_decode_bytes_fails(bytes@, i as int + 1);
                        }
                        return Err(AtgError::new("Invalid nucleotide"));
                    },
                }
            }
            i = i + 1;
        }
        assert(bytes@.subrange(0, bytes@.len() as int) =~= bytes@);
        Ok(seq)
    }

    pub fn len(&self) -> (r: usize)
        ensures
            r == self@.len(),
    {
        self.sequence.len()
    }

    pub fn is_empty(&self) -> (r: bool)
        ensures
            r == (self@.len() == 0),
    {
        self.sequence.len() == 0
    }

    /// Appends the base of a letter; a line terminator or any other
    /// character that is not a base is an error.
    pub fn push_char(&mut self, c: &char) -> (r: Result<(), AtgError>)
        ensures
            match base_of_char(*c) {
                Some(n) => r is Ok && final(self)@ == old(self)@.push(n),
                None => r is Err && final(self)@ == old(self)@,
            },
    {
        let n = Nucleotide::new(c)?;
        self.sequence.push(n);
        Ok(())
    }

    pub fn push(&mut self, n: Nucleotide) -> (r: Result<(), AtgError>)
        ensures
            r is Ok,
            final(self)@ == old(self)@.push(n),
    {
        self.sequence.push(n);
        Ok(())
    }

    /// Appends the bases of `other`.
    pub fn append(&mut self, other: Sequence)
        ensures
            final(self)@ == old(self)@ + other@,
    {
        let mut o = other.into_inner();
        self.sequence.append(&mut o);
    }

    fn into_inner(self) -> (r: Vec<Nucleotide>)
        ensures
            r@ == self@,
    {
        self.sequence
    }

    /// Replaces each base by its complement.
    pub fn complement(&mut self)
        ensures
            final(self)@ == complement_of(old(self)@),
    {
        let ghost orig = self.sequence@;
        let mut i: usize = 0;
        while i < self.sequence.len()
            invariant
                0 <= i <= orig.len(),
                self.sequence@.len() == orig.len(),
                forall|k: int| 0 <= k < i ==> self.sequence@[k] == (#[trigger] orig[k]).spec_complement(),
                forall|k: int| i <= k < orig.len() ==> self.sequence@[k] == orig[k],
            decreases orig.len() - i,
        {
            let c = self.sequence[i].complement();
            self.sequence.set(i, c);
            i = i + 1;
        }
        assert(self.sequence@ =~= complement_of(orig));
    }

    /// Reverses the order of the bases.
    pub fn reverse(&mut self)
        ensures
            final(self)@ == reverse_of(old(self)@),
    {
        let ghost orig = self.sequence@;
        let n = self.sequence.len();
        let mut i: usize = 0;
        while i < n / 2
            invariant
                n == orig.len(),
                0 <= i <= n / 2,
                self.sequence@.len() == n,
                forall|k: int| 0 <= k < i ==> self.sequence@[k] == orig[n - 1 - k],
                forall|k: int| 0 <= k < i ==> self.sequence@[n - 1 - k] == orig[k],
                forall|k: int| i <= k < n - i ==> self.sequence@[k] == orig[k],
            decreases n / 2 - i,
        {
            let a = self.sequence[i];
            let b = self.sequence[n - 1 - i];
            self.sequence.set(i, b);
            self.sequence.set(n - 1 - i, a);
            i = i + 1;
        }
        assert(self.sequence@ =~= reverse_of(orig));
    }

    /// Reverses the bases, then complements them.
    pub fn reverse_complement(&mut self)
        ensures
            final(self)@ == reverse_complement_of(old(self)@),
    {
        self.reverse();
        self.complement();
    }

    /// The upper-case letters of the bases, as bytes.
    pub fn to_bytes(&self) -> (r: Vec<u8>)
        ensures
            r@ == self@.map_values(|n: Nucleotide| n.spec_char() as u8),
    {
        let mut r: Vec<u8> = Vec::new();
        let mut i: usize = 0;
        while i < self.sequence.len()
            invariant
                0 <= i <= self.sequence@.len(),
                r@ == self.sequence@.subrange(0, i as int).map_values(
                    |n: Nucleotide| n.spec_char() as u8,
                ),
            decreases self.sequence@.len() - i,
        {
            r.push(self.sequence[i].to_bytes());
            proof {
                assert(self.sequence@.subrange(0, i + 1).map_values(
                    |n: Nucleotide| n.spec_char() as u8,
                ) =~= self.sequence@.subrange(0, i as int).map_values(
                    |n: Nucleotide| n.spec_char() as u8,
                ).push(self.sequence@[i as int].spec_char() as u8));
            }
            i = i + 1;
        }
        assert(self.sequence@.subrange(0, self.sequence@.len() as int) =~= self.sequence@);
        r
    }

    /// The upper-case letters of the bases.
    pub fn to_string(&self) -> (r: String)
        ensures
            r@ == self@.map_values(|n: Nucleotide| n.spec_char()),
    {
        let mut r = String::new();
        let mut i: usize = 0;
        while i < self.sequence.len()
            invariant
                0 <= i <= self.sequence@.len(),
                r@ == self.sequence@.subrange(0, i as int).map_values(|n: Nucleotide| n.spec_char()),
            decreases self.sequence@.len() - i,
        {
            let letter = match self.sequence[i] {
                Nucleotide::A => "A",
                Nucleotide::C => "C",
                Nucleotide::G => "G",
                Nucleotide::T => "T",
                Nucleotide::N => "N",
            };
            proof {
                reveal_strlit("A");
                reveal_strlit("C");
                reveal_strlit("G");
                reveal_strlit("T");
                reveal_strlit("N");
                assert(self.sequence@.subrange(0, i + 1).map_values(|n: Nucleotide| n.spec_char())
                    =~= self.sequence@.subrange(0, i as int).map_values(
                    |n: Nucleotide| n.spec_char(),
                ).push(self.sequence@[i as int].spec_char()));
                assert(letter@ =~= seq![self.sequence@[i as int].spec_char()]);
            }
            r = r.concat(letter);
            i = i + 1;
        }
        assert(self.sequence@.subrange(0, self.sequence@.len() as int) =~= self.sequence@);
        r
    }
}

proof fn lemma_decode_chars_prefix(s: Seq<char>, k: int)
    requires
        0 <= k <= s.len(),
        decode_chars(s.subrange(0, k)) is None,
    ensures
        decode_chars(s) is None,
    decreases s.len(),
{
    if k < s.len() {
        assert(s.drop_last().subrange(0, k) =~= s.subrange(0, k));
        lemma_decode_chars_prefix(s.drop_last(), k);
    } else {
        assert(s.subrange(0, k) =~= s);
    }
}

proof fn lemma_decode_bytes_fails(b: Seq<u8>, i: int)
    requires
        0 < i <= b.len(),
        !is_line_end(b[i - 1]),
        base_of_byte(b[i - 1]) is None,
    ensures
        decode_bytes(b) is None,
    decreases b.len(),
{
    if i < b.len() {
        lemma_decode_bytes_fails(b.drop_last(), i);
    } else {
        assert(b.last() == b[i - 1]);
    }
}

/// Reversing twice, or taking the reverse complement twice, gives back the
/// sequence it started from.
pub proof fn lemma_reverse_complement_involution(s: Seq<Nucleotide>)
    ensures
        reverse_of(reverse_of(s)) == s,
        complement_of(complement_of(s)) == s,
        reverse_complement_of(reverse_complement_of(s)) == s,
{
    assert(reverse_of(reverse_of(s)) =~= s);
    assert(complement_of(complement_of(s)) =~= s);
    assert(reverse_complement_of(reverse_complement_of(s)) =~= s);
}

} // verus!
