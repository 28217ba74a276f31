use vstd::prelude::*;
use vstd::slice::{slice_subrange, slice_to_vec};

use crate::codec::{decode, decode_spec};
use crate::error::Error;

verus! {

/// The byte `:` between partition and variable name.
pub const COLON: u8 = 0x3a;

/// The byte `=` between a variable reference and its value.
pub const EQUALS: u8 = 0x3d;

/// One of the two variable collections of a partition.
#[derive(Debug, Clone, Copy, PartialEq, Eq, Structural)]
pub enum PartName {
    Common,
    System,
}

/// `common`
pub open spec fn common_text() -> Seq<u8> {
    seq![0x63u8, 0x6f, 0x6d, 0x6d, 0x6f, 0x6e]
}

/// `system`
pub open spec fn system_text() -> Seq<u8> {
    seq![0x73u8, 0x79, 0x73, 0x74, 0x65, 0x6d]
}

/// The name under which a collection is written.
pub open spec fn part_text(p: PartName) -> Seq<u8> {
    match p {
        PartName::Common => common_text(),
        PartName::System => system_text(),
    }
}

/// The collection a partition name denotes, if any.
pub open spec fn partition_of(t: Seq<u8>) -> Option<PartName> {
    if t == common_text() {
        Some(PartName::Common)
    } else if t == system_text() {
        Some(PartName::System)
    } else {
        None
    }
}

/// `i` is the position of the first `d` in `s`.
pub open spec fn is_first(s: Seq<u8>, d: u8, i: int) -> bool {
    0 <= i < s.len() && s[i] == d && forall|j: int| 0 <= j < i ==> s[j] != d
}

/// `s` split around its first `d`, or `None` where it holds no `d`.
pub open spec fn split_first(s: Seq<u8>, d: u8) -> Option<(Seq<u8>, Seq<u8>)> {
    if exists|i: int| is_first(s, d, i) {
        let i = choose|i: int| is_first(s, d, i);
        Some((s.subrange(0, i), s.subrange(i + 1, s.len() as int)))
    } else {
        None
    }
}

/// A `partition:name` token read as a collection and a variable name.
pub open spec fn reference_spec(tok: Seq<u8>) -> Result<(PartName, Seq<u8>), Error> {
    match split_first(tok, COLON) {
        None => Err(Error::MissingPartitionName),
        Some((p, n)) => match partition_of(p) {
            None => Err(Error::UnknownPartition),
            Some(part) => Ok((part, n)),
        },
    }
}

/// A `partition:name=value` token split into reference text and value text.
pub open spec fn assignment_text_spec(tok: Seq<u8>) -> Result<(Seq<u8>, Seq<u8>), Error> {
    match split_first(tok, EQUALS) {
        None => Err(Error::MissingValue),
        Some(kv) => Ok(kv),
    }
}

/// A `partition:name=value` token read as collection, name and decoded value.
pub open spec fn assignment_spec(tok: Seq<u8>) -> Result<(PartName, Seq<u8>, Seq<u8>), Error> {
    match assignment_text_spec(tok) {
        Err(e) => Err(e),
        Ok((k, v)) => match reference_spec(k) {
            Err(e) => Err(e),
            Ok((part, name)) => match decode_spec(v) {
                None => Err(Error::InvalidHex),
                Some(value) => Ok((part, name, value)),
            },
        },
    }
}

/// `f` applied to each token in order; the first error if any.
pub open spec fn collect_all<A>(toks: Seq<Seq<u8>>, f: spec_fn(Seq<u8>) -> Result<A, Error>) -> Result<
    Seq<A>,
    Error,
>
    decreases toks.len(),
{
    if toks.len() == 0 {
        Ok(Seq::empty())
    } else {
        match collect_all(toks.drop_last(), f) {
            Err(e) => Err(e),
            Ok(xs) => match f(toks.last()) {
                Err(e) => Err(e),
                Ok(x) => Ok(xs.push(x)),
            },
        }
    }
}

/// Once a prefix of the tokens fails, all of them fail with that error.
pub proof fn lemma_collect_prefix_err<A>(
    toks: Seq<Seq<u8>>,
    f: spec_fn(Seq<u8>) -> Result<A, Error>,
    k: int,
    e: Error,
)
    requires
        0 <= k <= toks.len(),
        collect_all(toks.subrange(0, k), f) == Err::<Seq<A>, Error>(e),
    ensures
        collect_all(toks, f) == Err::<Seq<A>, Error>(e),
    decreases toks.len() - k,
{
    if k < toks.len() {
        assert(toks.subrange(0, k + 1).drop_last() =~= toks.subrange(0, k));
        lemma_collect_prefix_err(toks, f, k + 1, e);
    } else {
        assert(toks.subrange(0, k) =~= toks);
    }
}

/// The byte contents of each token.
pub open spec fn token_views(tokens: Seq<Vec<u8>>) -> Seq<Seq<u8>> {
    tokens.map_values(|t: Vec<u8>| t@)
}

/// A variable of one collection, named by a `partition:name` token.
#[derive(Debug)]
pub struct Reference {
    pub part: PartName,
    pub name: Vec<u8>,
}

impl View for Reference {
    type V = (PartName, Seq<u8>);

    open spec fn view(&self) -> (PartName, Seq<u8>) {
        (self.part, self.name@)
    }
}

/// A variable of one collection and the bytes to store in it, from a
/// `partition:name=value` token.
#[derive(Debug)]
pub struct Assignment {
    pub part: PartName,
    pub name: Vec<u8>,
    pub value: Vec<u8>,
}

impl View for Assignment {
    type V = (PartName, Seq<u8>, Seq<u8>);

    open spec fn view(&self) -> (PartName, Seq<u8>, Seq<u8>) {
        (self.part, self.name@, self.value@)
    }
}

/// The position of the first `d` in `s`, if any.
pub fn find_byte(s: &[u8], d: u8) -> (r: Option<usize>)
    ensures
        match r {
            Some(i) => is_first(s@, d, i as int),
            None => forall|j: int| 0 <= j < s@.len() ==> s@[j] != d,
        },
{
    let mut i: usize = 0;
    while i < s.len()
        invariant
            i <= s@.len(),
            forall|j: int| 0 <= j < i ==> s@[j] != d,
        decreases s@.len() - i,
    {
        if s[i] == d {
            return Some(i);
        }
        i += 1;
    }
    None
}

proof fn lemma_split_first(s: Seq<u8>, d: u8, i: int)
    requires
        is_first(s, d, i),
    ensures
        split_first(s, d) == Some((s.subrange(0, i), s.subrange(i + 1, s.len() as int))),
{
    let k = choose|k: int| is_first(s, d, k);
    if k < i {
        assert(s[k] != d);
    } else if i < k {
        assert(s[i] != d);
    }
}

/// Splits `s` around the first occurrence of `d`.
pub fn split_once(s: &[u8], d: u8) -> (r: Option<(Vec<u8>, Vec<u8>)>)
    ensures
        match r {
            Some((a, b)) => split_first(s@, d) == Some((a@, b@)),
            None => split_first(s@, d) is None,
        },
{
    match find_byte(s, d) {
        Some(i) => {
            proof {
                lemma_split_first(s@, d, i as int);
            }
            let n = s.len();
            assert(i < n);
            let a = slice_to_vec(slice_subrange(s, 0, i));
            let b = slice_to_vec(slice_subrange(s, i + 1, n));
            Some((a, b))
        },
        None => None,
    }
}

/// Resolves a partition name: `common` or `system`, else `UnknownPartition`.
pub fn resolve_partition(name: &[u8]) -> (r: Result<PartName, Error>)
    ensures
        match r {
            Ok(p) => partition_of(name@) == Some(p),
            Err(e) => partition_of(name@) is None && e == Error::UnknownPartition,
        },
{
    if name.len() == 6 && name[0] == 0x63 && name[1] == 0x6f && name[2] == 0x6d && name[3] == 0x6d
        && name[4] == 0x6f && name[5] == 0x6e {
        assert(name@ =~= common_text());
        Ok(PartName::Common)
    } else if name.len() == 6 && name[0] == 0x73 && name[1] == 0x79 && name[2] == 0x73 && name[3]
        == 0x74 && name[4] == 0x65 && name[5] == 0x6d {
        assert(name@ =~= system_text());
        Ok(PartName::System)
    } else {
        assert(name@ != common_text()) by {
            if name@ == common_text() {
                assert(name@[0] == 0x63 && name@[5] == 0x6e);
            }
        }
        assert(name@ != system_text()) by {
            if name@ == system_text() {
                assert(name@[0] == 0x73 && name@[5] == 0x6d);
            }
        }
        Err(Error::UnknownPartition)
    }
}

/// Parses a `partition:name` token.
pub fn parse_reference(tok: &[u8]) -> (r: Result<Reference, Error>)
    ensures
        match r {
            Ok(x) => reference_spec(tok@) == Ok::<(PartName, Seq<u8>), Error>(x@),
            Err(e) => reference_spec(tok@) == Err::<(PartName, Seq<u8>), Error>(e),
        },
{
    match split_once(tok, COLON) {
        None => Err(Error::MissingPartitionName),
        Some((p, name)) => {
            let part = resolve_partition(p.as_slice())?;
            Ok(Reference { part, name })
        },
    }
}

/// Splits a `partition:name=value` token at its first `=` into the reference
/// text and the (still escaped) value text.
pub fn split_assignment(tok: &[u8]) -> (r: Result<(Vec<u8>, Vec<u8>), Error>)
    ensures
        match r {
            Ok((k, v)) => assignment_text_spec(tok@) == Ok::<(Seq<u8>, Seq<u8>), Error>((k@, v@)),
            Err(e) => assignment_text_spec(tok@) == Err::<(Seq<u8>, Seq<u8>), Error>(e),
        },
{
    match split_once(tok, EQUALS) {
        None => Err(Error::MissingValue),
        Some(kv) => Ok(kv),
    }
}

/// Parses a `partition:name=value` token and decodes its value.
pub fn parse_assignment(tok: &[u8]) -> (r: Result<Assignment, Error>)
    ensures
        match r {
            Ok(x) => assignment_spec(tok@) == Ok::<(PartName, Seq<u8>, Seq<u8>), Error>(x@),
            Err(e) => assignment_spec(tok@) == Err::<(PartName, Seq<u8>, Seq<u8>), Error>(e),
        },
{
    let (key, text) = split_assignment(tok)?;
    let x = parse_reference(key.as_slice())?;
    let value = decode(text.as_slice())?;
    Ok(Assignment { part: x.part, name: x.name, value })
}

} // verus!
