use apple_nvram::Nvram;
use vstd::prelude::*;
use vstd::slice::slice_to_vec;

use crate::codec::{encode, encode_spec};
use crate::error::Error;
use crate::image::{
    active_generation, active_index, active_index_of, common_entries, common_get, common_insert,
    common_remove, common_vars, enumerates, escapes_ok, generation_of, header_name_lengths,
    header_name_lengths_of, headers_fit, prepare_for_write, section_sizes, section_sizes_of,
    selects_partition, serialize, system_entries, system_get, system_insert, system_remove,
    system_vars, unescape, unescaped,
};
use crate::reference::{
    assignment_spec, collect_all, lemma_collect_prefix_err, parse_assignment, parse_reference,
    part_text, reference_spec, token_views, Assignment, PartName, Reference, COLON, EQUALS,
};

verus! {

/// The variables of one collection of the active partition.
pub open spec fn section_vars(nv: Nvram, part: PartName) -> Map<Seq<u8>, Seq<u8>> {
    match part {
        PartName::Common => common_vars(nv),
        PartName::System => system_vars(nv),
    }
}

/// The printed line of a variable: `partition:key=value`, the stored value
/// unescaped by the container and then percent-escaped.
pub open spec fn line_spec(part: PartName, key: Seq<u8>, raw: Seq<u8>) -> Seq<u8> {
    part_text(part) + seq![COLON] + key + seq![EQUALS] + encode_spec(unescaped(raw))
}

/// The lines of a list of entries of one collection, in the list's order.
pub open spec fn lines_of(part: PartName, e: Seq<(Seq<u8>, Seq<u8>)>) -> Seq<Seq<u8>> {
    e.map_values(|p: (Seq<u8>, Seq<u8>)| line_spec(part, p.0, p.1))
}

/// Every stored value of the collection has complete container escapes.
pub open spec fn values_ok(m: Map<Seq<u8>, Seq<u8>>) -> bool {
    forall|k: Seq<u8>| #[trigger] m.contains_key(k) ==> escapes_ok(m[k])
}

/// What reading one `partition:name` token gives.
pub open spec fn read_one_spec(nv: Nvram, tok: Seq<u8>) -> Result<Seq<u8>, Error> {
    match reference_spec(tok) {
        Err(e) => Err(e),
        Ok((part, name)) => if !section_vars(nv, part).contains_key(name) {
            Err(Error::VariableNotFound)
        } else if !escapes_ok(section_vars(nv, part)[name]) {
            Err(Error::Parse)
        } else {
            Ok(line_spec(part, name, section_vars(nv, part)[name]))
        },
    }
}

/// Reading of single tokens against an image.
pub open spec fn reader(nv: Nvram) -> spec_fn(Seq<u8>) -> Result<Seq<u8>, Error> {
    |t: Seq<u8>| read_one_spec(nv, t)
}

/// Parsing of single `partition:name=value` tokens.
pub open spec fn assignment_parser() -> spec_fn(Seq<u8>) -> Result<
    (PartName, Seq<u8>, Seq<u8>),
    Error,
> {
    |t: Seq<u8>| assignment_spec(t)
}

/// Parsing of single `partition:name` tokens.
pub open spec fn reference_parser() -> spec_fn(Seq<u8>) -> Result<(PartName, Seq<u8>), Error> {
    |t: Seq<u8>| reference_spec(t)
}

/// A collection after the assignments to it, in order.
pub open spec fn assigned(
    m: Map<Seq<u8>, Seq<u8>>,
    part: PartName,
    es: Seq<(PartName, Seq<u8>, Seq<u8>)>,
) -> Map<Seq<u8>, Seq<u8>>
    decreases es.len(),
{
    if es.len() == 0 {
        m
    } else {
        let prev = assigned(m, part, es.drop_last());
        let e = es.last();
        if e.0 == part {
            prev.insert(e.1, e.2)
        } else {
            prev
        }
    }
}

/// A collection after the deletions from it, in order.
pub open spec fn deleted(
    m: Map<Seq<u8>, Seq<u8>>,
    part: PartName,
    rs: Seq<(PartName, Seq<u8>)>,
) -> Map<Seq<u8>, Seq<u8>>
    decreases rs.len(),
{
    if rs.len() == 0 {
        m
    } else {
        let prev = deleted(m, part, rs.drop_last());
        let r = rs.last();
        if r.0 == part {
            prev.remove(r.1)
        } else {
            prev
        }
    }
}

/// The byte views of a list of lines.
pub open spec fn line_views(ls: Seq<Vec<u8>>) -> Seq<Seq<u8>> {
    ls.map_values(|l: Vec<u8>| l@)
}

/// The views of a list of assignments.
pub open spec fn assignment_views(es: Seq<Assignment>) -> Seq<(PartName, Seq<u8>, Seq<u8>)> {
    es.map_values(|a: Assignment| a@)
}

/// The views of a list of references.
pub open spec fn reference_views(rs: Seq<Reference>) -> Seq<(PartName, Seq<u8>)> {
    rs.map_values(|r: Reference| r@)
}

fn part_name_bytes(part: PartName) -> (r: Vec<u8>)
    ensures
        r@ == part_text(part),
{
    let r = match part {
        PartName::Common => vec![0x63u8, 0x6f, 0x6d, 0x6d, 0x6f, 0x6e],
        PartName::System => vec![0x73u8, 0x79, 0x73, 0x74, 0x65, 0x6d],
    };
    assert(r@ =~= part_text(part));
    r
}

/// Whether a stored value's container escapes are all complete.
pub fn check_escapes(raw: &[u8]) -> (r: bool)
    ensures
        r == escapes_ok(raw@),
{
    let n = raw.len();
    let mut i: usize = 0;
    assert(raw@.subrange(0, n as int) =~= raw@);
    while i < n
        invariant
            n == raw@.len(),
            i <= n,
            escapes_ok(raw@) == escapes_ok(raw@.subrange(i as int, n as int)),
        decreases n - i,
    {
        let ghost s = raw@.subrange(i as int, n as int);
        if raw[i] != 0xff {
            assert(s.drop_first() =~= raw@.subrange(i + 1, n as int));
            i += 1;
        } else if n - i == 1 {
            return true;
        } else {
            if raw[i + 1] % 128 == 0 {
                return false;
            }
            assert(s.subrange(2, s.len() as int) =~= raw@.subrange(i + 2, n as int));
            i += 2;
        }
    }
    true
}

/// The printed line of a variable of `part` with the given key and stored
/// value; `Parse` where the stored value holds an incomplete escape.
pub fn format_line(part: PartName, key: &[u8], raw: &[u8]) -> (r: Result<Vec<u8>, Error>)
    ensures
        match r {
            Ok(l) => escapes_ok(raw@) && l@ == line_spec(part, key@, raw@),
            Err(e) => !escapes_ok(raw@) && e == Error::Parse,
        },
{
    if !check_escapes(raw) {
        return Err(Error::Parse);
    }
    let value = unescape(raw);
    let mut line = part_name_bytes(part);
    line.push(COLON);
    let mut k = slice_to_vec(key);
    line.append(&mut k);
    line.push(EQUALS);
    let mut text = encode(value.as_slice());
    line.append(&mut text);
    Ok(line)
}

/// Looks a variable up in one collection of the active partition.
pub fn lookup(nv: &mut Nvram, part: PartName, name: &[u8]) -> (r: Option<Vec<u8>>)
    requires
        selects_partition(*old(nv)),
    ensures
        *final(nv) == *old(nv),
        match r {
            Some(v) => section_vars(*old(nv), part).contains_key(name@) && section_vars(
                *old(nv),
                part,
            )[name@] == v@,
            None => !section_vars(*old(nv), part).contains_key(name@),
        },
{
    match part {
        PartName::Common => common_get(nv, name),
        PartName::System => system_get(nv, name),
    }
}

/// Stores a variable in one collection, replacing any of the same name.
pub fn store<'a>(nv: &mut Nvram<'a>, part: PartName, name: &'a [u8], value: Vec<u8>)
    requires
        selects_partition(*old(nv)),
    ensures
        active_index(*final(nv)) == active_index(*old(nv)),
        section_sizes(*final(nv)) == section_sizes(*old(nv)),
        header_name_lengths(*final(nv)) == header_name_lengths(*old(nv)),
        section_vars(*final(nv), part) == section_vars(*old(nv), part).insert(name@, value@),
        section_vars(*final(nv), other_part(part)) == section_vars(*old(nv), other_part(part)),
        active_generation(*final(nv)) == active_generation(*old(nv)),
{
    match part {
        PartName::Common => common_insert(nv, name, value),
        PartName::System => system_insert(nv, name, value),
    }
}

/// Removes a variable from one collection, if it is there.
pub fn discard(nv: &mut Nvram, part: PartName, name: &[u8])
    requires
        selects_partition(*old(nv)),
    ensures
        active_index(*final(nv)) == active_index(*old(nv)),
        section_sizes(*final(nv)) == section_sizes(*old(nv)),
        header_name_lengths(*final(nv)) == header_name_lengths(*old(nv)),
        section_vars(*final(nv), part) == section_vars(*old(nv), part).remove(name@),
        section_vars(*final(nv), other_part(part)) == section_vars(*old(nv), other_part(part)),
        active_generation(*final(nv)) == active_generation(*old(nv)),
{
    match part {
        PartName::Common => common_remove(nv, name),
        PartName::System => system_remove(nv, name),
    }
}

/// The collection that is not `part`.
pub open spec fn other_part(part: PartName) -> PartName {
    match part {
        PartName::Common => PartName::System,
        PartName::System => PartName::Common,
    }
}

/// The lines of the listed entries of one collection, in the list's order;
/// `Parse` where a stored value holds an incomplete escape.
fn format_entries(part: PartName, entries: &Vec<(Vec<u8>, Vec<u8>)>) -> (r: Result<
    Vec<Vec<u8>>,
    Error,
>)
    ensures
        ({
            let ev = entries@.map_values(|p: (Vec<u8>, Vec<u8>)| (p.0@, p.1@));
            match r {
                Ok(ls) => (forall|i: int| 0 <= i < ev.len() ==> escapes_ok(#[trigger] ev[i].1))
                    && line_views(ls@) == lines_of(part, ev),
                Err(e) => e == Error::Parse && exists|i: int|
                    0 <= i < ev.len() && !escapes_ok(#[trigger] ev[i].1),
            }
        }),
{
    let ghost ev = entries@.map_values(|p: (Vec<u8>, Vec<u8>)| (p.0@, p.1@));
    let mut out: Vec<Vec<u8>> = Vec::new();
    let mut i: usize = 0;
    while i < entries.len()
        invariant
            i <= entries@.len(),
            ev == entries@.map_values(|p: (Vec<u8>, Vec<u8>)| (p.0@, p.1@)),
            forall|j: int| 0 <= j < i ==> escapes_ok(#[trigger] ev[j].1),
            line_views(out@) =~= lines_of(part, ev.subrange(0, i as int)),
        decreases entries@.len() - i,
    {
        let entry = &entries[i];
        match format_line(part, entry.0.as_slice(), entry.1.as_slice()) {
            Ok(l) => {
                let ghost before = out@;
                assert(ev[i as int] == (entry.0@, entry.1@));
                out.push(l);
                assert(line_views(out@) =~= line_views(before).push(l@));
                assert(lines_of(part, ev.subrange(0, i + 1)) =~= lines_of(
                    part,
                    ev.subrange(0, i as int),
                ).push(line_spec(part, ev[i as int].0, ev[i as int].1)));
            },
            Err(e) => {
                assert(!escapes_ok(ev[i as int].1));
                return Err(e);
            },
        }
        i += 1;
    }
    assert(ev.subrange(0, i as int) =~= ev);
    Ok(out)
}

/// Whether the image's active index names one of its two partitions, as it
/// does for every image that the container parses.
pub fn selects_active_partition(nv: &Nvram) -> (r: bool)
    ensures
        r == selects_partition(*nv),
{
    active_index_of(nv) < 2
}

/// Whether the image can be prepared for writing and serialized: its active
/// index names a partition, the active generation number has a successor,
/// and every header fits its fields.
pub fn ready_for_write(nv: &mut Nvram) -> (r: bool)
    ensures
        *final(nv) == *old(nv),
        r == (selects_partition(*old(nv)) && active_generation(*old(nv)) < u32::MAX
            && headers_fit(*old(nv))),
{
    if !selects_active_partition(nv) {
        return false;
    }
    if generation_of(nv) == u32::MAX {
        return false;
    }
    let sizes = section_sizes_of(nv);
    let mut i: usize = 0;
    while i < sizes.len()
        invariant
            i <= sizes@.len(),
            *nv == *old(nv),
            selects_partition(*nv),
            active_generation(*nv) < u32::MAX,
            sizes@ == section_sizes(*nv),
            forall|j: int| 0 <= j < i ==> #[trigger] sizes@[j] < 4096,
        decreases sizes@.len() - i,
    {
        if sizes[i] >= 4096 {
            return false;
        }
        i += 1;
    }
    let lens = header_name_lengths_of(nv);
    let mut i: usize = 0;
    while i < lens.len()
        invariant
            i <= lens@.len(),
            *nv == *old(nv),
            selects_partition(*nv),
            active_generation(*nv) < u32::MAX,
            sizes@ == section_sizes(*nv),
            forall|j: int| 0 <= j < sizes@.len() ==> #[trigger] sizes@[j] < 4096,
            lens@ == header_name_lengths(*nv),
            forall|j: int| 0 <= j < i ==> #[trigger] lens@[j] <= 12,
        decreases lens@.len() - i,
    {
        if lens[i] > 12 {
            return false;
        }
        i += 1;
    }
    true
}

/// The lines of every variable of the active partition: those of `common`,
/// then those of `system`, each collection in its own order. `Parse` where a
/// stored value holds an incomplete escape. The image is left as it was.
pub fn read_all_vars(nv: &mut Nvram) -> (r: Result<Vec<Vec<u8>>, Error>)
    requires
        selects_partition(*old(nv)),
    ensures
        *final(nv) == *old(nv),
        match r {
            Ok(ls) => values_ok(common_vars(*old(nv))) && values_ok(system_vars(*old(nv)))
                && exists|ce: Seq<(Seq<u8>, Seq<u8>)>, se: Seq<(Seq<u8>, Seq<u8>)>|
                enumerates(ce, common_vars(*old(nv))) && enumerates(se, system_vars(*old(nv)))
                    && line_views(ls@) == lines_of(PartName::Common, ce) + lines_of(
                    PartName::System,
                    se,
                ),
            Err(e) => e == Error::Parse && !(values_ok(common_vars(*old(nv))) && values_ok(
                system_vars(*old(nv)),
            )),
        },
{
    let ghost cm = common_vars(*nv);
    let ghost sm = system_vars(*nv);
    let common = common_entries(nv);
    let system = system_entries(nv);
    let ghost ce = common@.map_values(|p: (Vec<u8>, Vec<u8>)| (p.0@, p.1@));
    let ghost se = system@.map_values(|p: (Vec<u8>, Vec<u8>)| (p.0@, p.1@));
    let mut lines = match format_entries(PartName::Common, &common) {
        Ok(ls) => ls,
        Err(e) => {
            proof {
                let i = choose|i: int| 0 <= i < ce.len() && !escapes_ok(#[trigger] ce[i].1);
                assert(cm.contains_key(ce[i].0));
            }
            return Err(e);
        },
    };
    let mut rest = match format_entries(PartName::System, &system) {
        Ok(ls) => ls,
        Err(e) => {
            proof {
                let i = choose|i: int| 0 <= i < se.len() && !escapes_ok(#[trigger] se[i].1);
                assert(sm.contains_key(se[i].0));
            }
            return Err(e);
        },
    };
    proof {
        assert forall|k: Seq<u8>| #[trigger] cm.contains_key(k) implies escapes_ok(cm[k]) by {
            let i = choose|i: int| 0 <= i < ce.len() && ce[i].0 == k;
            assert(escapes_ok(ce[i].1));
        }
        assert forall|k: Seq<u8>| #[trigger] sm.contains_key(k) implies escapes_ok(sm[k]) by {
            let i = choose|i: int| 0 <= i < se.len() && se[i].0 == k;
            assert(escapes_ok(se[i].1));
        }
    }
    let ghost first = lines@;
    lines.append(&mut rest);
    assert(line_views(lines@) =~= line_views(first) + lines_of(PartName::System, se));
    Ok(lines)
}

/// The line of each `partition:name` token, in order; the first token's
/// error where one fails. The image is left as it was.
pub fn read_named(nv: &mut Nvram, tokens: &Vec<Vec<u8>>) -> (r: Result<Vec<Vec<u8>>, Error>)
    requires
        selects_partition(*old(nv)),
    ensures
        *final(nv) == *old(nv),
        match r {
            Ok(ls) => collect_all(token_views(tokens@), reader(*old(nv))) == Ok::<
                Seq<Seq<u8>>,
                Error,
            >(line_views(ls@)),
            Err(e) => collect_all(token_views(tokens@), reader(*old(nv))) == Err::<
                Seq<Seq<u8>>,
                Error,
            >(e),
        },
{
    let ghost nv0 = *nv;
    let ghost tv = token_views(tokens@);
    let mut out: Vec<Vec<u8>> = Vec::new();
    let mut i: usize = 0;
    assert(tv.subrange(0, 0) =~= Seq::<Seq<u8>>::empty());
    assert(line_views(out@) =~= Seq::<Seq<u8>>::empty());
    while i < tokens.len()
        invariant
            i <= tokens@.len(),
            *nv == nv0,
            nv0 == *old(nv),
            selects_partition(nv0),
            tv == token_views(tokens@),
            collect_all(tv.subrange(0, i as int), reader(nv0)) == Ok::<Seq<Seq<u8>>, Error>(
                line_views(out@),
            ),
        decreases tokens@.len() - i,
    {
        let ghost sub = tv.subrange(0, i + 1);
        assert(sub.drop_last() =~= tv.subrange(0, i as int));
        assert(sub.last() == tokens@[i as int]@);
        let x = match parse_reference(tokens[i].as_slice()) {
            Ok(x) => x,
            Err(e) => {
                proof {
                    lemma_collect_prefix_err(tv, reader(nv0), i + 1, e);
                }
                return Err(e);
            },
        };
        let raw = match lookup(nv, x.part, x.name.as_slice()) {
            Some(raw) => raw,
            None => {
                proof {
                    lemma_collect_prefix_err(tv, reader(nv0), i + 1, Error::VariableNotFound);
                }
                return Err(Error::VariableNotFound);
            },
        };
        let l = match format_line(x.part, x.name.as_slice(), raw.as_slice()) {
            Ok(l) => l,
            Err(e) => {
                proof {
                    lemma_collect_prefix_err(tv, reader(nv0), i + 1, e);
                }
                return Err(e);
            },
        };
        let ghost before = out@;
        out.push(l);
        assert(line_views(out@) =~= line_views(before).push(l@));
        i += 1;
    }
    assert(tv.subrange(0, i as int) =~= tv);
    Ok(out)
}

/// The `read` operation: with tokens, the line of each named variable; with
/// none, the lines of every variable of the active partition.
pub fn read_vars(nv: &mut Nvram, tokens: &Vec<Vec<u8>>) -> (r: Result<Vec<Vec<u8>>, Error>)
    requires
        selects_partition(*old(nv)),
    ensures
        *final(nv) == *old(nv),
        tokens@.len() > 0 ==> match r {
            Ok(ls) => collect_all(token_views(tokens@), reader(*old(nv))) == Ok::<
                Seq<Seq<u8>>,
                Error,
            >(line_views(ls@)),
            Err(e) => collect_all(token_views(tokens@), reader(*old(nv))) == Err::<
                Seq<Seq<u8>>,
                Error,
            >(e),
        },
        tokens@.len() == 0 ==> match r {
            Ok(ls) => values_ok(common_vars(*old(nv))) && values_ok(system_vars(*old(nv)))
                && exists|ce: Seq<(Seq<u8>, Seq<u8>)>, se: Seq<(Seq<u8>, Seq<u8>)>|
                enumerates(ce, common_vars(*old(nv))) && enumerates(se, system_vars(*old(nv)))
                    && line_views(ls@) == lines_of(PartName::Common, ce) + lines_of(
                    PartName::System,
                    se,
                ),
            Err(e) => e == Error::Parse && !(values_ok(common_vars(*old(nv))) && values_ok(
                system_vars(*old(nv)),
            )),
        },
{
    if tokens.len() == 0 {
        read_all_vars(nv)
    } else {
        read_named(nv, tokens)
    }
}

/// Parses each `partition:name=value` token in order; the first token's
/// error where one fails.
pub fn parse_assignments(tokens: &Vec<Vec<u8>>) -> (r: Result<Vec<Assignment>, Error>)
    ensures
        match r {
            Ok(es) => collect_all(token_views(tokens@), assignment_parser()) == Ok::<
                Seq<(PartName, Seq<u8>, Seq<u8>)>,
                Error,
            >(assignment_views(es@)),
            Err(e) => collect_all(token_views(tokens@), assignment_parser()) == Err::<
                Seq<(PartName, Seq<u8>, Seq<u8>)>,
                Error,
            >(e),
        },
{
    let ghost tv = token_views(tokens@);
    let mut out: Vec<Assignment> = Vec::new();
    let mut i: usize = 0;
    assert(tv.subrange(0, 0) =~= Seq::<Seq<u8>>::empty());
    assert(assignment_views(out@) =~= Seq::<(PartName, Seq<u8>, Seq<u8>)>::empty());
    while i < tokens.len()
        invariant
            i <= tokens@.len(),
            tv == token_views(tokens@),
            collect_all(tv.subrange(0, i as int), assignment_parser()) == Ok::<
                Seq<(PartName, Seq<u8>, Seq<u8>)>,
                Error,
            >(assignment_views(out@)),
        decreases tokens@.len() - i,
    {
        let ghost sub = tv.subrange(0, i + 1);
        assert(sub.drop_last() =~= tv.subrange(0, i as int));
        assert(sub.last() == tokens@[i as int]@);
        match parse_assignment(tokens[i].as_slice()) {
            Ok(x) => {
                let ghost before = out@;
                out.push(x);
                assert(assignment_views(out@) =~= assignment_views(before).push(x@));
            },
            Err(e) => {
                proof {
                    lemma_collect_prefix_err(tv, assignment_parser(), i + 1, e);
                }
                return Err(e);
            },
        }
        i += 1;
    }
    assert(tv.subrange(0, i as int) =~= tv);
    Ok(out)
}

/// Parses each `partition:name` token in order; the first token's error
/// where one fails.
pub fn parse_references(tokens: &Vec<Vec<u8>>) -> (r: Result<Vec<Reference>, Error>)
    ensures
        match r {
            Ok(rs) => collect_all(token_views(tokens@), reference_parser()) == Ok::<
                Seq<(PartName, Seq<u8>)>,
                Error,
            >(reference_views(rs@)),
            Err(e) => collect_all(token_views(tokens@), reference_parser()) == Err::<
                Seq<(PartName, Seq<u8>)>,
                Error,
            >(e),
        },
{
    let ghost tv = token_views(tokens@);
    let mut out: Vec<Reference> = Vec::new();
    let mut i: usize = 0;
    assert(tv.subrange(0, 0) =~= Seq::<Seq<u8>>::empty());
    assert(reference_views(out@) =~= Seq::<(PartName, Seq<u8>)>::empty());
    while i < tokens.len()
        invariant
            i <= tokens@.len(),
            tv == token_views(tokens@),
            collect_all(tv.subrange(0, i as int), reference_parser()) == Ok::<
                Seq<(PartName, Seq<u8>)>,
                Error,
            >(reference_views(out@)),
        decreases tokens@.len() - i,
    {
        let ghost sub = tv.subrange(0, i + 1);
        assert(sub.drop_last() =~= tv.subrange(0, i as int));
        assert(sub.last() == tokens@[i as int]@);
        match parse_reference(tokens[i].as_slice()) {
            Ok(x) => {
                let ghost before = out@;
                out.push(x);
                assert(reference_views(out@) =~= reference_views(before).push(x@));
            },
            Err(e) => {
                proof {
                    lemma_collect_prefix_err(tv, reference_parser(), i + 1, e);
                }
                return Err(e);
            },
        }
        i += 1;
    }
    assert(tv.subrange(0, i as int) =~= tv);
    Ok(out)
}

/// The `write` operation: prepares the image for writing, stores each
/// assignment in order (a later one of the same name wins), and returns the
/// serialized image to be written back, even where the list is empty.
pub fn write_vars<'a>(nv: &mut Nvram<'a>, edits: &'a Vec<Assignment>) -> (r: Result<
    Vec<u8>,
    Error,
>)
    requires
        selects_partition(*old(nv)),
        active_generation(*old(nv)) < u32::MAX,
        headers_fit(*old(nv)),
    ensures
        common_vars(*final(nv)) == assigned(
            common_vars(*old(nv)),
            PartName::Common,
            assignment_views(edits@),
        ),
        system_vars(*final(nv)) == assigned(
            system_vars(*old(nv)),
            PartName::System,
            assignment_views(edits@),
        ),
        active_generation(*final(nv)) == active_generation(*old(nv)) + 1,
        match r {
            Ok(_) => true,
            Err(e) => e == Error::SectionTooBig,
        },
{
    let ghost cm = common_vars(*nv);
    let ghost sm = system_vars(*nv);
    let ghost g = active_generation(*nv);
    let ghost ev = assignment_views(edits@);
    prepare_for_write(nv);
    let mut i: usize = 0;
    while i < edits.len()
        invariant
            i <= edits@.len(),
            ev == assignment_views(edits@),
            common_vars(*nv) == assigned(cm, PartName::Common, ev.subrange(0, i as int)),
            system_vars(*nv) == assigned(sm, PartName::System, ev.subrange(0, i as int)),
            active_generation(*nv) == g + 1,
            selects_partition(*nv),
            headers_fit(*nv),
        decreases edits@.len() - i,
    {
        let e: &'a Assignment = &edits[i];
        let ghost sub = ev.subrange(0, i + 1);
        assert(sub.drop_last() =~= ev.subrange(0, i as int));
        assert(sub.last() == e@);
        store(nv, e.part, e.name.as_slice(), slice_to_vec(e.value.as_slice()));
        i += 1;
    }
    assert(ev.subrange(0, i as int) =~= ev);
    serialize(nv)
}

/// The `delete` operation: prepares the image for writing, removes each
/// referenced variable that is there (one that is not is no error), and
/// returns the serialized image to be written back, even where the list is
/// empty.
pub fn delete_vars(nv: &mut Nvram, refs: &Vec<Reference>) -> (r: Result<Vec<u8>, Error>)
    requires
        selects_partition(*old(nv)),
        active_generation(*old(nv)) < u32::MAX,
        headers_fit(*old(nv)),
    ensures
        common_vars(*final(nv)) == deleted(
            common_vars(*old(nv)),
            PartName::Common,
            reference_views(refs@),
        ),
        system_vars(*final(nv)) == deleted(
            system_vars(*old(nv)),
            PartName::System,
            reference_views(refs@),
        ),
        active_generation(*final(nv)) == active_generation(*old(nv)) + 1,
        match r {
            Ok(_) => true,
            Err(e) => e == Error::SectionTooBig,
        },
{
    let ghost cm = common_vars(*nv);
    let ghost sm = system_vars(*nv);
    let ghost g = active_generation(*nv);
    let ghost rv = reference_views(refs@);
    prepare_for_write(nv);
    let mut i: usize = 0;
    while i < refs.len()
        invariant
            i <= refs@.len(),
            rv == reference_views(refs@),
            common_vars(*nv) == deleted(cm, PartName::Common, rv.subrange(0, i as int)),
            system_vars(*nv) == deleted(sm, PartName::System, rv.subrange(0, i as int)),
            active_generation(*nv) == g + 1,
            selects_partition(*nv),
            headers_fit(*nv),
        decreases refs@.len() - i,
    {
        let x = &refs[i];
        let ghost sub = rv.subrange(0, i + 1);
        assert(sub.drop_last() =~= rv.subrange(0, i as int));
        assert(sub.last() == x@);
        discard(nv, x.part, x.name.as_slice());
        i += 1;
    }
    assert(rv.subrange(0, i as int) =~= rv);
    serialize(nv)
}

/// Last write wins: where an assignment is the last one to its name in its
/// collection, the collection afterwards holds that assignment's value
/// under that name.
pub proof fn lemma_last_write_wins(
    m: Map<Seq<u8>, Seq<u8>>,
    part: PartName,
    es: Seq<(PartName, Seq<u8>, Seq<u8>)>,
    i: int,
)
    requires
        0 <= i < es.len(),
        es[i].0 == part,
        forall|j: int| i < j < es.len() ==> !(es[j].0 == part && es[j].1 == es[i].1),
    ensures
        assigned(m, part, es).contains_key(es[i].1),
        assigned(m, part, es)[es[i].1] == es[i].2,
    decreases es.len(),
{
    if i < es.len() - 1 {
        let pre = es.drop_last();
        assert(forall|j: int| 0 <= j < pre.len() ==> pre[j] == es[j]);
        lemma_last_write_wins(m, part, pre, i);
        assert(!(es.last().0 == part && es.last().1 == es[i].1));
    }
}

/// Deleting names that a collection does not hold leaves it as it was.
pub proof fn lemma_delete_absent(
    m: Map<Seq<u8>, Seq<u8>>,
    part: PartName,
    rs: Seq<(PartName, Seq<u8>)>,
)
    requires
        forall|j: int| 0 <= j < rs.len() && rs[j].0 == part ==> !m.contains_key(#[trigger] rs[j].1),
    ensures
        deleted(m, part, rs) == m,
    decreases rs.len(),
{
    if rs.len() > 0 {
        let pre = rs.drop_last();
        assert(forall|j: int| 0 <= j < pre.len() ==> pre[j] == rs[j]);
        lemma_delete_absent(m, part, pre);
        if rs.last().0 == part {
            assert(!m.contains_key(rs[rs.len() - 1].1));
            assert(m.remove(rs.last().1) =~= m);
        }
    }
}

/// An empty batch of assignments or deletions leaves every collection as it
/// was; the image is still serialized for writing back.
pub proof fn lemma_empty_batch(m: Map<Seq<u8>, Seq<u8>>, part: PartName)
    ensures
        assigned(m, part, Seq::empty()) == m,
        deleted(m, part, Seq::empty()) == m,
{
}

} // verus!
