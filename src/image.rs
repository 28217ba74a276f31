use std::borrow::Cow;

use apple_nvram::{Nvram, UnescapeVal, Variable};
use vstd::prelude::*;

use crate::error::Error;

verus! {

#[verifier::external_type_specification]
#[verifier::external_body]
pub struct ExNvram<'a>(Nvram<'a>);

/// The variables of the active partition's `common` collection, by name.
pub uninterp spec fn common_vars(nv: Nvram) -> Map<Seq<u8>, Seq<u8>>;

/// The variables of the active partition's `system` collection, by name.
pub uninterp spec fn system_vars(nv: Nvram) -> Map<Seq<u8>, Seq<u8>>;

/// The generation number of the active partition.
pub uninterp spec fn active_generation(nv: Nvram) -> u32;

/// The index of the active partition.
pub uninterp spec fn active_index(nv: Nvram) -> usize;

/// The declared sizes, in 16-byte units, of the sections of both partitions.
pub uninterp spec fn section_sizes(nv: Nvram) -> Seq<u16>;

/// The name lengths of the partition and section headers of both partitions.
pub uninterp spec fn header_name_lengths(nv: Nvram) -> Seq<usize>;

/// The active index names one of the two partitions.
pub open spec fn selects_partition(nv: Nvram) -> bool {
    active_index(nv) < 2
}

/// Every header serializes without overflow: a section's byte size fits 16
/// bits and a name fits its 12-byte field.
pub open spec fn headers_fit(nv: Nvram) -> bool {
    &&& forall|i: int| 0 <= i < section_sizes(nv).len() ==> #[trigger] section_sizes(nv)[i] < 4096
    &&& forall|i: int| 0 <= i < header_name_lengths(nv).len() ==> #[trigger] header_name_lengths(nv)[i] <= 12
}

/// A stored value with the container's run-length escapes expanded.
pub uninterp spec fn unescaped(raw: Seq<u8>) -> Seq<u8>;

/// The container's escapes are all complete: each `0xff` that starts an
/// escape is followed by a count whose low seven bits are not zero (a
/// trailing `0xff` ends the value).
pub open spec fn escapes_ok(s: Seq<u8>) -> bool
    decreases s.len(),
{
    if s.len() == 0 {
        true
    } else if s[0] != 0xff {
        escapes_ok(s.drop_first())
    } else if s.len() == 1 {
        true
    } else {
        s[1] % 128 != 0 && escapes_ok(s.subrange(2, s.len() as int))
    }
}

/// `e` lists the entries of `m`, each once, in some order.
pub open spec fn enumerates(e: Seq<(Seq<u8>, Seq<u8>)>, m: Map<Seq<u8>, Seq<u8>>) -> bool {
    &&& forall|i: int| 0 <= i < e.len() ==> #[trigger] m.contains_key(e[i].0) && m[e[i].0] == e[i].1
    &&& forall|k: Seq<u8>| #[trigger] m.contains_key(k) ==> exists|i: int| 0 <= i < e.len() && e[i].0 == k
    &&& forall|i: int, j: int| 0 <= i < j < e.len() ==> e[i].0 != e[j].0
}

/// Relies on the `active` field of `Nvram`.
#[verifier::external_body]
pub(crate) fn active_index_of(nv: &Nvram) -> (r: usize)
    ensures
        r == active_index(*nv),
{
    nv.active
}

/// Relies on the `size` fields of the section headers of both partitions.
#[verifier::external_body]
pub(crate) fn section_sizes_of(nv: &Nvram) -> (r: Vec<u16>)
    ensures
        r@ == section_sizes(*nv),
{
    nv.partitions.iter().flat_map(|p| [p.common.header.size, p.system.header.size]).collect()
}

/// Relies on the `name` fields of the partition and section headers.
#[verifier::external_body]
pub(crate) fn header_name_lengths_of(nv: &Nvram) -> (r: Vec<usize>)
    ensures
        r@ == header_name_lengths(*nv),
{
    nv.partitions
        .iter()
        .flat_map(|p| [p.header.name.len(), p.common.header.name.len(), p.system.header.name.len()])
        .collect()
}

/// Relies on `Nvram::active_part_mut` and the partition's `generation` field:
/// reads the active generation.
#[verifier::external_body]
pub(crate) fn generation_of(nv: &mut Nvram) -> (r: u32)
    requires
        selects_partition(*old(nv)),
    ensures
        r == active_generation(*old(nv)),
        *final(nv) == *old(nv),
{
    nv.active_part_mut().generation
}

/// Relies on `Nvram::prepare_for_write`: the active partition is copied over
/// the inactive one, whose generation becomes one more, and which becomes
/// active. Its variables and headers are those of the partition it was
/// copied from. It panics on an active index past the two partitions and
/// on a generation that has no successor, which `requires` leaves out.
#[verifier::external_body]
pub(crate) fn prepare_for_write(nv: &mut Nvram)
    requires
        selects_partition(*old(nv)),
        active_generation(*old(nv)) < u32::MAX,
    ensures
        common_vars(*final(nv)) == common_vars(*old(nv)),
        system_vars(*final(nv)) == system_vars(*old(nv)),
        active_generation(*final(nv)) == active_generation(*old(nv)) + 1,
        active_index(*final(nv)) == 1 - active_index(*old(nv)),
        headers_fit(*old(nv)) ==> headers_fit(*final(nv)),
{
    nv.prepare_for_write()
}

/// Relies on `Nvram::serialize`, whose only error is `SectionTooBig`. It
/// panics on a header that does not fit, which `requires` leaves out.
#[verifier::external_body]
pub(crate) fn serialize(nv: &Nvram) -> (r: Result<Vec<u8>, Error>)
    requires
        headers_fit(*nv),
    ensures
        match r {
            Ok(_) => true,
            Err(e) => e == Error::SectionTooBig,
        },
{
    match nv.serialize() {
        Ok(v) => Ok(v),
        Err(apple_nvram::Error::ParseError) => Err(Error::Parse),
        Err(apple_nvram::Error::SectionTooBig) => Err(Error::SectionTooBig),
    }
}

/// Relies on `UnescapeVal`: bytes other than `0xff` pass through unchanged.
/// It panics on an escape whose count is zero, which `requires` leaves out.
#[verifier::external_body]
pub(crate) fn unescape(raw: &[u8]) -> (r: Vec<u8>)
    requires
        escapes_ok(raw@),
    ensures
        r@ == unescaped(raw@),
        (forall|i: int| 0 <= i < raw@.len() ==> raw@[i] != 0xff) ==> r@ == raw@,
{
    UnescapeVal::new(raw.iter().copied()).collect()
}

/// Relies on `HashMap::get` over the active `common` collection.
#[verifier::external_body]
pub(crate) fn common_get(nv: &mut Nvram, key: &[u8]) -> (r: Option<Vec<u8>>)
    requires
        selects_partition(*old(nv)),
    ensures
        *final(nv) == *old(nv),
        match r {
            Some(v) => common_vars(*old(nv)).contains_key(key@) && common_vars(*old(nv))[key@]
                == v@,
            None => !common_vars(*old(nv)).contains_key(key@),
        },
{
    nv.active_part_mut().common.values.get(key).map(|v| v.value.to_vec())
}

/// Relies on `HashMap::get` over the active `system` collection.
#[verifier::external_body]
pub(crate) fn system_get(nv: &mut Nvram, key: &[u8]) -> (r: Option<Vec<u8>>)
    requires
        selects_partition(*old(nv)),
    ensures
        *final(nv) == *old(nv),
        match r {
            Some(v) => system_vars(*old(nv)).contains_key(key@) && system_vars(*old(nv))[key@]
                == v@,
            None => !system_vars(*old(nv)).contains_key(key@),
        },
{
    nv.active_part_mut().system.values.get(key).map(|v| v.value.to_vec())
}

/// Relies on `HashMap::insert` over the active `common` collection: the
/// variable replaces any of the same name.
#[verifier::external_body]
pub(crate) fn common_insert<'a>(nv: &mut Nvram<'a>, key: &'a [u8], value: Vec<u8>)
    requires
        selects_partition(*old(nv)),
    ensures
        active_index(*final(nv)) == active_index(*old(nv)),
        section_sizes(*final(nv)) == section_sizes(*old(nv)),
        header_name_lengths(*final(nv)) == header_name_lengths(*old(nv)),
        common_vars(*final(nv)) == common_vars(*old(nv)).insert(key@, value@),
        system_vars(*final(nv)) == system_vars(*old(nv)),
        active_generation(*final(nv)) == active_generation(*old(nv)),
{
    nv.active_part_mut().common.values.insert(key, Variable { key, value: Cow::Owned(value) });
}

/// Relies on `HashMap::insert` over the active `system` collection: the
/// variable replaces any of the same name.
#[verifier::external_body]
pub(crate) fn system_insert<'a>(nv: &mut Nvram<'a>, key: &'a [u8], value: Vec<u8>)
    requires
        selects_partition(*old(nv)),
    ensures
        active_index(*final(nv)) == active_index(*old(nv)),
        section_sizes(*final(nv)) == section_sizes(*old(nv)),
        header_name_lengths(*final(nv)) == header_name_lengths(*old(nv)),
        system_vars(*final(nv)) == system_vars(*old(nv)).insert(key@, value@),
        common_vars(*final(nv)) == common_vars(*old(nv)),
        active_generation(*final(nv)) == active_generation(*old(nv)),
{
    nv.active_part_mut().system.values.insert(key, Variable { key, value: Cow::Owned(value) });
}

/// Relies on `HashMap::remove` over the active `common` collection.
#[verifier::external_body]
pub(crate) fn common_remove(nv: &mut Nvram, key: &[u8])
    requires
        selects_partition(*old(nv)),
    ensures
        active_index(*final(nv)) == active_index(*old(nv)),
        section_sizes(*final(nv)) == section_sizes(*old(nv)),
        header_name_lengths(*final(nv)) == header_name_lengths(*old(nv)),
        common_vars(*final(nv)) == common_vars(*old(nv)).remove(key@),
        system_vars(*final(nv)) == system_vars(*old(nv)),
        active_generation(*final(nv)) == active_generation(*old(nv)),
{
    nv.active_part_mut().common.values.remove(key);
}

/// Relies on `HashMap::remove` over the active `system` collection.
#[verifier::external_body]
pub(crate) fn system_remove(nv: &mut Nvram, key: &[u8])
    requires
        selects_partition(*old(nv)),
    ensures
        active_index(*final(nv)) == active_index(*old(nv)),
        section_sizes(*final(nv)) == section_sizes(*old(nv)),
        header_name_lengths(*final(nv)) == header_name_lengths(*old(nv)),
        system_vars(*final(nv)) == system_vars(*old(nv)).remove(key@),
        common_vars(*final(nv)) == common_vars(*old(nv)),
        active_generation(*final(nv)) == active_generation(*old(nv)),
{
    nv.active_part_mut().system.values.remove(key);
}

/// Relies on `HashMap::iter` over the active `common` collection: every
/// entry once, in the map's own order.
#[verifier::external_body]
pub(crate) fn common_entries(nv: &mut Nvram) -> (r: Vec<(Vec<u8>, Vec<u8>)>)
    requires
        selects_partition(*old(nv)),
    ensures
        *final(nv) == *old(nv),
        enumerates(r@.map_values(|p: (Vec<u8>, Vec<u8>)| (p.0@, p.1@)), common_vars(*old(nv))),
{
    nv.active_part_mut().common.values.iter().map(|(k, v)| (k.to_vec(), v.value.to_vec())).collect()
}

/// Relies on `HashMap::iter` over the active `system` collection: every
/// entry once, in the map's own order.
#[verifier::external_body]
pub(crate) fn system_entries(nv: &mut Nvram) -> (r: Vec<(Vec<u8>, Vec<u8>)>)
    requires
        selects_partition(*old(nv)),
    ensures
        *final(nv) == *old(nv),
        enumerates(r@.map_values(|p: (Vec<u8>, Vec<u8>)| (p.0@, p.1@)), system_vars(*old(nv))),
{
    nv.active_part_mut().system.values.iter().map(|(k, v)| (k.to_vec(), v.value.to_vec())).collect()
}

} // verus!
