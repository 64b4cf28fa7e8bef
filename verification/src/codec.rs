//! Schema-versioned byte encoding of registry records.
//!
//! A record starts with a version byte.  The current version carries
//! every field; a legacy record lacks the newer ones, and decoding fills
//! them with their documented defaults — validity true, website absent —
//! rather than refusing the record.  A name whose stored bytes are not
//! valid UTF-8 degrades to an absent name the same way.

use crate::registry::opt_bytes;
use crate::types::ProxyType;
use crate::MAX_FIELD_BYTES;
use vstd::bytes::{
    lemma_auto_spec_u64_to_from_le_bytes, spec_u128_from_le_bytes, spec_u64_from_le_bytes,
    spec_u64_to_le_bytes, u128_from_le_bytes, u64_from_le_bytes, u64_to_le_bytes,
};
use vstd::prelude::*;
use vstd::slice::{slice_subrange, slice_to_vec};
use vstd::string::StringSliceAdditionalSpecFns;
use vstd::utf8::{encode_utf8, valid_utf8};

verus! {

/// The version byte of a record missing the newer fields.
pub const RECORD_VERSION_LEGACY: u8 = 0;

/// The version byte written today.
pub const RECORD_VERSION_CURRENT: u8 = 1;

/// The durable form of one registry row.
pub struct UnitRecord {
    pub proxy_id: u64,
    pub proxy_type: ProxyType,
    pub valid: bool,
    pub project_name: Option<String>,
}

/// The durable form of one project row.
pub struct ProjectRecord {
    pub website: Option<String>,
}

/// The byte a query mechanism is stored as.
pub open spec fn pt_byte(t: ProxyType) -> u8 {
    match t {
        ProxyType::Direct => 0,
        ProxyType::GroupedRoot => 1,
    }
}

/// The mechanism a stored byte reads back as; unknown bytes fall back to
/// `Direct`, degrading rather than refusing.
pub open spec fn byte_pt(b: u8) -> ProxyType {
    if b == 1 {
        ProxyType::GroupedRoot
    } else {
        ProxyType::Direct
    }
}

/// The encoding of an optional name: absent is one zero byte; present is
/// a one byte, the length, then the bytes.
pub open spec fn enc_name(name: Option<Seq<u8>>) -> Seq<u8> {
    match name {
        None => seq![0u8],
        Some(nb) => seq![1u8, nb.len() as u8] + nb,
    }
}

/// The decoding of an optional name field filling the rest of a record:
/// `None` when malformed, else the name bytes if any.
pub open spec fn dec_name(b: Seq<u8>) -> Option<Option<Seq<u8>>> {
    if b.len() == 0 {
        None
    } else if b[0] == 0 {
        if b.len() == 1 {
            Some(None)
        } else {
            None
        }
    } else if b[0] == 1 {
        if b.len() >= 2 && b.len() == 2 + b[1] {
            Some(Some(b.subrange(2, b.len() as int)))
        } else {
            None
        }
    } else {
        None
    }
}

/// The current encoding of a unit record.
pub open spec fn enc_unit_rec(
    proxy_id: u64,
    pt: ProxyType,
    valid: bool,
    name: Option<Seq<u8>>,
) -> Seq<u8> {
    seq![RECORD_VERSION_CURRENT] + spec_u64_to_le_bytes(proxy_id) + seq![
        pt_byte(pt),
        if valid {
            1u8
        } else {
            0u8
        },
    ] + enc_name(name)
}

/// What stored unit-record bytes decode to: the fields, with validity
/// defaulting true on a legacy record; `None` when malformed.
pub open spec fn dec_unit_rec(b: Seq<u8>) -> Option<(u64, ProxyType, bool, Option<Seq<u8>>)> {
    if b.len() == 0 {
        None
    } else if b[0] == RECORD_VERSION_CURRENT {
        if b.len() >= 11 {
            match dec_name(b.subrange(11, b.len() as int)) {
                Some(name) => Some(
                    (
                        spec_u64_from_le_bytes(b.subrange(1, 9)),
                        byte_pt(b[9]),
                        b[10] != 0,
                        name,
                    ),
                ),
                None => None,
            }
        } else {
            None
        }
    } else if b[0] == RECORD_VERSION_LEGACY {
        if b.len() >= 10 {
            match dec_name(b.subrange(10, b.len() as int)) {
                Some(name) => Some(
                    (spec_u64_from_le_bytes(b.subrange(1, 9)), byte_pt(b[9]), true, name),
                ),
                None => None,
            }
        } else {
            None
        }
    } else {
        None
    }
}

/// The current encoding of a project record.
pub open spec fn enc_project_rec(website: Option<Seq<u8>>) -> Seq<u8> {
    seq![RECORD_VERSION_CURRENT] + enc_name(website)
}

/// What stored project-record bytes decode to: the website, absent on a
/// legacy record; `None` when malformed.
pub open spec fn dec_project_rec(b: Seq<u8>) -> Option<Option<Seq<u8>>> {
    if b.len() == 0 {
        None
    } else if b[0] == RECORD_VERSION_CURRENT {
        dec_name(b.subrange(1, b.len() as int))
    } else if b[0] == RECORD_VERSION_LEGACY {
        if b.len() == 1 {
            Some(None)
        } else {
            None
        }
    } else {
        None
    }
}

/// Relies on `String::from_utf8`: it succeeds exactly on valid UTF-8 and
/// the string keeps the given bytes.
#[verifier::external_body]
fn string_from_bytes(v: Vec<u8>) -> (r: Option<String>)
    ensures
        r is Some <==> valid_utf8(v@),
        match r {
            Some(s) => encode_utf8(s@) == v@,
            None => true,
        },
{
    String::from_utf8(v).ok()
}

fn encode_name(name: &Option<String>, out: &mut Vec<u8>)
    requires
        match opt_bytes(*name) {
            Some(nb) => nb.len() <= MAX_FIELD_BYTES,
            None => true,
        },
    ensures
        final(out)@ == old(out)@ + enc_name(opt_bytes(*name)),
{
    match name {
        None => {
            out.push(0);
            proof {
                assert(out@ =~= old(out)@ + enc_name(opt_bytes(*name)));
            }
        },
        Some(s) => {
            out.push(1);
            let n = crate::registry::byte_len(s.as_str());
            out.push(n as u8);
            out.extend_from_slice(s.as_str().as_bytes());
            proof {
                assert(out@ =~= old(out)@ + enc_name(opt_bytes(*name)));
            }
        },
    }
}

/// Encodes one registry row in the current version.
pub fn encode_unit(rec: &UnitRecord) -> (r: Vec<u8>)
    requires
        match opt_bytes(rec.project_name) {
            Some(nb) => nb.len() <= MAX_FIELD_BYTES,
            None => true,
        },
    ensures
        r@ == enc_unit_rec(rec.proxy_id, rec.proxy_type, rec.valid, opt_bytes(rec.project_name)),
{
    let mut out: Vec<u8> = Vec::new();
    out.push(RECORD_VERSION_CURRENT);
    let mut le = u64_to_le_bytes(rec.proxy_id);
    out.append(&mut le);
    out.push(
        match rec.proxy_type {
            ProxyType::Direct => 0,
            ProxyType::GroupedRoot => 1,
        },
    );
    out.push(
        if rec.valid {
            1
        } else {
            0
        },
    );
    encode_name(&rec.project_name, &mut out);
    proof {
        assert(out@ =~= enc_unit_rec(
            rec.proxy_id,
            rec.proxy_type,
            rec.valid,
            opt_bytes(rec.project_name),
        ));
    }
    out
}

/// Encodes one project row in the current version.
pub fn encode_project(rec: &ProjectRecord) -> (r: Vec<u8>)
    requires
        match opt_bytes(rec.website) {
            Some(nb) => nb.len() <= MAX_FIELD_BYTES,
            None => true,
        },
    ensures
        r@ == enc_project_rec(opt_bytes(rec.website)),
{
    let mut out: Vec<u8> = Vec::new();
    out.push(RECORD_VERSION_CURRENT);
    encode_name(&rec.website, &mut out);
    proof {
        assert(out@ =~= enc_project_rec(opt_bytes(rec.website)));
    }
    out
}

fn decode_name(b: &Vec<u8>, start: usize) -> (r: Option<Option<String>>)
    requires
        start <= b@.len(),
    ensures
        match dec_name(b@.subrange(start as int, b@.len() as int)) {
            None => r is None,
            Some(None) => r == Some(Option::<String>::None),
            Some(Some(nb)) => match r {
                Some(name) => opt_bytes(name) == if valid_utf8(nb) {
                    Some(nb)
                } else {
                    Option::<Seq<u8>>::None
                },
                None => false,
            },
        },
{
    let ghost tail = b@.subrange(start as int, b@.len() as int);
    let n = b.len();
    if start >= n {
        return None;
    }
    let flag = b[start];
    if flag == 0 {
        if n == start + 1 {
            Some(None)
        } else {
            None
        }
    } else if flag == 1 {
        if n - start < 2 {
            return None;
        }
        let ln = b[start + 1] as usize;
        if n - start - 2 != ln {
            return None;
        }
        proof {
            assert(tail.len() == 2 + tail[1]);
            assert(tail.subrange(2, tail.len() as int) =~= b@.subrange(
                start + 2 as int,
                b@.len() as int,
            ));
        }
        let name_bytes = slice_subrange(b.as_slice(), start + 2, n);
        let owned = slice_to_vec(name_bytes);
        match string_from_bytes(owned) {
            Some(s) => Some(Some(s)),
            None => Some(None),
        }
    } else {
        None
    }
}

/// Decodes a stored unit record of any known version, defaulting the
/// fields a legacy record lacks: validity true.  A name that is not
/// valid UTF-8 degrades to an absent name.
pub fn decode_unit(b: &Vec<u8>) -> (r: Option<UnitRecord>)
    ensures
        match dec_unit_rec(b@) {
            None => r is None,
            Some((proxy_id, pt, valid, name)) => match r {
                Some(rec) => {
                    &&& rec.proxy_id == proxy_id
                    &&& rec.proxy_type == pt
                    &&& rec.valid == valid
                    &&& opt_bytes(rec.project_name) == (match name {
                        Some(nb) => if valid_utf8(nb) {
                            Some(nb)
                        } else {
                            Option::<Seq<u8>>::None
                        },
                        None => None,
                    })
                },
                None => false,
            },
        },
{
    let n = b.len();
    if n == 0 {
        return None;
    }
    let ver = b[0];
    if ver == RECORD_VERSION_CURRENT {
        if n < 11 {
            return None;
        }
        let proxy_id = u64_from_le_bytes(slice_subrange(b.as_slice(), 1, 9));
        let proxy_type = if b[9] == 1 {
            ProxyType::GroupedRoot
        } else {
            ProxyType::Direct
        };
        let valid = b[10] != 0;
        match decode_name(b, 11) {
            Some(project_name) => Some(
                UnitRecord { proxy_id, proxy_type, valid, project_name },
            ),
            None => None,
        }
    } else if ver == RECORD_VERSION_LEGACY {
        if n < 10 {
            return None;
        }
        let proxy_id = u64_from_le_bytes(slice_subrange(b.as_slice(), 1, 9));
        let proxy_type = if b[9] == 1 {
            ProxyType::GroupedRoot
        } else {
            ProxyType::Direct
        };
        match decode_name(b, 10) {
            Some(project_name) => Some(
                UnitRecord { proxy_id, proxy_type, valid: true, project_name },
            ),
            None => None,
        }
    } else {
        None
    }
}

/// Decodes a stored project record of any known version; a legacy record
/// reads back with no website.
pub fn decode_project(b: &Vec<u8>) -> (r: Option<ProjectRecord>)
    ensures
        match dec_project_rec(b@) {
            None => r is None,
            Some(website) => match r {
                Some(rec) => opt_bytes(rec.website) == (match website {
                    Some(nb) => if valid_utf8(nb) {
                        Some(nb)
                    } else {
                        Option::<Seq<u8>>::None
                    },
                    None => None,
                }),
                None => false,
            },
        },
{
    let n = b.len();
    if n == 0 {
        return None;
    }
    let ver = b[0];
    if ver == RECORD_VERSION_CURRENT {
        match decode_name(b, 1) {
            Some(website) => Some(ProjectRecord { website }),
            None => None,
        }
    } else if ver == RECORD_VERSION_LEGACY {
        if n == 1 {
            Some(ProjectRecord { website: None })
        } else {
            None
        }
    } else {
        None
    }
}

/// Reads a little-endian magnitude — the form a balance arrives in from
/// the transport — into a `u128`, saturating when the magnitude carries
/// more than sixteen bytes.
pub fn nat_to_u128(bytes: &Vec<u8>) -> (r: u128)
    ensures
        r == if bytes@.len() > 16 {
            u128::MAX
        } else {
            spec_u128_from_le_bytes(bytes@ + Seq::new((16 - bytes@.len()) as nat, |i: int| 0u8))
        },
{
    if bytes.len() > 16 {
        u128::MAX
    } else {
        let mut padded: Vec<u8> = Vec::new();
        let mut i: usize = 0;
        while i < bytes.len()
            invariant
                0 <= i <= bytes@.len(),
                padded@ =~= bytes@.subrange(0, i as int),
            decreases bytes@.len() - i,
        {
            padded.push(bytes[i]);
            proof {
                assert(bytes@.subrange(0, i + 1 as int) =~= bytes@.subrange(0, i as int).push(
                    bytes@[i as int],
                ));
            }
            i = i + 1;
        }
        while padded.len() < 16
            invariant
                bytes@.len() <= padded@.len() <= 16,
                padded@ =~= bytes@ + Seq::new((padded@.len() - bytes@.len()) as nat, |j: int| 0u8),
            decreases 16 - padded@.len(),
        {
            padded.push(0);
            proof {
                assert(padded@ =~= bytes@ + Seq::new(
                    (padded@.len() - bytes@.len()) as nat,
                    |j: int| 0u8,
                ));
            }
        }
        u128_from_le_bytes(padded.as_slice())
    }
}

/// A record written today reads back unchanged: the round trip through
/// the current encoding is the identity on every field.
pub proof fn lemma_unit_round_trip(
    proxy_id: u64,
    pt: ProxyType,
    valid: bool,
    name: Option<Seq<u8>>,
)
    requires
        match name {
            Some(nb) => nb.len() <= MAX_FIELD_BYTES,
            None => true,
        },
    ensures
        dec_unit_rec(enc_unit_rec(proxy_id, pt, valid, name)) == Some(
            (proxy_id, pt, valid, name),
        ),
{
    lemma_auto_spec_u64_to_from_le_bytes();
    let e = enc_unit_rec(proxy_id, pt, valid, name);
    assert(spec_u64_to_le_bytes(proxy_id).len() == 8);
    assert(e.subrange(1, 9) =~= spec_u64_to_le_bytes(proxy_id));
    assert(e[0] == RECORD_VERSION_CURRENT);
    assert(e[9] == pt_byte(pt));
    assert(e[10] == if valid {
        1u8
    } else {
        0u8
    });
    let tail = e.subrange(11, e.len() as int);
    assert(tail =~= enc_name(name));
    match name {
        None => {
            assert(dec_name(tail) == Some(Option::<Seq<u8>>::None));
        },
        Some(nb) => {
            assert(tail[0] == 1);
            assert(tail[1] == nb.len() as u8);
            assert(tail.subrange(2, tail.len() as int) =~= nb);
        },
    }
}

/// A project record written today reads back unchanged.
pub proof fn lemma_project_round_trip(website: Option<Seq<u8>>)
    requires
        match website {
            Some(nb) => nb.len() <= MAX_FIELD_BYTES,
            None => true,
        },
    ensures
        dec_project_rec(enc_project_rec(website)) == Some(website),
{
    let e = enc_project_rec(website);
    assert(e[0] == RECORD_VERSION_CURRENT);
    let tail = e.subrange(1, e.len() as int);
    assert(tail =~= enc_name(website));
    match website {
        None => {},
        Some(nb) => {
            assert(tail[0] == 1);
            assert(tail[1] == nb.len() as u8);
            assert(tail.subrange(2, tail.len() as int) =~= nb);
        },
    }
}

} // verus!
