//! The Entity Registry: per-unit metadata and the cached summary fields
//! the leaderboard reads.
//!
//! Rows are keyed by unit id, ids unique.  Imports upsert: a supplied
//! field overwrites, an omitted one keeps the stored value, or its
//! default on first creation.  String fields are truncated to a byte
//! budget at a character boundary, never split inside a character.

use crate::types::{CanisterImport, FieldUpdate, ProxyType};
use crate::MAX_FIELD_BYTES;
use vstd::prelude::*;
use vstd::string::StringSliceAdditionalSpecFns;
use vstd::utf8::{
    encode_utf8, encode_utf8_valid_utf8, is_char_boundary, is_char_boundary_start_end_of_seq,
};

verus! {

/// Per-unit metadata and cached summary fields.
pub struct CanisterMeta {
    /// The target of the remote balance query.
    pub proxy_id: u64,
    /// Which query mechanism reaches the unit.
    pub proxy_type: ProxyType,
    /// Optional project label, truncated to the field byte budget.
    pub project_name: Option<String>,
    /// Whether the unit appears on public leaderboards.
    pub valid: bool,
    /// Cached newest balance, written only by the snapshot cycle.
    pub balance: u128,
    /// Cached one-hour burn, written only by the snapshot cycle.
    pub burn_1h: Option<u128>,
    /// Cached one-day burn, written only by the snapshot cycle.
    pub burn_24h: Option<u128>,
    /// Cached seven-day burn, written only by the snapshot cycle.
    pub burn_7d: Option<u128>,
}

/// The bytes of an optional string field.
pub open spec fn opt_bytes(o: Option<String>) -> Option<Seq<u8>> {
    match o {
        Some(s) => Some(encode_utf8(s@)),
        None => None,
    }
}

/// Index `i` if it is a character boundary of `b`, else the nearest
/// boundary below it.
pub open spec fn trunc_point(b: Seq<u8>, i: int) -> int
    decreases i,
{
    if i <= 0 {
        0
    } else if is_char_boundary(b, i) {
        i
    } else {
        trunc_point(b, i - 1)
    }
}

/// A string field's bytes as stored: unchanged within the budget, else
/// cut at the last character boundary inside it.
pub open spec fn truncated_bytes(b: Seq<u8>) -> Seq<u8> {
    if b.len() <= MAX_FIELD_BYTES {
        b
    } else {
        b.subrange(0, trunc_point(b, MAX_FIELD_BYTES as int))
    }
}

/// Relies on `str::len`, and on Rust's bound of every allocation by
/// `isize::MAX`: a string's byte length fits the machine word.
#[verifier::external_body]
pub(crate) fn byte_len(s: &str) -> (n: usize)
    ensures
        n == s.spec_bytes().len(),
{
    s.len()
}

/// Truncates a string field to its byte budget at a character boundary.
pub fn truncate_field(s: &str) -> (r: String)
    ensures
        encode_utf8(r@) == truncated_bytes(s.spec_bytes()),
{
    proof {
        encode_utf8_valid_utf8(s@);
        is_char_boundary_start_end_of_seq(s.spec_bytes());
    }
    if byte_len(s) <= MAX_FIELD_BYTES {
        let r = s.to_owned();
        assert(encode_utf8(r@) == s.spec_bytes());
        r
    } else {
        let mut i: usize = MAX_FIELD_BYTES;
        while !s.is_char_boundary(i)
            invariant
                0 <= i <= MAX_FIELD_BYTES,
                MAX_FIELD_BYTES < s.spec_bytes().len(),
                is_char_boundary(s.spec_bytes(), 0),
                trunc_point(s.spec_bytes(), MAX_FIELD_BYTES as int) == trunc_point(
                    s.spec_bytes(),
                    i as int,
                ),
            decreases i,
        {
            i = i - 1;
        }
        let (pre, _post) = s.split_at(i);
        let r = pre.to_owned();
        proof {
            assert(trunc_point(s.spec_bytes(), i as int) == i as int);
            assert(encode_utf8(r@) == pre.spec_bytes());
            assert(pre.spec_bytes() =~= s.spec_bytes().subrange(0, i as int));
        }
        r
    }
}

/// Copies an optional string field.
pub fn clone_opt_string(o: &Option<String>) -> (r: Option<String>)
    ensures
        opt_bytes(r) == opt_bytes(*o),
{
    match o {
        Some(s) => Some(s.clone()),
        None => None,
    }
}

/// The row an import item leaves for its unit: each supplied field
/// overwrites, each omitted field keeps the prior value or takes its
/// default on first creation, the label is truncated to its budget, and
/// the cached summary fields carry over untouched.
pub open spec fn import_result_ok(
    prior: Option<CanisterMeta>,
    item: CanisterImport,
    m: CanisterMeta,
) -> bool {
    &&& m.proxy_id == (match item.proxy_id {
        Some(p) => p,
        None => match prior {
            Some(pm) => pm.proxy_id,
            None => 0u64,
        },
    })
    &&& m.proxy_type == (match item.proxy_type {
        Some(t) => t,
        None => match prior {
            Some(pm) => pm.proxy_type,
            None => ProxyType::Direct,
        },
    })
    &&& opt_bytes(m.project_name) == (match item.project {
        Some(p) => Some(truncated_bytes(encode_utf8(p@))),
        None => match prior {
            Some(pm) => opt_bytes(pm.project_name),
            None => None,
        },
    })
    &&& m.valid == (match item.valid {
        Some(v) => v,
        None => match prior {
            Some(pm) => pm.valid,
            None => true,
        },
    })
    &&& m.balance == (match prior {
        Some(pm) => pm.balance,
        None => 0u128,
    })
    &&& m.burn_1h == (match prior {
        Some(pm) => pm.burn_1h,
        None => None,
    })
    &&& m.burn_24h == (match prior {
        Some(pm) => pm.burn_24h,
        None => None,
    })
    &&& m.burn_7d == (match prior {
        Some(pm) => pm.burn_7d,
        None => None,
    })
}

/// The item at `j` is the only one of the list naming its unit.
pub open spec fn named_once(items: Seq<CanisterImport>, j: int) -> bool {
    forall|j2: int|
        0 <= j2 < items.len() && j2 != j ==> (#[trigger] items[j2]).canister_id
            != items[j].canister_id
}

/// The metadata stored under `id`, by first match.
pub open spec fn spec_find(s: Seq<(u64, CanisterMeta)>, id: u64) -> Option<CanisterMeta>
    decreases s.len(),
{
    if s.len() == 0 {
        None
    } else if s[0].0 == id {
        Some(s[0].1)
    } else {
        spec_find(s.drop_first(), id)
    }
}

/// Unit ids are pairwise distinct.
pub open spec fn ids_unique(s: Seq<(u64, CanisterMeta)>) -> bool {
    forall|i: int, j: int| 0 <= i < j < s.len() ==> s[i].0 != s[j].0
}

/// The position of the first row keyed by `id`; `s.len()` if none.
pub open spec fn row_index_of(s: Seq<(u64, CanisterMeta)>, id: u64) -> int
    decreases s.len(),
{
    if s.len() == 0 {
        0
    } else if s[0].0 == id {
        0
    } else {
        1 + row_index_of(s.drop_first(), id)
    }
}

/// With unique ids, a row's position is what a lookup of its id gives.
pub proof fn lemma_row_index_of(s: Seq<(u64, CanisterMeta)>, i: int)
    requires
        ids_unique(s),
        0 <= i < s.len(),
    ensures
        row_index_of(s, s[i].0) == i,
    decreases i,
{
    if i > 0 {
        assert(s[0].0 != s[i].0);
        assert(ids_unique(s.drop_first()));
        assert(s.drop_first()[i - 1] == s[i]);
        lemma_row_index_of(s.drop_first(), i - 1);
    }
}

proof fn lemma_find_at(s: Seq<(u64, CanisterMeta)>, id: u64, i: int)
    requires
        0 <= i <= s.len(),
        forall|j: int| 0 <= j < i ==> #[trigger] s[j].0 != id,
        i < s.len() ==> s[i].0 == id,
    ensures
        spec_find(s, id) == if i < s.len() {
            Some(s[i].1)
        } else {
            Option::<CanisterMeta>::None
        },
    decreases i,
{
    if i > 0 {
        assert(s[0].0 != id);
        lemma_find_at(s.drop_first(), id, i - 1);
    }
}

proof fn lemma_find_update(s: Seq<(u64, CanisterMeta)>, i: int, m: CanisterMeta)
    requires
        0 <= i < s.len(),
        forall|j: int| 0 <= j < i ==> #[trigger] s[j].0 != s[i].0,
    ensures
        spec_find(s.update(i, (s[i].0, m)), s[i].0) == Some(m),
        forall|id: u64|
            id != s[i].0 ==> #[trigger] spec_find(s.update(i, (s[i].0, m)), id) == spec_find(
                s,
                id,
            ),
    decreases i,
{
    let t = s.update(i, (s[i].0, m));
    if i == 0 {
        assert forall|id: u64| id != s[i].0 implies #[trigger] spec_find(t, id) == spec_find(
            s,
            id,
        ) by {
            assert(t.drop_first() =~= s.drop_first());
        }
    } else {
        lemma_find_update(s.drop_first(), i - 1, m);
        assert(t.drop_first() =~= s.drop_first().update(i - 1, (s[i].0, m)));
        assert(t[0] == s[0]);
        assert(spec_find(t, s[i].0) == spec_find(t.drop_first(), s[i].0));
        assert forall|id: u64| id != s[i].0 implies #[trigger] spec_find(t, id) == spec_find(
            s,
            id,
        ) by {
            if s[0].0 != id {
                assert(spec_find(t, id) == spec_find(t.drop_first(), id));
                assert(spec_find(s, id) == spec_find(s.drop_first(), id));
            }
        }
    }
}

proof fn lemma_find_push(s: Seq<(u64, CanisterMeta)>, id: u64, m: CanisterMeta)
    requires
        forall|j: int| 0 <= j < s.len() ==> #[trigger] s[j].0 != id,
    ensures
        spec_find(s.push((id, m)), id) == Some(m),
        forall|id2: u64|
            id2 != id ==> #[trigger] spec_find(s.push((id, m)), id2) == spec_find(s, id2),
    decreases s.len(),
{
    let t = s.push((id, m));
    if s.len() == 0 {
        assert(t.drop_first() =~= s);
    } else {
        lemma_find_push(s.drop_first(), id, m);
        assert(t.drop_first() =~= s.drop_first().push((id, m)));
        assert(t[0] == s[0]);
        assert forall|id2: u64| id2 != id implies #[trigger] spec_find(t, id2) == spec_find(
            s,
            id2,
        ) by {
            if s[0].0 != id2 {
                assert(spec_find(t, id2) == spec_find(t.drop_first(), id2));
                assert(spec_find(s, id2) == spec_find(s.drop_first(), id2));
            }
        }
    }
}

proof fn lemma_find_remove(s: Seq<(u64, CanisterMeta)>, i: int)
    requires
        0 <= i < s.len(),
        ids_unique(s),
    ensures
        spec_find(s.remove(i), s[i].0) is None,
        forall|id: u64|
            id != s[i].0 ==> #[trigger] spec_find(s.remove(i), id) == spec_find(s, id),
    decreases i,
{
    let t = s.remove(i);
    if i == 0 {
        assert(t =~= s.drop_first());
        lemma_find_at(s.drop_first(), s[0].0, s.len() - 1);
    } else {
        assert(ids_unique(s.drop_first()));
        lemma_find_remove(s.drop_first(), i - 1);
        assert(t.drop_first() =~= s.drop_first().remove(i - 1));
        assert(t[0] == s[0]);
        assert(s[i].0 != s[0].0);
        assert(s.drop_first()[i - 1] == s[i]);
        assert forall|id: u64| id != s[i].0 implies #[trigger] spec_find(t, id) == spec_find(
            s,
            id,
        ) by {
            if s[0].0 != id {
                assert(spec_find(t, id) == spec_find(t.drop_first(), id));
                assert(spec_find(s, id) == spec_find(s.drop_first(), id));
            }
        }
    }
}

/// The Entity Registry.
pub struct Registry {
    units: Vec<(u64, CanisterMeta)>,
}

impl Registry {
    /// The rows, ids unique.
    pub closed spec fn rows(self) -> Seq<(u64, CanisterMeta)> {
        self.units@
    }

    /// Ids are pairwise distinct.
    pub open spec fn wf(self) -> bool {
        ids_unique(self.rows())
    }

    /// An empty registry.
    pub fn new() -> (r: Self)
        ensures
            r.wf(),
            r.rows() == Seq::<(u64, CanisterMeta)>::empty(),
    {
        Registry { units: Vec::new() }
    }

    /// How many units are registered.
    pub fn len(&self) -> (n: usize)
        ensures
            n == self.rows().len(),
    {
        self.units.len()
    }

    /// The row at one position, for iteration.
    pub fn row_at(&self, i: usize) -> (r: &(u64, CanisterMeta))
        requires
            i < self.rows().len(),
        ensures
            *r == self.rows()[i as int],
    {
        &self.units[i]
    }

    fn find_index(&self, id: u64) -> (r: Option<usize>)
        ensures
            match r {
                Some(i) => i < self.rows().len() && self.rows()[i as int].0 == id && spec_find(
                    self.rows(),
                    id,
                ) == Some(self.rows()[i as int].1) && (forall|j: int|
                    0 <= j < i ==> #[trigger] self.rows()[j].0 != id),
                None => spec_find(self.rows(), id) is None,
            },
    {
        let mut i: usize = 0;
        while i < self.units.len()
            invariant
                0 <= i <= self.rows().len(),
                self.rows() == self.units@,
                forall|j: int| 0 <= j < i ==> #[trigger] self.rows()[j].0 != id,
            decreases self.rows().len() - i,
        {
            if self.units[i].0 == id {
                proof {
                    lemma_find_at(self.rows(), id, i as int);
                }
                return Some(i);
            }
            i = i + 1;
        }
        proof {
            lemma_find_at(self.rows(), id, self.rows().len() as int);
        }
        None
    }

    /// The metadata of one unit.
    pub fn get(&self, id: u64) -> (r: Option<&CanisterMeta>)
        ensures
            match r {
                Some(m) => spec_find(self.rows(), id) == Some(*m),
                None => spec_find(self.rows(), id) is None,
            },
    {
        match self.find_index(id) {
            Some(i) => Some(&self.units[i].1),
            None => None,
        }
    }

    /// Upserts one import item.  A supplied field overwrites; an omitted
    /// field keeps the stored value, or its default on first creation:
    /// proxy 0, mechanism `Direct`, no label, valid.  Cached summary
    /// fields are never touched by an import.  Returns whether the unit
    /// was newly created.
    pub fn import_one(&mut self, item: &CanisterImport) -> (created: bool)
        requires
            old(self).wf(),
        ensures
            final(self).wf(),
            created == (spec_find(old(self).rows(), item.canister_id) is None),
            forall|id: u64|
                id != item.canister_id ==> #[trigger] spec_find(final(self).rows(), id)
                    == spec_find(old(self).rows(), id),
            spec_find(final(self).rows(), item.canister_id) is Some,
            import_result_ok(
                spec_find(old(self).rows(), item.canister_id),
                *item,
                spec_find(final(self).rows(), item.canister_id)->Some_0,
            ),
    {
        let id = item.canister_id;
        match self.find_index(id) {
            Some(i) => {
                let proxy_id = match item.proxy_id {
                    Some(p) => p,
                    None => self.units[i].1.proxy_id,
                };
                let proxy_type = match item.proxy_type {
                    Some(t) => t,
                    None => self.units[i].1.proxy_type,
                };
                let project_name = match &item.project {
                    Some(p) => Some(truncate_field(p.as_str())),
                    None => clone_opt_string(&self.units[i].1.project_name),
                };
                let valid = match item.valid {
                    Some(v) => v,
                    None => self.units[i].1.valid,
                };
                let m = CanisterMeta {
                    proxy_id,
                    proxy_type,
                    project_name,
                    valid,
                    balance: self.units[i].1.balance,
                    burn_1h: self.units[i].1.burn_1h,
                    burn_24h: self.units[i].1.burn_24h,
                    burn_7d: self.units[i].1.burn_7d,
                };
                proof {
                    lemma_find_update(self.units@, i as int, m);
                }
                self.units.set(i, (id, m));
                false
            },
            None => {
                let project_name = match &item.project {
                    Some(p) => Some(truncate_field(p.as_str())),
                    None => None,
                };
                let m = CanisterMeta {
                    proxy_id: match item.proxy_id {
                        Some(p) => p,
                        None => 0,
                    },
                    proxy_type: match item.proxy_type {
                        Some(t) => t,
                        None => ProxyType::Direct,
                    },
                    project_name,
                    valid: match item.valid {
                        Some(v) => v,
                        None => true,
                    },
                    balance: 0,
                    burn_1h: None,
                    burn_24h: None,
                    burn_7d: None,
                };
                proof {
                    assert forall|j: int| 0 <= j < self.units@.len() implies #[trigger] self
                        .units@[j].0 != id by {
                        if self.units@[j].0 == id {
                            lemma_find_at_contra(self.units@, id, j);
                        }
                    }
                    lemma_find_push(self.units@, id, m);
                }
                self.units.push((id, m));
                true
            },
        }
    }

    /// Bulk import: upserts each item in order and returns how many items
    /// were processed.  Every named unit ends registered; a unit named by
    /// exactly one item ends with precisely that item's upsert over its
    /// prior row; units not named by any item are untouched.
    pub fn import_canisters(&mut self, items: &Vec<CanisterImport>) -> (count: u64)
        requires
            old(self).wf(),
            items@.len() <= 0xffff_ffff_ffff_ffff,
        ensures
            final(self).wf(),
            count == items@.len(),
            forall|id: u64|
                (forall|j: int| 0 <= j < items@.len() ==> #[trigger] items@[j].canister_id != id)
                    ==> spec_find(final(self).rows(), id) == spec_find(old(self).rows(), id),
            forall|j: int|
                0 <= j < items@.len() ==> spec_find(
                    final(self).rows(),
                    (#[trigger] items@[j]).canister_id,
                ) is Some,
            forall|j: int|
                0 <= j < items@.len() && named_once(items@, j) ==> import_result_ok(
                    spec_find(old(self).rows(), (#[trigger] items@[j]).canister_id),
                    items@[j],
                    spec_find(final(self).rows(), items@[j].canister_id)->Some_0,
                ),
    {
        let mut count: u64 = 0;
        let mut i: usize = 0;
        while i < items.len()
            invariant
                0 <= i <= items@.len(),
                items@.len() <= 0xffff_ffff_ffff_ffff,
                count == i,
                self.wf(),
                forall|id: u64|
                    (forall|j: int| 0 <= j < i ==> #[trigger] items@[j].canister_id != id)
                        ==> spec_find(self.rows(), id) == spec_find(old(self).rows(), id),
                forall|j: int|
                    0 <= j < i ==> spec_find(
                        self.rows(),
                        (#[trigger] items@[j]).canister_id,
                    ) is Some,
                forall|j: int|
                    0 <= j < i && named_once(items@, j) ==> import_result_ok(
                        spec_find(old(self).rows(), (#[trigger] items@[j]).canister_id),
                        items@[j],
                        spec_find(self.rows(), items@[j].canister_id)->Some_0,
                    ),
            decreases items@.len() - i,
        {
            let ghost rows_before = self.rows();
            let _created = self.import_one(&items[i]);
            proof {
                let item = items@[i as int];
                if named_once(items@, i as int) {
                    assert(forall|j: int|
                        0 <= j < i ==> #[trigger] items@[j].canister_id != item.canister_id);
                    assert(spec_find(rows_before, item.canister_id) == spec_find(
                        old(self).rows(),
                        item.canister_id,
                    ));
                }
                assert forall|j: int|
                    0 <= j < i + 1 && named_once(items@, j) implies import_result_ok(
                    spec_find(old(self).rows(), (#[trigger] items@[j]).canister_id),
                    items@[j],
                    spec_find(self.rows(), items@[j].canister_id)->Some_0,
                ) by {
                    if j < i {
                        assert(items@[i as int].canister_id != items@[j].canister_id);
                    }
                }
            }
            count = count + 1;
            i = i + 1;
        }
        count
    }

    /// Tri-state update of one unit's project label: leave, clear, or set
    /// (truncated).  Returns whether the unit exists; nothing else of the
    /// row changes.
    pub fn set_project(&mut self, id: u64, update: &FieldUpdate<String>) -> (found: bool)
        requires
            old(self).wf(),
        ensures
            final(self).wf(),
            found == (spec_find(old(self).rows(), id) is Some),
            forall|id2: u64|
                id2 != id ==> #[trigger] spec_find(final(self).rows(), id2) == spec_find(
                    old(self).rows(),
                    id2,
                ),
            match spec_find(old(self).rows(), id) {
                None => spec_find(final(self).rows(), id) is None,
                Some(pm) => {
                    let m = spec_find(final(self).rows(), id)->Some_0;
                    &&& spec_find(final(self).rows(), id) is Some
                    &&& opt_bytes(m.project_name) == (match update {
                        FieldUpdate::Unchanged => opt_bytes(pm.project_name),
                        FieldUpdate::Clear => None,
                        FieldUpdate::Assign(p) => Some(truncated_bytes(encode_utf8(p@))),
                    })
                    &&& m.proxy_id == pm.proxy_id
                    &&& m.proxy_type == pm.proxy_type
                    &&& m.valid == pm.valid
                    &&& m.balance == pm.balance
                    &&& m.burn_1h == pm.burn_1h
                    &&& m.burn_24h == pm.burn_24h
                    &&& m.burn_7d == pm.burn_7d
                },
            },
    {
        match self.find_index(id) {
            Some(i) => {
                let project_name = match update {
                    FieldUpdate::Unchanged => clone_opt_string(&self.units[i].1.project_name),
                    FieldUpdate::Clear => None,
                    FieldUpdate::Assign(p) => Some(truncate_field(p.as_str())),
                };
                let m = CanisterMeta {
                    proxy_id: self.units[i].1.proxy_id,
                    proxy_type: self.units[i].1.proxy_type,
                    project_name,
                    valid: self.units[i].1.valid,
                    balance: self.units[i].1.balance,
                    burn_1h: self.units[i].1.burn_1h,
                    burn_24h: self.units[i].1.burn_24h,
                    burn_7d: self.units[i].1.burn_7d,
                };
                proof {
                    lemma_find_update(self.units@, i as int, m);
                }
                self.units.set(i, (id, m));
                true
            },
            None => false,
        }
    }

    /// Sets or clears one unit's validity flag.  Returns false and does
    /// nothing when the unit is unknown.
    pub fn set_validity(&mut self, id: u64, valid: bool) -> (found: bool)
        requires
            old(self).wf(),
        ensures
            final(self).wf(),
            found == (spec_find(old(self).rows(), id) is Some),
            forall|id2: u64|
                id2 != id ==> #[trigger] spec_find(final(self).rows(), id2) == spec_find(
                    old(self).rows(),
                    id2,
                ),
            match spec_find(old(self).rows(), id) {
                None => spec_find(final(self).rows(), id) is None,
                Some(pm) => {
                    let m = spec_find(final(self).rows(), id)->Some_0;
                    &&& spec_find(final(self).rows(), id) is Some
                    &&& m.valid == valid
                    &&& m.proxy_id == pm.proxy_id
                    &&& m.proxy_type == pm.proxy_type
                    &&& opt_bytes(m.project_name) == opt_bytes(pm.project_name)
                    &&& m.balance == pm.balance
                    &&& m.burn_1h == pm.burn_1h
                    &&& m.burn_24h == pm.burn_24h
                    &&& m.burn_7d == pm.burn_7d
                },
            },
    {
        match self.find_index(id) {
            Some(i) => {
                let m = CanisterMeta {
                    proxy_id: self.units[i].1.proxy_id,
                    proxy_type: self.units[i].1.proxy_type,
                    project_name: clone_opt_string(&self.units[i].1.project_name),
                    valid,
                    balance: self.units[i].1.balance,
                    burn_1h: self.units[i].1.burn_1h,
                    burn_24h: self.units[i].1.burn_24h,
                    burn_7d: self.units[i].1.burn_7d,
                };
                proof {
                    lemma_find_update(self.units@, i as int, m);
                }
                self.units.set(i, (id, m));
                true
            },
            None => false,
        }
    }

    /// The snapshot cycle's write of one unit's cached summary fields.
    pub fn set_cached(
        &mut self,
        id: u64,
        balance: u128,
        burn_1h: Option<u128>,
        burn_24h: Option<u128>,
        burn_7d: Option<u128>,
    ) -> (found: bool)
        requires
            old(self).wf(),
        ensures
            final(self).wf(),
            found == (spec_find(old(self).rows(), id) is Some),
            final(self).rows().len() == old(self).rows().len(),
            forall|j: int|
                0 <= j < old(self).rows().len() ==> #[trigger] final(self).rows()[j].0 == old(
                    self,
                ).rows()[j].0,
            forall|id2: u64|
                id2 != id ==> #[trigger] spec_find(final(self).rows(), id2) == spec_find(
                    old(self).rows(),
                    id2,
                ),
            match spec_find(old(self).rows(), id) {
                None => spec_find(final(self).rows(), id) is None,
                Some(pm) => {
                    let m = spec_find(final(self).rows(), id)->Some_0;
                    &&& spec_find(final(self).rows(), id) is Some
                    &&& m.balance == balance
                    &&& m.burn_1h == burn_1h
                    &&& m.burn_24h == burn_24h
                    &&& m.burn_7d == burn_7d
                    &&& m.proxy_id == pm.proxy_id
                    &&& m.proxy_type == pm.proxy_type
                    &&& opt_bytes(m.project_name) == opt_bytes(pm.project_name)
                    &&& m.valid == pm.valid
                },
            },
    {
        match self.find_index(id) {
            Some(i) => {
                let m = CanisterMeta {
                    proxy_id: self.units[i].1.proxy_id,
                    proxy_type: self.units[i].1.proxy_type,
                    project_name: clone_opt_string(&self.units[i].1.project_name),
                    valid: self.units[i].1.valid,
                    balance,
                    burn_1h,
                    burn_24h,
                    burn_7d,
                };
                proof {
                    lemma_find_update(self.units@, i as int, m);
                }
                self.units.set(i, (id, m));
                true
            },
            None => false,
        }
    }

    /// Removes one unit's row.  Returns whether it existed.
    pub fn remove_one(&mut self, id: u64) -> (removed: bool)
        requires
            old(self).wf(),
        ensures
            final(self).wf(),
            removed == (spec_find(old(self).rows(), id) is Some),
            spec_find(final(self).rows(), id) is None,
            forall|id2: u64|
                id2 != id ==> #[trigger] spec_find(final(self).rows(), id2) == spec_find(
                    old(self).rows(),
                    id2,
                ),
            final(self).rows().len() == old(self).rows().len() - (if spec_find(
                old(self).rows(),
                id,
            ) is Some {
                1int
            } else {
                0int
            }),
    {
        match self.find_index(id) {
            Some(i) => {
                proof {
                    lemma_find_remove(self.units@, i as int);
                }
                let _row = self.units.remove(i);
                true
            },
            None => false,
        }
    }

    /// Deletes every row.
    pub fn clear(&mut self)
        ensures
            final(self).wf(),
            final(self).rows() == Seq::<(u64, CanisterMeta)>::empty(),
    {
        self.units.clear();
    }
}

/// With unique ids, the row at an index is what a lookup of its id finds.
pub proof fn lemma_find_of_index(s: Seq<(u64, CanisterMeta)>, i: int)
    requires
        ids_unique(s),
        0 <= i < s.len(),
    ensures
        spec_find(s, s[i].0) == Some(s[i].1),
{
    lemma_find_at(s, s[i].0, i);
}

proof fn lemma_find_at_contra(s: Seq<(u64, CanisterMeta)>, id: u64, j: int)
    requires
        0 <= j < s.len(),
        s[j].0 == id,
    ensures
        spec_find(s, id) is Some,
    decreases j,
{
    if s[0].0 != id {
        lemma_find_at_contra(s.drop_first(), id, j - 1);
    }
}

} // verus!
