//! The Project Registry: one row per project label, holding an
//! administered website and cached aggregates over the units that carry
//! the label.  Aggregates are recomputed wholesale each snapshot cycle:
//! first every row is zeroed, then every labelled unit's cached fields
//! are added onto its row.

use crate::registry::{clone_opt_string, opt_bytes, truncate_field};
use crate::types::FieldUpdate;
use vstd::prelude::*;

verus! {

/// Per-project metadata and cached aggregates.
pub struct ProjectMeta {
    /// Optional administered website, truncated to the field byte budget.
    pub website: Option<String>,
    /// How many units carry the label, recomputed each cycle.
    pub canister_count: u64,
    /// Sum of the units' cached balances, saturating.
    pub total_balance: u128,
    /// Sum of the units' cached one-hour burns, saturating.
    pub total_burn_1h: u128,
    /// Sum of the units' cached one-day burns, saturating.
    pub total_burn_24h: u128,
    /// Sum of the units' cached seven-day burns, saturating.
    pub total_burn_7d: u128,
}

/// The metadata stored under a label, by first match on the label text.
pub open spec fn spec_find_project(
    s: Seq<(String, ProjectMeta)>,
    label: Seq<char>,
) -> Option<ProjectMeta>
    decreases s.len(),
{
    if s.len() == 0 {
        None
    } else if s[0].0@ == label {
        Some(s[0].1)
    } else {
        spec_find_project(s.drop_first(), label)
    }
}

/// Label texts are pairwise distinct.
pub open spec fn labels_unique(s: Seq<(String, ProjectMeta)>) -> bool {
    forall|i: int, j: int| 0 <= i < j < s.len() ==> s[i].0@ != s[j].0@
}

proof fn lemma_project_find_at(s: Seq<(String, ProjectMeta)>, label: Seq<char>, i: int)
    requires
        0 <= i <= s.len(),
        forall|j: int| 0 <= j < i ==> #[trigger] s[j].0@ != label,
        i < s.len() ==> s[i].0@ == label,
    ensures
        spec_find_project(s, label) == if i < s.len() {
            Some(s[i].1)
        } else {
            Option::<ProjectMeta>::None
        },
    decreases i,
{
    if i > 0 {
        lemma_project_find_at(s.drop_first(), label, i - 1);
    }
}

proof fn lemma_project_find_update(s: Seq<(String, ProjectMeta)>, i: int, m: ProjectMeta)
    requires
        0 <= i < s.len(),
        forall|j: int| 0 <= j < i ==> #[trigger] s[j].0@ != s[i].0@,
    ensures
        spec_find_project(s.update(i, (s[i].0, m)), s[i].0@) == Some(m),
        forall|l: Seq<char>|
            l != s[i].0@ ==> #[trigger] spec_find_project(s.update(i, (s[i].0, m)), l)
                == spec_find_project(s, l),
    decreases i,
{
    let t = s.update(i, (s[i].0, m));
    if i == 0 {
        assert forall|l: Seq<char>| l != s[i].0@ implies #[trigger] spec_find_project(t, l)
            == spec_find_project(s, l) by {
            assert(t.drop_first() =~= s.drop_first());
        }
    } else {
        lemma_project_find_update(s.drop_first(), i - 1, m);
        assert(t.drop_first() =~= s.drop_first().update(i - 1, (s[i].0, m)));
        assert(t[0] == s[0]);
        assert(spec_find_project(t, s[i].0@) == spec_find_project(t.drop_first(), s[i].0@));
        assert forall|l: Seq<char>| l != s[i].0@ implies #[trigger] spec_find_project(t, l)
            == spec_find_project(s, l) by {
            if s[0].0@ != l {
                assert(spec_find_project(t, l) == spec_find_project(t.drop_first(), l));
                assert(spec_find_project(s, l) == spec_find_project(s.drop_first(), l));
            }
        }
    }
}

proof fn lemma_project_find_push(s: Seq<(String, ProjectMeta)>, label: String, m: ProjectMeta)
    requires
        forall|j: int| 0 <= j < s.len() ==> #[trigger] s[j].0@ != label@,
    ensures
        spec_find_project(s.push((label, m)), label@) == Some(m),
        forall|l: Seq<char>|
            l != label@ ==> #[trigger] spec_find_project(s.push((label, m)), l)
                == spec_find_project(s, l),
    decreases s.len(),
{
    let t = s.push((label, m));
    if s.len() == 0 {
        assert(t.drop_first() =~= s);
    } else {
        lemma_project_find_push(s.drop_first(), label, m);
        assert(t.drop_first() =~= s.drop_first().push((label, m)));
        assert(t[0] == s[0]);
        assert forall|l: Seq<char>| l != label@ implies #[trigger] spec_find_project(t, l)
            == spec_find_project(s, l) by {
            if s[0].0@ != l {
                assert(spec_find_project(t, l) == spec_find_project(t.drop_first(), l));
                assert(spec_find_project(s, l) == spec_find_project(s.drop_first(), l));
            }
        }
    }
}

/// The Project Registry.
pub struct ProjectRegistry {
    projects: Vec<(String, ProjectMeta)>,
}

impl ProjectRegistry {
    /// The rows, labels unique.
    pub closed spec fn rows(self) -> Seq<(String, ProjectMeta)> {
        self.projects@
    }

    /// Labels are pairwise distinct.
    pub open spec fn wf(self) -> bool {
        labels_unique(self.rows())
    }

    /// An empty project registry.
    pub fn new() -> (r: Self)
        ensures
            r.wf(),
            r.rows() == Seq::<(String, ProjectMeta)>::empty(),
    {
        ProjectRegistry { projects: Vec::new() }
    }

    /// How many projects have rows.
    pub fn len(&self) -> (n: usize)
        ensures
            n == self.rows().len(),
    {
        self.projects.len()
    }

    /// The row at one position, for iteration.
    pub fn row_at(&self, i: usize) -> (r: &(String, ProjectMeta))
        requires
            i < self.rows().len(),
        ensures
            *r == self.rows()[i as int],
    {
        &self.projects[i]
    }

    fn find_index(&self, label: &String) -> (r: Option<usize>)
        ensures
            match r {
                Some(i) => i < self.rows().len() && self.rows()[i as int].0@ == label@
                    && spec_find_project(self.rows(), label@) == Some(self.rows()[i as int].1)
                    && (forall|j: int| 0 <= j < i ==> #[trigger] self.rows()[j].0@ != label@),
                None => spec_find_project(self.rows(), label@) is None,
            },
    {
        let mut i: usize = 0;
        while i < self.projects.len()
            invariant
                0 <= i <= self.rows().len(),
                self.rows() == self.projects@,
                forall|j: int| 0 <= j < i ==> #[trigger] self.rows()[j].0@ != label@,
            decreases self.rows().len() - i,
        {
            if self.projects[i].0.eq(label) {
                proof {
                    lemma_project_find_at(self.rows(), label@, i as int);
                }
                return Some(i);
            }
            i = i + 1;
        }
        proof {
            lemma_project_find_at(self.rows(), label@, self.rows().len() as int);
        }
        None
    }

    /// The metadata of one project.
    pub fn get(&self, label: &String) -> (r: Option<&ProjectMeta>)
        ensures
            match r {
                Some(m) => spec_find_project(self.rows(), label@) == Some(*m),
                None => spec_find_project(self.rows(), label@) is None,
            },
    {
        match self.find_index(label) {
            Some(i) => Some(&self.projects[i].1),
            None => None,
        }
    }

    /// Tri-state update of a project's website: leave, clear, or set
    /// (truncated).  The row is created with empty aggregates when the
    /// label had none, so a website can be administered before any unit
    /// carries the label.
    pub fn set_website(&mut self, label: &String, update: &FieldUpdate<String>)
        requires
            old(self).wf(),
        ensures
            final(self).wf(),
            forall|l: Seq<char>|
                l != label@ ==> #[trigger] spec_find_project(final(self).rows(), l)
                    == spec_find_project(old(self).rows(), l),
            spec_find_project(final(self).rows(), label@) is Some,
            ({
                let m = spec_find_project(final(self).rows(), label@)->Some_0;
                let prior = spec_find_project(old(self).rows(), label@);
                &&& opt_bytes(m.website) == (match update {
                    FieldUpdate::Unchanged => match prior {
                        Some(pm) => opt_bytes(pm.website),
                        None => None,
                    },
                    FieldUpdate::Clear => None,
                    FieldUpdate::Assign(w) => Some(
                        crate::registry::truncated_bytes(vstd::utf8::encode_utf8(w@)),
                    ),
                })
                &&& m.canister_count == (match prior {
                    Some(pm) => pm.canister_count,
                    None => 0u64,
                })
                &&& m.total_balance == (match prior {
                    Some(pm) => pm.total_balance,
                    None => 0u128,
                })
                &&& m.total_burn_1h == (match prior {
                    Some(pm) => pm.total_burn_1h,
                    None => 0u128,
                })
                &&& m.total_burn_24h == (match prior {
                    Some(pm) => pm.total_burn_24h,
                    None => 0u128,
                })
                &&& m.total_burn_7d == (match prior {
                    Some(pm) => pm.total_burn_7d,
                    None => 0u128,
                })
            }),
    {
        match self.find_index(label) {
            Some(i) => {
                let website = match update {
                    FieldUpdate::Unchanged => clone_opt_string(&self.projects[i].1.website),
                    FieldUpdate::Clear => None,
                    FieldUpdate::Assign(w) => Some(truncate_field(w.as_str())),
                };
                let m = ProjectMeta {
                    website,
                    canister_count: self.projects[i].1.canister_count,
                    total_balance: self.projects[i].1.total_balance,
                    total_burn_1h: self.projects[i].1.total_burn_1h,
                    total_burn_24h: self.projects[i].1.total_burn_24h,
                    total_burn_7d: self.projects[i].1.total_burn_7d,
                };
                proof {
                    lemma_project_find_update(self.projects@, i as int, m);
                }
                let key = self.projects[i].0.clone();
                self.projects.set(i, (key, m));
            },
            None => {
                let website = match update {
                    FieldUpdate::Unchanged => None,
                    FieldUpdate::Clear => None,
                    FieldUpdate::Assign(w) => Some(truncate_field(w.as_str())),
                };
                let m = ProjectMeta {
                    website,
                    canister_count: 0,
                    total_balance: 0,
                    total_burn_1h: 0,
                    total_burn_24h: 0,
                    total_burn_7d: 0,
                };
                proof {
                    assert forall|j: int| 0 <= j < self.projects@.len() implies #[trigger] self
                        .projects@[j].0@ != label@ by {
                        if self.projects@[j].0@ == label@ {
                            lemma_project_find_at_contra(self.projects@, label@, j);
                        }
                    }
                    lemma_project_find_push(self.projects@, *label, m);
                }
                self.projects.push((label.clone(), m));
            },
        }
    }

    /// Zeroes every row's aggregates, keeping labels and websites: the
    /// first half of the cycle's wholesale recomputation.
    pub fn reset_rollups(&mut self)
        requires
            old(self).wf(),
        ensures
            final(self).wf(),
            final(self).rows().len() == old(self).rows().len(),
            forall|i: int|
                0 <= i < old(self).rows().len() ==> {
                    let n = #[trigger] final(self).rows()[i];
                    let p = old(self).rows()[i];
                    &&& n.0 == p.0
                    &&& opt_bytes(n.1.website) == opt_bytes(p.1.website)
                    &&& n.1.canister_count == 0
                    &&& n.1.total_balance == 0
                    &&& n.1.total_burn_1h == 0
                    &&& n.1.total_burn_24h == 0
                    &&& n.1.total_burn_7d == 0
                },
            forall|l: Seq<char>|
                match spec_find_project(old(self).rows(), l) {
                    None => #[trigger] spec_find_project(final(self).rows(), l) is None,
                    Some(pm) => {
                        let m = spec_find_project(final(self).rows(), l)->Some_0;
                        &&& spec_find_project(final(self).rows(), l) is Some
                        &&& opt_bytes(m.website) == opt_bytes(pm.website)
                        &&& m.canister_count == 0
                        &&& m.total_balance == 0
                        &&& m.total_burn_1h == 0
                        &&& m.total_burn_24h == 0
                        &&& m.total_burn_7d == 0
                    },
                },
    {
        let mut i: usize = 0;
        while i < self.projects.len()
            invariant
                0 <= i <= self.projects@.len(),
                self.projects@.len() == old(self).rows().len(),
                forall|j: int|
                    0 <= j < i ==> {
                        let n = #[trigger] self.projects@[j];
                        let p = old(self).rows()[j];
                        &&& n.0 == p.0
                        &&& opt_bytes(n.1.website) == opt_bytes(p.1.website)
                        &&& n.1.canister_count == 0
                        &&& n.1.total_balance == 0
                        &&& n.1.total_burn_1h == 0
                        &&& n.1.total_burn_24h == 0
                        &&& n.1.total_burn_7d == 0
                    },
                forall|j: int|
                    i <= j < self.projects@.len() ==> #[trigger] self.projects@[j] == old(
                        self,
                    ).rows()[j],
            decreases self.projects@.len() - i,
        {
            let m = ProjectMeta {
                website: clone_opt_string(&self.projects[i].1.website),
                canister_count: 0,
                total_balance: 0,
                total_burn_1h: 0,
                total_burn_24h: 0,
                total_burn_7d: 0,
            };
            let key = self.projects[i].0.clone();
            self.projects.set(i, (key, m));
            i = i + 1;
        }
        proof {
            assert forall|i2: int, j2: int|
                0 <= i2 < j2 < self.projects@.len() implies self.projects@[i2].0@ != self
                .projects@[j2].0@ by {
            }
            assert forall|l: Seq<char>|
                match spec_find_project(old(self).rows(), l) {
                    None => #[trigger] spec_find_project(self.rows(), l) is None,
                    Some(pm) => {
                        let m = spec_find_project(self.rows(), l)->Some_0;
                        &&& spec_find_project(self.rows(), l) is Some
                        &&& opt_bytes(m.website) == opt_bytes(pm.website)
                        &&& m.canister_count == 0
                        &&& m.total_balance == 0
                        &&& m.total_burn_1h == 0
                        &&& m.total_burn_24h == 0
                        &&& m.total_burn_7d == 0
                    },
                } by {
                lemma_find_at_label_index(old(self).rows(), l);
                lemma_find_at_label_index(self.rows(), l);
                lemma_label_index_same(old(self).rows(), self.rows(), l);
            }
        }
    }

    /// Adds one unit's cached fields onto its label's row, creating the
    /// row when the label has none yet: the second half of the cycle's
    /// wholesale recomputation.  Sums saturate.
    pub fn accumulate(
        &mut self,
        label: &String,
        balance: u128,
        burn_1h: u128,
        burn_24h: u128,
        burn_7d: u128,
    )
        requires
            old(self).wf(),
        ensures
            final(self).wf(),
            forall|l: Seq<char>|
                l != label@ ==> #[trigger] spec_find_project(final(self).rows(), l)
                    == spec_find_project(old(self).rows(), l),
            spec_find_project(final(self).rows(), label@) is Some,
            ({
                let m = spec_find_project(final(self).rows(), label@)->Some_0;
                let prior = spec_find_project(old(self).rows(), label@);
                let pc = match prior {
                    Some(pm) => pm.canister_count,
                    None => 0u64,
                };
                let pb = match prior {
                    Some(pm) => pm.total_balance,
                    None => 0u128,
                };
                let p1 = match prior {
                    Some(pm) => pm.total_burn_1h,
                    None => 0u128,
                };
                let p24 = match prior {
                    Some(pm) => pm.total_burn_24h,
                    None => 0u128,
                };
                let p7 = match prior {
                    Some(pm) => pm.total_burn_7d,
                    None => 0u128,
                };
                &&& opt_bytes(m.website) == (match prior {
                    Some(pm) => opt_bytes(pm.website),
                    None => None,
                })
                &&& m.canister_count == (if pc < 0xffff_ffff_ffff_ffff {
                    (pc + 1) as u64
                } else {
                    pc
                })
                &&& m.total_balance == (if pb + balance > u128::MAX {
                    u128::MAX
                } else {
                    (pb + balance) as u128
                })
                &&& m.total_burn_1h == (if p1 + burn_1h > u128::MAX {
                    u128::MAX
                } else {
                    (p1 + burn_1h) as u128
                })
                &&& m.total_burn_24h == (if p24 + burn_24h > u128::MAX {
                    u128::MAX
                } else {
                    (p24 + burn_24h) as u128
                })
                &&& m.total_burn_7d == (if p7 + burn_7d > u128::MAX {
                    u128::MAX
                } else {
                    (p7 + burn_7d) as u128
                })
            }),
    {
        match self.find_index(label) {
            Some(i) => {
                let count = self.projects[i].1.canister_count;
                let m = ProjectMeta {
                    website: clone_opt_string(&self.projects[i].1.website),
                    canister_count: if count < 0xffff_ffff_ffff_ffff {
                        count + 1
                    } else {
                        count
                    },
                    total_balance: self.projects[i].1.total_balance.saturating_add(balance),
                    total_burn_1h: self.projects[i].1.total_burn_1h.saturating_add(burn_1h),
                    total_burn_24h: self.projects[i].1.total_burn_24h.saturating_add(burn_24h),
                    total_burn_7d: self.projects[i].1.total_burn_7d.saturating_add(burn_7d),
                };
                proof {
                    lemma_project_find_update(self.projects@, i as int, m);
                }
                let key = self.projects[i].0.clone();
                self.projects.set(i, (key, m));
            },
            None => {
                let m = ProjectMeta {
                    website: None,
                    canister_count: 1,
                    total_balance: balance,
                    total_burn_1h: burn_1h,
                    total_burn_24h: burn_24h,
                    total_burn_7d: burn_7d,
                };
                proof {
                    assert forall|j: int| 0 <= j < self.projects@.len() implies #[trigger] self
                        .projects@[j].0@ != label@ by {
                        if self.projects@[j].0@ == label@ {
                            lemma_project_find_at_contra(self.projects@, label@, j);
                        }
                    }
                    lemma_project_find_push(self.projects@, *label, m);
                }
                self.projects.push((label.clone(), m));
            },
        }
    }

    /// Deletes every row.
    pub fn clear(&mut self)
        ensures
            final(self).wf(),
            final(self).rows() == Seq::<(String, ProjectMeta)>::empty(),
    {
        self.projects.clear();
    }
}

/// The position of the first row carrying `l`; `s.len()` if none.
pub open spec fn label_index_of(s: Seq<(String, ProjectMeta)>, l: Seq<char>) -> int
    decreases s.len(),
{
    if s.len() == 0 {
        0
    } else if s[0].0@ == l {
        0
    } else {
        1 + label_index_of(s.drop_first(), l)
    }
}

proof fn lemma_find_at_label_index(s: Seq<(String, ProjectMeta)>, l: Seq<char>)
    ensures
        0 <= label_index_of(s, l) <= s.len(),
        label_index_of(s, l) < s.len() ==> s[label_index_of(s, l)].0@ == l
            && spec_find_project(s, l) == Some(s[label_index_of(s, l)].1),
        label_index_of(s, l) == s.len() ==> spec_find_project(s, l) is None,
    decreases s.len(),
{
    if s.len() > 0 && s[0].0@ != l {
        lemma_find_at_label_index(s.drop_first(), l);
    }
}

proof fn lemma_label_index_same(s1: Seq<(String, ProjectMeta)>, s2: Seq<(String, ProjectMeta)>, l: Seq<char>)
    requires
        s1.len() == s2.len(),
        forall|i: int| 0 <= i < s1.len() ==> (#[trigger] s2[i]).0@ == s1[i].0@,
    ensures
        label_index_of(s1, l) == label_index_of(s2, l),
    decreases s1.len(),
{
    if s1.len() > 0 {
        assert(s2[0].0@ == s1[0].0@);
        if s1[0].0@ != l {
            assert forall|i: int| 0 <= i < s1.drop_first().len() implies (#[trigger] s2.drop_first()[i]).0@
                == s1.drop_first()[i].0@ by {
                assert(s2.drop_first()[i] == s2[i + 1]);
                assert(s1.drop_first()[i] == s1[i + 1]);
            }
            lemma_label_index_same(s1.drop_first(), s2.drop_first(), l);
        }
    }
}

/// With unique labels, the row at an index is what a lookup of its label
/// finds.
pub proof fn lemma_project_find_of_index(s: Seq<(String, ProjectMeta)>, i: int)
    requires
        labels_unique(s),
        0 <= i < s.len(),
    ensures
        spec_find_project(s, s[i].0@) == Some(s[i].1),
{
    lemma_project_find_at(s, s[i].0@, i);
}

proof fn lemma_project_find_at_contra(s: Seq<(String, ProjectMeta)>, label: Seq<char>, j: int)
    requires
        0 <= j < s.len(),
        s[j].0@ == label,
    ensures
        spec_find_project(s, label) is Some,
    decreases j,
{
    if s[0].0@ != label {
        lemma_project_find_at_contra(s.drop_first(), label, j - 1);
    }
}

} // verus!
