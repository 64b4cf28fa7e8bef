//! The service object owning all three stores, with the administrative
//! operations.  Every mutating operation takes the caller-identity
//! collaborator's answer as a boolean and fails whole — nothing changed —
//! when it is false.

use crate::history::{unit_of, HistoryStore};
use crate::projects::{spec_find_project, ProjectRegistry};
use crate::registry::{
    import_result_ok, named_once, opt_bytes, spec_find, truncated_bytes, Registry,
};
use crate::types::{AuthError, CanisterImport, FieldUpdate};
use vstd::prelude::*;
use vstd::utf8::encode_utf8;

verus! {

/// The monitor's whole state: the two registries, the history store and
/// the scheduler flag.
pub struct Service {
    pub registry: Registry,
    pub projects: ProjectRegistry,
    pub history: HistoryStore,
    pub scheduler_running: bool,
}

impl Service {
    /// Every store is well formed.
    pub open spec fn wf(self) -> bool {
        self.registry.wf() && self.projects.wf() && self.history.wf()
    }

    /// A fresh service with empty stores and the scheduler stopped.
    pub fn new() -> (r: Self)
        ensures
            r.wf(),
            r.registry.rows().len() == 0,
            r.projects.rows().len() == 0,
            r.history.entries().len() == 0,
            !r.scheduler_running,
    {
        Service {
            registry: Registry::new(),
            projects: ProjectRegistry::new(),
            history: HistoryStore::new(),
            scheduler_running: false,
        }
    }

    /// Bulk import of units, admin-only.  Each item upserts per the
    /// registry's import semantics; history, projects and the scheduler
    /// are untouched.
    pub fn import_canisters(&mut self, authorized: bool, items: &Vec<CanisterImport>) -> (r:
        Result<u64, AuthError>)
        requires
            old(self).wf(),
            items@.len() <= 0xffff_ffff_ffff_ffff,
        ensures
            final(self).wf(),
            !authorized ==> r == Err::<u64, AuthError>(AuthError::NotAuthorized) && *final(self)
                == *old(self),
            authorized ==> r == Ok::<u64, AuthError>(items@.len() as u64),
            final(self).history == old(self).history,
            final(self).projects == old(self).projects,
            final(self).scheduler_running == old(self).scheduler_running,
            authorized ==> forall|id: u64|
                (forall|j: int| 0 <= j < items@.len() ==> #[trigger] items@[j].canister_id != id)
                    ==> spec_find(final(self).registry.rows(), id) == spec_find(
                    old(self).registry.rows(),
                    id,
                ),
            authorized ==> forall|j: int|
                0 <= j < items@.len() ==> spec_find(
                    final(self).registry.rows(),
                    (#[trigger] items@[j]).canister_id,
                ) is Some,
            authorized ==> forall|j: int|
                0 <= j < items@.len() && named_once(items@, j) ==> import_result_ok(
                    spec_find(old(self).registry.rows(), (#[trigger] items@[j]).canister_id),
                    items@[j],
                    spec_find(final(self).registry.rows(), items@[j].canister_id)->Some_0,
                ),
    {
        if !authorized {
            return Err(AuthError::NotAuthorized);
        }
        let n = self.registry.import_canisters(items);
        Ok(n)
    }

    /// Tri-state update of one unit's project label, admin-only.
    pub fn set_project(&mut self, authorized: bool, id: u64, update: &FieldUpdate<String>) -> (r:
        Result<bool, AuthError>)
        requires
            old(self).wf(),
        ensures
            final(self).wf(),
            !authorized ==> r == Err::<bool, AuthError>(AuthError::NotAuthorized) && *final(self)
                == *old(self),
            authorized ==> r == Ok::<bool, AuthError>(
                spec_find(old(self).registry.rows(), id) is Some,
            ),
            final(self).history == old(self).history,
            final(self).projects == old(self).projects,
            final(self).scheduler_running == old(self).scheduler_running,
            authorized ==> forall|id2: u64|
                id2 != id ==> #[trigger] spec_find(final(self).registry.rows(), id2) == spec_find(
                    old(self).registry.rows(),
                    id2,
                ),
            authorized ==> match spec_find(old(self).registry.rows(), id) {
                None => spec_find(final(self).registry.rows(), id) is None,
                Some(pm) => {
                    let m = spec_find(final(self).registry.rows(), id)->Some_0;
                    &&& spec_find(final(self).registry.rows(), id) is Some
                    &&& opt_bytes(m.project_name) == (match update {
                        FieldUpdate::Unchanged => opt_bytes(pm.project_name),
                        FieldUpdate::Clear => None,
                        FieldUpdate::Assign(p) => Some(truncated_bytes(encode_utf8(p@))),
                    })
                    &&& m.proxy_id == pm.proxy_id
                    &&& m.proxy_type == pm.proxy_type
                    &&& m.valid == pm.valid
                    &&& m.balance == pm.balance
                    &&& m.burn_1h == pm.burn_1h
                    &&& m.burn_24h == pm.burn_24h
                    &&& m.burn_7d == pm.burn_7d
                },
            },
    {
        if !authorized {
            return Err(AuthError::NotAuthorized);
        }
        let found = self.registry.set_project(id, update);
        Ok(found)
    }

    /// Sets or clears one unit's validity flag, admin-only.  False when
    /// the unit is unknown, and then nothing changes.
    pub fn set_validity(&mut self, authorized: bool, id: u64, valid: bool) -> (r: Result<
        bool,
        AuthError,
    >)
        requires
            old(self).wf(),
        ensures
            final(self).wf(),
            !authorized ==> r == Err::<bool, AuthError>(AuthError::NotAuthorized) && *final(self)
                == *old(self),
            authorized ==> r == Ok::<bool, AuthError>(
                spec_find(old(self).registry.rows(), id) is Some,
            ),
            final(self).history == old(self).history,
            final(self).projects == old(self).projects,
            final(self).scheduler_running == old(self).scheduler_running,
            authorized ==> forall|id2: u64|
                id2 != id ==> #[trigger] spec_find(final(self).registry.rows(), id2) == spec_find(
                    old(self).registry.rows(),
                    id2,
                ),
            authorized && spec_find(old(self).registry.rows(), id) is Some ==> spec_find(
                final(self).registry.rows(),
                id,
            )->Some_0.valid == valid,
    {
        if !authorized {
            return Err(AuthError::NotAuthorized);
        }
        let found = self.registry.set_validity(id, valid);
        Ok(found)
    }

    /// Tri-state update of a project's website, admin-only.
    pub fn set_website(&mut self, authorized: bool, label: &String, update: &FieldUpdate<String>)
        -> (r: Result<(), AuthError>)
        requires
            old(self).wf(),
        ensures
            final(self).wf(),
            !authorized ==> r == Err::<(), AuthError>(AuthError::NotAuthorized) && *final(self)
                == *old(self),
            authorized ==> r == Ok::<(), AuthError>(()),
            final(self).history == old(self).history,
            final(self).registry == old(self).registry,
            final(self).scheduler_running == old(self).scheduler_running,
            authorized ==> forall|l: Seq<char>|
                l != label@ ==> #[trigger] spec_find_project(final(self).projects.rows(), l)
                    == spec_find_project(old(self).projects.rows(), l),
            authorized ==> spec_find_project(final(self).projects.rows(), label@) is Some,
            authorized ==> ({
                let m = spec_find_project(final(self).projects.rows(), label@)->Some_0;
                let prior = spec_find_project(old(self).projects.rows(), label@);
                &&& opt_bytes(m.website) == (match update {
                    FieldUpdate::Unchanged => match prior {
                        Some(pm) => opt_bytes(pm.website),
                        None => None,
                    },
                    FieldUpdate::Clear => None,
                    FieldUpdate::Assign(w) => Some(truncated_bytes(encode_utf8(w@))),
                })
                &&& m.canister_count == (match prior {
                    Some(pm) => pm.canister_count,
                    None => 0u64,
                })
                &&& m.total_balance == (match prior {
                    Some(pm) => pm.total_balance,
                    None => 0u128,
                })
                &&& m.total_burn_1h == (match prior {
                    Some(pm) => pm.total_burn_1h,
                    None => 0u128,
                })
                &&& m.total_burn_24h == (match prior {
                    Some(pm) => pm.total_burn_24h,
                    None => 0u128,
                })
                &&& m.total_burn_7d == (match prior {
                    Some(pm) => pm.total_burn_7d,
                    None => 0u128,
                })
            }),
    {
        if !authorized {
            return Err(AuthError::NotAuthorized);
        }
        self.projects.set_website(label, update);
        Ok(())
    }

    /// Removes units, admin-only.  Each removal cascades: the unit's
    /// registry row and every history row of the unit go.  Returns how
    /// many units were actually removed.
    pub fn remove_canisters(&mut self, authorized: bool, ids: &Vec<u64>) -> (r: Result<
        u64,
        AuthError,
    >)
        requires
            old(self).wf(),
        ensures
            final(self).wf(),
            !authorized ==> r == Err::<u64, AuthError>(AuthError::NotAuthorized) && *final(self)
                == *old(self),
            final(self).projects == old(self).projects,
            final(self).scheduler_running == old(self).scheduler_running,
            authorized ==> {
                &&& r == Ok::<u64, AuthError>(
                    (old(self).registry.rows().len() - final(self).registry.rows().len()) as u64,
                )
                &&& forall|id: u64|
                    #[trigger] spec_find(final(self).registry.rows(), id) == if ids@.contains(id) {
                        Option::<crate::registry::CanisterMeta>::None
                    } else {
                        spec_find(old(self).registry.rows(), id)
                    }
                &&& forall|j: int, k: int|
                    0 <= j < ids@.len() && spec_find(old(self).registry.rows(), ids@[j]) is Some
                        && 0 <= k < final(self).history.entries().len() ==> unit_of(
                        #[trigger] final(self).history.entries()[k].0,
                    ) != #[trigger] ids@[j]
            },
    {
        if !authorized {
            return Err(AuthError::NotAuthorized);
        }
        let ghost rows0 = self.registry.rows();
        let ghost es0 = self.history.entries();
        let mut count: u64 = 0;
        let mut i: usize = 0;
        while i < ids.len()
            invariant
                0 <= i <= ids@.len(),
                self.wf(),
                self.projects == old(self).projects,
                self.scheduler_running == old(self).scheduler_running,
                rows0 == old(self).registry.rows(),
                es0 == old(self).history.entries(),
                count == rows0.len() - self.registry.rows().len(),
                count <= i,
                forall|id: u64|
                    #[trigger] spec_find(self.registry.rows(), id) == if ids@.subrange(
                        0,
                        i as int,
                    ).contains(id) {
                        Option::<crate::registry::CanisterMeta>::None
                    } else {
                        spec_find(rows0, id)
                    },
                forall|k: int|
                    0 <= k < self.history.entries().len() ==> es0.contains(
                        #[trigger] self.history.entries()[k],
                    ),
                forall|j: int, k: int|
                    0 <= j < i && spec_find(rows0, ids@[j]) is Some && 0 <= k
                        < self.history.entries().len() ==> unit_of(
                        #[trigger] self.history.entries()[k].0,
                    ) != #[trigger] ids@[j],
            decreases ids@.len() - i,
        {
            let id = ids[i];
            let ghost pre = ids@.subrange(0, i as int);
            let ghost post = ids@.subrange(0, i + 1 as int);
            proof {
                assert(post.drop_last() =~= pre);
                assert(post.last() == ids@[i as int]);
                assert forall|x: u64| post.contains(x) implies x == id || pre.contains(x) by {
                    let jj = choose|jj: int| 0 <= jj < post.len() && post[jj] == x;
                    if jj < pre.len() {
                        assert(pre[jj] == x);
                    }
                }
                assert forall|x: u64| pre.contains(x) implies post.contains(x) by {
                    let jj = choose|jj: int| 0 <= jj < pre.len() && pre[jj] == x;
                    assert(post[jj] == x);
                }
                assert(post.contains(id)) by {
                    assert(post[i as int] == id);
                }
            }
            let removed = self.registry.remove_one(id);
            if removed {
                let ghost es_before = self.history.entries();
                let _dropped = self.history.drop_unit(id);
                proof {
                    crate::history::lemma_other_excludes(es_before, id);
                    crate::history::lemma_other_subset(es_before, id);
                    assert forall|k: int|
                        0 <= k < self.history.entries().len() implies es0.contains(
                        #[trigger] self.history.entries()[k],
                    ) by {
                        assert(es_before.contains(self.history.entries()[k]));
                        let kk = choose|kk: int|
                            0 <= kk < es_before.len() && es_before[kk] == self.history.entries()[k];
                    }
                }
                count = count + 1;
            }
            i = i + 1;
        }
        proof {
            assert(ids@.subrange(0, ids@.len() as int) =~= ids@);
        }
        Ok(count)
    }

    /// Deletes every registry row, admin-only.  History is kept, as units
    /// may be re-imported.
    pub fn clear_canisters(&mut self, authorized: bool) -> (r: Result<(), AuthError>)
        requires
            old(self).wf(),
        ensures
            final(self).wf(),
            !authorized ==> r == Err::<(), AuthError>(AuthError::NotAuthorized) && *final(self)
                == *old(self),
            authorized ==> r == Ok::<(), AuthError>(()) && final(self).registry.rows().len() == 0,
            final(self).history == old(self).history,
            final(self).projects == old(self).projects,
            final(self).scheduler_running == old(self).scheduler_running,
    {
        if !authorized {
            return Err(AuthError::NotAuthorized);
        }
        self.registry.clear();
        Ok(())
    }

    /// Deletes every history row, admin-only.
    pub fn clear_snapshots(&mut self, authorized: bool) -> (r: Result<(), AuthError>)
        requires
            old(self).wf(),
        ensures
            final(self).wf(),
            !authorized ==> r == Err::<(), AuthError>(AuthError::NotAuthorized) && *final(self)
                == *old(self),
            authorized ==> r == Ok::<(), AuthError>(()) && final(self).history.entries().len()
                == 0,
            final(self).registry == old(self).registry,
            final(self).projects == old(self).projects,
            final(self).scheduler_running == old(self).scheduler_running,
    {
        if !authorized {
            return Err(AuthError::NotAuthorized);
        }
        self.history.clear();
        Ok(())
    }

    /// Clears all three stores, admin-only.
    pub fn clear_all(&mut self, authorized: bool) -> (r: Result<(), AuthError>)
        requires
            old(self).wf(),
        ensures
            final(self).wf(),
            !authorized ==> r == Err::<(), AuthError>(AuthError::NotAuthorized) && *final(self)
                == *old(self),
            authorized ==> r == Ok::<(), AuthError>(()) && final(self).registry.rows().len() == 0
                && final(self).projects.rows().len() == 0 && final(self).history.entries().len()
                == 0,
            final(self).scheduler_running == old(self).scheduler_running,
    {
        if !authorized {
            return Err(AuthError::NotAuthorized);
        }
        self.registry.clear();
        self.projects.clear();
        self.history.clear();
        Ok(())
    }

    /// Starts the periodic scheduler, admin-only.  Returns whether a
    /// previous schedule was running and must be cancelled by the host.
    pub fn start_timer(&mut self, authorized: bool) -> (r: Result<bool, AuthError>)
        requires
            old(self).wf(),
        ensures
            final(self).wf(),
            !authorized ==> r == Err::<bool, AuthError>(AuthError::NotAuthorized) && *final(self)
                == *old(self),
            authorized ==> r == Ok::<bool, AuthError>(old(self).scheduler_running) && final(self).scheduler_running,
            final(self).registry == old(self).registry,
            final(self).projects == old(self).projects,
            final(self).history == old(self).history,
    {
        if !authorized {
            return Err(AuthError::NotAuthorized);
        }
        let was = self.scheduler_running;
        self.scheduler_running = true;
        Ok(was)
    }

    /// Stops the periodic scheduler, admin-only.  Returns whether a
    /// schedule was running and must be cancelled by the host.
    pub fn stop_timer(&mut self, authorized: bool) -> (r: Result<bool, AuthError>)
        requires
            old(self).wf(),
        ensures
            final(self).wf(),
            !authorized ==> r == Err::<bool, AuthError>(AuthError::NotAuthorized) && *final(self)
                == *old(self),
            authorized ==> r == Ok::<bool, AuthError>(old(self).scheduler_running) && !final(self).scheduler_running,
            final(self).registry == old(self).registry,
            final(self).projects == old(self).projects,
            final(self).history == old(self).history,
    {
        if !authorized {
            return Err(AuthError::NotAuthorized);
        }
        let was = self.scheduler_running;
        self.scheduler_running = false;
        Ok(was)
    }

    /// Whether the periodic scheduler is running.
    pub fn is_timer_running(&self) -> (r: bool)
        ensures
            r == self.scheduler_running,
    {
        self.scheduler_running
    }
}

} // verus!
