//! Virtual databases and per-VDB engine selection.
//!
//! A [`VDB`] owns a routing kind and an ordered mapping from engine index to a
//! per-engine database name.  Selection applies the kind to the mapping: a
//! combinator returns every entry in mapping order, a distributor returns one
//! entry picked by load balancing or by its fail-over primary.

use crate::engine_map::{imap_get, imap_get_index, imap_insert, imap_len, imap_model, imap_new};
use crate::errors::Error;
use crate::seq_keys::{first_key_index, key_value, lemma_first_key_index, seq_has_key, unique_keys};
use indexmap::IndexMap;
use vstd::prelude::*;

verus! {

/// How a distributor picks the single engine that serves a request.
#[derive(Debug, Clone, Copy)]
pub enum DistributionMethod {
    /// Balance the load over all engines in the VDB's mapping.
    LoadBalance,
    /// Always use the designated primary engine.
    FailOver(usize),
}

/// What a VDB's selection returns.
#[derive(Debug, Clone, Copy)]
pub enum VDBKind {
    /// Combines the data from every mapped engine.
    Combinator,
    /// Chooses a single engine according to the distribution method.
    Distributor(DistributionMethod),
}

/// One selected engine together with the database name it serves.
#[derive(Debug, PartialEq, Eq)]
pub struct ResolvedEngine {
    pub engine: usize,
    pub databasematch: String,
}

/// A sequence of selected engines as `(engine, database-name)` pairs.
pub open spec fn engines_view(s: Seq<ResolvedEngine>) -> Seq<(usize, Seq<char>)> {
    s.map_values(|r: ResolvedEngine| (r.engine, r.databasematch@))
}

/// True when selection on a VDB of this kind and mapping is owed no result:
/// load balancing over an empty mapping, or a fail-over primary that is not a
/// mapping key.  A combinator is never blocked.
pub open spec fn selection_blocked(kind: VDBKind, entries: Seq<(usize, Seq<char>)>) -> bool {
    match kind {
        VDBKind::Combinator => false,
        VDBKind::Distributor(DistributionMethod::LoadBalance) => entries.len() == 0,
        VDBKind::Distributor(DistributionMethod::FailOver(p)) => !seq_has_key(entries, p),
    }
}

/// The selections that `select_database` may return: all entries in mapping
/// order for a combinator, one mapping entry for a load balancer, the primary's
/// entry for fail-over.
pub open spec fn selection_ok(
    kind: VDBKind,
    entries: Seq<(usize, Seq<char>)>,
    sel: Seq<(usize, Seq<char>)>,
) -> bool {
    match kind {
        VDBKind::Combinator => sel == entries,
        VDBKind::Distributor(DistributionMethod::LoadBalance) => sel.len() == 1 && (exists|i: int|
            0 <= i < entries.len() && sel[0] == entries[i]),
        VDBKind::Distributor(DistributionMethod::FailOver(p)) => seq_has_key(entries, p) && sel
            == seq![(p, key_value(entries, p))],
    }
}

/// The error owed when selection is blocked, naming the failing VDB and, for
/// fail-over, the missing primary engine.
pub open spec fn selection_error_ok(
    kind: VDBKind,
    name: Seq<char>,
    e: Error,
) -> bool {
    match kind {
        VDBKind::Combinator => false,
        VDBKind::Distributor(DistributionMethod::LoadBalance) => e matches Error::SelectionEmpty {
            vdb } && vdb@ == name,
        VDBKind::Distributor(DistributionMethod::FailOver(p)) => e
            matches Error::EngineNotConfigured { engine, vdb } && engine == p && vdb@ == name,
    }
}

/// True of the kinds whose selection is a function of the VDB's state alone.
pub open spec fn deterministic_kind(kind: VDBKind) -> bool {
    !(kind matches VDBKind::Distributor(DistributionMethod::LoadBalance))
}

/// The one selection a deterministic, unblocked VDB returns.
pub open spec fn det_selection(kind: VDBKind, entries: Seq<(usize, Seq<char>)>) -> Seq<
    (usize, Seq<char>),
> {
    match kind {
        VDBKind::Combinator => entries,
        VDBKind::Distributor(DistributionMethod::FailOver(p)) => seq![
            (p, key_value(entries, p)),
        ],
        VDBKind::Distributor(DistributionMethod::LoadBalance) => Seq::empty(),
    }
}

/// Relies on `rand::random`: one value drawn from the thread-local generator;
/// nothing is promised of it.
#[verifier::external_body]
fn random_usize() -> usize {
    rand::random::<usize>()
}

/// Reads an engine mapping out as one `ResolvedEngine` per entry, in map
/// order.
pub(crate) fn entries_to_vec(m: &IndexMap<usize, String>) -> (out: Vec<ResolvedEngine>)
    ensures
        engines_view(out@) == imap_model(m),
{
    let n = imap_len(m);
    let mut out: Vec<ResolvedEngine> = Vec::new();
    let mut i: usize = 0;
    while i < n
        invariant
            n == imap_model(m).len(),
            i <= n,
            engines_view(out@) == imap_model(m).subrange(0, i as int),
        decreases n - i,
    {
        let entry = imap_get_index(m, i);
        let element = ResolvedEngine { engine: entry.0, databasematch: entry.1 };
        let ghost prev = out@;
        let ghost ev = (element.engine, element.databasematch@);
        proof {
            assert(ev == imap_model(m)[i as int]);
            assert(engines_view(prev) == imap_model(m).subrange(0, i as int));
            assert(imap_model(m).subrange(0, i as int).len() == i as int);
            assert(engines_view(prev).len() == prev.len());
            assert(prev.len() == i as int);
        }
        out.push(element);
        proof {
            assert(engines_view(out@).len() == i as int + 1);
            assert forall|j: int| 0 <= j < i as int + 1 implies engines_view(out@)[j]
                == imap_model(m).subrange(0, i as int + 1)[j] by {
                assert(engines_view(out@)[j] == (out@[j].engine, out@[j].databasematch@));
                if j < i as int {
                    assert(out@[j] == prev[j]);
                    assert(engines_view(prev)[j] == imap_model(m).subrange(0, i as int)[j]);
                    assert(engines_view(prev)[j] == (prev[j].engine, prev[j].databasematch@));
                } else {
                    assert((out@[j].engine, out@[j].databasematch@) == ev);
                }
            }
            assert(engines_view(out@) =~= imap_model(m).subrange(0, i as int + 1));
        }
        i += 1;
    }
    proof {
        assert(imap_model(m).subrange(0, n as int) =~= imap_model(m));
    }
    out
}

/// A named virtual database: a routing kind over an ordered engine mapping.
pub struct VDB {
    name: String,
    kind: VDBKind,
    mapping: IndexMap<usize, String>,
}

/// Shared behaviour of entities that map a request onto concrete engines.
pub trait DatabaseMapping {
    /// Applies the kind and policy to the mapping and returns the chosen
    /// engine(s).
    fn select_database(&self) -> Result<Vec<ResolvedEngine>, Error>;

    /// Replaces a fail-over policy's primary engine.
    fn set_primary_engine(&mut self, primary_engine: usize) -> Result<(), Error>;
}

impl VDB {
    /// The mapping never carries an engine index twice.
    #[verifier::type_invariant]
    spec fn inv(&self) -> bool {
        unique_keys(imap_model(&self.mapping))
    }

    /// The VDB's name.
    pub closed spec fn spec_name(&self) -> Seq<char> {
        self.name@
    }

    /// The VDB's routing kind.
    pub closed spec fn spec_kind(&self) -> VDBKind {
        self.kind
    }

    /// The mapping's entries, in insertion order.
    pub closed spec fn entries(&self) -> Seq<(usize, Seq<char>)> {
        imap_model(&self.mapping)
    }

    /// Creates a VDB of the given name and kind with an empty mapping.
    pub fn new(name: String, kind: VDBKind) -> (v: VDB)
        ensures
            v.spec_name() == name@,
            v.spec_kind() == kind,
            v.entries() == Seq::<(usize, Seq<char>)>::empty(),
    {
        VDB { name, kind, mapping: imap_new() }
    }

    /// The VDB's name, for keying a collection.
    pub fn name(&self) -> (r: &String)
        ensures
            r@ == self.spec_name(),
    {
        &self.name
    }

    /// Adds or replaces the database name served by `engine`.  A new engine is
    /// appended last in mapping order; an existing engine keeps its place and
    /// only its database name changes.
    pub fn add_engine(&mut self, engine: usize, database: String)
        ensures
            unique_keys(final(self).entries()),
            final(self).spec_name() == old(self).spec_name(),
            final(self).spec_kind() == old(self).spec_kind(),
            !seq_has_key(old(self).entries(), engine) ==> final(self).entries() == old(
                self,
            ).entries().push((engine, database@)),
            seq_has_key(old(self).entries(), engine) ==> final(self).entries() == old(
                self,
            ).entries().update(first_key_index(old(self).entries(), engine), (engine, database@)),
    {
        proof {
            use_type_invariant(&*self);
        }
        let ghost orig = imap_model(&self.mapping);
        let mut m = imap_new();
        core::mem::swap(&mut m, &mut self.mapping);
        imap_insert(&mut m, engine, database);
        proof {
            lemma_first_key_index(orig, engine);
            if seq_has_key(orig, engine) {
                let k = first_key_index(orig, engine);
                assert forall|i: int, j: int|
                    0 <= i < j < imap_model(&m).len() implies imap_model(&m)[i].0 != imap_model(
                    &m,
                )[j].0 by {
                    assert(imap_model(&m)[i].0 == orig[i].0);
                    assert(imap_model(&m)[j].0 == orig[j].0);
                }
            } else {
                assert forall|i: int, j: int|
                    0 <= i < j < imap_model(&m).len() implies imap_model(&m)[i].0 != imap_model(
                    &m,
                )[j].0 by {
                    if j < orig.len() {
                        assert(imap_model(&m)[i] == orig[i]);
                        assert(imap_model(&m)[j] == orig[j]);
                    } else {
                        assert(imap_model(&m)[i] == orig[i]);
                        assert(imap_model(&m)[j] == (engine, database@));
                    }
                }
            }
        }
        self.mapping = m;
    }

    /// Selection for a combinator: every mapping entry, in mapping order.
    fn select_all(&self) -> (out: Vec<ResolvedEngine>)
        ensures
            engines_view(out@) == self.entries(),
    {
        entries_to_vec(&self.mapping)
    }

    /// Selection for a fail-over distributor: the entry keyed by the primary.
    fn select_single_failover(&self, primary_engine: usize) -> (r: Result<Vec<ResolvedEngine>, Error>)
        ensures
            r is Ok <==> seq_has_key(self.entries(), primary_engine),
            r matches Ok(out) ==> engines_view(out@) == seq![
                (primary_engine, key_value(self.entries(), primary_engine)),
            ],
            r matches Err(e) ==> (e matches Error::EngineNotConfigured { engine, vdb } && engine
                == primary_engine && vdb@ == self.spec_name()),
    {
        match imap_get(&self.mapping, primary_engine) {
            Some(value) => {
                let out = vec![ResolvedEngine { engine: primary_engine, databasematch: value }];
                proof {
                    assert(engines_view(out@) =~= seq![
                        (primary_engine, key_value(self.entries(), primary_engine)),
                    ]);
                }
                Ok(out)
            },
            None => Err(
                Error::EngineNotConfigured { engine: primary_engine, vdb: self.name.clone() },
            ),
        }
    }

    /// Selection for a load-balancing distributor: one mapping entry, picked
    /// uniformly at random.
    fn select_single_loadbalance(&self) -> (r: Result<Vec<ResolvedEngine>, Error>)
        ensures
            r is Ok <==> self.entries().len() != 0,
            r matches Ok(out) ==> engines_view(out@).len() == 1 && (exists|i: int|
                0 <= i < self.entries().len() && engines_view(out@)[0] == self.entries()[i]),
            r matches Err(e) ==> (e matches Error::SelectionEmpty { vdb } && vdb@
                == self.spec_name()),
    {
        let n = imap_len(&self.mapping);
        if n == 0 {
            Err(Error::SelectionEmpty { vdb: self.name.clone() })
        } else {
            let idx = random_usize() % n;
            let entry = imap_get_index(&self.mapping, idx);
            let out = vec![ResolvedEngine { engine: entry.0, databasematch: entry.1 }];
            proof {
                assert(engines_view(out@)[0] == self.entries()[idx as int]);
            }
            Ok(out)
        }
    }
}

impl DatabaseMapping for VDB {
    /// Selection never fails on a combinator; on a distributor it fails exactly
    /// when the policy is blocked, naming the VDB in the error.
    fn select_database(&self) -> (r: Result<Vec<ResolvedEngine>, Error>)
        ensures
            r is Ok <==> !selection_blocked(self.spec_kind(), self.entries()),
            r matches Ok(out) ==> selection_ok(self.spec_kind(), self.entries(), engines_view(out@)),
            r matches Err(e) ==> selection_error_ok(self.spec_kind(), self.spec_name(), e),
    {
        match &self.kind {
            VDBKind::Combinator => Ok(self.select_all()),
            VDBKind::Distributor(DistributionMethod::LoadBalance) => {
                self.select_single_loadbalance()
            },
            VDBKind::Distributor(DistributionMethod::FailOver(p)) => {
                self.select_single_failover(*p)
            },
        }
    }

    /// Succeeds exactly on a fail-over distributor whose mapping carries the
    /// new primary; every failure leaves the VDB unchanged.  The target is
    /// validated against the mapping's actual key set, never against its entry
    /// count, matching the membership check that fail-over selection itself
    /// performs.
    fn set_primary_engine(&mut self, primary_engine: usize) -> (r: Result<(), Error>)
        ensures
            r is Ok <==> (old(self).spec_kind() matches VDBKind::Distributor(
                DistributionMethod::FailOver(_),
            ) && seq_has_key(old(self).entries(), primary_engine)),
            r is Ok ==> final(self).spec_kind() == VDBKind::Distributor(
                DistributionMethod::FailOver(primary_engine),
            ) && final(self).entries() == old(self).entries() && final(self).spec_name() == old(
                self,
            ).spec_name(),
            r is Err ==> *final(self) == *old(self),
            r matches Err(e) ==> (match old(self).spec_kind() {
                VDBKind::Combinator => e matches Error::InvalidOperation,
                VDBKind::Distributor(DistributionMethod::LoadBalance) => e
                    matches Error::InvalidOperation,
                VDBKind::Distributor(DistributionMethod::FailOver(_)) => e
                    matches Error::OutOfRange,
            }),
    {
        proof {
            use_type_invariant(&*self);
        }
        match &self.kind {
            VDBKind::Combinator => Err(Error::InvalidOperation),
            VDBKind::Distributor(DistributionMethod::LoadBalance) => Err(Error::InvalidOperation),
            VDBKind::Distributor(DistributionMethod::FailOver(_)) => {
                match imap_get(&self.mapping, primary_engine) {
                    Some(_) => {
                        self.kind = VDBKind::Distributor(
                            DistributionMethod::FailOver(primary_engine),
                        );
                        Ok(())
                    },
                    None => Err(Error::OutOfRange),
                }
            },
        }
    }
}

/// Law: a combinator's selection is determined by its mapping — any two
/// selections the contract of `select_database` admits for the same VDB are
/// equal.
pub proof fn lemma_combinator_deterministic(
    v: &VDB,
    s1: Seq<(usize, Seq<char>)>,
    s2: Seq<(usize, Seq<char>)>,
)
    requires
        v.spec_kind() is Combinator,
        selection_ok(v.spec_kind(), v.entries(), s1),
        selection_ok(v.spec_kind(), v.entries(), s2),
    ensures
        s1 == s2,
{
}

/// Law: selection never invents an engine — every pair a selection returns is
/// an entry of the VDB's own mapping, whatever the kind.
pub proof fn lemma_selection_within_mapping(
    kind: VDBKind,
    entries: Seq<(usize, Seq<char>)>,
    sel: Seq<(usize, Seq<char>)>,
)
    requires
        selection_ok(kind, entries, sel),
    ensures
        forall|j: int| 0 <= j < sel.len() ==> entries.contains(#[trigger] sel[j]),
{
    match kind {
        VDBKind::Combinator => {
            assert forall|j: int| 0 <= j < sel.len() implies entries.contains(sel[j]) by {
                assert(entries[j] == sel[j]);
            }
        },
        VDBKind::Distributor(DistributionMethod::LoadBalance) => {
            assert forall|j: int| 0 <= j < sel.len() implies entries.contains(sel[j]) by {
                let i = choose|i: int| 0 <= i < entries.len() && sel[0] == entries[i];
                assert(entries[i] == sel[j]);
            }
        },
        VDBKind::Distributor(DistributionMethod::FailOver(p)) => {
            lemma_first_key_index(entries, p);
            let i = first_key_index(entries, p);
            assert forall|j: int| 0 <= j < sel.len() implies entries.contains(sel[j]) by {
                assert(entries[i] == sel[j]);
            }
        },
    }
}

/// Law: a deterministic, unblocked VDB has exactly one admissible selection,
/// `det_selection`.
pub proof fn lemma_det_selection(
    kind: VDBKind,
    entries: Seq<(usize, Seq<char>)>,
    sel: Seq<(usize, Seq<char>)>,
)
    requires
        deterministic_kind(kind),
        selection_ok(kind, entries, sel),
    ensures
        sel == det_selection(kind, entries),
{
}

} // verus!
