//! The VDB collection and cross-VDB resolution.
//!
//! A [`VDBCollection`] owns its VDBs, keyed by VDB name.  Resolution turns a
//! comma-separated name list into one merged, per-engine view: every named VDB
//! is selected in list order, and each engine's database names are joined with
//! `','` in the order they were produced, the engine's position being fixed by
//! the first VDB that referenced it.

use crate::engine_map::{imap_get, imap_insert, imap_model, imap_new};
use crate::errors::Error;
use crate::seq_keys::{first_key_index, key_value, lemma_first_key_index, seq_has_key, unique_keys};
use crate::text::{spec_split, split_commas};
use crate::vdb::{
    det_selection, deterministic_kind, engines_view, entries_to_vec, selection_blocked,
    selection_error_ok, selection_ok, DatabaseMapping, ResolvedEngine, VDB,
};
use vstd::prelude::*;
use vstd::string::StringExecFns;

verus! {

/// A collection of VDBs, keyed by VDB name, in insertion order.
pub struct VDBCollection {
    vdbs: Vec<VDB>,
}

/// Resolution of a comma-separated VDB name list against a collection.
pub trait VDBResolver {
    /// Resolves every named VDB and merges the selections by engine.
    fn resolve(&self, databasematch: String) -> Result<Vec<ResolvedEngine>, Error>;
}

/// The VDB stored under `name`.
pub open spec fn vdb_of(model: Seq<(Seq<char>, VDB)>, name: Seq<char>) -> VDB {
    key_value(model, name)
}

/// The requested names that the collection does not hold, in request order.
pub open spec fn missing_names(
    model: Seq<(Seq<char>, VDB)>,
    tokens: Seq<Seq<char>>,
) -> Seq<Seq<char>>
    decreases tokens.len(),
{
    if tokens.len() == 0 {
        Seq::empty()
    } else {
        let rest = missing_names(model, tokens.subrange(1, tokens.len() as int));
        if seq_has_key(model, tokens[0]) {
            rest
        } else {
            seq![tokens[0]] + rest
        }
    }
}

/// How one more token extends the missing names: a known name adds nothing, an
/// unknown one is appended.
proof fn lemma_missing_push(model: Seq<(Seq<char>, VDB)>, tokens: Seq<Seq<char>>, t: Seq<char>)
    ensures
        missing_names(model, tokens.push(t)) == if seq_has_key(model, t) {
            missing_names(model, tokens)
        } else {
            missing_names(model, tokens).push(t)
        },
    decreases tokens.len(),
{
    reveal_with_fuel(missing_names, 3);
    if tokens.len() == 0 {
        assert(tokens.push(t)[0] == t);
        assert(tokens.push(t).subrange(1, 1) =~= Seq::<Seq<char>>::empty());
        if !seq_has_key(model, t) {
            assert(missing_names(model, tokens.push(t)) =~= missing_names(model, tokens).push(t));
        }
    } else {
        assert(tokens.push(t)[0] == tokens[0]);
        assert(tokens.push(t).subrange(1, tokens.len() as int + 1) =~= tokens.subrange(
            1,
            tokens.len() as int,
        ).push(t));
        lemma_missing_push(model, tokens.subrange(1, tokens.len() as int), t);
        if !seq_has_key(model, t) {
            if seq_has_key(model, tokens[0]) {
            } else {
                assert(missing_names(model, tokens.push(t)) =~= missing_names(
                    model,
                    tokens,
                ).push(t));
            }
        }
    }
}

/// A request with no missing names holds only known names.
proof fn lemma_missing_none(model: Seq<(Seq<char>, VDB)>, tokens: Seq<Seq<char>>)
    requires
        missing_names(model, tokens).len() == 0,
    ensures
        forall|i: int| 0 <= i < tokens.len() ==> seq_has_key(model, #[trigger] tokens[i]),
    decreases tokens.len(),
{
    if tokens.len() != 0 {
        let rest = tokens.subrange(1, tokens.len() as int);
        lemma_missing_none(model, rest);
        assert forall|i: int| 0 <= i < tokens.len() implies seq_has_key(
            model,
            #[trigger] tokens[i],
        ) by {
            if i >= 1 {
                assert(rest[i - 1] == tokens[i]);
            }
        }
    }
}

/// True when selection on the VDB named by `tokens[i]` is owed no result.
pub open spec fn token_blocked(
    model: Seq<(Seq<char>, VDB)>,
    tokens: Seq<Seq<char>>,
    i: int,
) -> bool {
    selection_blocked(vdb_of(model, tokens[i]).spec_kind(), vdb_of(model, tokens[i]).entries())
}

/// Index of the first token whose VDB's selection is blocked, or -1 when every
/// named VDB owes a selection.
pub open spec fn first_blocked(model: Seq<(Seq<char>, VDB)>, tokens: Seq<Seq<char>>) -> int
    decreases tokens.len(),
{
    if tokens.len() == 0 {
        -1
    } else if token_blocked(model, tokens, 0) {
        0
    } else {
        let r = first_blocked(model, tokens.subrange(1, tokens.len() as int));
        if r == -1 {
            -1
        } else {
            1 + r
        }
    }
}

/// `first_blocked` finds exactly the blocked tokens, and the first of them.
pub proof fn lemma_first_blocked(model: Seq<(Seq<char>, VDB)>, tokens: Seq<Seq<char>>)
    ensures
        (first_blocked(model, tokens) == -1 <==> (forall|i: int|
            0 <= i < tokens.len() ==> !token_blocked(model, tokens, i))),
        first_blocked(model, tokens) != -1 ==> {
            let b = first_blocked(model, tokens);
            &&& 0 <= b < tokens.len()
            &&& token_blocked(model, tokens, b)
            &&& forall|i: int| 0 <= i < b ==> !token_blocked(model, tokens, i)
        },
    decreases tokens.len(),
{
    if tokens.len() != 0 && !token_blocked(model, tokens, 0) {
        let t = tokens.subrange(1, tokens.len() as int);
        lemma_first_blocked(model, t);
        assert forall|i: int| 0 <= i < t.len() implies token_blocked(model, t, i)
            == token_blocked(model, tokens, i + 1) by {
            assert(t[i] == tokens[i + 1]);
        }
        if first_blocked(model, t) == -1 {
            assert forall|i: int| 0 <= i < tokens.len() implies !token_blocked(
                model,
                tokens,
                i,
            ) by {
                if i >= 1 {
                    assert(!token_blocked(model, t, i - 1));
                }
            }
        } else {
            let bt = first_blocked(model, t);
            assert(token_blocked(model, tokens, bt + 1));
            assert forall|i: int| 0 <= i < bt + 1 implies !token_blocked(model, tokens, i) by {
                if i >= 1 {
                    assert(!token_blocked(model, t, i - 1));
                }
            }
        }
    }
}

/// One selected engine folded into the aggregate: an engine seen before gets
/// the new database name appended after a comma, a new engine opens a slot at
/// the end.
pub open spec fn agg_insert(acc: Seq<(usize, Seq<char>)>, e: (usize, Seq<char>)) -> Seq<
    (usize, Seq<char>),
> {
    if seq_has_key(acc, e.0) {
        let i = first_key_index(acc, e.0);
        acc.update(i, (e.0, acc[i].1 + seq![','] + e.1))
    } else {
        acc.push(e)
    }
}

/// One VDB's selections folded into the aggregate, in selection order.
pub open spec fn agg_insert_seq(
    acc: Seq<(usize, Seq<char>)>,
    sel: Seq<(usize, Seq<char>)>,
) -> Seq<(usize, Seq<char>)>
    decreases sel.len(),
{
    if sel.len() == 0 {
        acc
    } else {
        agg_insert_seq(agg_insert(acc, sel[0]), sel.subrange(1, sel.len() as int))
    }
}

/// Every named VDB's selections folded into the aggregate, in request order.
pub open spec fn agg_all(
    acc: Seq<(usize, Seq<char>)>,
    sels: Seq<Seq<(usize, Seq<char>)>>,
) -> Seq<(usize, Seq<char>)>
    decreases sels.len(),
{
    if sels.len() == 0 {
        acc
    } else {
        agg_all(agg_insert_seq(acc, sels[0]), sels.subrange(1, sels.len() as int))
    }
}

proof fn lemma_agg_insert_seq_push(
    acc: Seq<(usize, Seq<char>)>,
    sel: Seq<(usize, Seq<char>)>,
    e: (usize, Seq<char>),
)
    ensures
        agg_insert_seq(acc, sel.push(e)) == agg_insert(agg_insert_seq(acc, sel), e),
    decreases sel.len(),
{
    reveal_with_fuel(agg_insert_seq, 3);
    if sel.len() == 0 {
        assert(sel.push(e)[0] == e);
        assert(sel.push(e).subrange(1, 1) =~= Seq::<(usize, Seq<char>)>::empty());
    } else {
        assert(sel.push(e)[0] == sel[0]);
        assert(sel.push(e).subrange(1, sel.len() as int + 1) =~= sel.subrange(
            1,
            sel.len() as int,
        ).push(e));
        lemma_agg_insert_seq_push(agg_insert(acc, sel[0]), sel.subrange(1, sel.len() as int), e);
    }
}

proof fn lemma_agg_all_push(
    acc: Seq<(usize, Seq<char>)>,
    sels: Seq<Seq<(usize, Seq<char>)>>,
    sel: Seq<(usize, Seq<char>)>,
)
    ensures
        agg_all(acc, sels.push(sel)) == agg_insert_seq(agg_all(acc, sels), sel),
    decreases sels.len(),
{
    reveal_with_fuel(agg_all, 3);
    if sels.len() == 0 {
        assert(sels.push(sel)[0] == sel);
        assert(sels.push(sel).subrange(1, 1) =~= Seq::<Seq<(usize, Seq<char>)>>::empty());
    } else {
        assert(sels.push(sel)[0] == sels[0]);
        assert(sels.push(sel).subrange(1, sels.len() as int + 1) =~= sels.subrange(
            1,
            sels.len() as int,
        ).push(sel));
        lemma_agg_all_push(agg_insert_seq(acc, sels[0]), sels.subrange(1, sels.len() as int), sel);
    }
}

/// True when `sels` are admissible selections for the first `sels.len()`
/// tokens.
pub open spec fn selections_ok_prefix(
    model: Seq<(Seq<char>, VDB)>,
    tokens: Seq<Seq<char>>,
    sels: Seq<Seq<(usize, Seq<char>)>>,
) -> bool {
    &&& sels.len() <= tokens.len()
    &&& forall|i: int|
        0 <= i < sels.len() ==> selection_ok(
            vdb_of(model, tokens[i]).spec_kind(),
            vdb_of(model, tokens[i]).entries(),
            #[trigger] sels[i],
        )
}

/// True when `sels` are admissible selections for the whole request.
pub open spec fn selections_ok(
    model: Seq<(Seq<char>, VDB)>,
    tokens: Seq<Seq<char>>,
    sels: Seq<Seq<(usize, Seq<char>)>>,
) -> bool {
    sels.len() == tokens.len() && selections_ok_prefix(model, tokens, sels)
}

/// True when no named VDB load-balances, so that resolution is a function of
/// the collection's state alone.
pub open spec fn all_deterministic(model: Seq<(Seq<char>, VDB)>, tokens: Seq<Seq<char>>) -> bool {
    forall|i: int|
        0 <= i < tokens.len() ==> deterministic_kind(
            vdb_of(model, #[trigger] tokens[i]).spec_kind(),
        )
}

/// The one selection per token that a fully deterministic request produces.
pub open spec fn det_selections(model: Seq<(Seq<char>, VDB)>, tokens: Seq<Seq<char>>) -> Seq<
    Seq<(usize, Seq<char>)>,
> {
    Seq::new(
        tokens.len(),
        |i: int|
            det_selection(vdb_of(model, tokens[i]).spec_kind(), vdb_of(model, tokens[i]).entries()),
    )
}

/// Everything `resolve` promises, over the collection's contents, the request
/// string, and the result.
///
/// With a missing name the request fails up front, naming every missing token;
/// otherwise, if some named VDB's selection is blocked, the first such VDB's
/// selection error is returned and no partial result escapes; otherwise the
/// result is the aggregation of one admissible selection per token — and, when
/// no named VDB load-balances, of exactly the deterministic selections.
pub open spec fn resolve_post(
    model: Seq<(Seq<char>, VDB)>,
    input: Seq<char>,
    r: Result<Vec<ResolvedEngine>, Error>,
) -> bool {
    let tokens = spec_split(input);
    let missing = missing_names(model, tokens);
    if missing.len() > 0 {
        r matches Err(e) && (e matches Error::UnknownVDB { names } && names.deep_view() == missing)
    } else if first_blocked(model, tokens) == -1 {
        &&& r matches Ok(out) && (exists|sels: Seq<Seq<(usize, Seq<char>)>>|
            #![trigger selections_ok(model, tokens, sels)]
            selections_ok(model, tokens, sels) && engines_view(out@) == agg_all(
                Seq::empty(),
                sels,
            ))
        &&& (all_deterministic(model, tokens) ==> (r matches Ok(out) && engines_view(out@)
            == agg_all(Seq::empty(), det_selections(model, tokens))))
    } else {
        let b = first_blocked(model, tokens);
        r matches Err(e) && selection_error_ok(
            vdb_of(model, tokens[b]).spec_kind(),
            vdb_of(model, tokens[b]).spec_name(),
            e,
        )
    }
}

impl VDBCollection {
    /// The collection never holds two VDBs of the same name.
    #[verifier::type_invariant]
    spec fn inv(&self) -> bool {
        unique_keys(self.model())
    }

    /// The collection's contents: `(name, VDB)` pairs in insertion order.
    pub closed spec fn model(&self) -> Seq<(Seq<char>, VDB)> {
        self.vdbs@.map_values(|v: VDB| (v.spec_name(), v))
    }

    /// Creates an empty collection.
    pub fn new() -> (c: VDBCollection)
        ensures
            c.model() == Seq::<(Seq<char>, VDB)>::empty(),
    {
        let c = VDBCollection { vdbs: Vec::new() };
        proof {
            assert(c.model() =~= Seq::<(Seq<char>, VDB)>::empty());
        }
        c
    }

    /// Adds a VDB under its own name, or replaces the VDB of that name in
    /// place.
    pub fn add_vdb(&mut self, vdb: VDB)
        ensures
            !seq_has_key(old(self).model(), vdb.spec_name()) ==> final(self).model() == old(
                self,
            ).model().push((vdb.spec_name(), vdb)),
            seq_has_key(old(self).model(), vdb.spec_name()) ==> final(self).model() == old(
                self,
            ).model().update(
                first_key_index(old(self).model(), vdb.spec_name()),
                (vdb.spec_name(), vdb),
            ),
    {
        proof {
            use_type_invariant(&*self);
        }
        let ghost orig = self.model();
        let ghost vname = vdb.spec_name();
        let ghost vsnap = vdb;
        let mut list: Vec<VDB> = Vec::new();
        core::mem::swap(&mut list, &mut self.vdbs);
        let n = list.len();
        let mut i: usize = 0;
        while i < n
            invariant
                n == list@.len(),
                i <= n,
                vdb == vsnap,
                vname == vsnap.spec_name(),
                unique_keys(orig),
                orig == old(self).model(),
                orig == list@.map_values(|v: VDB| (v.spec_name(), v)),
                forall|j: int| 0 <= j < i ==> (#[trigger] orig[j]).0 != vname,
            decreases n - i,
        {
            if list[i].name().eq(vdb.name()) {
                let ghost snapshot = list@;
                proof {
                    assert(orig[i as int] == (snapshot[i as int].spec_name(), snapshot[i as int]));
                    assert(orig[i as int].0 == vname);
                    assert(seq_has_key(orig, vname));
                    lemma_first_key_index(orig, vname);
                    let f = first_key_index(orig, vname);
                    if f < i as int {
                        assert(orig[f].0 == vname);
                    }
                    assert(f == i as int);
                }
                list[i] = vdb;
                proof {
                    let updated = list@.map_values(|v: VDB| (v.spec_name(), v));
                    assert(list@ == snapshot.update(i as int, vsnap));
                    assert forall|j: int| 0 <= j < updated.len() implies updated[j] == orig.update(
                        i as int,
                        (vname, vsnap),
                    )[j] by {
                        if j != i as int {
                            assert(list@[j] == snapshot[j]);
                            assert(orig[j] == (snapshot[j].spec_name(), snapshot[j]));
                        } else {
                            assert(list@[j] == vsnap);
                        }
                    }
                    assert(updated =~= orig.update(i as int, (vname, vsnap)));
                    assert forall|p: int, q: int|
                        0 <= p < q < updated.len() implies updated[p].0 != updated[q].0 by {
                        assert(updated[p].0 == orig[p].0);
                        assert(updated[q].0 == orig[q].0);
                    }
                }
                self.vdbs = list;
                return ;
            }
            proof {
                assert(orig[i as int] == (list@[i as int].spec_name(), list@[i as int]));
                assert(orig[i as int].0 != vname);
            }
            i += 1;
        }
        proof {
            assert(!seq_has_key(orig, vname));
        }
        let ghost snapshot = list@;
        list.push(vdb);
        proof {
            let pushed = list@.map_values(|v: VDB| (v.spec_name(), v));
            assert(list@ == snapshot.push(vsnap));
            assert forall|j: int| 0 <= j < pushed.len() implies pushed[j] == orig.push(
                (vname, vsnap),
            )[j] by {
                if j < orig.len() {
                    assert(list@[j] == snapshot[j]);
                    assert(orig[j] == (snapshot[j].spec_name(), snapshot[j]));
                } else {
                    assert(list@[j] == vsnap);
                }
            }
            assert(pushed =~= orig.push((vname, vsnap)));
            assert forall|p: int, q: int|
                0 <= p < q < pushed.len() implies pushed[p].0 != pushed[q].0 by {
                if q < orig.len() {
                    assert(pushed[p].0 == orig[p].0);
                    assert(pushed[q].0 == orig[q].0);
                } else {
                    assert(pushed[p].0 == orig[p].0);
                    assert(pushed[q].0 == vname);
                }
            }
        }
        self.vdbs = list;
    }

    /// Looks a VDB up by name.
    fn find_vdb(&self, name: &String) -> (r: Option<&VDB>)
        ensures
            match r {
                Some(v) => seq_has_key(self.model(), name@) && *v == vdb_of(self.model(), name@),
                None => !seq_has_key(self.model(), name@),
            },
    {
        proof {
            use_type_invariant(&*self);
        }
        let n = self.vdbs.len();
        let mut i: usize = 0;
        while i < n
            invariant
                n == self.vdbs@.len(),
                i <= n,
                forall|j: int| 0 <= j < i ==> (#[trigger] self.model()[j]).0 != name@,
            decreases n - i,
        {
            if self.vdbs[i].name().eq(name) {
                proof {
                    assert(self.model()[i as int].0 == name@);
                    assert(seq_has_key(self.model(), name@));
                    lemma_first_key_index(self.model(), name@);
                    let f = first_key_index(self.model(), name@);
                    if f < i as int {
                        assert(self.model()[f].0 != name@);
                    }
                    assert(f == i as int);
                }
                return Some(&self.vdbs[i]);
            }
            proof {
                assert(self.model()[i as int].0 != name@);
            }
            i += 1;
        }
        proof {
            lemma_first_key_index(self.model(), name@);
        }
        None
    }
}

impl VDBResolver for VDBCollection {
    /// All-or-nothing name validation, per-VDB selection in request order, and
    /// aggregation by engine in first-seen order; `resolve_post` states the
    /// whole outcome.
    fn resolve(&self, databasematch: String) -> (r: Result<Vec<ResolvedEngine>, Error>)
        ensures
            resolve_post(self.model(), databasematch@, r),
    {
        let ghost model = self.model();
        let tokens = split_commas(databasematch.as_str());
        let ghost toks = tokens.deep_view();
        let n = tokens.len();
        let mut missing: Vec<String> = Vec::new();
        let mut i: usize = 0;
        proof {
            assert(toks.subrange(0, 0) =~= Seq::<Seq<char>>::empty());
            assert(missing.deep_view() =~= missing_names(model, toks.subrange(0, 0)));
        }
        while i < n
            invariant
                n == tokens@.len(),
                i <= n,
                model == self.model(),
                toks == tokens.deep_view(),
                missing.deep_view() == missing_names(model, toks.subrange(0, i as int)),
            decreases n - i,
        {
            let ghost mdv = missing.deep_view();
            let ghost tok = toks[i as int];
            proof {
                assert(tok == tokens@[i as int]@);
                assert(toks.subrange(0, i as int + 1) =~= toks.subrange(0, i as int).push(tok));
                lemma_missing_push(model, toks.subrange(0, i as int), tok);
            }
            let present = match self.find_vdb(&tokens[i]) {
                Some(_) => true,
                None => false,
            };
            if !present {
                missing.push(tokens[i].clone());
                proof {
                    assert(missing.deep_view() =~= mdv.push(tok));
                }
            }
            i += 1;
        }
        proof {
            assert(toks.subrange(0, n as int) =~= toks);
        }
        if missing.len() > 0 {
            return Err(Error::UnknownVDB { names: missing });
        }
        proof {
            lemma_missing_none(model, toks);
        }
        let mut acc = imap_new();
        let ghost mut sels: Seq<Seq<(usize, Seq<char>)>> = Seq::empty();
        let mut j: usize = 0;
        while j < n
            invariant
                n == tokens@.len(),
                j <= n,
                model == self.model(),
                toks == tokens.deep_view(),
                toks == spec_split(databasematch@),
                missing_names(model, toks).len() == 0,
                forall|k: int| 0 <= k < toks.len() ==> seq_has_key(model, #[trigger] toks[k]),
                sels.len() == j,
                selections_ok_prefix(model, toks, sels),
                forall|k: int| 0 <= k < sels.len() ==> !token_blocked(model, toks, k),
                forall|k: int|
                    0 <= k < sels.len() && deterministic_kind(
                        vdb_of(model, toks[k]).spec_kind(),
                    ) ==> #[trigger] sels[k] == det_selection(
                        vdb_of(model, toks[k]).spec_kind(),
                        vdb_of(model, toks[k]).entries(),
                    ),
                imap_model(&acc) == agg_all(Seq::<(usize, Seq<char>)>::empty(), sels),
            decreases n - j,
        {
            let ghost tok = toks[j as int];
            proof {
                assert(tok == tokens@[j as int]@);
            }
            match self.find_vdb(&tokens[j]) {
                Some(v) => {
                    proof {
                        assert(*v == vdb_of(model, tok));
                    }
                    match v.select_database() {
                        Ok(result) => {
                            let ghost sel = engines_view(result@);
                            proof {
                                assert(selection_ok(v.spec_kind(), v.entries(), sel));
                            }
                            let m = result.len();
                            let ghost acc0 = imap_model(&acc);
                            let mut k: usize = 0;
                            proof {
                                assert(sel.subrange(0, 0) =~= Seq::<(usize, Seq<char>)>::empty());
                            }
                            while k < m
                                invariant
                                    m == result@.len(),
                                    k <= m,
                                    sel == engines_view(result@),
                                    imap_model(&acc) == agg_insert_seq(
                                        acc0,
                                        sel.subrange(0, k as int),
                                    ),
                                decreases m - k,
                            {
                                let eng = result[k].engine;
                                let ghost acck = imap_model(&acc);
                                let ghost e = sel[k as int];
                                proof {
                                    assert(e == (
                                        result@[k as int].engine,
                                        result@[k as int].databasematch@,
                                    ));
                                }
                                match imap_get(&acc, eng) {
                                    Some(cur) => {
                                        let joined = cur.concat(",").concat(
                                            result[k].databasematch.as_str(),
                                        );
                                        proof {
                                            reveal_strlit(",");
                                            assert(","@ =~= seq![',']);
                                            assert(joined@ == key_value(acck, eng) + seq![',']
                                                + e.1);
                                        }
                                        imap_insert(&mut acc, eng, joined);
                                        proof {
                                            assert(imap_model(&acc) == agg_insert(acck, e));
                                        }
                                    },
                                    None => {
                                        imap_insert(&mut acc, eng, result[k].databasematch.clone());
                                        proof {
                                            assert(imap_model(&acc) == agg_insert(acck, e));
                                        }
                                    },
                                }
                                proof {
                                    assert(sel.subrange(0, k as int + 1) =~= sel.subrange(
                                        0,
                                        k as int,
                                    ).push(e));
                                    lemma_agg_insert_seq_push(acc0, sel.subrange(0, k as int), e);
                                }
                                k += 1;
                            }
                            proof {
                                assert(sel.subrange(0, m as int) =~= sel);
                                lemma_agg_all_push(Seq::<(usize, Seq<char>)>::empty(), sels, sel);
                                if deterministic_kind(v.spec_kind()) {
                                    crate::vdb::lemma_det_selection(v.spec_kind(), v.entries(), sel);
                                }
                                sels = sels.push(sel);
                            }
                        },
                        Err(e) => {
                            proof {
                                assert(token_blocked(model, toks, j as int));
                                lemma_first_blocked(model, toks);
                                let b = first_blocked(model, toks);
                                if b < j as int {
                                    assert(!token_blocked(model, toks, b));
                                }
                                assert(b == j as int);
                            }
                            return Err(e);
                        },
                    }
                },
                None => {
                    proof {
                        assert(seq_has_key(model, toks[j as int]));
                        assert(false);
                    }
                    return Err(Error::InternalAggregationError);
                },
            }
            j += 1;
        }
        let out = entries_to_vec(&acc);
        proof {
            lemma_first_blocked(model, toks);
            assert(selections_ok(model, toks, sels));
            if all_deterministic(model, toks) {
                assert(sels =~= det_selections(model, toks));
            }
        }
        Ok(out)
    }
}

/// Law: resolution is read-only and, when no named VDB load-balances,
/// deterministic — any two results that the contract of `resolve` admits for
/// the same collection contents and the same request are the same outcome,
/// with equal selections.
pub proof fn lemma_resolve_deterministic(
    model: Seq<(Seq<char>, VDB)>,
    input: Seq<char>,
    r1: Result<Vec<ResolvedEngine>, Error>,
    r2: Result<Vec<ResolvedEngine>, Error>,
)
    requires
        all_deterministic(model, spec_split(input)),
        resolve_post(model, input, r1),
        resolve_post(model, input, r2),
    ensures
        r1 is Ok <==> r2 is Ok,
        r1 matches Ok(o1) ==> (r2 matches Ok(o2) ==> engines_view(o1@) == engines_view(o2@)),
{
}

} // verus!
