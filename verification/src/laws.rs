//! The laws of the splitter and the rewriter, stated over the spec functions
//! that the executable contracts use, and proved from them.

use vstd::prelude::*;
use crate::anchor::SplitState;
use crate::anchor::spec_following_after;
use crate::anchor::spec_split_required;
use crate::anchor::extend_unique;
use crate::anchor::filter_out;
use crate::anchor::required_uniq;
use crate::anchor::spec_admit;
use crate::anchor::spec_init_state;
use crate::anchor::spec_missing;
use crate::anchor::spec_wildcard_cids;
use crate::anchor::split_results;
use crate::collector::assoc_has_key;
use crate::collector::assoc_redirect;
use crate::collector::spec_redirect_expr;
use crate::collector::spec_redirect_table_ref;
use crate::collector::spec_redirect_transform;
use crate::context::AnchorContextV;
use crate::context::ColumnDeclV;
use crate::context::spec_collect_inputs;
use crate::requirements::Complexity;
use crate::requirements::Following;
use crate::requirements::reqs_of;
use crate::requirements::spec_requirements;
use crate::requirements::Requirement;
use crate::requirements::opt_expr_cids;
use crate::requirements::spec_can_materialize;
use crate::requirements::spec_infer_complexity;
use crate::requirements::spec_required_max;
use crate::rq::CId;
use crate::rq::ColumnSort;
use crate::rq::Compute;
use crate::rq::Expr;
use crate::rq::RelationColumnV;
use crate::rq::TransformV;
use crate::rq::expr_cids;
use crate::rq::table_ref_cids;

verus! {

// ---------------------------------------------------------------------------
// Materialization: the bound over the requirements is the tightest one
// ---------------------------------------------------------------------------

/// The gathered bound on a column is no looser than any single requirement
/// for it.
pub proof fn lemma_required_max_bound(col: CId, reqs: Seq<Requirement>)
    ensures
        forall|i: int|
            0 <= i < reqs.len() && (#[trigger] reqs[i]).col == col ==> spec_required_max(
                col,
                reqs,
            ).spec_le(reqs[i].max_complexity),
    decreases reqs.len(),
{
    if reqs.len() > 0 {
        lemma_required_max_bound(col, reqs.drop_last());
        assert forall|i: int|
            0 <= i < reqs.len() && (#[trigger] reqs[i]).col == col implies spec_required_max(
            col,
            reqs,
        ).spec_le(reqs[i].max_complexity) by {
            if i < reqs.len() - 1 {
                assert(reqs.drop_last()[i] == reqs[i]);
            }
        }
    }
}

/// Where the gathered bound refuses complexity `k`, some single requirement
/// already does.
pub proof fn lemma_required_max_witness(col: CId, reqs: Seq<Requirement>, k: Complexity)
    requires
        !k.spec_le(spec_required_max(col, reqs)),
    ensures
        exists|i: int|
            0 <= i < reqs.len() && (#[trigger] reqs[i]).col == col && !k.spec_le(
                reqs[i].max_complexity,
            ),
    decreases reqs.len(),
{
    if reqs.len() == 0 {
        assert(k.spec_le(Complexity::Aggregation));
    } else {
        let last = reqs.last();
        if last.col == col && !k.spec_le(last.max_complexity) {
            assert(reqs[reqs.len() - 1].col == col && !k.spec_le(
                reqs[reqs.len() - 1].max_complexity,
            ));
        } else {
            assert(!k.spec_le(spec_required_max(col, reqs.drop_last())));
            lemma_required_max_witness(col, reqs.drop_last(), k);
            let i = choose|i: int|
                0 <= i < reqs.drop_last().len() && (#[trigger] reqs.drop_last()[i]).col == col
                    && !k.spec_le(reqs.drop_last()[i].max_complexity);
            assert(reqs[i].col == col && !k.spec_le(reqs[i].max_complexity));
        }
    }
}

/// Materialization minimality: a compute is refused its place in the current
/// sub-pipeline iff at least one consumer gathered so far requires a
/// strictly lower complexity than the compute's own.
pub proof fn lemma_materialization_minimality(c: Compute, reqs: Seq<Requirement>)
    ensures
        !spec_can_materialize(c, reqs) <==> exists|i: int|
            0 <= i < reqs.len() && (#[trigger] reqs[i]).col == c.id
                && reqs[i].max_complexity.rank() < spec_infer_complexity(c).rank(),
{
    let k = spec_infer_complexity(c);
    if !spec_can_materialize(c, reqs) {
        lemma_required_max_witness(c.id, reqs, k);
    }
    if exists|i: int|
        0 <= i < reqs.len() && (#[trigger] reqs[i]).col == c.id && reqs[i].max_complexity.rank()
            < k.rank() {
        let i = choose|i: int|
            0 <= i < reqs.len() && (#[trigger] reqs[i]).col == c.id && reqs[i].max_complexity.rank()
                < k.rank();
        lemma_required_max_bound(c.id, reqs);
        assert(spec_required_max(c.id, reqs).spec_le(reqs[i].max_complexity));
    }
}

// ---------------------------------------------------------------------------
// No lost columns: the missing set is exact
// ---------------------------------------------------------------------------

/// `required_uniq` holds a column iff some requirement names it.
pub proof fn lemma_required_uniq_membership(reqs: Seq<Requirement>, c: CId)
    ensures
        required_uniq(reqs).contains(c) <==> exists|i: int|
            0 <= i < reqs.len() && (#[trigger] reqs[i]).col == c,
    decreases reqs.len(),
{
    if reqs.len() > 0 {
        lemma_required_uniq_membership(reqs.drop_last(), c);
        let prev = required_uniq(reqs.drop_last());
        if exists|i: int| 0 <= i < reqs.drop_last().len() && (#[trigger] reqs.drop_last()[i]).col
            == c {
            let i = choose|i: int|
                0 <= i < reqs.drop_last().len() && (#[trigger] reqs.drop_last()[i]).col == c;
            assert(reqs[i].col == c);
        }
        if required_uniq(reqs).contains(c) {
            if !prev.contains(c) && reqs.last().col != c {
                assert(required_uniq(reqs) == prev);
            }
        }
        if exists|i: int| 0 <= i < reqs.len() && (#[trigger] reqs[i]).col == c {
            let i = choose|i: int| 0 <= i < reqs.len() && (#[trigger] reqs[i]).col == c;
            if i < reqs.len() - 1 {
                assert(reqs.drop_last()[i].col == c);
                assert(prev.contains(c));
                if !prev.contains(reqs.last().col) {
                    assert(required_uniq(reqs) == prev.push(reqs.last().col));
                    assert(required_uniq(reqs)[choose|j: int|
                        0 <= j < prev.len() && prev[j] == c] == c);
                }
            } else {
                if !prev.contains(c) {
                    assert(required_uniq(reqs) == prev.push(c));
                    assert(required_uniq(reqs).last() == c);
                }
            }
        }
    }
}

/// `required_uniq` holds no duplicates.
pub proof fn lemma_required_uniq_nodup(reqs: Seq<Requirement>)
    ensures
        forall|i: int, j: int|
            0 <= i < j < required_uniq(reqs).len() ==> required_uniq(reqs)[i] != required_uniq(
                reqs,
            )[j],
    decreases reqs.len(),
{
    if reqs.len() > 0 {
        lemma_required_uniq_nodup(reqs.drop_last());
        let prev = required_uniq(reqs.drop_last());
        let cur = required_uniq(reqs);
        if !prev.contains(reqs.last().col) {
            assert forall|i: int, j: int| 0 <= i < j < cur.len() implies cur[i] != cur[j] by {
                if j < prev.len() {
                    assert(cur[i] == prev[i] && cur[j] == prev[j]);
                } else {
                    assert(cur[j] == reqs.last().col);
                    assert(cur[i] == prev[i]);
                    assert(!prev.contains(cur[j]));
                }
            }
        }
    }
}

/// `filter_out` keeps exactly the members that `avail` lacks.
pub proof fn lemma_filter_out_membership(s: Seq<CId>, avail: Seq<CId>, c: CId)
    ensures
        filter_out(s, avail).contains(c) <==> (s.contains(c) && !avail.contains(c)),
    decreases s.len(),
{
    if s.len() > 0 {
        lemma_filter_out_membership(s.drop_last(), avail, c);
        let prev = filter_out(s.drop_last(), avail);
        if s.drop_last().contains(c) {
            let i = choose|i: int| 0 <= i < s.drop_last().len() && s.drop_last()[i] == c;
            assert(s[i] == c);
        }
        if filter_out(s, avail).contains(c) && !prev.contains(c) {
            assert(c == s.last());
        }
        if prev.contains(c) && !avail.contains(s.last()) {
            let j = choose|j: int| 0 <= j < prev.len() && prev[j] == c;
            assert(filter_out(s, avail)[j] == c);
        }
        if s.contains(c) && !avail.contains(c) {
            let i = choose|i: int| 0 <= i < s.len() && s[i] == c;
            if i < s.len() - 1 {
                assert(s.drop_last()[i] == c);
            } else {
                assert(filter_out(s, avail).last() == c);
            }
        }
    }
}

/// `filter_out` of a duplicate-free list is duplicate-free.
pub proof fn lemma_filter_out_nodup(s: Seq<CId>, avail: Seq<CId>)
    requires
        forall|i: int, j: int| 0 <= i < j < s.len() ==> s[i] != s[j],
    ensures
        forall|i: int, j: int|
            0 <= i < j < filter_out(s, avail).len() ==> filter_out(s, avail)[i] != filter_out(
                s,
                avail,
            )[j],
    decreases s.len(),
{
    if s.len() > 0 {
        assert(forall|i: int, j: int|
            0 <= i < j < s.drop_last().len() ==> s.drop_last()[i] != s.drop_last()[j]);
        lemma_filter_out_nodup(s.drop_last(), avail);
        let prev = filter_out(s.drop_last(), avail);
        let cur = filter_out(s, avail);
        if !avail.contains(s.last()) {
            assert forall|i: int, j: int| 0 <= i < j < cur.len() implies cur[i] != cur[j] by {
                if j < prev.len() {
                    assert(cur[i] == prev[i] && cur[j] == prev[j]);
                } else {
                    assert(cur[j] == s.last());
                    assert(cur[i] == prev[i]);
                    lemma_filter_out_membership(s.drop_last(), avail, cur[i]);
                    assert(s.drop_last().contains(cur[i]));
                    let w = choose|w: int|
                        0 <= w < s.drop_last().len() && s.drop_last()[w] == cur[i];
                    assert(s[w] == cur[i]);
                    assert(s[w] != s.last());
                }
            }
        }
    }
}

/// No lost columns: the missing set is exactly the set of columns the
/// gathered requirements name, minus those the suffix itself produces, and
/// it holds no duplicates.
pub proof fn lemma_missing_exact(reqs: Seq<Requirement>, avail: Seq<CId>)
    ensures
        forall|c: CId|
            #[trigger] spec_missing(reqs, avail).contains(c) <==> ((exists|i: int|
                0 <= i < reqs.len() && (#[trigger] reqs[i]).col == c) && !avail.contains(c)),
        forall|i: int, j: int|
            0 <= i < j < spec_missing(reqs, avail).len() ==> spec_missing(reqs, avail)[i]
                != spec_missing(reqs, avail)[j],
{
    assert forall|c: CId|
        #[trigger] spec_missing(reqs, avail).contains(c) <==> ((exists|i: int|
            0 <= i < reqs.len() && (#[trigger] reqs[i]).col == c) && !avail.contains(c)) by {
        lemma_filter_out_membership(required_uniq(reqs), avail, c);
        lemma_required_uniq_membership(reqs, c);
    }
    lemma_required_uniq_nodup(reqs);
    lemma_filter_out_nodup(required_uniq(reqs), avail);
}

// ---------------------------------------------------------------------------
// Wildcard fallback: the synthesized SELECT list is non-empty
// ---------------------------------------------------------------------------

/// Extending never shortens the list.
pub proof fn lemma_extend_unique_len(base: Seq<CId>, add: Seq<CId>)
    ensures
        extend_unique(base, add).len() >= base.len(),
    decreases add.len(),
{
    if add.len() > 0 {
        lemma_extend_unique_len(base, add.drop_last());
    }
}

/// Wildcard fallback: the synthesized SELECT list is non-empty, given a
/// non-empty target output — or, where the target is empty, a remainder that
/// reads at least one table instance, so that the fallback can register a
/// wildcard for it. (With an empty target and a remainder that reads no
/// table, the list is empty: there is nothing to select from.)
pub proof fn lemma_select_list_nonempty(
    ctx0: AnchorContextV,
    output: Seq<CId>,
    pipeline: Seq<TransformV>,
)
    requires
        output.len() > 0 || spec_collect_inputs(
            ctx0,
            spec_admit(ctx0.column_decls, spec_init_state(output, pipeline)).rest,
        ).len() > 0,
    ensures
        split_results(ctx0, output, pipeline).1.len() > 0,
{
    let st = spec_admit(ctx0.column_decls, spec_init_state(output, pipeline));
    let sel = extend_unique(output, crate::anchor::selected_cols(st.required));
    lemma_extend_unique_len(output, crate::anchor::selected_cols(st.required));
    if sel.len() == 0 {
        let tiids = spec_collect_inputs(ctx0, st.rest);
        assert(split_results(ctx0, output, pipeline).1 == spec_wildcard_cids(
            ctx0.column_decls.len(),
            tiids.len(),
        ));
    }
}

// ---------------------------------------------------------------------------
// Stability: the split is a function of its inputs
// ---------------------------------------------------------------------------

/// Stability of identifiers: the splitter is deterministic. Two runs on the
/// same output and pipeline from equal contexts — in particular from two
/// independent fresh ones — produce identical suffixes, remainders, missing
/// sets and identifier allocations, so the renaming between them is the
/// identity.
pub proof fn lemma_split_stable(
    ctx1: AnchorContextV,
    ctx2: AnchorContextV,
    output: Seq<CId>,
    pipeline: Seq<TransformV>,
)
    requires
        ctx1 == ctx2,
    ensures
        split_results(ctx1, output, pipeline) == split_results(ctx2, output, pipeline),
{
}

// ---------------------------------------------------------------------------
// Closure and complexity monotonicity over the admission walk
// ---------------------------------------------------------------------------

/// Two `following` states that agree on everything but the `Select` bit; the
/// admission rule never reads that bit, so it cannot tell them apart.
pub open spec fn except_select(f: Following, g: Following) -> bool {
    f.from == g.from && f.join == g.join && f.filter == g.filter && f.compute == g.compute
        && f.aggregate == g.aggregate && f.sort == g.sort && f.take == g.take && f.unique
        == g.unique && f.concat == g.concat
}

/// A sequence of transforms is admissible from `f`: walked in order, none
/// forces a cut.
pub open spec fn admits_seq(f: Following, a: Seq<TransformV>) -> bool
    decreases a.len(),
{
    if a.len() == 0 {
        true
    } else {
        !spec_split_required(a[0], f) && admits_seq(
            spec_following_after(f, a[0]),
            a.subrange(1, a.len() as int),
        )
    }
}

/// Every compute in the walk could stay in place under the requirements
/// gathered up to and including its own.
pub open spec fn computes_ok(r0: Seq<Requirement>, f0: Following, a: Seq<TransformV>) -> bool
    decreases a.len(),
{
    if a.len() == 0 {
        true
    } else {
        let f1 = spec_following_after(f0, a[0]);
        let r1 = r0 + spec_requirements(a[0], f1);
        (a[0] matches TransformV::Compute(c) ==> spec_can_materialize(c, r1)) && computes_ok(
            r1,
            f1,
            a.subrange(1, a.len() as int),
        )
    }
}

/// The admission walk only ever admits what the rule allows: whatever it
/// appends beyond an already-reached state is admissible when replayed with
/// the same `following` (up to the irrelevant `Select` bit), and every
/// compute it admits passed its materialization check against the
/// requirements gathered by then.
#[verifier::rlimit(100)]
#[verifier::spinoff_prover]
proof fn lemma_admit_trace(decls: Seq<Option<ColumnDeclV>>, st: SplitState, g: Following)
    requires
        except_select(st.following, g),
    ensures
        spec_admit(decls, st).admitted_rev.len() >= st.admitted_rev.len(),
        spec_admit(decls, st).admitted_rev.subrange(0, st.admitted_rev.len() as int)
            == st.admitted_rev,
        admits_seq(g, spec_admit(decls, st).admitted_rev.skip(st.admitted_rev.len() as int)),
        computes_ok(
            st.required,
            g,
            spec_admit(decls, st).admitted_rev.skip(st.admitted_rev.len() as int),
        ),
    decreases st.rest.len(),
{
    let st2 = spec_admit(decls, st);
    let n = st.admitted_rev.len() as int;
    if st.rest.len() == 0 {
        assert(st2.admitted_rev.subrange(0, n) =~= st.admitted_rev);
        assert(st2.admitted_rev.skip(n) =~= Seq::<TransformV>::empty());
    } else {
        let t = st.rest.last();
        assert(spec_split_required(t, st.following) == spec_split_required(t, g));
        if spec_split_required(t, st.following) {
            assert(st2.admitted_rev.subrange(0, n) =~= st.admitted_rev);
            assert(st2.admitted_rev.skip(n) =~= Seq::<TransformV>::empty());
        } else {
            let f2 = spec_following_after(st.following, t);
            let g2 = spec_following_after(g, t);
            let req2 = st.required + spec_requirements(t, f2);
            assert(spec_requirements(t, f2) == spec_requirements(t, g2));
            assert(except_select(f2, g2));
            let stopped = (t matches TransformV::Compute(c) && !spec_can_materialize(c, req2)) || (
            t matches TransformV::Aggregate { compute, .. } && crate::anchor::spec_aggregate_blocked(
                decls,
                compute,
                req2,
            ));
            if stopped {
                assert(st2.admitted_rev == st.admitted_rev);
                assert(st2.admitted_rev.subrange(0, n) =~= st.admitted_rev);
                assert(st2.admitted_rev.skip(n) =~= Seq::<TransformV>::empty());
            } else if t is Select {
                let st_next = SplitState {
                    following: f2,
                    required: req2,
                    avail: st.avail,
                    admitted_rev: st.admitted_rev,
                    rest: st.rest.drop_last(),
                };
                assert(st2 == spec_admit(decls, st_next));
                assert(except_select(st_next.following, g));
                lemma_admit_trace(decls, st_next, g);
                assert(req2 =~= st.required);
            } else {
                let av2 = match t {
                    TransformV::Compute(c) => st.avail.push(c.id),
                    TransformV::From(tr) => st.avail + table_ref_cids(tr),
                    TransformV::Join { with, .. } => st.avail + table_ref_cids(with),
                    _ => st.avail,
                };
                let st_next = SplitState {
                    following: f2,
                    required: req2,
                    avail: av2,
                    admitted_rev: st.admitted_rev.push(t),
                    rest: st.rest.drop_last(),
                };
                assert(st2 == spec_admit(decls, st_next));
                lemma_admit_trace(decls, st_next, g2);
                let m = n + 1;
                assert(st_next.admitted_rev.len() as int == m);
                let delta2 = st2.admitted_rev.skip(m);
                let delta = st2.admitted_rev.skip(n);
                assert(st2.admitted_rev.subrange(0, m) == st.admitted_rev.push(t));
                assert(st2.admitted_rev.subrange(0, n) =~= st.admitted_rev);
                assert(delta[0] == st2.admitted_rev[n]);
                assert(st2.admitted_rev[n] == st.admitted_rev.push(t)[n]);
                assert(delta[0] == t);
                assert(delta.subrange(1, delta.len() as int) =~= delta2);
                assert(admits_seq(g, delta));
                assert(computes_ok(st.required, g, delta)) by {
                    assert(st.required + spec_requirements(t, g2) == req2);
                    assert(computes_ok(req2, g2, delta2));
                }
            }
        }
    }
}

proof fn lemma_admits_push_select(f: Following, a: Seq<TransformV>, sel: Seq<CId>)
    requires
        admits_seq(f, a),
    ensures
        admits_seq(f, a.push(TransformV::Select(sel))),
    decreases a.len(),
{
    let s = TransformV::Select(sel);
    let b = a.push(s);
    if a.len() == 0 {
        assert(b[0] == s);
        assert(!spec_split_required(s, f));
        assert(b.subrange(1, b.len() as int) =~= Seq::<TransformV>::empty());
        assert(admits_seq(spec_following_after(f, b[0]), b.subrange(1, b.len() as int)));
    } else {
        assert(b[0] == a[0]);
        assert(b.subrange(1, b.len() as int) =~= a.subrange(1, a.len() as int).push(s));
        lemma_admits_push_select(
            spec_following_after(f, a[0]),
            a.subrange(1, a.len() as int),
            sel,
        );
        assert(admits_seq(spec_following_after(f, b[0]), b.subrange(1, b.len() as int)));
    }
}

/// Closure after splitting: the suffix the splitter emits satisfies
/// canonical SELECT order. Walked tail-first — its admitted transforms in
/// admission order, the synthesized leading `Select` last — every transform
/// is admitted under the admission rule starting from an empty `following`.
/// The driver iterates the splitter on what remains, so every emitted
/// sub-pipeline has this shape.
pub proof fn lemma_closure_after_splitting(
    decls: Seq<Option<ColumnDeclV>>,
    output: Seq<CId>,
    pipeline: Seq<TransformV>,
    sel: Seq<CId>,
)
    ensures
        admits_seq(
            Following::spec_empty(),
            spec_admit(decls, spec_init_state(output, pipeline)).admitted_rev.push(
                TransformV::Select(sel),
            ),
        ),
{
    let st0 = spec_init_state(output, pipeline);
    lemma_admit_trace(decls, st0, Following::spec_empty());
    let st2 = spec_admit(decls, st0);
    assert(st2.admitted_rev.skip(0) =~= st2.admitted_rev);
    lemma_admits_push_select(Following::spec_empty(), st2.admitted_rev, sel);
}

/// Complexity monotonicity: within the emitted sub-pipeline, no transform
/// references a computed column at a complexity its consumers refuse —
/// walked tail-first, every admitted compute passes the materialization
/// check against the requirements of the transforms admitted after it and
/// of the target output (`lemma_materialization_minimality` spells that
/// check out per requirement).
pub proof fn lemma_complexity_monotonicity(
    decls: Seq<Option<ColumnDeclV>>,
    output: Seq<CId>,
    pipeline: Seq<TransformV>,
)
    ensures
        computes_ok(
            reqs_of(output, Complexity::Aggregation, true),
            Following::spec_empty(),
            spec_admit(decls, spec_init_state(output, pipeline)).admitted_rev,
        ),
{
    let st0 = spec_init_state(output, pipeline);
    lemma_admit_trace(decls, st0, Following::spec_empty());
    let st2 = spec_admit(decls, st0);
    assert(st2.admitted_rev.skip(0) =~= st2.admitted_rev);
}

// ---------------------------------------------------------------------------
// Reference preservation: redirected pipelines never name a cut column
// ---------------------------------------------------------------------------

/// Every identifier a transform references or exposes.
pub open spec fn transform_cids(t: TransformV) -> Seq<CId> {
    match t {
        TransformV::From(tr) => table_ref_cids(tr),
        TransformV::Join { with, filter, .. } => table_ref_cids(with) + expr_cids(filter),
        TransformV::Filter(e) => expr_cids(e),
        TransformV::Compute(c) => seq![c.id] + expr_cids(c.expr),
        TransformV::Aggregate { partition, compute } => partition + compute,
        TransformV::Sort(sorts) => sorts.map_values(|s: ColumnSort| s.column),
        TransformV::Take(range) => opt_expr_cids(range.start) + opt_expr_cids(range.end),
        TransformV::Unique => seq![],
        TransformV::Concat(tr) => table_ref_cids(tr),
        TransformV::Select(cs) => cs,
    }
}

/// A present key is replaced by the value of one of the table's pairs.
pub proof fn lemma_assoc_redirect_hit(rs: Seq<(CId, CId)>, c: CId)
    requires
        assoc_has_key(rs, c),
    ensures
        exists|j: int| 0 <= j < rs.len() && (#[trigger] rs[j]).1 == assoc_redirect(rs, c),
    decreases rs.len(),
{
    if rs.len() > 0 {
        if rs.last().0 == c {
            assert(rs[rs.len() - 1].1 == assoc_redirect(rs, c));
        } else {
            let w = choose|w: int| 0 <= w < rs.len() && rs[w].0 == c;
            assert(rs.drop_last()[w] == rs[w]);
            assert(assoc_has_key(rs.drop_last(), c));
            lemma_assoc_redirect_hit(rs.drop_last(), c);
            let j = choose|j: int|
                0 <= j < rs.drop_last().len() && (#[trigger] rs.drop_last()[j]).1 == assoc_redirect(
                    rs.drop_last(),
                    c,
                );
            assert(rs[j].1 == assoc_redirect(rs, c));
        }
    }
}

/// A redirect table whose keys and replacements are separated by `base`
/// never yields a key: what comes out of a redirection cannot be redirected
/// again.
pub proof fn lemma_redirect_cid_fresh(rs: Seq<(CId, CId)>, c: CId, base: nat)
    requires
        forall|j: int| 0 <= j < rs.len() ==> (#[trigger] rs[j]).0.0 < base && rs[j].1.0 >= base,
    ensures
        !assoc_has_key(rs, assoc_redirect(rs, c)),
{
    let r = assoc_redirect(rs, c);
    if assoc_has_key(rs, r) {
        let j = choose|j: int| 0 <= j < rs.len() && (#[trigger] rs[j]).0 == r;
        assert(r.0 < base);
        if assoc_has_key(rs, c) {
            lemma_assoc_redirect_hit(rs, c);
            let w = choose|w: int| 0 <= w < rs.len() && (#[trigger] rs[w]).1 == r;
            assert(r.0 >= base);
        } else {
            lemma_redirect_cid_absent(rs, c);
        }
    }
}

/// Where the key is absent, redirection leaves the identifier alone — and an
/// absent key is not a key afterwards either.
pub proof fn lemma_redirect_cid_absent(rs: Seq<(CId, CId)>, c: CId)
    requires
        !assoc_has_key(rs, c),
    ensures
        assoc_redirect(rs, c) == c,
    decreases rs.len(),
{
    if rs.len() > 0 {
        assert(rs[rs.len() - 1] == rs.last());
        assert(rs.last().0 != c);
        assert(forall|j: int|
            0 <= j < rs.drop_last().len() ==> (#[trigger] rs.drop_last()[j]) == rs[j]);
        lemma_redirect_cid_absent(rs.drop_last(), c);
    }
}

/// No identifier of a redirected expression is a key of the table.
pub proof fn lemma_redirect_expr_fresh(rs: Seq<(CId, CId)>, e: Expr, base: nat)
    requires
        forall|j: int| 0 <= j < rs.len() ==> (#[trigger] rs[j]).0.0 < base && rs[j].1.0 >= base,
    ensures
        forall|c: CId|
            #[trigger] expr_cids(spec_redirect_expr(rs, e)).contains(c) ==> !assoc_has_key(rs, c),
    decreases e,
{
    match e {
        Expr::ColumnRef(c0) => {
            lemma_redirect_cid_fresh(rs, c0, base);
            assert forall|c: CId|
                #[trigger] expr_cids(spec_redirect_expr(rs, e)).contains(c) implies !assoc_has_key(
                rs,
                c,
            ) by {
                assert(c == assoc_redirect(rs, c0));
            }
        },
        Expr::Literal => {},
        Expr::Binary(l, r) => {
            lemma_redirect_expr_fresh(rs, *l, base);
            lemma_redirect_expr_fresh(rs, *r, base);
            let lc = expr_cids(spec_redirect_expr(rs, *l));
            let rc = expr_cids(spec_redirect_expr(rs, *r));
            assert forall|c: CId|
                #[trigger] expr_cids(spec_redirect_expr(rs, e)).contains(c) implies !assoc_has_key(
                rs,
                c,
            ) by {
                let i = choose|i: int|
                    0 <= i < (lc + rc).len() && (lc + rc)[i] == c;
                if i < lc.len() {
                    assert(lc[i] == c);
                    assert(lc.contains(c));
                } else {
                    assert(rc[i - lc.len()] == c);
                    assert(rc.contains(c));
                }
            }
        },
    }
}

/// Reference preservation: after an anchor's rewrite, no transform of the
/// downstream pipeline references a cut column — every identifier it names
/// lies outside the redirect table's domain, replaced by the fresh
/// identifier the anchor minted for it.
pub proof fn lemma_reference_preservation(rs: Seq<(CId, CId)>, t: TransformV, base: nat)
    requires
        forall|j: int| 0 <= j < rs.len() ==> (#[trigger] rs[j]).0.0 < base && rs[j].1.0 >= base,
    ensures
        forall|c: CId|
            #[trigger] transform_cids(spec_redirect_transform(rs, t)).contains(c)
                ==> !assoc_has_key(rs, c),
{
    let rt = spec_redirect_transform(rs, t);
    assert forall|c: CId| #[trigger] transform_cids(rt).contains(c) implies !assoc_has_key(
        rs,
        c,
    ) by {
        let cs = transform_cids(rt);
        let i = choose|i: int| 0 <= i < cs.len() && cs[i] == c;
        match t {
            TransformV::From(tr) => {
                assert(c == assoc_redirect(rs, table_ref_cids(tr)[i]));
                lemma_redirect_cid_fresh(rs, table_ref_cids(tr)[i], base);
            },
            TransformV::Join { with, filter, .. } => {
                let wc = table_ref_cids(spec_redirect_table_ref(rs, with));
                let fc = expr_cids(spec_redirect_expr(rs, filter));
                if i < wc.len() {
                    assert(c == assoc_redirect(rs, table_ref_cids(with)[i]));
                    lemma_redirect_cid_fresh(rs, table_ref_cids(with)[i], base);
                } else {
                    assert(fc[i - wc.len()] == c);
                    assert(fc.contains(c));
                    lemma_redirect_expr_fresh(rs, filter, base);
                }
            },
            TransformV::Filter(e) => {
                assert(expr_cids(spec_redirect_expr(rs, e)).contains(c));
                lemma_redirect_expr_fresh(rs, e, base);
            },
            TransformV::Compute(cm) => {
                let ec = expr_cids(spec_redirect_expr(rs, cm.expr));
                if i == 0 {
                    assert(c == assoc_redirect(rs, cm.id));
                    lemma_redirect_cid_fresh(rs, cm.id, base);
                } else {
                    assert(ec[i - 1] == c);
                    assert(ec.contains(c));
                    lemma_redirect_expr_fresh(rs, cm.expr, base);
                }
            },
            TransformV::Aggregate { partition, compute } => {
                let pc = partition.map_values(|c0: CId| assoc_redirect(rs, c0));
                if i < pc.len() {
                    assert(c == assoc_redirect(rs, partition[i]));
                    lemma_redirect_cid_fresh(rs, partition[i], base);
                } else {
                    assert(c == assoc_redirect(rs, compute[i - pc.len()]));
                    lemma_redirect_cid_fresh(rs, compute[i - pc.len()], base);
                }
            },
            TransformV::Sort(sorts) => {
                assert(c == assoc_redirect(rs, sorts[i].column));
                lemma_redirect_cid_fresh(rs, sorts[i].column, base);
            },
            TransformV::Take(range) => {
                let sc = opt_expr_cids(crate::collector::spec_redirect_opt_expr(rs, range.start));
                let ec = opt_expr_cids(crate::collector::spec_redirect_opt_expr(rs, range.end));
                if i < sc.len() {
                    assert(sc[i] == c);
                    assert(sc.contains(c));
                    match range.start {
                        Some(e0) => {
                            lemma_redirect_expr_fresh(rs, e0, base);
                        },
                        None => {},
                    }
                } else {
                    assert(ec[i - sc.len()] == c);
                    assert(ec.contains(c));
                    match range.end {
                        Some(e0) => {
                            lemma_redirect_expr_fresh(rs, e0, base);
                        },
                        None => {},
                    }
                }
            },
            TransformV::Unique => {},
            TransformV::Concat(tr) => {
                assert(c == assoc_redirect(rs, table_ref_cids(tr)[i]));
                lemma_redirect_cid_fresh(rs, table_ref_cids(tr)[i], base);
            },
            TransformV::Select(cs0) => {
                assert(c == assoc_redirect(rs, cs0[i]));
                lemma_redirect_cid_fresh(rs, cs0[i], base);
            },
        }
    }
}

} // verus!

