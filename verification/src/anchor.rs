//! The splitter and the anchor/rewriter: peeling a maximal SELECT-shaped
//! suffix off a pipeline, and reconnecting the two halves through a synthetic
//! intermediate relation.

use vstd::prelude::*;
use vstd::string::StringExecFns;
use crate::collector::CidRedirector;
use crate::collector::assoc_redirect;
use crate::collector::spec_redirect_transform;
use crate::context::AnchorContext;
use crate::context::AnchorContextV;
use crate::context::ColumnDecl;
use crate::context::ColumnDeclV;
use crate::context::Relation;
use crate::context::RelationKind;
use crate::context::RelationKindV;
use crate::context::RelationV;
use crate::context::TableDecl;
use crate::context::TableDeclV;
use crate::context::decl_instances_ok;
use crate::context::lemma_collect_inputs_bounded;
use crate::context::opt_decl_view;
use crate::context::spec_collect_inputs;
use crate::context::spec_create_instance;
use crate::context::spec_decl_of;
use crate::context::spec_ensure_name;
use crate::context::spec_gen_cid;
use crate::context::spec_gen_tid;
use crate::context::spec_register_compute;
use crate::context::spec_register_wildcard;
use crate::requirements::Complexity;
use crate::requirements::Following;
use crate::requirements::Requirement;
use crate::requirements::can_materialize;
use crate::requirements::clone_cids;
use crate::requirements::get_requirements;
use crate::requirements::into_requirements;
use crate::requirements::reqs_of;
use crate::requirements::spec_can_materialize;
use crate::requirements::spec_requirements;
use crate::rq::CId;
use crate::rq::RelationColumn;
use crate::rq::RelationColumnV;
use crate::rq::TId;
use crate::rq::TableRef;
use crate::rq::TableRefV;
use crate::rq::Transform;
use crate::rq::TransformV;
use crate::rq::kind_of;
use crate::rq::pipeline_view;
use crate::rq::table_ref_cids;

verus! {

/// The admission rule, read tail-first: whether the pipeline must be cut
/// before `t` because a kind already admitted after it would stand out of
/// canonical SELECT order
/// (`FROM; JOIN*; WHERE; [AGGREGATE+HAVING]; COMPUTE*; SORT; TAKE; [UNIQUE|CONCAT+UNIQUE]`).
/// An aggregation-marked compute is transparent; `Select` never cuts.
pub open spec fn spec_split_required(t: TransformV, f: Following) -> bool {
    match t {
        TransformV::Compute(c) => if c.is_aggregation {
            false
        } else {
            f.from || f.join || f.filter
        },
        TransformV::From(_) => f.from,
        TransformV::Join { .. } => f.from,
        TransformV::Aggregate { .. } => f.from || f.join || f.aggregate,
        TransformV::Filter(_) => f.from || f.join,
        TransformV::Sort(_) => f.from || f.join || f.compute || f.aggregate,
        TransformV::Take(_) => f.from || f.join || f.compute || f.filter || f.aggregate || f.sort,
        TransformV::Unique => f.from || f.join || f.compute || f.filter || f.aggregate || f.sort
            || f.take,
        TransformV::Concat(_) => f.from || f.join || f.compute || f.filter || f.aggregate || f.sort
            || f.take || f.concat,
        TransformV::Select(_) => false,
    }
}

/// `following` after examining one transform: an aggregation-marked compute
/// does not affect it, a transform that forces a cut is not recorded, an
/// admitted transform records its kind.
pub open spec fn spec_following_after(f: Following, t: TransformV) -> Following {
    if t matches TransformV::Compute(c) && c.is_aggregation {
        f
    } else if spec_split_required(t, f) {
        f
    } else {
        f.spec_insert(kind_of(t))
    }
}

/// Determines whether a pipeline must be split before `transform` to fit
/// into one SELECT statement; `following` holds the kinds of the transforms
/// already admitted after it, and records this one when it is admitted.
pub fn is_split_required(transform: &Transform, following: &mut Following) -> (r: bool)
    ensures
        r == spec_split_required(transform@, *old(following)),
        *final(following) == spec_following_after(*old(following), transform@),
{
    if let Transform::Compute(c) = transform {
        if c.is_aggregation {
            return false;
        }
    }
    let split = match transform {
        Transform::From(_) => following.from,
        Transform::Join { .. } => following.from,
        Transform::Aggregate { .. } => following.from || following.join || following.aggregate,
        Transform::Filter(_) => following.from || following.join,
        Transform::Compute(_) => following.from || following.join || following.filter,
        Transform::Sort(_) => following.from || following.join || following.compute
            || following.aggregate,
        Transform::Take(_) => following.from || following.join || following.compute
            || following.filter || following.aggregate || following.sort,
        Transform::Unique => following.from || following.join || following.compute
            || following.filter || following.aggregate || following.sort || following.take,
        Transform::Concat(_) => following.from || following.join || following.compute
            || following.filter || following.aggregate || following.sort || following.take
            || following.concat,
        Transform::Select(_) => false,
    };
    if !split {
        following.insert(transform.kind());
    }
    split
}

/// Whether the declaration of `c` is a compute that the requirements forbid
/// to stay in place.
pub open spec fn blocked_at(
    decls: Seq<Option<ColumnDeclV>>,
    c: CId,
    reqs: Seq<Requirement>,
) -> bool {
    match spec_decl_of(decls, c) {
        Some(ColumnDeclV::Compute(cm)) => !spec_can_materialize(cm, reqs),
        _ => false,
    }
}

/// Whether an aggregate must be cut off: some of its computes cannot stay in
/// place under the current requirements.
pub open spec fn spec_aggregate_blocked(
    decls: Seq<Option<ColumnDeclV>>,
    compute: Seq<CId>,
    reqs: Seq<Requirement>,
) -> bool {
    exists|i: int| 0 <= i < compute.len() && #[trigger] blocked_at(decls, compute[i], reqs)
}

/// The state of the tail-first admission walk.
#[verifier::ext_equal]
pub struct SplitState {
    /// Kinds admitted so far (they follow the current transform in the
    /// emitted SELECT).
    pub following: Following,
    /// Requirements gathered so far, the caller's output first.
    pub required: Seq<Requirement>,
    /// Columns the suffix itself produces.
    pub avail: Seq<CId>,
    /// Admitted transforms, tail first; admitted `Select`s are dropped.
    pub admitted_rev: Seq<TransformV>,
    /// The unconsumed prefix.
    pub rest: Seq<TransformV>,
}

pub open spec fn spec_init_state(output: Seq<CId>, pipeline: Seq<TransformV>) -> SplitState {
    SplitState {
        following: Following::spec_empty(),
        required: reqs_of(output, Complexity::Aggregation, true),
        avail: seq![],
        admitted_rev: seq![],
        rest: pipeline,
    }
}

/// The admission walk: transforms are peeled off the tail of `rest` and
/// admitted until one forces a cut — by the admission rule, or because a
/// compute (its own or one consumed by an aggregate) cannot stay in place
/// under the requirements gathered so far. Requirements are extended before
/// the materialization check, as the check reads them.
pub open spec fn spec_admit(decls: Seq<Option<ColumnDeclV>>, st: SplitState) -> SplitState
    decreases st.rest.len(),
{
    if st.rest.len() == 0 {
        st
    } else {
        let t = st.rest.last();
        if spec_split_required(t, st.following) {
            st
        } else {
            let f2 = spec_following_after(st.following, t);
            let req2 = st.required + spec_requirements(t, f2);
            match t {
                TransformV::Compute(c) => if spec_can_materialize(c, req2) {
                    spec_admit(
                        decls,
                        SplitState {
                            following: f2,
                            required: req2,
                            avail: st.avail.push(c.id),
                            admitted_rev: st.admitted_rev.push(t),
                            rest: st.rest.drop_last(),
                        },
                    )
                } else {
                    SplitState { following: f2, required: req2, ..st }
                },
                TransformV::Aggregate { compute, .. } => if spec_aggregate_blocked(
                    decls,
                    compute,
                    req2,
                ) {
                    SplitState { following: f2, required: req2, ..st }
                } else {
                    spec_admit(
                        decls,
                        SplitState {
                            following: f2,
                            required: req2,
                            avail: st.avail,
                            admitted_rev: st.admitted_rev.push(t),
                            rest: st.rest.drop_last(),
                        },
                    )
                },
                TransformV::From(tr) => spec_admit(
                    decls,
                    SplitState {
                        following: f2,
                        required: req2,
                        avail: st.avail + table_ref_cids(tr),
                        admitted_rev: st.admitted_rev.push(t),
                        rest: st.rest.drop_last(),
                    },
                ),
                TransformV::Join { with, .. } => spec_admit(
                    decls,
                    SplitState {
                        following: f2,
                        required: req2,
                        avail: st.avail + table_ref_cids(with),
                        admitted_rev: st.admitted_rev.push(t),
                        rest: st.rest.drop_last(),
                    },
                ),
                TransformV::Select(_) => spec_admit(
                    decls,
                    SplitState {
                        following: f2,
                        required: req2,
                        avail: st.avail,
                        admitted_rev: st.admitted_rev,
                        rest: st.rest.drop_last(),
                    },
                ),
                _ => spec_admit(
                    decls,
                    SplitState {
                        following: f2,
                        required: req2,
                        avail: st.avail,
                        admitted_rev: st.admitted_rev.push(t),
                        rest: st.rest.drop_last(),
                    },
                ),
            }
        }
    }
}

/// The columns the gathered requirements flag for the SELECT list, in
/// order, duplicates kept.
pub open spec fn selected_cols(reqs: Seq<Requirement>) -> Seq<CId>
    decreases reqs.len(),
{
    if reqs.len() == 0 {
        seq![]
    } else {
        let prev = selected_cols(reqs.drop_last());
        if reqs.last().selected {
            prev.push(reqs.last().col)
        } else {
            prev
        }
    }
}

/// The columns of the gathered requirements, first occurrences only, in
/// order.
pub open spec fn required_uniq(reqs: Seq<Requirement>) -> Seq<CId>
    decreases reqs.len(),
{
    if reqs.len() == 0 {
        seq![]
    } else {
        let prev = required_uniq(reqs.drop_last());
        if prev.contains(reqs.last().col) {
            prev
        } else {
            prev.push(reqs.last().col)
        }
    }
}

/// Those of `s` that `avail` does not hold, in order.
pub open spec fn filter_out(s: Seq<CId>, avail: Seq<CId>) -> Seq<CId>
    decreases s.len(),
{
    if s.len() == 0 {
        seq![]
    } else {
        let prev = filter_out(s.drop_last(), avail);
        if avail.contains(s.last()) {
            prev
        } else {
            prev.push(s.last())
        }
    }
}

/// The required columns the suffix does not itself produce: what the prefix
/// must expose across the cut.
pub open spec fn spec_missing(reqs: Seq<Requirement>, avail: Seq<CId>) -> Seq<CId> {
    filter_out(required_uniq(reqs), avail)
}

/// `base` extended by those of `add` not already present, each checked
/// against the list as grown so far.
pub open spec fn extend_unique(base: Seq<CId>, add: Seq<CId>) -> Seq<CId>
    decreases add.len(),
{
    if add.len() == 0 {
        base
    } else {
        let prev = extend_unique(base, add.drop_last());
        if prev.contains(add.last()) {
            prev
        } else {
            prev.push(add.last())
        }
    }
}

/// The context after minting one wildcard standin per input table instance.
pub open spec fn spec_register_wildcards(ctx: AnchorContextV, tiids: Seq<usize>) -> AnchorContextV
    decreases tiids.len(),
{
    if tiids.len() == 0 {
        ctx
    } else {
        spec_register_wildcard(spec_register_wildcards(ctx, tiids.drop_last()), tiids.last())
    }
}

/// The identifiers those wildcard standins get: consecutive, from `base`.
pub open spec fn spec_wildcard_cids(base: nat, n: nat) -> Seq<CId> {
    Seq::new(n, |i: int| CId((base + i) as usize))
}

/// Everything `split_off_back` produces, as a function of the old context,
/// the target output and the pipeline: the final admission state, the
/// synthesized SELECT list, the missing columns, and the context after.
pub open spec fn split_results(
    ctx0: AnchorContextV,
    output: Seq<CId>,
    pipeline: Seq<TransformV>,
) -> (SplitState, Seq<CId>, Seq<CId>, AnchorContextV) {
    let st = spec_admit(ctx0.column_decls, spec_init_state(output, pipeline));
    let sel = extend_unique(output, selected_cols(st.required));
    let missing = spec_missing(st.required, st.avail);
    if sel.len() == 0 {
        let tiids = spec_collect_inputs(ctx0, st.rest);
        (
            st,
            spec_wildcard_cids(ctx0.column_decls.len(), tiids.len()),
            missing,
            spec_register_wildcards(ctx0, tiids),
        )
    } else {
        (st, sel, missing, ctx0)
    }
}

fn push_table_cids(avail: &mut Vec<CId>, with: &TableRef)
    ensures
        final(avail)@ == old(avail)@ + table_ref_cids(with@),
{
    let mut k: usize = 0;
    while k < with.columns.len()
        invariant
            0 <= k <= with.columns.len(),
            avail@ == old(avail)@ + table_ref_cids(with@).subrange(0, k as int),
            with@.columns.len() == with.columns@.len(),
        decreases with.columns.len() - k,
    {
        let cid = with.columns[k].1;
        avail.push(cid);
        proof {
            assert(table_ref_cids(with@)[k as int] == cid);
            assert(avail@ =~= old(avail)@ + table_ref_cids(with@).subrange(0, k + 1 as int));
        }
        k = k + 1;
    }
    proof {
        assert(table_ref_cids(with@).subrange(0, with@.columns.len() as int) =~= table_ref_cids(
            with@,
        ));
    }
}

/// Splits a pipeline into two parts, such that the second part contains the
/// maximum number of transforms while fitting into a single SELECT query:
/// transforms are peeled off the tail and admitted until one forces a cut.
/// Returns the still-unsplit remainder together with the columns it must
/// expose across the cut, and the suffix, led by a synthesized `Select`
/// (admitted `Select`s are dropped in its favour; an empty SELECT list falls
/// back to one wildcard per input table of the remainder).
pub fn split_off_back(ctx: &mut AnchorContext, output: Vec<CId>, pipeline: Vec<Transform>) -> (r: (
    Option<(Vec<Transform>, Vec<CId>)>,
    Vec<Transform>,
))
    requires
        old(ctx)@.wf(),
        decl_instances_ok(old(ctx)@),
    ensures
        final(ctx)@.wf(),
        pipeline@.len() == 0 ==> r.0 is None && r.1@.len() == 0 && final(ctx)@ == old(ctx)@,
        pipeline@.len() > 0 ==> ({
            let (st, sel, missing, ctx2) = split_results(
                old(ctx)@,
                output@,
                pipeline_view(pipeline@),
            );
            &&& final(ctx)@ == ctx2
            &&& pipeline_view(r.1@) == seq![TransformV::Select(sel)] + st.admitted_rev.reverse()
            &&& (st.rest.len() == 0 <==> r.0 is None)
            &&& (r.0 matches Some(rem) ==> pipeline_view(rem.0@) == st.rest && rem.1@ == missing)
        }),
{
    let ghost ctx0 = old(ctx)@;
    if pipeline.len() == 0 {
        return (None, Vec::new());
    }
    let ghost p0 = pipeline_view(pipeline@);
    let ghost output0 = output@;
    let ghost decls = ctx@.column_decls;
    let ghost st_goal = spec_admit(decls, spec_init_state(output0, p0));

    let mut pipeline = pipeline;
    let mut following = Following::new();
    let mut inputs_required = into_requirements(clone_cids(&output), Complexity::highest(), true);
    let mut inputs_avail: Vec<CId> = Vec::new();
    let mut curr_pipeline_rev: Vec<Transform> = Vec::new();

    proof {
        assert(pipeline_view(curr_pipeline_rev@) =~= Seq::<TransformV>::empty());
        assert(SplitState {
            following: following,
            required: inputs_required@,
            avail: inputs_avail@,
            admitted_rev: pipeline_view(curr_pipeline_rev@),
            rest: pipeline_view(pipeline@),
        } =~= spec_init_state(output0, p0));
    }

    loop
        invariant_except_break
            st_goal == spec_admit(
                decls,
                SplitState {
                    following: following,
                    required: inputs_required@,
                    avail: inputs_avail@,
                    admitted_rev: pipeline_view(curr_pipeline_rev@),
                    rest: pipeline_view(pipeline@),
                },
            ),
        invariant
            ctx@ == ctx0,
            ctx@.wf(),
            decls == ctx@.column_decls,
        ensures
            ctx@ == ctx0,
            st_goal.required == inputs_required@,
            st_goal.avail == inputs_avail@,
            st_goal.admitted_rev == pipeline_view(curr_pipeline_rev@),
            st_goal.rest == pipeline_view(pipeline@),
        decreases pipeline.len(),
    {
        let ghost st_pre = SplitState {
            following: following,
            required: inputs_required@,
            avail: inputs_avail@,
            admitted_rev: pipeline_view(curr_pipeline_rev@),
            rest: pipeline_view(pipeline@),
        };
        let transform = match pipeline.pop() {
            None => {
                proof {
                    assert(st_pre.rest.len() == 0);
                    assert(spec_admit(decls, st_pre) == st_pre);
                }
                break;
            },
            Some(t) => t,
        };
        let ghost t_v = transform@;
        proof {
            assert(pipeline_view(pipeline@) =~= st_pre.rest.drop_last());
            assert(st_pre.rest.last() == t_v);
        }

        let split = is_split_required(&transform, &mut following);
        if split {
            pipeline.push(transform);
            proof {
                assert(spec_split_required(t_v, st_pre.following));
                assert(spec_admit(decls, st_pre) == st_pre);
                assert(pipeline_view(pipeline@) =~= st_pre.rest);
                assert(following == st_pre.following);
            }
            break;
        }
        let mut required = get_requirements(&transform, &following);
        inputs_required.append(&mut required);
        let ghost req2 = inputs_required@;
        let ghost f2 = following;
        proof {
            assert(f2 == spec_following_after(st_pre.following, t_v));
            assert(req2 == st_pre.required + spec_requirements(t_v, f2));
        }

        let mut cut = false;
        match &transform {
            Transform::Compute(compute) => {
                if can_materialize(compute, &inputs_required) {
                    inputs_avail.push(compute.id);
                    proof {
                        assert(t_v matches TransformV::Compute(c) && spec_can_materialize(c, req2)
                            && inputs_avail@ == st_pre.avail.push(c.id));
                    }
                } else {
                    cut = true;
                    proof {
                        assert(t_v matches TransformV::Compute(c) && !spec_can_materialize(
                            c,
                            req2,
                        ));
                    }
                }
            },
            Transform::Aggregate { compute, .. } => {
                let mut blocked = false;
                let mut k: usize = 0;
                while k < compute.len()
                    invariant
                        0 <= k <= compute.len(),
                        ctx@ == ctx0,
                        decls == ctx@.column_decls,
                        inputs_required@ == req2,
                        blocked == spec_aggregate_blocked(
                            decls,
                            compute@.subrange(0, k as int),
                            req2,
                        ),
                    decreases compute.len() - k,
                {
                    let cid = compute[k];
                    let mut this_blocked = false;
                    proof {
                        assert(ctx@.column_decls.len() == ctx.column_decls@.len());
                        if cid.0 < ctx.column_decls@.len() {
                            assert(ctx@.column_decls[cid.0 as int] == opt_decl_view(
                                ctx.column_decls@[cid.0 as int],
                            ));
                        }
                    }
                    if cid.0 < ctx.column_decls.len() {
                        match &ctx.column_decls[cid.0] {
                            Some(ColumnDecl::Compute(c)) => {
                                if !can_materialize(c, &inputs_required) {
                                    this_blocked = true;
                                }
                            },
                            _ => {},
                        }
                    }
                    proof {
                        assert(this_blocked == blocked_at(decls, compute@[k as int], req2));
                        assert(compute@.subrange(0, k + 1 as int).drop_last() =~= compute@.subrange(
                            0,
                            k as int,
                        ));
                        if spec_aggregate_blocked(decls, compute@.subrange(0, k + 1 as int), req2) {
                            let i = choose|i: int|
                                0 <= i < k + 1 && #[trigger] blocked_at(
                                    decls,
                                    compute@.subrange(0, k + 1 as int)[i],
                                    req2,
                                );
                            if i < k {
                                assert(blocked_at(decls, compute@.subrange(0, k as int)[i], req2));
                            }
                        }
                        if blocked || this_blocked {
                            if this_blocked {
                                assert(compute@.subrange(0, k + 1 as int)[k as int] == compute@[k as int]);
                                assert(spec_aggregate_blocked(
                                    decls,
                                    compute@.subrange(0, k + 1 as int),
                                    req2,
                                ));
                            } else {
                                let i = choose|i: int|
                                    0 <= i < k && #[trigger] blocked_at(
                                        decls,
                                        compute@.subrange(0, k as int)[i],
                                        req2,
                                    );
                                assert(blocked_at(
                                    decls,
                                    compute@.subrange(0, k + 1 as int)[i],
                                    req2,
                                ));
                            }
                        }
                    }
                    if this_blocked {
                        blocked = true;
                    }
                    k = k + 1;
                }
                proof {
                    assert(compute@.subrange(0, compute@.len() as int) =~= compute@);
                }
                if blocked {
                    cut = true;
                }
                proof {
                    assert(t_v matches TransformV::Aggregate { compute: cs, .. } && cut
                        == spec_aggregate_blocked(decls, cs, req2));
                }
            },
            Transform::From(with) => {
                push_table_cids(&mut inputs_avail, with);
                proof {
                    assert(t_v matches TransformV::From(tr) && inputs_avail@ == st_pre.avail
                        + table_ref_cids(tr));
                }
            },
            Transform::Join { with, .. } => {
                push_table_cids(&mut inputs_avail, with);
                proof {
                    assert(t_v matches TransformV::Join { with: tr, .. } && inputs_avail@
                        == st_pre.avail + table_ref_cids(tr));
                }
            },
            _ => {},
        }
        if cut {
            pipeline.push(transform);
            proof {
                let st_stop = SplitState { following: f2, required: req2, ..st_pre };
                assert(spec_admit(decls, st_pre) == st_stop);
                assert(pipeline_view(pipeline@) =~= st_pre.rest);
            }
            break;
        }
        let is_select = match &transform {
            Transform::Select(_) => true,
            _ => false,
        };
        let ghost curr_before = pipeline_view(curr_pipeline_rev@);
        if !is_select {
            curr_pipeline_rev.push(transform);
            proof {
                assert(pipeline_view(curr_pipeline_rev@) =~= curr_before.push(t_v));
            }
        }
        proof {
            let st_next = SplitState {
                following: following,
                required: inputs_required@,
                avail: inputs_avail@,
                admitted_rev: pipeline_view(curr_pipeline_rev@),
                rest: pipeline_view(pipeline@),
            };
            assert(spec_admit(decls, st_pre) == spec_admit(decls, st_next));
        }
    }

    // the SELECT list: the caller's output (duplicates preserved), then the
    // selected-flagged requirements not already present
    let mut selected: Vec<CId> = Vec::new();
    let mut i: usize = 0;
    while i < inputs_required.len()
        invariant
            0 <= i <= inputs_required.len(),
            selected@ == selected_cols(inputs_required@.subrange(0, i as int)),
        decreases inputs_required.len() - i,
    {
        let req = inputs_required[i];
        proof {
            assert(inputs_required@.subrange(0, i + 1 as int).drop_last() =~= inputs_required@
                .subrange(0, i as int));
            assert(inputs_required@.subrange(0, i + 1 as int).last() == inputs_required@[i as int]);
        }
        if req.selected {
            selected.push(req.col);
        }
        i = i + 1;
    }
    proof {
        assert(inputs_required@.subrange(0, inputs_required@.len() as int) =~= inputs_required@);
        assert(selected@ == selected_cols(st_goal.required));
    }

    let mut required_u: Vec<CId> = Vec::new();
    let mut i: usize = 0;
    while i < inputs_required.len()
        invariant
            0 <= i <= inputs_required.len(),
            required_u@ == required_uniq(inputs_required@.subrange(0, i as int)),
        decreases inputs_required.len() - i,
    {
        let req = inputs_required[i];
        proof {
            assert(inputs_required@.subrange(0, i + 1 as int).drop_last() =~= inputs_required@
                .subrange(0, i as int));
            assert(inputs_required@.subrange(0, i + 1 as int).last() == inputs_required@[i as int]);
        }
        if !contains_cid(&required_u, req.col) {
            required_u.push(req.col);
        }
        i = i + 1;
    }
    proof {
        assert(inputs_required@.subrange(0, inputs_required@.len() as int) =~= inputs_required@);
    }

    let mut missing: Vec<CId> = Vec::new();
    let mut i: usize = 0;
    while i < required_u.len()
        invariant
            0 <= i <= required_u.len(),
            missing@ == filter_out(required_u@.subrange(0, i as int), inputs_avail@),
        decreases required_u.len() - i,
    {
        let c = required_u[i];
        proof {
            assert(required_u@.subrange(0, i + 1 as int).drop_last() =~= required_u@.subrange(
                0,
                i as int,
            ));
            assert(required_u@.subrange(0, i + 1 as int).last() == required_u@[i as int]);
        }
        if !contains_cid(&inputs_avail, c) {
            missing.push(c);
        }
        i = i + 1;
    }
    proof {
        assert(required_u@.subrange(0, required_u@.len() as int) =~= required_u@);
        assert(missing@ == spec_missing(st_goal.required, st_goal.avail));
    }

    let mut sel_output = output;
    let mut i: usize = 0;
    while i < selected.len()
        invariant
            0 <= i <= selected.len(),
            sel_output@ == extend_unique(output0, selected@.subrange(0, i as int)),
        decreases selected.len() - i,
    {
        let c = selected[i];
        proof {
            assert(selected@.subrange(0, i + 1 as int).drop_last() =~= selected@.subrange(
                0,
                i as int,
            ));
            assert(selected@.subrange(0, i + 1 as int).last() == selected@[i as int]);
        }
        if !contains_cid(&sel_output, c) {
            sel_output.push(c);
        }
        i = i + 1;
    }
    proof {
        assert(selected@.subrange(0, selected@.len() as int) =~= selected@);
        assert(sel_output@ == extend_unique(output0, selected_cols(st_goal.required)));
    }

    let out_final: Vec<CId>;
    if sel_output.len() == 0 {
        let input_tables = ctx.collect_pipeline_inputs(&pipeline);
        proof {
            lemma_collect_inputs_bounded(ctx0, pipeline_view(pipeline@));
        }
        let ghost tiids = input_tables@;
        let ghost base = ctx0.column_decls.len();
        let mut wc: Vec<CId> = Vec::new();
        let mut i: usize = 0;
        while i < input_tables.len()
            invariant
                0 <= i <= input_tables.len(),
                input_tables@ == tiids,
                ctx@ == spec_register_wildcards(ctx0, tiids.subrange(0, i as int)),
                ctx@.wf(),
                ctx@.table_instances == ctx0.table_instances,
                ctx@.column_decls.len() == base + i,
                wc@ == spec_wildcard_cids(base, i as nat),
                forall|j: int| 0 <= j < tiids.len() ==> (#[trigger] tiids[j])
                    < ctx0.table_instances.len(),
            decreases input_tables.len() - i,
        {
            let tiid = input_tables[i];
            let c = ctx.register_wildcard(tiid);
            wc.push(c);
            proof {
                assert(tiids.subrange(0, i + 1 as int).drop_last() =~= tiids.subrange(0, i as int));
                assert(tiids.subrange(0, i + 1 as int).last() == tiids[i as int]);
                assert(wc@ =~= spec_wildcard_cids(base, (i + 1) as nat));
            }
            i = i + 1;
        }
        proof {
            assert(tiids.subrange(0, tiids.len() as int) =~= tiids);
        }
        out_final = wc;
    } else {
        out_final = sel_output;
    }
    let ghost out_final_v = out_final@;
    curr_pipeline_rev.push(Transform::Select(out_final));

    let ghost rev_v = pipeline_view(curr_pipeline_rev@);
    proof {
        assert(rev_v =~= st_goal.admitted_rev.push(TransformV::Select(out_final_v)));
    }
    let mut suffix: Vec<Transform> = Vec::new();
    loop
        invariant
            pipeline_view(curr_pipeline_rev@) =~= rev_v.subrange(
                0,
                curr_pipeline_rev@.len() as int,
            ),
            pipeline_view(suffix@) =~= rev_v.subrange(curr_pipeline_rev@.len() as int, rev_v.len() as int).reverse(),
            curr_pipeline_rev@.len() <= rev_v.len(),
        ensures
            pipeline_view(suffix@) =~= rev_v.reverse(),
        decreases curr_pipeline_rev.len(),
    {
        let ghost n = curr_pipeline_rev@.len() as int;
        match curr_pipeline_rev.pop() {
            None => {
                proof {
                    assert(rev_v.subrange(0, rev_v.len() as int) =~= rev_v);
                }
                break;
            },
            Some(t) => {
                let ghost t_v2 = t@;
                let ghost suf_before = pipeline_view(suffix@);
                suffix.push(t);
                proof {
                    assert(t_v2 == rev_v.subrange(0, n)[n - 1]);
                    assert(t_v2 == rev_v[n - 1]);
                    assert(pipeline_view(curr_pipeline_rev@) =~= rev_v.subrange(0, n - 1));
                    assert(pipeline_view(suffix@) =~= suf_before.push(t_v2));
                    assert(pipeline_view(suffix@) =~= rev_v.subrange(
                        n - 1,
                        rev_v.len() as int,
                    ).reverse());
                }
            },
        }
    }
    proof {
        assert(pipeline_view(suffix@) =~= seq![TransformV::Select(out_final_v)]
            + st_goal.admitted_rev.reverse());
    }

    let remaining: Option<(Vec<Transform>, Vec<CId>)>;
    if pipeline.len() == 0 {
        remaining = None;
    } else {
        remaining = Some((pipeline, missing));
    }
    (remaining, suffix)
}

/// The redirect table an anchor builds: the i-th cut column goes to the
/// i-th freshly minted identifier.
pub open spec fn anchor_pairs(cols: Seq<CId>, base: nat) -> Seq<(CId, CId)> {
    Seq::new(cols.len(), |i: int| (cols[i], CId((base + i) as usize)))
}

/// Minting one replacement column: a fresh identifier, the resolved (possibly
/// synthesized) name of the old column bound to it, and the relation column
/// it exposes — a wildcard where the old declaration was one, else a single
/// named column.
pub open spec fn spec_mint_one(ctx: AnchorContextV, old_cid: CId) -> (
    AnchorContextV,
    (RelationColumnV, CId),
) {
    let new_cid = CId(ctx.column_decls.len() as usize);
    let c1 = spec_gen_cid(ctx);
    let (name, c2) = spec_ensure_name(c1, old_cid);
    let c3 = match name {
        Some(nm) => AnchorContextV {
            column_names: c2.column_names.update(new_cid.0 as int, Some(nm)),
            ..c2
        },
        None => c2,
    };
    let col = if spec_decl_of(ctx.column_decls, old_cid) matches Some(
        ColumnDeclV::RelationColumn(_, _, RelationColumnV::Wildcard),
    ) {
        RelationColumnV::Wildcard
    } else {
        RelationColumnV::Single(name)
    };
    (c3, (col, new_cid))
}

/// The whole minting walk over the cut columns, left to right.
pub open spec fn spec_anchor_mint(ctx: AnchorContextV, cols: Seq<CId>) -> (
    AnchorContextV,
    Seq<(RelationColumnV, CId)>,
)
    decreases cols.len(),
{
    if cols.len() == 0 {
        (ctx, seq![])
    } else {
        let (c1, acc) = spec_anchor_mint(ctx, cols.drop_last());
        let (c2, col) = spec_mint_one(c1, cols.last());
        (c2, acc.push(col))
    }
}

/// The context after re-registering every compute of a rewritten pipeline,
/// left to right.
pub open spec fn spec_register_computes(ctx: AnchorContextV, p: Seq<TransformV>) -> AnchorContextV
    decreases p.len(),
{
    if p.len() == 0 {
        ctx
    } else {
        let prev = spec_register_computes(ctx, p.drop_last());
        match p.last() {
            TransformV::Compute(c) => spec_register_compute(prev, c),
            _ => prev,
        }
    }
}

/// Every compute of the pipeline declares an already-minted identifier.
pub open spec fn computes_bounded(p: Seq<TransformV>, n: nat) -> bool {
    forall|i: int|
        0 <= i < p.len() ==> ((#[trigger] p[i]) matches TransformV::Compute(c) ==> c.id.0 < n)
}

/// The intermediate table reference an anchor constructs.
pub open spec fn spec_anchor_table_ref(
    ctx0: AnchorContextV,
    name: Seq<char>,
    cols: Seq<CId>,
) -> TableRefV {
    TableRefV {
        source: TId(ctx0.table_decls.len() as usize),
        name: Some(name),
        columns: spec_anchor_mint(spec_gen_tid(ctx0), cols).1,
    }
}

/// Everything `anchor_split` produces, as a function of the old context, the
/// intermediate table's name, the cut columns and the downstream pipeline:
/// the rewritten pipeline and the context after. The table is declared with
/// an empty body; the driver attaches the first sub-pipeline later.
pub open spec fn anchor_results(
    ctx0: AnchorContextV,
    name: Seq<char>,
    cols: Seq<CId>,
    second: Seq<TransformV>,
) -> (Seq<TransformV>, AnchorContextV) {
    let base = ctx0.column_decls.len();
    let rs = anchor_pairs(cols, base);
    let new_tid = TId(ctx0.table_decls.len() as usize);
    let tref = spec_anchor_table_ref(ctx0, name, cols);
    let ctx2 = spec_anchor_mint(spec_gen_tid(ctx0), cols).0;
    let dummy = TableDeclV {
        id: new_tid,
        name: Some(name),
        relation: RelationV { kind: RelationKindV::SString(seq![]), columns: seq![] },
    };
    let ctx3 = AnchorContextV {
        table_decls: ctx2.table_decls.update(new_tid.0 as int, Some(dummy)),
        ..ctx2
    };
    let ctx4 = spec_create_instance(ctx3, tref);
    let folded = (seq![TransformV::From(tref)] + second).map_values(
        |t: TransformV| spec_redirect_transform(rs, t),
    );
    (folded, spec_register_computes(ctx4, folded))
}

/// A redirect never leaves the minted range: the replacement of a bounded
/// identifier through a table with bounded replacements is bounded.
proof fn lemma_assoc_redirect_bound(rs: Seq<(CId, CId)>, c: CId, n: nat)
    requires
        forall|j: int| 0 <= j < rs.len() ==> (#[trigger] rs[j]).1.0 < n,
        c.0 < n,
    ensures
        assoc_redirect(rs, c).0 < n,
    decreases rs.len(),
{
    if rs.len() > 0 && rs.last().0 != c {
        assert(forall|j: int|
            0 <= j < rs.drop_last().len() ==> (#[trigger] rs.drop_last()[j]) == rs[j]);
        lemma_assoc_redirect_bound(rs.drop_last(), c, n);
    }
}

/// Applies the adjustments to the second part of a split pipeline: prepends
/// a `From` of a freshly declared intermediate relation that exposes the cut
/// columns under fresh identifiers, and redirects every reference to a cut
/// column to its fresh identifier (rewritten computes are re-registered).
pub fn anchor_split(
    ctx: &mut AnchorContext,
    first_table_name: &str,
    cols_at_split: &Vec<CId>,
    second_pipeline: Vec<Transform>,
) -> (r: Vec<Transform>)
    requires
        old(ctx)@.wf(),
        forall|j: int|
            0 <= j < cols_at_split@.len() ==> (#[trigger] cols_at_split@[j]).0 < old(
                ctx,
            )@.column_decls.len() && old(ctx)@.column_decls[cols_at_split@[j].0 as int] is Some,
        computes_bounded(pipeline_view(second_pipeline@), old(ctx)@.column_decls.len()),
    ensures
        final(ctx)@.wf(),
        pipeline_view(r@) == anchor_results(
            old(ctx)@,
            first_table_name@,
            cols_at_split@,
            pipeline_view(second_pipeline@),
        ).0,
        final(ctx)@ == anchor_results(
            old(ctx)@,
            first_table_name@,
            cols_at_split@,
            pipeline_view(second_pipeline@),
        ).1,
{
    let ghost ctx0 = old(ctx)@;
    let ghost base = ctx0.column_decls.len();
    let ghost colsv = cols_at_split@;
    let ghost secondv = pipeline_view(second_pipeline@);

    let new_tid = ctx.gen_tid();
    let ghost ctx1 = ctx@;

    // mint the replacement columns of the intermediate relation
    let mut cid_redirects: Vec<(CId, CId)> = Vec::new();
    let mut new_columns: Vec<(RelationColumn, CId)> = Vec::new();
    let mut i: usize = 0;
    while i < cols_at_split.len()
        invariant
            0 <= i <= cols_at_split.len(),
            colsv == cols_at_split@,
            ctx1 == spec_gen_tid(ctx0),
            base == ctx0.column_decls.len(),
            forall|j: int|
                0 <= j < colsv.len() ==> (#[trigger] colsv[j]).0 < base
                    && ctx0.column_decls[colsv[j].0 as int] is Some,
            ctx@ == spec_anchor_mint(ctx1, colsv.subrange(0, i as int)).0,
            new_columns@.map_values(|p: (RelationColumn, CId)| (p.0@, p.1)) == spec_anchor_mint(
                ctx1,
                colsv.subrange(0, i as int),
            ).1,
            cid_redirects@ == anchor_pairs(colsv, base).subrange(0, i as int),
            ctx@.wf(),
            ctx@.column_decls.len() == base + i,
            ctx@.table_decls == ctx1.table_decls,
            ctx@.table_instances == ctx1.table_instances,
            new_columns@.len() == i,
            forall|j: int| 0 <= j < i ==> (#[trigger] new_columns@[j]).1.0 == base + j,
        decreases cols_at_split.len() - i,
    {
        let ghost ctx_pre = ctx@;
        let old_cid = cols_at_split[i];
        let new_cid = ctx.gen_cid();
        let ghost ctx_a = ctx@;
        let old_name = ctx.ensure_column_name(old_cid);
        let ghost ctx_b = ctx@;
        let ghost name_v = spec_ensure_name(ctx_a, old_cid).0;
        match &old_name {
            Some(nm) => {
                proof {
                    assert(ctx@.column_names.len() == ctx.column_names@.len());
                    assert(new_cid.0 < ctx.column_names@.len());
                }
                ctx.column_names[new_cid.0] = Some(nm.clone());
                proof {
                    assert(ctx@.column_names =~= ctx_b.column_names.update(
                        new_cid.0 as int,
                        Some(nm@),
                    ));
                    assert(ctx@ =~= spec_mint_one(ctx_pre, colsv[i as int]).0);
                }
            },
            None => {
                proof {
                    assert(ctx@ =~= spec_mint_one(ctx_pre, colsv[i as int]).0);
                }
            },
        }
        let is_wildcard = if old_cid.0 < ctx.column_decls.len() {
            proof {
                assert(ctx@.column_decls[old_cid.0 as int] == opt_decl_view(
                    ctx.column_decls@[old_cid.0 as int],
                ));
                assert(ctx@.column_decls[old_cid.0 as int] == ctx_pre.column_decls[old_cid.0 as int]);
            }
            match &ctx.column_decls[old_cid.0] {
                Some(ColumnDecl::RelationColumn(_, _, RelationColumn::Wildcard)) => true,
                _ => false,
            }
        } else {
            false
        };
        proof {
            assert(is_wildcard == (spec_decl_of(ctx_pre.column_decls, colsv[i as int]) matches Some(
                ColumnDeclV::RelationColumn(_, _, RelationColumnV::Wildcard),
            )));
        }
        let col = if is_wildcard {
            RelationColumn::Wildcard
        } else {
            RelationColumn::Single(old_name)
        };
        let ghost nc_before = new_columns@;
        new_columns.push((col, new_cid));
        cid_redirects.push((old_cid, new_cid));
        proof {
            assert(colsv.subrange(0, i + 1 as int).drop_last() =~= colsv.subrange(0, i as int));
            assert(colsv.subrange(0, i + 1 as int).last() == colsv[i as int]);
            assert(col@ == spec_mint_one(ctx_pre, colsv[i as int]).1.0);
            assert(new_cid == spec_mint_one(ctx_pre, colsv[i as int]).1.1);
            assert(new_columns@.map_values(|p: (RelationColumn, CId)| (p.0@, p.1))
                =~~= spec_anchor_mint(ctx1, colsv.subrange(0, i + 1 as int)).1);
            assert(anchor_pairs(colsv, base)[i as int] == (colsv[i as int], new_cid));
            assert(cid_redirects@ =~= anchor_pairs(colsv, base).subrange(0, i + 1 as int));
            assert forall|j: int| 0 <= j < i + 1 implies (#[trigger] new_columns@[j]).1.0 == base
                + j by {
                if j < i {
                    assert(new_columns@[j] == nc_before[j]);
                } else {
                    assert(new_columns@[j].1 == new_cid);
                }
            }
        }
        i = i + 1;
    }
    proof {
        assert(colsv.subrange(0, colsv.len() as int) =~= colsv);
    }
    let ghost ctx2 = ctx@;

    // declare the intermediate table (empty body; the driver attaches the
    // first sub-pipeline later) and record an instance of it
    let name_string = String::from_str(first_table_name);
    let dummy = TableDecl {
        id: new_tid,
        name: Some(name_string.clone()),
        relation: Relation { kind: RelationKind::SString(Vec::new()), columns: Vec::new() },
    };
    proof {
        assert(ctx@.table_decls.len() == ctx.table_decls@.len());
        assert(new_tid.0 < ctx.table_decls@.len());
    }
    ctx.table_decls[new_tid.0] = Some(dummy);
    let ghost ctx3 = ctx@;
    proof {
        assert(ctx3 =~~= AnchorContextV {
            table_decls: ctx2.table_decls.update(
                new_tid.0 as int,
                Some(
                    TableDeclV {
                        id: new_tid,
                        name: Some(first_table_name@),
                        relation: RelationV {
                            kind: RelationKindV::SString(seq![]),
                            columns: seq![],
                        },
                    },
                ),
            ),
            ..ctx2
        });
    }
    let table_ref = TableRef {
        source: new_tid,
        name: Some(name_string),
        columns: new_columns,
    };
    let ghost trefv = spec_anchor_table_ref(ctx0, first_table_name@, colsv);
    proof {
        assert(table_ref@ =~~= trefv);
        assert forall|j: int|
            0 <= j < table_ref@.columns.len() implies (#[trigger] table_ref@.columns[j]).1.0 < base
                + colsv.len() by {
            assert(table_ref@.columns[j].1 == table_ref.columns@[j].1);
        }
    }
    ctx.create_table_instance(table_ref.clone());
    let ghost ctx4 = ctx@;
    proof {
        assert(ctx4 == spec_create_instance(ctx3, trefv));
    }

    // prepend the From and redirect every reference downstream
    let mut second = second_pipeline;
    second.insert(0, Transform::From(table_ref));
    let redirector = CidRedirector { cid_redirects };
    let ghost rs = anchor_pairs(colsv, base);
    let ghost full0 = pipeline_view(second@);
    let ghost folded = full0.map_values(|t: TransformV| spec_redirect_transform(rs, t));
    proof {
        assert(full0 =~= seq![TransformV::From(trefv)] + secondv);
        assert(computes_bounded(full0, ctx4.column_decls.len())) by {
            assert(forall|j: int|
                0 <= j < secondv.len() ==> ((#[trigger] secondv[j]) matches TransformV::Compute(c)
                    ==> c.id.0 < base));
            assert(forall|j: int|
                1 <= j < full0.len() ==> (#[trigger] full0[j]) == secondv[j - 1]);
        }
        assert(forall|j: int| 0 <= j < rs.len() ==> (#[trigger] rs[j]).1.0 < ctx4
            .column_decls.len());
    }
    let mut out: Vec<Transform> = Vec::new();
    while second.len() > 0
        invariant
            redirector.cid_redirects@ == rs,
            pipeline_view(out@) == folded.subrange(0, out@.len() as int),
            out@.len() + second@.len() == full0.len(),
            pipeline_view(second@) == full0.subrange(out@.len() as int, full0.len() as int),
            ctx@ == spec_register_computes(ctx4, folded.subrange(0, out@.len() as int)),
            ctx@.wf(),
            ctx@.column_decls.len() == ctx4.column_decls.len(),
            folded == full0.map_values(|t: TransformV| spec_redirect_transform(rs, t)),
            computes_bounded(full0, ctx4.column_decls.len()),
            forall|j: int| 0 <= j < rs.len() ==> (#[trigger] rs[j]).1.0 < ctx4.column_decls.len(),
        decreases second.len(),
    {
        let ghost k = out@.len() as int;
        let ghost sec_before = second@;
        let t = second.remove(0);
        proof {
            assert(pipeline_view(sec_before)[0] == sec_before[0]@);
            assert(t@ == full0[k]);
            assert forall|j: int| 0 <= j < second@.len() implies pipeline_view(second@)[j]
                == full0.subrange(k + 1, full0.len() as int)[j] by {
                assert(second@[j] == sec_before[j + 1]);
                assert(pipeline_view(sec_before)[j + 1] == sec_before[j + 1]@);
                assert(pipeline_view(second@)[j] == second@[j]@);
            }
            assert(pipeline_view(second@) =~= full0.subrange(k + 1, full0.len() as int));
            assert(folded[k] == spec_redirect_transform(rs, full0[k]));
            assert(folded.subrange(0, k + 1).drop_last() =~= folded.subrange(0, k));
            assert(folded.subrange(0, k + 1).last() == folded[k]);
        }
        match t {
            Transform::Compute(c) => {
                let c1 = redirector.fold_compute(&c);
                let c2 = redirector.fold_compute(&c);
                proof {
                    lemma_assoc_redirect_bound(rs, c.id, ctx4.column_decls.len());
                }
                ctx.register_compute(c1);
                out.push(Transform::Compute(c2));
                proof {
                    assert(pipeline_view(out@) =~= folded.subrange(0, k + 1));
                    assert(ctx@ =~= spec_register_computes(ctx4, folded.subrange(0, k + 1)));
                }
            },
            _ => {
                let t2 = redirector.fold_transform(t);
                out.push(t2);
                proof {
                    assert(pipeline_view(out@) =~= folded.subrange(0, k + 1));
                    assert(ctx@ =~= spec_register_computes(ctx4, folded.subrange(0, k + 1)));
                }
            },
        }
    }
    proof {
        assert(folded.subrange(0, folded.len() as int) =~= folded);
        assert(pipeline_view(out@) == folded);
        assert(folded == anchor_results(ctx0, first_table_name@, colsv, secondv).0);
        assert(ctx@ == anchor_results(ctx0, first_table_name@, colsv, secondv).1);
    }
    out
}

fn contains_cid(v: &Vec<CId>, x: CId) -> (r: bool)
    ensures
        r == v@.contains(x),
{
    let mut i: usize = 0;
    while i < v.len()
        invariant
            0 <= i <= v.len(),
            forall|j: int| 0 <= j < i ==> v@[j] != x,
        decreases v.len() - i,
    {
        if v[i] == x {
            return true;
        }
        i = i + 1;
    }
    false
}

} // verus!
