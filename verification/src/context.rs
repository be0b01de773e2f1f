//! The ambient anchoring context: fresh identifier minting, column and table
//! declarations, display names, and table instances. It is threaded by
//! exclusive borrow through every operation that allocates identifiers or
//! records declarations.

use vstd::prelude::*;
use crate::rq::CId;
use crate::rq::Compute;
use crate::rq::Expr;
use crate::rq::RelationColumn;
use crate::rq::RelationColumnV;
use crate::rq::TId;
use crate::rq::TableRef;
use crate::rq::TableRefV;
use crate::rq::Transform;
use crate::rq::TransformV;
use crate::rq::opt_name_view;
use crate::rq::pipeline_view;

verus! {

/// What a column identifier stands for: a column of a table instance, or a
/// computed column.
#[derive(PartialEq, Debug)]
pub enum ColumnDecl {
    /// Source table, table instance id, and the column of that instance.
    RelationColumn(TId, usize, RelationColumn),
    Compute(Compute),
}

#[verifier::ext_equal]
pub enum ColumnDeclV {
    RelationColumn(TId, usize, RelationColumnV),
    Compute(Compute),
}

impl View for ColumnDecl {
    type V = ColumnDeclV;

    open spec fn view(&self) -> ColumnDeclV {
        match self {
            ColumnDecl::RelationColumn(t, iid, col) => ColumnDeclV::RelationColumn(*t, *iid, col@),
            ColumnDecl::Compute(c) => ColumnDeclV::Compute(*c),
        }
    }
}

/// The body of a relation: either opaque interpolated text or a pipeline.
#[derive(PartialEq, Debug)]
pub enum RelationKind {
    SString(Vec<Expr>),
    Pipeline(Vec<Transform>),
}

#[verifier::ext_equal]
pub enum RelationKindV {
    SString(Seq<Expr>),
    Pipeline(Seq<TransformV>),
}

impl View for RelationKind {
    type V = RelationKindV;

    open spec fn view(&self) -> RelationKindV {
        match self {
            RelationKind::SString(es) => RelationKindV::SString(es@),
            RelationKind::Pipeline(p) => RelationKindV::Pipeline(pipeline_view(p@)),
        }
    }
}

#[derive(PartialEq, Debug)]
pub struct Relation {
    pub kind: RelationKind,
    pub columns: Vec<RelationColumn>,
}

#[verifier::ext_equal]
pub struct RelationV {
    pub kind: RelationKindV,
    pub columns: Seq<RelationColumnV>,
}

impl View for Relation {
    type V = RelationV;

    open spec fn view(&self) -> RelationV {
        RelationV {
            kind: self.kind@,
            columns: self.columns@.map_values(|c: RelationColumn| c@),
        }
    }
}

/// A declared relation.
#[derive(PartialEq, Debug)]
pub struct TableDecl {
    pub id: TId,
    pub name: Option<String>,
    pub relation: Relation,
}

#[verifier::ext_equal]
pub struct TableDeclV {
    pub id: TId,
    pub name: Option<Seq<char>>,
    pub relation: RelationV,
}

impl View for TableDecl {
    type V = TableDeclV;

    open spec fn view(&self) -> TableDeclV {
        TableDeclV { id: self.id, name: opt_name_view(self.name), relation: self.relation@ }
    }
}

pub open spec fn opt_decl_view(o: Option<ColumnDecl>) -> Option<ColumnDeclV> {
    match o {
        Some(d) => Some(d@),
        None => None,
    }
}

pub open spec fn opt_table_decl_view(o: Option<TableDecl>) -> Option<TableDeclV> {
    match o {
        Some(d) => Some(d@),
        None => None,
    }
}

/// Identifiers are minted monotonically: a `CId` indexes `column_decls` and
/// `column_names`, a `TId` indexes `table_decls`, a table instance id
/// indexes `table_instances`.
pub struct AnchorContext {
    pub column_decls: Vec<Option<ColumnDecl>>,
    pub column_names: Vec<Option<String>>,
    pub table_decls: Vec<Option<TableDecl>>,
    pub table_instances: Vec<TableRef>,
}

#[verifier::ext_equal]
pub struct AnchorContextV {
    pub column_decls: Seq<Option<ColumnDeclV>>,
    pub column_names: Seq<Option<Seq<char>>>,
    pub table_decls: Seq<Option<TableDeclV>>,
    pub table_instances: Seq<TableRefV>,
}

impl View for AnchorContext {
    type V = AnchorContextV;

    open spec fn view(&self) -> AnchorContextV {
        AnchorContextV {
            column_decls: self.column_decls@.map_values(|o: Option<ColumnDecl>| opt_decl_view(o)),
            column_names: self.column_names@.map_values(|o: Option<String>| opt_name_view(o)),
            table_decls: self.table_decls@.map_values(
                |o: Option<TableDecl>| opt_table_decl_view(o),
            ),
            table_instances: self.table_instances@.map_values(|t: TableRef| t@),
        }
    }
}

impl AnchorContextV {
    /// Every column identifier has both a declaration slot and a name slot.
    pub open spec fn wf(self) -> bool {
        self.column_decls.len() == self.column_names.len()
    }

    pub open spec fn spec_empty() -> AnchorContextV {
        AnchorContextV {
            column_decls: seq![],
            column_names: seq![],
            table_decls: seq![],
            table_instances: seq![],
        }
    }
}

/// The declaration of `c`, or nothing where `c` is out of range or
/// undeclared.
pub open spec fn spec_decl_of(decls: Seq<Option<ColumnDeclV>>, c: CId) -> Option<ColumnDeclV> {
    if c.0 < decls.len() {
        decls[c.0 as int]
    } else {
        None
    }
}

/// A fresh column identifier: one new undeclared, unnamed slot.
pub open spec fn spec_gen_cid(ctx: AnchorContextV) -> AnchorContextV {
    AnchorContextV {
        column_decls: ctx.column_decls.push(None),
        column_names: ctx.column_names.push(None),
        ..ctx
    }
}

/// A fresh table identifier: one new undeclared slot.
pub open spec fn spec_gen_tid(ctx: AnchorContextV) -> AnchorContextV {
    AnchorContextV { table_decls: ctx.table_decls.push(None), ..ctx }
}

/// The display name `ensure_column_name` resolves for `cid`, and the context
/// after it: an already-bound name is returned as is; a wildcard column has
/// none; a declared single column resolves to its own name; any other column
/// gets a synthesized one. What was resolved is recorded, so the resolution
/// is stable for the rest of the compilation.
pub open spec fn spec_ensure_name(ctx: AnchorContextV, cid: CId) -> (Option<Seq<char>>, AnchorContextV) {
    let i = cid.0 as int;
    if ctx.column_names[i] is Some {
        (ctx.column_names[i], ctx)
    } else if ctx.column_decls[i] matches Some(
        ColumnDeclV::RelationColumn(_, _, RelationColumnV::Wildcard),
    ) {
        (None, ctx)
    } else {
        let nm = match ctx.column_decls[i] {
            Some(ColumnDeclV::RelationColumn(_, _, RelationColumnV::Single(Some(n)))) => n,
            _ => synthesized_name(cid.0 as nat),
        };
        (
            Some(nm),
            AnchorContextV { column_names: ctx.column_names.update(i, Some(nm)), ..ctx },
        )
    }
}

/// Declarations after binding every column of a table instance.
pub open spec fn decls_with_instance(
    decls: Seq<Option<ColumnDeclV>>,
    cols: Seq<(RelationColumnV, CId)>,
    source: TId,
    tiid: usize,
) -> Seq<Option<ColumnDeclV>>
    decreases cols.len(),
{
    if cols.len() == 0 {
        decls
    } else {
        let prev = decls_with_instance(decls, cols.drop_last(), source, tiid);
        prev.update(
            cols.last().1.0 as int,
            Some(ColumnDeclV::RelationColumn(source, tiid, cols.last().0)),
        )
    }
}

/// Recording a usage site of a table: the instance is appended and each of
/// its columns is declared as a relation column of that instance.
pub open spec fn spec_create_instance(ctx: AnchorContextV, t: TableRefV) -> AnchorContextV {
    AnchorContextV {
        column_decls: decls_with_instance(
            ctx.column_decls,
            t.columns,
            t.source,
            ctx.table_instances.len() as usize,
        ),
        table_instances: ctx.table_instances.push(t),
        ..ctx
    }
}

/// Recording (or replacing) a compute declaration.
pub open spec fn spec_register_compute(ctx: AnchorContextV, c: Compute) -> AnchorContextV {
    AnchorContextV {
        column_decls: ctx.column_decls.update(c.id.0 as int, Some(ColumnDeclV::Compute(c))),
        ..ctx
    }
}

/// Minting a wildcard-standin column for the table instance `tiid`.
pub open spec fn spec_register_wildcard(ctx: AnchorContextV, tiid: usize) -> AnchorContextV {
    AnchorContextV {
        column_decls: ctx.column_decls.push(
            Some(
                ColumnDeclV::RelationColumn(
                    ctx.table_instances[tiid as int].source,
                    tiid,
                    RelationColumnV::Wildcard,
                ),
            ),
        ),
        column_names: ctx.column_names.push(None),
        ..ctx
    }
}

/// The table instance a transform reads, where it reads one: the instance
/// recorded in the declaration of the first exposed column.
pub open spec fn spec_instance_of(ctx: AnchorContextV, t: TransformV) -> Option<usize> {
    match t {
        TransformV::From(tr) => spec_table_ref_instance(ctx, tr),
        TransformV::Join { with, .. } => spec_table_ref_instance(ctx, with),
        _ => None,
    }
}

pub open spec fn spec_table_ref_instance(ctx: AnchorContextV, tr: TableRefV) -> Option<usize> {
    if tr.columns.len() > 0 {
        match spec_decl_of(ctx.column_decls, tr.columns[0].1) {
            Some(ColumnDeclV::RelationColumn(_, tiid, _)) => Some(tiid),
            _ => None,
        }
    } else {
        None
    }
}

/// The input table instances of a pipeline, first occurrences first.
pub open spec fn spec_collect_inputs(ctx: AnchorContextV, p: Seq<TransformV>) -> Seq<usize>
    decreases p.len(),
{
    if p.len() == 0 {
        seq![]
    } else {
        let prev = spec_collect_inputs(ctx, p.drop_last());
        match spec_instance_of(ctx, p.last()) {
            Some(tiid) => if prev.contains(tiid) {
                prev
            } else {
                prev.push(tiid)
            },
            None => prev,
        }
    }
}

/// Every relation-column declaration points at a recorded table instance.
/// Holds of every context built through this interface.
pub open spec fn decl_instances_ok(ctx: AnchorContextV) -> bool {
    forall|i: int|
        0 <= i < ctx.column_decls.len() ==> ((#[trigger] ctx.column_decls[i]) matches Some(
            ColumnDeclV::RelationColumn(_, tiid, _),
        ) ==> tiid < ctx.table_instances.len())
}

/// The instances `spec_collect_inputs` enumerates are all recorded.
pub proof fn lemma_collect_inputs_bounded(ctx: AnchorContextV, p: Seq<TransformV>)
    requires
        decl_instances_ok(ctx),
    ensures
        forall|i: int|
            0 <= i < spec_collect_inputs(ctx, p).len() ==> (#[trigger] spec_collect_inputs(
                ctx,
                p,
            )[i]) < ctx.table_instances.len(),
    decreases p.len(),
{
    if p.len() > 0 {
        lemma_collect_inputs_bounded(ctx, p.drop_last());
        let prev = spec_collect_inputs(ctx, p.drop_last());
        let cur = spec_collect_inputs(ctx, p);
        match spec_instance_of(ctx, p.last()) {
            Some(tiid) => {
                assert(tiid < ctx.table_instances.len()) by {
                    match p.last() {
                        TransformV::From(tr) => {
                            let c = tr.columns[0].1;
                            if c.0 < ctx.column_decls.len() {
                                assert(ctx.column_decls[c.0 as int] matches Some(
                                    ColumnDeclV::RelationColumn(_, t2, _),
                                ) ==> t2 < ctx.table_instances.len());
                            }
                        },
                        TransformV::Join { with, .. } => {
                            let c = with.columns[0].1;
                            if c.0 < ctx.column_decls.len() {
                                assert(ctx.column_decls[c.0 as int] matches Some(
                                    ColumnDeclV::RelationColumn(_, t2, _),
                                ) ==> t2 < ctx.table_instances.len());
                            }
                        },
                        _ => {},
                    }
                }
                assert forall|i: int| 0 <= i < cur.len() implies (#[trigger] cur[i])
                    < ctx.table_instances.len() by {
                    if i < prev.len() {
                        assert(cur[i] == prev[i]);
                        assert(prev[i] < ctx.table_instances.len());
                    } else {
                        assert(cur[i] == tiid);
                    }
                }
            },
            None => {
                assert(cur == prev);
            },
        }
    }
}

/// A name for an otherwise anonymous column, derived from its identifier.
pub uninterp spec fn synthesized_name(n: nat) -> Seq<char>;

/// Relies on alloc's `format!`: renders a fixed prefix and the decimal
/// digits of `n`; the result depends on `n` alone.
#[verifier::external_body]
fn synth_column_name(n: usize) -> (r: String)
    ensures
        r@ == synthesized_name(n as nat),
{
    format!("_expr_{}", n)
}

fn vec_contains_usize(v: &Vec<usize>, x: usize) -> (r: bool)
    ensures
        r == v@.contains(x),
{
    let mut i: usize = 0;
    while i < v.len()
        invariant
            0 <= i <= v.len(),
            forall|j: int| 0 <= j < i ==> v@[j] != x,
        decreases v.len() - i,
    {
        if v[i] == x {
            return true;
        }
        i = i + 1;
    }
    false
}

impl AnchorContext {
    /// A fresh, empty context.
    pub fn new() -> (c: AnchorContext)
        ensures
            c@ == AnchorContextV::spec_empty(),
            c@.wf(),
    {
        let c = AnchorContext {
            column_decls: Vec::new(),
            column_names: Vec::new(),
            table_decls: Vec::new(),
            table_instances: Vec::new(),
        };
        proof {
            assert(c@ =~= AnchorContextV::spec_empty());
        }
        c
    }

    /// Mints a fresh column identifier.
    pub fn gen_cid(&mut self) -> (c: CId)
        requires
            old(self)@.wf(),
        ensures
            final(self)@.wf(),
            c.0 as nat == old(self)@.column_decls.len(),
            final(self)@ == spec_gen_cid(old(self)@),
    {
        let c = CId(self.column_decls.len());
        self.column_decls.push(None);
        self.column_names.push(None);
        proof {
            assert(self@ =~= spec_gen_cid(old(self)@));
        }
        c
    }

    /// Mints a fresh table identifier.
    pub fn gen_tid(&mut self) -> (t: TId)
        ensures
            final(self)@.wf() == old(self)@.wf(),
            t.0 as nat == old(self)@.table_decls.len(),
            final(self)@ == spec_gen_tid(old(self)@),
    {
        let t = TId(self.table_decls.len());
        self.table_decls.push(None);
        proof {
            assert(self@ =~= spec_gen_tid(old(self)@));
        }
        t
    }

    /// Resolves a display name for `cid`, synthesizing and recording one if
    /// necessary; stable for the duration of the compilation.
    pub fn ensure_column_name(&mut self, cid: CId) -> (r: Option<String>)
        requires
            old(self)@.wf(),
            cid.0 < old(self)@.column_decls.len(),
        ensures
            final(self)@.wf(),
            opt_name_view(r) == spec_ensure_name(old(self)@, cid).0,
            final(self)@ == spec_ensure_name(old(self)@, cid).1,
    {
        let i = cid.0;
        let existing = match &self.column_names[i] {
            Some(s) => Some(s.clone()),
            None => None,
        };
        match existing {
            Some(s) => Some(s),
            None => {
                let is_wildcard = match &self.column_decls[i] {
                    Some(ColumnDecl::RelationColumn(_, _, RelationColumn::Wildcard)) => true,
                    _ => false,
                };
                if is_wildcard {
                    None
                } else {
                    let declared = match &self.column_decls[i] {
                        Some(ColumnDecl::RelationColumn(_, _, RelationColumn::Single(Some(n)))) => {
                            Some(n.clone())
                        },
                        _ => None,
                    };
                    let name = match declared {
                        Some(n) => n,
                        None => synth_column_name(i),
                    };
                    self.column_names[i] = Some(name.clone());
                    proof {
                        assert(self@ =~= spec_ensure_name(old(self)@, cid).1);
                    }
                    Some(name)
                }
            },
        }
    }

    /// Records a usage site of a table and declares its columns.
    pub fn create_table_instance(&mut self, table_ref: TableRef)
        requires
            old(self)@.wf(),
            forall|j: int| 0 <= j < table_ref@.columns.len() ==> (
            #[trigger] table_ref@.columns[j].1.0) < old(self)@.column_decls.len(),
        ensures
            final(self)@.wf(),
            final(self)@ == spec_create_instance(old(self)@, table_ref@),
    {
        let tiid = self.table_instances.len();
        let source = table_ref.source;
        let mut j: usize = 0;
        while j < table_ref.columns.len()
            invariant
                0 <= j <= table_ref.columns.len(),
                forall|k: int| 0 <= k < table_ref@.columns.len() ==> (
                #[trigger] table_ref@.columns[k].1.0) < old(self)@.column_decls.len(),
                self@.column_decls.len() == old(self)@.column_decls.len(),
                self@.column_decls == decls_with_instance(
                    old(self)@.column_decls,
                    table_ref@.columns.subrange(0, j as int),
                    source,
                    tiid,
                ),
                self@.column_names == old(self)@.column_names,
                self@.table_decls == old(self)@.table_decls,
                self@.table_instances == old(self)@.table_instances,
                self.table_instances@.len() == tiid,
                table_ref.columns@.len() == table_ref@.columns.len(),
            decreases table_ref.columns.len() - j,
        {
            let (col, cid) = &table_ref.columns[j];
            proof {
                assert(table_ref@.columns[j as int] == (table_ref.columns@[j as int].0@, table_ref.columns@[j as int].1));
                assert(table_ref@.columns[j as int].1.0 < old(self)@.column_decls.len());
                assert(self@.column_decls.len() == self.column_decls@.len());
            }
            self.column_decls[cid.0] = Some(ColumnDecl::RelationColumn(source, tiid, col.clone()));
            proof {
                assert(table_ref@.columns.subrange(0, j + 1 as int).drop_last() =~= table_ref@
                    .columns.subrange(0, j as int));
                assert(table_ref@.columns.subrange(0, j + 1 as int).last() == table_ref@.columns[j as int]);
                assert(self@.column_decls =~= decls_with_instance(
                    old(self)@.column_decls,
                    table_ref@.columns.subrange(0, j + 1 as int),
                    source,
                    tiid,
                ));
            }
            j = j + 1;
        }
        self.table_instances.push(table_ref);
        proof {
            assert(old(self)@.table_instances.len() == tiid);
            assert(table_ref@.columns.subrange(0, table_ref@.columns.len() as int) =~= table_ref@
                .columns);
            assert(self@ =~= spec_create_instance(old(self)@, table_ref@));
        }
    }

    /// Records, or replaces, the declaration of a computed column.
    pub fn register_compute(&mut self, compute: Compute)
        requires
            old(self)@.wf(),
            compute.id.0 < old(self)@.column_decls.len(),
        ensures
            final(self)@.wf(),
            final(self)@ == spec_register_compute(old(self)@, compute),
    {
        let ghost c0 = compute;
        let i = compute.id.0;
        self.column_decls[i] = Some(ColumnDecl::Compute(compute));
        proof {
            assert(self@ =~= spec_register_compute(old(self)@, c0));
        }
    }

    /// Mints a wildcard-standin column for the given input table instance,
    /// used in the empty-output fallback.
    pub fn register_wildcard(&mut self, tiid: usize) -> (c: CId)
        requires
            old(self)@.wf(),
            tiid < old(self)@.table_instances.len(),
        ensures
            final(self)@.wf(),
            c.0 as nat == old(self)@.column_decls.len(),
            final(self)@ == spec_register_wildcard(old(self)@, tiid),
    {
        let c = CId(self.column_decls.len());
        let source = self.table_instances[tiid].source;
        self.column_decls.push(
            Some(ColumnDecl::RelationColumn(source, tiid, RelationColumn::Wildcard)),
        );
        self.column_names.push(None);
        proof {
            assert(self@ =~= spec_register_wildcard(old(self)@, tiid));
        }
        c
    }

    /// Enumerates the input table instances a pipeline reads, first
    /// occurrences first.
    pub fn collect_pipeline_inputs(&self, pipeline: &Vec<Transform>) -> (r: Vec<usize>)
        ensures
            r@ == spec_collect_inputs(self@, pipeline_view(pipeline@)),
    {
        let mut out: Vec<usize> = Vec::new();
        let mut i: usize = 0;
        while i < pipeline.len()
            invariant
                0 <= i <= pipeline.len(),
                out@ == spec_collect_inputs(self@, pipeline_view(pipeline@).subrange(0, i as int)),
            decreases pipeline.len() - i,
        {
            let inst: Option<usize> = match &pipeline[i] {
                Transform::From(tr) => self.table_ref_instance(tr),
                Transform::Join { with, .. } => self.table_ref_instance(with),
                _ => None,
            };
            proof {
                assert(pipeline_view(pipeline@).subrange(0, i + 1 as int).drop_last()
                    =~= pipeline_view(pipeline@).subrange(0, i as int));
                assert(pipeline_view(pipeline@).subrange(0, i + 1 as int).last() == pipeline@[i as int]@);
            }
            match inst {
                Some(tiid) => {
                    if !vec_contains_usize(&out, tiid) {
                        out.push(tiid);
                    }
                },
                None => {},
            }
            i = i + 1;
        }
        proof {
            assert(pipeline_view(pipeline@).subrange(0, pipeline@.len() as int) =~= pipeline_view(
                pipeline@,
            ));
        }
        out
    }

    fn table_ref_instance(&self, tr: &TableRef) -> (r: Option<usize>)
        ensures
            r == spec_table_ref_instance(self@, tr@),
    {
        if tr.columns.len() > 0 {
            let cid = tr.columns[0].1;
            if cid.0 < self.column_decls.len() {
                match &self.column_decls[cid.0] {
                    Some(ColumnDecl::RelationColumn(_, tiid, _)) => Some(*tiid),
                    _ => None,
                }
            } else {
                None
            }
        } else {
            None
        }
    }
}

} // verus!
