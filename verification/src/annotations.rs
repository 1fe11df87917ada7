//! The environment of each statement: the references that its variables are
//! bound to when control reaches it, and the state of the path. The
//! environment of a statement is recorded when the statement is first
//! reached; every later edge into it must bring the same environment.

use vstd::prelude::*;
use cairo_lang_sierra_type_size::TypeSizeMap;
use crate::casm::Cell;
use crate::casm::Register;
use crate::environment::Environment;
use crate::environment::EnvironmentError;
use crate::environment::GasWallet;
use crate::ids::FunctionId;
use crate::ids::StatementIdx;
use crate::ids::TypeId;
use crate::ids::VarId;
use crate::invocations::BranchChanges;
use crate::invocations::OutputReferenceValue;
use crate::metadata::Metadata;
use crate::program::Function;
use crate::program::Param;
use crate::program::find_function;
use crate::program::get_function;
use crate::references::ApChange;
use crate::references::ApChangeError;
use crate::references::CellExpression;
use crate::references::ReferenceExpression;
use crate::references::ReferenceValue;
use crate::references::ReferenceValueView;
use crate::references::ReferencesError;
use crate::references::check_types_match;
use crate::references::reference_views;
use crate::references::types_of;
use crate::type_sizes::cell_count;
use crate::type_sizes::spec_cell_count;

verus! {

/// Errors of the environment.
#[derive(Clone, Copy, Debug, PartialEq, Eq, Structural)]
pub enum AnnotationError {
    /// No path reaches the statement.
    MissingAnnotationsForStatement(StatementIdx),
    /// A statement takes a variable that is not bound.
    MissingReferenceError { statement_idx: StatementIdx, var_id: VarId },
    /// A branch binds a variable that is bound already.
    OverrideReferenceError {
        source_statement_idx: StatementIdx,
        destination_statement_idx: StatementIdx,
        var_id: VarId,
    },
    /// The change of the allocation pointer of a branch cannot be applied to
    /// the reference of a variable.
    ApChangeError { source_statement_idx: StatementIdx, var_id: VarId, error: ApChangeError },
    /// Two edges bring different environments to a statement.
    InconsistentAnnotations {
        source_statement_idx: StatementIdx,
        destination_statement_idx: StatementIdx,
    },
    /// A branch leads out of the program.
    InvalidStatementIdx {
        source_statement_idx: StatementIdx,
        destination_statement_idx: StatementIdx,
    },
    /// A check on the references of a statement failed.
    ReferencesError { statement_idx: StatementIdx, error: ReferencesError },
    /// The state of the path does not allow the step.
    EnvironmentError { statement_idx: StatementIdx, error: EnvironmentError },
    /// The function of a statement is not declared.
    MissingFunction { statement_idx: StatementIdx, function_id: FunctionId },
    /// Gas is checked and the cost of a function is not known.
    MissingGasInfo(FunctionId),
}

/// The environment of a statement.
#[derive(Clone, Debug, PartialEq, Eq)]
pub struct StatementAnnotations {
    /// The references of the bound variables, in the order of binding. No
    /// variable occurs twice.
    pub refs: Vec<(VarId, ReferenceValue)>,
    /// The function that the statement belongs to.
    pub function_id: FunctionId,
    pub environment: Environment,
}

/// A `StatementAnnotations` as a mathematical value.
pub struct StatementAnnotationsView {
    pub refs: Seq<(VarId, ReferenceValueView)>,
    pub function_id: FunctionId,
    pub environment: Environment,
}

/// The bindings of a sequence of variables, as mathematical values.
pub open spec fn refs_view(s: Seq<(VarId, ReferenceValue)>) -> Seq<(VarId, ReferenceValueView)> {
    s.map_values(|p: (VarId, ReferenceValue)| (p.0, p.1@))
}

impl View for StatementAnnotations {
    type V = StatementAnnotationsView;

    open spec fn view(&self) -> StatementAnnotationsView {
        StatementAnnotationsView {
            refs: refs_view(self.refs@),
            function_id: self.function_id,
            environment: self.environment,
        }
    }
}

/// The reference of an output of a branch, as a mathematical value.
pub struct OutputReferenceView {
    pub cells: Seq<CellExpression>,
    pub ty: TypeId,
}

impl View for OutputReferenceValue {
    type V = OutputReferenceView;

    open spec fn view(&self) -> OutputReferenceView {
        OutputReferenceView { cells: self.expression.cells@, ty: self.ty }
    }
}

/// The changes of a branch, as a mathematical value.
pub struct BranchChangesView {
    pub refs: Seq<OutputReferenceView>,
    pub ap_change: ApChange,
    pub gas_change: i64,
}

impl View for BranchChanges {
    type V = BranchChangesView;

    open spec fn view(&self) -> BranchChangesView {
        BranchChangesView {
            refs: self.refs@.map_values(|o: OutputReferenceValue| o@),
            ap_change: self.ap_change,
            gas_change: self.gas_change,
        }
    }
}

/// The index of the binding of `var`.
pub open spec fn index_of_var(refs: Seq<(VarId, ReferenceValueView)>, var: VarId) -> Option<int>
    decreases refs.len(),
{
    if refs.len() == 0 {
        None
    } else if refs[0].0 == var {
        Some(0)
    } else {
        match index_of_var(refs.skip(1), var) {
            Some(i) => Some(i + 1),
            None => None,
        }
    }
}

/// An index that `index_of_var` gives is that of a binding of the variable,
/// and a variable without index is not bound.
pub proof fn lemma_index_of_var(refs: Seq<(VarId, ReferenceValueView)>, var: VarId)
    ensures
        match index_of_var(refs, var) {
            Some(i) => 0 <= i < refs.len() && refs[i].0 == var,
            None => forall|j: int| 0 <= j < refs.len() ==> (#[trigger] refs[j]).0 != var,
        },
    decreases refs.len(),
{
    if refs.len() > 0 && refs[0].0 != var {
        lemma_index_of_var(refs.skip(1), var);
        if index_of_var(refs.skip(1), var).is_none() {
            assert forall|j: int| 0 <= j < refs.len() implies (#[trigger] refs[j]).0 != var by {
                if j > 0 {
                    assert(refs.skip(1)[j - 1] == refs[j]);
                }
            }
        }
    }
}

/// Taking the variables `vars`, in order, out of `refs`: what is left and
/// the references that were taken, or the first variable that is not bound
/// when its turn comes.
pub open spec fn spec_take_args(refs: Seq<(VarId, ReferenceValueView)>, vars: Seq<VarId>) -> Result<
    (Seq<(VarId, ReferenceValueView)>, Seq<ReferenceValueView>),
    VarId,
>
    decreases vars.len(),
{
    if vars.len() == 0 {
        Ok((refs, Seq::empty()))
    } else {
        match spec_take_args(refs, vars.drop_last()) {
            Err(v) => Err(v),
            Ok((rest, taken)) => match index_of_var(rest, vars.last()) {
                None => Err(vars.last()),
                Some(i) => Ok((rest.remove(i), taken.push(rest[i].1))),
            },
        }
    }
}

/// A failure on a prefix of the variables is the failure of the whole.
pub proof fn lemma_take_args_err_prefix(
    refs: Seq<(VarId, ReferenceValueView)>,
    vars: Seq<VarId>,
    k: int,
)
    requires
        0 <= k <= vars.len(),
        spec_take_args(refs, vars.take(k)) is Err,
    ensures
        spec_take_args(refs, vars) == spec_take_args(refs, vars.take(k)),
    decreases vars.len() - k,
{
    if k < vars.len() {
        assert(vars.take(k + 1).drop_last() =~= vars.take(k));
        lemma_take_args_err_prefix(refs, vars, k + 1);
    } else {
        assert(vars.take(k) =~= vars);
    }
}

/// The bindings after the change `change` of the allocation pointer, or the
/// first variable whose reference the change cannot be applied to.
pub open spec fn spec_shift_refs(refs: Seq<(VarId, ReferenceValueView)>, change: ApChange) -> Result<
    Seq<(VarId, ReferenceValueView)>,
    (VarId, ApChangeError),
>
    decreases refs.len(),
{
    if refs.len() == 0 {
        Ok(Seq::empty())
    } else {
        match spec_shift_refs(refs.drop_last(), change) {
            Err(e) => Err(e),
            Ok(done) => match refs.last().1.apply_ap_change(change) {
                Err(e) => Err((refs.last().0, e)),
                Ok(r) => Ok(done.push((refs.last().0, r))),
            },
        }
    }
}

/// A failure on a prefix of the bindings is the failure of the whole.
pub proof fn lemma_shift_refs_err_prefix(
    refs: Seq<(VarId, ReferenceValueView)>,
    change: ApChange,
    k: int,
)
    requires
        0 <= k <= refs.len(),
        spec_shift_refs(refs.take(k), change) is Err,
    ensures
        spec_shift_refs(refs, change) == spec_shift_refs(refs.take(k), change),
    decreases refs.len() - k,
{
    if k < refs.len() {
        assert(refs.take(k + 1).drop_last() =~= refs.take(k));
        lemma_shift_refs_err_prefix(refs, change, k + 1);
    } else {
        assert(refs.take(k) =~= refs);
    }
}

/// The bindings `refs` with the first `n` of the variables `vars` bound, in
/// order, to the first `n` of the outputs `outs`, introduced at `point`; or
/// the first variable that is bound already when its turn comes.
pub open spec fn spec_bind_outputs(
    refs: Seq<(VarId, ReferenceValueView)>,
    vars: Seq<VarId>,
    outs: Seq<OutputReferenceView>,
    point: StatementIdx,
    n: int,
) -> Result<Seq<(VarId, ReferenceValueView)>, VarId>
    decreases n,
{
    if n <= 0 || n > vars.len() || n > outs.len() {
        Ok(refs)
    } else {
        match spec_bind_outputs(refs, vars, outs, point, n - 1) {
            Err(v) => Err(v),
            Ok(done) => match index_of_var(done, vars[n - 1]) {
                Some(_) => Err(vars[n - 1]),
                None => Ok(
                    done.push(
                        (
                            vars[n - 1],
                            ReferenceValueView {
                                cells: outs[n - 1].cells,
                                ty: outs[n - 1].ty,
                                introduction_point: point,
                            },
                        ),
                    ),
                ),
            },
        }
    }
}

/// The environment that the branch with the results `results` and the
/// changes `changes` brings from the statement `source` with the environment
/// `annotations` to the statement `destination`: the change of the
/// allocation pointer is applied to each reference, then the results are
/// bound to the outputs of the branch (as many as there are of both), then
/// the state takes the changes of the branch.
pub open spec fn spec_branch_annotations(
    annotations: StatementAnnotationsView,
    source: StatementIdx,
    destination: StatementIdx,
    results: Seq<VarId>,
    changes: BranchChangesView,
) -> Result<StatementAnnotationsView, AnnotationError> {
    match spec_shift_refs(annotations.refs, changes.ap_change) {
        Err((var_id, error)) => Err(
            AnnotationError::ApChangeError { source_statement_idx: source, var_id, error },
        ),
        Ok(shifted) => match spec_bind_outputs(
            shifted,
            results,
            changes.refs,
            source,
            if results.len() <= changes.refs.len() {
                results.len() as int
            } else {
                changes.refs.len() as int
            },
        ) {
            Err(var_id) => Err(
                AnnotationError::OverrideReferenceError {
                    source_statement_idx: source,
                    destination_statement_idx: destination,
                    var_id,
                },
            ),
            Ok(refs) => match annotations.environment.spec_after_branch(
                changes.ap_change,
                changes.gas_change,
            ) {
                Err(error) => Err(
                    AnnotationError::EnvironmentError { statement_idx: source, error },
                ),
                Ok(environment) => Ok(
                    StatementAnnotationsView {
                        refs,
                        function_id: annotations.function_id,
                        environment,
                    },
                ),
            },
        },
    }
}

/// The environments of the statements after `annotations` arrives at
/// `destination` from `source`: it is recorded where the statement has none,
/// and must equal the one that the statement has.
pub open spec fn spec_set_or_assert(
    state: Seq<Option<StatementAnnotationsView>>,
    source: StatementIdx,
    destination: StatementIdx,
    annotations: StatementAnnotationsView,
) -> Result<Seq<Option<StatementAnnotationsView>>, AnnotationError> {
    if destination.0 >= state.len() {
        Err(
            AnnotationError::InvalidStatementIdx {
                source_statement_idx: source,
                destination_statement_idx: destination,
            },
        )
    } else {
        match state[destination.0 as int] {
            None => Ok(state.update(destination.0 as int, Some(annotations))),
            Some(recorded) => if recorded == annotations {
                Ok(state)
            } else {
                Err(
                    AnnotationError::InconsistentAnnotations {
                        source_statement_idx: source,
                        destination_statement_idx: destination,
                    },
                )
            },
        }
    }
}

/// The environments of the statements after the branch with the results
/// `results` and the changes `changes` was taken from `source` to
/// `destination`.
pub open spec fn spec_propagate(
    state: Seq<Option<StatementAnnotationsView>>,
    source: StatementIdx,
    destination: StatementIdx,
    annotations: StatementAnnotationsView,
    results: Seq<VarId>,
    changes: BranchChangesView,
) -> Result<Seq<Option<StatementAnnotationsView>>, AnnotationError> {
    match spec_branch_annotations(annotations, source, destination, results, changes) {
        Err(e) => Err(e),
        Ok(arriving) => spec_set_or_assert(state, source, destination, arriving),
    }
}

/// What checking the return of values of the types `return_types` at
/// `statement_idx` gives: the function of the statement must be declared,
/// the types must be its return types, and the state must allow the return.
pub open spec fn spec_validate_final(
    statement_idx: StatementIdx,
    annotations: StatementAnnotationsView,
    funcs: Seq<Function>,
    return_types: Seq<TypeId>,
) -> Result<(), AnnotationError> {
    match find_function(funcs, annotations.function_id) {
        None => Err(
            AnnotationError::MissingFunction {
                statement_idx,
                function_id: annotations.function_id,
            },
        ),
        Some(f) => if return_types != f.ret_types@ {
            Err(
                AnnotationError::ReferencesError {
                    statement_idx,
                    error: ReferencesError::InvalidReferenceTypeForArgument,
                },
            )
        } else if !annotations.environment.spec_is_final() {
            Err(
                AnnotationError::EnvironmentError {
                    statement_idx,
                    error: EnvironmentError::InvalidFinalFrameState,
                },
            )
        } else {
            Ok(())
        },
    }
}

/// The number of cells of the bindings.
pub open spec fn bound_cells(refs: Seq<(VarId, ReferenceValueView)>) -> int
    decreases refs.len(),
{
    if refs.len() == 0 {
        0
    } else {
        bound_cells(refs.drop_last()) + refs.last().1.cells.len()
    }
}

/// The cells `[fp + first]`, `[fp + first + 1]`, .. of a parameter of `n`
/// cells.
pub open spec fn frame_cells(first: int, n: nat) -> Seq<CellExpression> {
    Seq::new(
        n,
        |c: int| CellExpression::Deref(Cell { register: Register::FP, offset: (first + c) as i16 }),
    )
}

/// The bindings of the parameters from the `k`-th on at the entry of a
/// function, the last parameter first. The parameters lie below the frame
/// pointer in order, the last cell of the last parameter being `[fp - 3]`.
/// There are none where the size of a type is not known, where a variable
/// occurs twice, or where an offset is out of range.
pub open spec fn spec_param_refs(
    params: Seq<Param>,
    type_sizes: TypeSizeMap,
    entry: StatementIdx,
    k: int,
) -> Option<Seq<(VarId, ReferenceValueView)>>
    decreases params.len() - k,
{
    if k < 0 || k >= params.len() {
        Some(Seq::empty())
    } else {
        match spec_param_refs(params, type_sizes, entry, k + 1) {
            None => None,
            Some(later) => match spec_cell_count(type_sizes, params[k].ty) {
                None => None,
                Some(size) => {
                    let first = -2 - bound_cells(later) - size;
                    if first < i16::MIN || index_of_var(later, params[k].id).is_some() {
                        None
                    } else {
                        Some(
                            later.push(
                                (
                                    params[k].id,
                                    ReferenceValueView {
                                        cells: frame_cells(first, size as nat),
                                        ty: params[k].ty,
                                        introduction_point: entry,
                                    },
                                ),
                            ),
                        )
                    }
                },
            },
        }
    }
}

/// The gas at hand at the entry of the function `id`.
pub open spec fn spec_entry_wallet(metadata: Metadata, gas_usage_check: bool, id: FunctionId) -> Option<
    GasWallet,
> {
    if gas_usage_check {
        match metadata.spec_function_cost(id) {
            Some(cost) => Some(GasWallet::Value(cost)),
            None => None,
        }
    } else {
        Some(GasWallet::Disabled)
    }
}

/// The environment at the entry of the function `f`.
pub open spec fn spec_entry_annotations(
    f: Function,
    metadata: Metadata,
    gas_usage_check: bool,
    type_sizes: TypeSizeMap,
) -> Result<StatementAnnotationsView, AnnotationError> {
    match spec_param_refs(f.params@, type_sizes, f.entry_point, 0) {
        None => Err(
            AnnotationError::ReferencesError {
                statement_idx: f.entry_point,
                error: ReferencesError::InvalidFunctionDeclaration(f.id),
            },
        ),
        Some(refs) => match spec_entry_wallet(metadata, gas_usage_check, f.id) {
            None => Err(AnnotationError::MissingGasInfo(f.id)),
            Some(wallet) => Ok(
                StatementAnnotationsView {
                    refs,
                    function_id: f.id,
                    environment: Environment::spec_new(wallet),
                },
            ),
        },
    }
}

/// The environments of the statements after the entries of the first `k`
/// functions were recorded.
pub open spec fn spec_create(
    n_statements: nat,
    funcs: Seq<Function>,
    metadata: Metadata,
    gas_usage_check: bool,
    type_sizes: TypeSizeMap,
    k: int,
) -> Result<Seq<Option<StatementAnnotationsView>>, AnnotationError>
    decreases k,
{
    if k <= 0 || k > funcs.len() {
        Ok(Seq::new(n_statements, |i: int| None::<StatementAnnotationsView>))
    } else {
        match spec_create(n_statements, funcs, metadata, gas_usage_check, type_sizes, k - 1) {
            Err(e) => Err(e),
            Ok(state) => match spec_entry_annotations(
                funcs[k - 1],
                metadata,
                gas_usage_check,
                type_sizes,
            ) {
                Err(e) => Err(e),
                Ok(entry) => spec_set_or_assert(
                    state,
                    funcs[k - 1].entry_point,
                    funcs[k - 1].entry_point,
                    entry,
                ),
            },
        }
    }
}

/// The environments of the statements of a program.
pub struct ProgramAnnotations {
    per_statement_annotations: Vec<Option<StatementAnnotations>>,
}

impl View for ProgramAnnotations {
    type V = Seq<Option<StatementAnnotationsView>>;

    /// For each statement, the environment that is recorded for it, if any.
    closed spec fn view(&self) -> Seq<Option<StatementAnnotationsView>> {
        self.per_statement_annotations@.map_values(
            |o: Option<StatementAnnotations>|
                match o {
                    Some(a) => Some(a@),
                    None => None,
                },
        )
    }
}

/// A copy of the bindings.
pub fn duplicate_refs(refs: &Vec<(VarId, ReferenceValue)>) -> (r: Vec<(VarId, ReferenceValue)>)
    ensures
        refs_view(r@) == refs_view(refs@),
{
    let mut out: Vec<(VarId, ReferenceValue)> = Vec::new();
    let mut i: usize = 0;
    while i < refs.len()
        invariant
            i <= refs.len(),
            out@.len() == i,
            forall|j: int| 0 <= j < i ==> out@[j].0 == refs@[j].0 && out@[j].1@ == refs@[j].1@,
        decreases refs.len() - i,
    {
        let copy = refs[i].1.duplicate();
        out.push((refs[i].0, copy));
        i += 1;
    }
    assert(refs_view(out@) =~= refs_view(refs@));
    out
}

/// The index of the binding of `var` in `refs`.
pub fn find_var(refs: &Vec<(VarId, ReferenceValue)>, var: VarId) -> (r: Option<usize>)
    ensures
        match r {
            Some(i) => index_of_var(refs_view(refs@), var) == Some(i as int) && i < refs@.len(),
            None => index_of_var(refs_view(refs@), var).is_none(),
        },
{
    let ghost views = refs_view(refs@);
    let mut i: usize = 0;
    assert(views.skip(0) =~= views);
    while i < refs.len()
        invariant
            i <= refs.len(),
            views == refs_view(refs@),
            index_of_var(views, var) == match index_of_var(views.skip(i as int), var) {
                Some(k) => Some(k + i),
                None => None,
            },
        decreases refs.len() - i,
    {
        proof {
            assert(views.skip(i as int).skip(1) =~= views.skip(i + 1));
        }
        if refs[i].0 == var {
            return Some(i);
        }
        i += 1;
    }
    None
}

impl StatementAnnotations {
    /// Whether the two environments are the same.
    pub fn same_as(&self, other: &StatementAnnotations) -> (r: bool)
        ensures
            r == (self@ == other@),
    {
        if !(self.function_id == other.function_id) || !(self.environment == other.environment) {
            return false;
        }
        if self.refs.len() != other.refs.len() {
            assert(self@.refs.len() != other@.refs.len());
            return false;
        }
        let mut i: usize = 0;
        while i < self.refs.len()
            invariant
                i <= self.refs.len(),
                self.refs.len() == other.refs.len(),
                forall|j: int| 0 <= j < i ==> self@.refs[j] == other@.refs[j],
            decreases self.refs.len() - i,
        {
            if !(self.refs[i].0 == other.refs[i].0) || !self.refs[i].1.same_as(&other.refs[i].1) {
                assert(self@.refs[i as int] != other@.refs[i as int]);
                return false;
            }
            i += 1;
        }
        assert(self@.refs =~= other@.refs);
        true
    }
}

impl ProgramAnnotations {
    /// The number of statements.
    pub fn len(&self) -> (n: usize)
        ensures
            n == self@.len(),
    {
        self.per_statement_annotations.len()
    }

    /// The environment of the statement `statement_idx` after the variables
    /// `vars` were taken out of it, in order, and the references that were
    /// taken.
    pub fn get_annotations_after_take_args(&self, statement_idx: StatementIdx, vars: &Vec<VarId>) -> (r:
        Result<(StatementAnnotations, Vec<ReferenceValue>), AnnotationError>)
        ensures
            match r {
                Ok((rest, taken)) => {
                    &&& statement_idx.0 < self@.len()
                    &&& self@[statement_idx.0 as int] matches Some(a)
                    &&& spec_take_args(a.refs, vars@) == Ok::<
                        (Seq<(VarId, ReferenceValueView)>, Seq<ReferenceValueView>),
                        VarId,
                    >((rest@.refs, reference_views(taken@)))
                    &&& rest@.function_id == a.function_id
                    &&& rest@.environment == a.environment
                },
                Err(e) => {
                    if statement_idx.0 >= self@.len() || self@[statement_idx.0 as int].is_none() {
                        e == AnnotationError::MissingAnnotationsForStatement(statement_idx)
                    } else {
                        &&& spec_take_args(self@[statement_idx.0 as int].unwrap().refs, vars@) is Err
                        &&& e == AnnotationError::MissingReferenceError {
                            statement_idx,
                            var_id: spec_take_args(
                                self@[statement_idx.0 as int].unwrap().refs,
                                vars@,
                            )->Err_0,
                        }
                    }
                },
            },
    {
        if statement_idx.0 >= self.per_statement_annotations.len() {
            return Err(AnnotationError::MissingAnnotationsForStatement(statement_idx));
        }
        let recorded = match &self.per_statement_annotations[statement_idx.0] {
            None => {
                return Err(AnnotationError::MissingAnnotationsForStatement(statement_idx));
            },
            Some(a) => a,
        };
        let ghost start = recorded@.refs;
        assert(self@[statement_idx.0 as int] == Some(recorded@));
        let mut refs = duplicate_refs(&recorded.refs);
        let mut taken: Vec<ReferenceValue> = Vec::new();
        let mut k: usize = 0;
        assert(vars@.take(0) =~= Seq::<VarId>::empty());
        assert(reference_views(taken@) =~= Seq::<ReferenceValueView>::empty());
        while k < vars.len()
            invariant
                k <= vars.len(),
                statement_idx.0 < self@.len(),
                self@[statement_idx.0 as int] == Some(recorded@),
                start == recorded@.refs,
                spec_take_args(start, vars@.take(k as int)) == Ok::<
                    (Seq<(VarId, ReferenceValueView)>, Seq<ReferenceValueView>),
                    VarId,
                >((refs_view(refs@), reference_views(taken@))),
            decreases vars.len() - k,
        {
            proof {
                assert(vars@.take(k + 1).drop_last() =~= vars@.take(k as int));
                assert(vars@.take(k + 1).last() == vars@[k as int]);
            }
            match find_var(&refs, vars[k]) {
                None => {
                    proof {
                        lemma_take_args_err_prefix(start, vars@, k + 1);
                    }
                    return Err(
                        AnnotationError::MissingReferenceError { statement_idx, var_id: vars[k] },
                    );
                },
                Some(i) => {
                    let ghost before = refs_view(refs@);
                    let ghost taken_before = reference_views(taken@);
                    let (_, reference) = refs.remove(i);
                    taken.push(reference);
                    assert(refs_view(refs@) =~= before.remove(i as int));
                    assert(reference_views(taken@) =~= taken_before.push(before[i as int].1));
                },
            }
            k += 1;
        }
        assert(vars@.take(k as int) =~= vars@);
        Ok(
            (
                StatementAnnotations {
                    refs,
                    function_id: recorded.function_id,
                    environment: recorded.environment,
                },
                taken,
            ),
        )
    }
}

/// The environment that a branch brings to its destination.
pub fn branch_annotations(
    annotations: &StatementAnnotations,
    source: StatementIdx,
    destination: StatementIdx,
    results: &Vec<VarId>,
    changes: &BranchChanges,
) -> (r: Result<StatementAnnotations, AnnotationError>)
    ensures
        match spec_branch_annotations(annotations@, source, destination, results@, changes@) {
            Ok(a) => r is Ok && r->Ok_0@ == a,
            Err(e) => r == Err::<StatementAnnotations, AnnotationError>(e),
        },
{
    let ghost start = annotations@.refs;
    let mut refs: Vec<(VarId, ReferenceValue)> = Vec::new();
    let mut i: usize = 0;
    assert(start.take(0) =~= Seq::<(VarId, ReferenceValueView)>::empty());
    assert(refs_view(refs@) =~= Seq::<(VarId, ReferenceValueView)>::empty());
    while i < annotations.refs.len()
        invariant
            i <= annotations.refs.len(),
            start == annotations@.refs,
            spec_shift_refs(start.take(i as int), changes.ap_change) == Ok::<
                Seq<(VarId, ReferenceValueView)>,
                (VarId, ApChangeError),
            >(refs_view(refs@)),
        decreases annotations.refs.len() - i,
    {
        proof {
            assert(start.take(i + 1).drop_last() =~= start.take(i as int));
            assert(start.take(i + 1).last() == start[i as int]);
            assert(start[i as int] == (annotations.refs@[i as int].0, annotations.refs@[i as int].1@));
        }
        match annotations.refs[i].1.apply_ap_change(changes.ap_change) {
            Err(error) => {
                proof {
                    lemma_shift_refs_err_prefix(start, changes.ap_change, i + 1);
                }
                return Err(
                    AnnotationError::ApChangeError {
                        source_statement_idx: source,
                        var_id: annotations.refs[i].0,
                        error,
                    },
                );
            },
            Ok(shifted) => {
                let ghost before = refs_view(refs@);
                refs.push((annotations.refs[i].0, shifted));
                assert(refs_view(refs@) =~= before.push((annotations.refs@[i as int].0, shifted@)));
            },
        }
        i += 1;
    }
    assert(start.take(i as int) =~= start);
    let ghost shifted_all = refs_view(refs@);
    let n: usize = if results.len() <= changes.refs.len() {
        results.len()
    } else {
        changes.refs.len()
    };
    let mut k: usize = 0;
    while k < n
        invariant
            k <= n,
            n <= results.len(),
            n <= changes.refs.len(),
            n == (if results@.len() <= changes@.refs.len() {
                results@.len()
            } else {
                changes@.refs.len()
            }),
            spec_shift_refs(annotations@.refs, changes@.ap_change) == Ok::<
                Seq<(VarId, ReferenceValueView)>,
                (VarId, ApChangeError),
            >(shifted_all),
            spec_bind_outputs(shifted_all, results@, changes@.refs, source, k as int) == Ok::<
                Seq<(VarId, ReferenceValueView)>,
                VarId,
            >(refs_view(refs@)),
        decreases n - k,
    {
        match find_var(&refs, results[k]) {
            Some(_) => {
                proof {
                    assert(spec_bind_outputs(
                        shifted_all,
                        results@,
                        changes@.refs,
                        source,
                        k + 1,
                    ) == Err::<Seq<(VarId, ReferenceValueView)>, VarId>(results@[k as int]));
                    lemma_bind_outputs_err(
                        shifted_all,
                        results@,
                        changes@.refs,
                        source,
                        k + 1,
                        n as int,
                    );
                }
                return Err(
                    AnnotationError::OverrideReferenceError {
                        source_statement_idx: source,
                        destination_statement_idx: destination,
                        var_id: results[k],
                    },
                );
            },
            None => {
                let ghost before = refs_view(refs@);
                let out = &changes.refs[k];
                let mut cells: Vec<CellExpression> = Vec::new();
                let mut c: usize = 0;
                while c < out.expression.cells.len()
                    invariant
                        c <= out.expression.cells.len(),
                        cells@ == out.expression.cells@.take(c as int),
                    decreases out.expression.cells.len() - c,
                {
                    cells.push(out.expression.cells[c].duplicate());
                    c += 1;
                }
                assert(out.expression.cells@.take(c as int) =~= out.expression.cells@);
                let reference = ReferenceValue {
                    expression: ReferenceExpression { cells },
                    ty: out.ty,
                    introduction_point: source,
                };
                assert(changes@.refs[k as int] == out@);
                refs.push((results[k], reference));
                assert(refs_view(refs@) =~= before.push((results@[k as int], reference@)));
            },
        }
        k += 1;
    }
    match annotations.environment.after_branch(changes.ap_change, changes.gas_change) {
        Err(error) => Err(AnnotationError::EnvironmentError { statement_idx: source, error }),
        Ok(environment) => Ok(
            StatementAnnotations { refs, function_id: annotations.function_id, environment },
        ),
    }
}

/// A variable that cannot be bound makes every longer binding fail on it.
pub proof fn lemma_bind_outputs_err(
    refs: Seq<(VarId, ReferenceValueView)>,
    vars: Seq<VarId>,
    outs: Seq<OutputReferenceView>,
    point: StatementIdx,
    k: int,
    n: int,
)
    requires
        0 <= k <= n,
        n <= vars.len(),
        n <= outs.len(),
        spec_bind_outputs(refs, vars, outs, point, k) is Err,
    ensures
        spec_bind_outputs(refs, vars, outs, point, n) == spec_bind_outputs(
            refs,
            vars,
            outs,
            point,
            k,
        ),
    decreases n - k,
{
    if k < n {
        lemma_bind_outputs_err(refs, vars, outs, point, k + 1, n);
    }
}

/// The bindings of the parameters `params` at the entry `entry` of a
/// function.
pub fn param_refs(params: &Vec<Param>, type_sizes: &TypeSizeMap, entry: StatementIdx) -> (r: Option<
    Vec<(VarId, ReferenceValue)>,
>)
    ensures
        match spec_param_refs(params@, *type_sizes, entry, 0) {
            Some(refs) => r is Some && refs_view(r->Some_0@) == refs,
            None => r is None,
        },
{
    let mut refs: Vec<(VarId, ReferenceValue)> = Vec::new();
    let mut total: i32 = 0;
    let mut k: usize = params.len();
    assert(refs_view(refs@) =~= Seq::<(VarId, ReferenceValueView)>::empty());
    while k > 0
        invariant
            k <= params.len(),
            spec_param_refs(params@, *type_sizes, entry, k as int) == Some(refs_view(refs@)),
            total == bound_cells(refs_view(refs@)),
            0 <= total <= 32766,
        decreases k,
    {
        k -= 1;
        let p = params[k];
        let size: usize = match cell_count(type_sizes, p.ty) {
            None => {
                proof {
                    lemma_param_refs_none(params@, *type_sizes, entry, k as int);
                }
                return None;
            },
            Some(size) => size,
        };
        assert(size <= 32767);
        let first: i32 = -2 - total - (size as i32);
        if first < -32768 || find_var(&refs, p.id).is_some() {
            proof {
                lemma_param_refs_none(params@, *type_sizes, entry, k as int);
            }
            return None;
        }
        let mut cells: Vec<CellExpression> = Vec::new();
        let mut c: usize = 0;
        while c < size
            invariant
                c <= size <= 32767,
                -32768 <= first,
                first + size <= -2,
                cells@ == frame_cells(first as int, size as nat).take(c as int),
            decreases size - c,
        {
            let offset: i16 = (first + (c as i32)) as i16;
            cells.push(CellExpression::Deref(Cell { register: Register::FP, offset }));
            assert(cells@ =~= frame_cells(first as int, size as nat).take(c + 1));
            c += 1;
        }
        assert(frame_cells(first as int, size as nat).take(c as int) =~= frame_cells(
            first as int,
            size as nat,
        ));
        let reference = ReferenceValue {
            expression: ReferenceExpression { cells },
            ty: p.ty,
            introduction_point: entry,
        };
        let ghost before = refs_view(refs@);
        refs.push((p.id, reference));
        proof {
            assert(refs_view(refs@) =~= before.push((p.id, reference@)));
            assert(refs_view(refs@).drop_last() =~= before);
        }
        total = total + (size as i32);
    }
    Some(refs)
}

/// Parameters that cannot be bound from the `k`-th on cannot be bound at all.
pub proof fn lemma_param_refs_none(
    params: Seq<Param>,
    type_sizes: TypeSizeMap,
    entry: StatementIdx,
    k: int,
)
    requires
        0 <= k <= params.len(),
        spec_param_refs(params, type_sizes, entry, k) is None,
    ensures
        spec_param_refs(params, type_sizes, entry, 0) is None,
    decreases k,
{
    if k > 0 {
        lemma_param_refs_none(params, type_sizes, entry, k - 1);
    }
}

/// The environment at the entry of the function `f`.
pub fn entry_annotations(
    f: &Function,
    metadata: &Metadata,
    gas_usage_check: bool,
    type_sizes: &TypeSizeMap,
) -> (r: Result<StatementAnnotations, AnnotationError>)
    ensures
        match spec_entry_annotations(*f, *metadata, gas_usage_check, *type_sizes) {
            Ok(a) => r is Ok && r->Ok_0@ == a,
            Err(e) => r == Err::<StatementAnnotations, AnnotationError>(e),
        },
{
    let refs = match param_refs(&f.params, type_sizes, f.entry_point) {
        None => {
            return Err(
                AnnotationError::ReferencesError {
                    statement_idx: f.entry_point,
                    error: ReferencesError::InvalidFunctionDeclaration(f.id),
                },
            );
        },
        Some(refs) => refs,
    };
    let wallet = if gas_usage_check {
        match metadata.function_cost(f.id) {
            Some(cost) => GasWallet::Value(cost),
            None => {
                return Err(AnnotationError::MissingGasInfo(f.id));
            },
        }
    } else {
        GasWallet::Disabled
    };
    Ok(StatementAnnotations { refs, function_id: f.id, environment: Environment::new(wallet) })
}

impl ProgramAnnotations {
    /// The environments of a program of `n_statements` statements before
    /// any statement is compiled: that of the entry of each function.
    pub fn create(
        n_statements: usize,
        funcs: &Vec<Function>,
        metadata: &Metadata,
        gas_usage_check: bool,
        type_sizes: &TypeSizeMap,
    ) -> (r: Result<ProgramAnnotations, AnnotationError>)
        ensures
            match spec_create(
                n_statements as nat,
                funcs@,
                *metadata,
                gas_usage_check,
                *type_sizes,
                funcs@.len() as int,
            ) {
                Ok(state) => r is Ok && r->Ok_0@ == state,
                Err(e) => r is Err && r->Err_0 == e,
            },
    {
        let mut cells: Vec<Option<StatementAnnotations>> = Vec::new();
        let mut i: usize = 0;
        while i < n_statements
            invariant
                i <= n_statements,
                cells@.len() == i,
                forall|j: int| 0 <= j < i ==> cells@[j].is_none(),
            decreases n_statements - i,
        {
            cells.push(None);
            i += 1;
        }
        let mut annotations = ProgramAnnotations { per_statement_annotations: cells };
        assert(annotations@ =~= Seq::new(
            n_statements as nat,
            |i: int| None::<StatementAnnotationsView>,
        ));
        let mut k: usize = 0;
        while k < funcs.len()
            invariant
                k <= funcs.len(),
                spec_create(
                    n_statements as nat,
                    funcs@,
                    *metadata,
                    gas_usage_check,
                    *type_sizes,
                    k as int,
                ) == Ok::<Seq<Option<StatementAnnotationsView>>, AnnotationError>(annotations@),
            decreases funcs.len() - k,
        {
            let f = &funcs[k];
            let entry = match entry_annotations(f, metadata, gas_usage_check, type_sizes) {
                Err(e) => {
                    proof {
                        lemma_create_err(
                            n_statements as nat,
                            funcs@,
                            *metadata,
                            gas_usage_check,
                            *type_sizes,
                            k + 1,
                        );
                    }
                    return Err(e);
                },
                Ok(entry) => entry,
            };
            match annotations.set_or_assert(f.entry_point, f.entry_point, entry) {
                Err(e) => {
                    proof {
                        lemma_create_err(
                            n_statements as nat,
                            funcs@,
                            *metadata,
                            gas_usage_check,
                            *type_sizes,
                            k + 1,
                        );
                    }
                    return Err(e);
                },
                Ok(()) => {},
            }
            k += 1;
        }
        Ok(annotations)
    }

    /// Records `annotations` as the environment of `destination` where it
    /// has none, and checks that it equals the one that it has.
    pub fn set_or_assert(
        &mut self,
        source: StatementIdx,
        destination: StatementIdx,
        annotations: StatementAnnotations,
    ) -> (r: Result<(), AnnotationError>)
        ensures
            match spec_set_or_assert(old(self)@, source, destination, annotations@) {
                Ok(state) => r is Ok && final(self)@ == state,
                Err(e) => r == Err::<(), AnnotationError>(e) && final(self)@ == old(self)@,
            },
    {
        if destination.0 >= self.per_statement_annotations.len() {
            return Err(
                AnnotationError::InvalidStatementIdx {
                    source_statement_idx: source,
                    destination_statement_idx: destination,
                },
            );
        }
        let recorded: bool = match &self.per_statement_annotations[destination.0] {
            None => false,
            Some(_) => true,
        };
        if recorded {
            let same: bool = match &self.per_statement_annotations[destination.0] {
                None => false,
                Some(a) => a.same_as(&annotations),
            };
            if same {
                Ok(())
            } else {
                Err(
                    AnnotationError::InconsistentAnnotations {
                        source_statement_idx: source,
                        destination_statement_idx: destination,
                    },
                )
            }
        } else {
            let ghost before = self@;
            let ghost arriving = annotations@;
            self.per_statement_annotations.set(destination.0, Some(annotations));
            assert(self@ =~= before.update(destination.0 as int, Some(arriving)));
            Ok(())
        }
    }

    /// Brings the environment of a branch to its destination.
    pub fn propagate_annotations(
        &mut self,
        source: StatementIdx,
        destination: StatementIdx,
        annotations: &StatementAnnotations,
        results: &Vec<VarId>,
        changes: &BranchChanges,
    ) -> (r: Result<(), AnnotationError>)
        ensures
            match spec_propagate(
                old(self)@,
                source,
                destination,
                annotations@,
                results@,
                changes@,
            ) {
                Ok(state) => r is Ok && final(self)@ == state,
                Err(e) => r == Err::<(), AnnotationError>(e) && final(self)@ == old(self)@,
            },
    {
        match branch_annotations(annotations, source, destination, results, changes) {
            Err(e) => Err(e),
            Ok(arriving) => self.set_or_assert(source, destination, arriving),
        }
    }

    /// Checks the return of `return_refs` at `statement_idx`.
    pub fn validate_final_annotations(
        &self,
        statement_idx: StatementIdx,
        annotations: &StatementAnnotations,
        funcs: &Vec<Function>,
        return_refs: &Vec<ReferenceValue>,
    ) -> (r: Result<(), AnnotationError>)
        ensures
            r == spec_validate_final(statement_idx, annotations@, funcs@, types_of(return_refs@)),
    {
        match get_function(funcs, annotations.function_id) {
            None => Err(
                AnnotationError::MissingFunction {
                    statement_idx,
                    function_id: annotations.function_id,
                },
            ),
            Some(f) => match check_types_match(return_refs, &f.ret_types) {
                Err(error) => Err(AnnotationError::ReferencesError { statement_idx, error }),
                Ok(()) => if annotations.environment.is_final() {
                    Ok(())
                } else {
                    Err(
                        AnnotationError::EnvironmentError {
                            statement_idx,
                            error: EnvironmentError::InvalidFinalFrameState,
                        },
                    )
                },
            },
        }
    }
}

/// A failure at one of the first `k` functions is the failure of the whole.
pub proof fn lemma_create_err(
    n_statements: nat,
    funcs: Seq<Function>,
    metadata: Metadata,
    gas_usage_check: bool,
    type_sizes: TypeSizeMap,
    k: int,
)
    requires
        0 <= k <= funcs.len(),
        spec_create(n_statements, funcs, metadata, gas_usage_check, type_sizes, k) is Err,
    ensures
        spec_create(n_statements, funcs, metadata, gas_usage_check, type_sizes, funcs.len() as int)
            == spec_create(n_statements, funcs, metadata, gas_usage_check, type_sizes, k),
    decreases funcs.len() - k,
{
    if k < funcs.len() {
        lemma_create_err(n_statements, funcs, metadata, gas_usage_check, type_sizes, k + 1);
    }
}

} // verus!
