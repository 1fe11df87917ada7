//! Programs of `cairo_lang_sierra`: what is read of a program and of its
//! registry, and the resolved program that they give.

use vstd::prelude::*;
use cairo_lang_sierra::extensions::lib_func::ConcreteLibfunc as SierraLibfunc;
use cairo_lang_sierra::program::GenBranchTarget;
use cairo_lang_sierra::program::GenStatement;
use cairo_lang_sierra::program::Program;
use cairo_lang_sierra::program_registry::ProgramRegistry;
use crate::ids::BranchTarget;
use crate::ids::FunctionId;
use crate::ids::LibfuncId;
use crate::ids::StatementIdx;
use crate::ids::TypeId;
use crate::ids::VarId;
use crate::program::BranchInfo;
use crate::program::BranchSignature;
use crate::program::ConcreteLibfunc;
use crate::program::ConcreteType;
use crate::program::ConstAsBox;
use crate::program::Function;
use crate::program::GenericArg;
use crate::program::Invocation;
use crate::program::LibfuncDeclaration;
use crate::program::Param;
use crate::program::ResolvedProgram;
use crate::program::SierraApChange;
use crate::program::Statement;
use crate::program::TypeDeclaration;

verus! {

/// `Program` of `cairo_lang_sierra`.
#[verifier::external_type_specification]
#[verifier::external_body]
pub struct ExProgram(Program);

/// `CoreConcreteLibfunc` of `cairo_lang_sierra`.
#[verifier::external_type_specification]
#[verifier::external_body]
pub struct ExCoreConcreteLibfunc(cairo_lang_sierra::extensions::core::CoreConcreteLibfunc);

/// `CoreTypeConcrete` of `cairo_lang_sierra`.
#[verifier::external_type_specification]
#[verifier::external_body]
pub struct ExCoreTypeConcrete(cairo_lang_sierra::extensions::core::CoreTypeConcrete);

/// `ProgramRegistry` of `cairo_lang_sierra`, for the types and library
/// functions of its core: the types and the library functions of a program,
/// specialized, by their identities. It is built where the library is
/// used, and read here.
#[verifier::external_body]
pub struct Registry {
    pub inner: ProgramRegistry<
        cairo_lang_sierra::extensions::core::CoreType,
        cairo_lang_sierra::extensions::core::CoreLibfunc,
    >,
}

/// The statements of a program.
pub uninterp spec fn program_statements(program: Program) -> Seq<Statement>;

/// The functions of a program.
pub uninterp spec fn program_functions(program: Program) -> Seq<Function>;

/// The identities of the declared types of a program, in order.
pub uninterp spec fn program_type_ids(program: Program) -> Seq<TypeId>;

/// The identities of the declared library functions of a program, in order.
pub uninterp spec fn program_libfunc_ids(program: Program) -> Seq<LibfuncId>;

/// The library functions of a registry, by the numbers of their identities.
pub uninterp spec fn registry_libfuncs(registry: Registry) -> Map<
    u64,
    cairo_lang_sierra::extensions::core::CoreConcreteLibfunc,
>;

/// The types of a registry, by the numbers of their identities.
pub uninterp spec fn registry_types(registry: Registry) -> Map<
    u64,
    cairo_lang_sierra::extensions::core::CoreTypeConcrete,
>;

/// The types of the parameters of a library function.
pub uninterp spec fn libfunc_param_types(
    libfunc: cairo_lang_sierra::extensions::core::CoreConcreteLibfunc,
) -> Seq<TypeId>;

/// The branches of the signature of a library function.
pub uninterp spec fn libfunc_branch_signatures(
    libfunc: cairo_lang_sierra::extensions::core::CoreConcreteLibfunc,
) -> Seq<BranchSignature>;

/// The branch on which a library function falls through, if any.
pub uninterp spec fn libfunc_fallthrough(
    libfunc: cairo_lang_sierra::extensions::core::CoreConcreteLibfunc,
) -> Option<usize>;

/// The constant that a library function gives a boxed pointer to, if it is
/// one that does.
pub uninterp spec fn libfunc_const_as_box(
    libfunc: cairo_lang_sierra::extensions::core::CoreConcreteLibfunc,
) -> Option<ConstAsBox>;

/// The wrapped type and the data of a constant type; none for any other
/// type.
pub uninterp spec fn const_type_parts(ty: cairo_lang_sierra::extensions::core::CoreTypeConcrete) -> Option<
    (TypeId, Vec<GenericArg>),
>;

/// The types of the variants of an enum type; none for any other type.
pub uninterp spec fn enum_type_variants(
    ty: cairo_lang_sierra::extensions::core::CoreTypeConcrete,
) -> Option<Vec<TypeId>>;

/// Whether a type is a struct type.
pub uninterp spec fn is_struct_type(ty: cairo_lang_sierra::extensions::core::CoreTypeConcrete) -> bool;

/// The length of the field `statements` of `Program`.
#[verifier::external_body]
pub(crate) fn statement_count(program: &Program) -> (n: usize)
    ensures
        n == program_statements(*program).len(),
{
    program.statements.len()
}

/// The statement at `i` of the field `statements` of `Program`: the
/// library function and the arguments of an invocation; for a return, no
/// library function and the returned variables. Identities are given by
/// their numbers.
#[verifier::external_body]
pub(crate) fn statement_head(program: &Program, i: usize) -> (r: (Option<LibfuncId>, Vec<VarId>))
    requires
        i < program_statements(*program).len(),
    ensures
        r == (match program_statements(*program)[i as int] {
            Statement::Invocation(invocation) => (Some(invocation.libfunc_id), invocation.args),
            Statement::Return(vars) => (None, vars),
        }),
{
    match &program.statements[i] {
        cairo_lang_sierra::program::GenStatement::Invocation(invocation) => (
            Some(LibfuncId(invocation.libfunc_id.id)),
            invocation.args.iter().map(|v| VarId(v.id)).collect(),
        ),
        cairo_lang_sierra::program::GenStatement::Return(vars) => (
            None,
            vars.iter().map(|v| VarId(v.id)).collect(),
        ),
    }
}

/// The statement at `i` of the field `statements` of `Program`: the
/// branches of an invocation, each with its target and its results; none
/// for a return.
#[verifier::external_body]
pub(crate) fn statement_branches(program: &Program, i: usize) -> (r: Vec<BranchInfo>)
    requires
        i < program_statements(*program).len(),
    ensures
        program_statements(*program)[i as int] matches Statement::Invocation(invocation) ==> r
            == invocation.branches,
{
    let GenStatement::Invocation(invocation) = &program.statements[i] else { return Vec::new() };
    let target = |b: &cairo_lang_sierra::program::BranchInfo| match &b.target {
        GenBranchTarget::Fallthrough => BranchTarget::Fallthrough,
        GenBranchTarget::Statement(t) => BranchTarget::Statement(StatementIdx(t.0)),
    };
    let results = |b: &cairo_lang_sierra::program::BranchInfo| -> Vec<VarId> {
        b.results.iter().map(|v| VarId(v.id)).collect()
    };
    invocation.branches.iter().map(|b| BranchInfo { target: target(b), results: results(b) }).collect()
}

/// The field `funcs` of `Program`: of each function the identity, the
/// parameters, the return types of its signature and the entry point.
#[verifier::external_body]
pub(crate) fn load_functions(program: &Program) -> (r: Vec<Function>)
    ensures
        r@ == program_functions(*program),
{
    let param = |p: &cairo_lang_sierra::program::Param| Param { id: VarId(p.id.id), ty: TypeId(p.ty.id) };
    program.funcs.iter().map(
        |f| Function {
            id: FunctionId(f.id.id),
            params: f.params.iter().map(param).collect(),
            ret_types: f.signature.ret_types.iter().map(|t| TypeId(t.id)).collect(),
            entry_point: StatementIdx(f.entry_point.0),
        },
    ).collect()
}

/// The field `type_declarations` of `Program`: the identities of the
/// declared types, in order.
#[verifier::external_body]
pub(crate) fn load_type_ids(program: &Program) -> (r: Vec<TypeId>)
    ensures
        r@ == program_type_ids(*program),
{
    program.type_declarations.iter().map(|d| TypeId(d.id.id)).collect()
}

/// The field `libfunc_declarations` of `Program`: the identities of the
/// declared library functions, in order.
#[verifier::external_body]
pub(crate) fn load_libfunc_ids(program: &Program) -> (r: Vec<LibfuncId>)
    ensures
        r@ == program_libfunc_ids(*program),
{
    program.libfunc_declarations.iter().map(|d| LibfuncId(d.id.id)).collect()
}

/// `ProgramRegistry::get_libfunc`, by the number of the identity: the
/// library function that the registry holds for it, if any.
#[verifier::external_body]
pub(crate) fn get_libfunc(registry: &Registry, id: LibfuncId) -> (r: Option<
    &cairo_lang_sierra::extensions::core::CoreConcreteLibfunc,
>)
    ensures
        r == (if registry_libfuncs(*registry).contains_key(id.0) {
            Some(&registry_libfuncs(*registry)[id.0])
        } else {
            None
        }),
{
    registry.inner.get_libfunc(&cairo_lang_sierra::ids::ConcreteLibfuncId::new(id.0)).ok()
}

/// `ProgramRegistry::get_type`, by the number of the identity: the type
/// that the registry holds for it, if any.
#[verifier::external_body]
pub(crate) fn get_type(registry: &Registry, id: TypeId) -> (r: Option<
    &cairo_lang_sierra::extensions::core::CoreTypeConcrete,
>)
    ensures
        r == (if registry_types(*registry).contains_key(id.0) {
            Some(&registry_types(*registry)[id.0])
        } else {
            None
        }),
{
    registry.inner.get_type(&cairo_lang_sierra::ids::ConcreteTypeId::new(id.0)).ok()
}

/// `ConcreteLibfunc::param_signatures`: the types of the parameters.
#[verifier::external_body]
pub(crate) fn param_types(libfunc: &cairo_lang_sierra::extensions::core::CoreConcreteLibfunc) -> (r: Vec<
    TypeId,
>)
    ensures
        r@ == libfunc_param_types(*libfunc),
{
    libfunc.param_signatures().iter().map(|p| TypeId(p.ty.id)).collect()
}

/// `ConcreteLibfunc::branch_signatures`: for each branch, the types of the
/// variables that it produces and what it does to the allocation pointer.
#[verifier::external_body]
pub(crate) fn branch_signatures(libfunc: &cairo_lang_sierra::extensions::core::CoreConcreteLibfunc) -> (r:
    Vec<BranchSignature>)
    ensures
        r@ == libfunc_branch_signatures(*libfunc),
{
    let ap_change = |b: &cairo_lang_sierra::extensions::lib_func::BranchSignature| match b.ap_change {
        cairo_lang_sierra::extensions::lib_func::SierraApChange::Unknown => SierraApChange::Unknown,
        cairo_lang_sierra::extensions::lib_func::SierraApChange::Known { new_vars_only } =>
            SierraApChange::Known { new_vars_only },
        cairo_lang_sierra::extensions::lib_func::SierraApChange::BranchAlign => SierraApChange::BranchAlign,
    };
    libfunc.branch_signatures().iter().map(
        |b| BranchSignature { vars: b.vars.iter().map(|v| TypeId(v.ty.id)).collect(), ap_change: ap_change(b) },
    ).collect()
}

/// `ConcreteLibfunc::fallthrough`: the branch that continues with the next
/// statement, if any.
#[verifier::external_body]
pub(crate) fn fallthrough(libfunc: &cairo_lang_sierra::extensions::core::CoreConcreteLibfunc) -> (r: Option<
    usize,
>)
    ensures
        r == libfunc_fallthrough(*libfunc),
{
    libfunc.fallthrough()
}

/// The variant `Const(AsBox)` of `CoreConcreteLibfunc`: the constant type
/// and the segment of a library function that gives a boxed pointer to a
/// constant; none for any other library function.
#[verifier::external_body]
pub(crate) fn const_as_box(libfunc: &cairo_lang_sierra::extensions::core::CoreConcreteLibfunc) -> (r: Option<
    ConstAsBox,
>)
    ensures
        r == libfunc_const_as_box(*libfunc),
{
    match libfunc {
        cairo_lang_sierra::extensions::core::CoreConcreteLibfunc::Const(
            cairo_lang_sierra::extensions::const_type::ConstConcreteLibfunc::AsBox(as_box),
        ) => Some(ConstAsBox { const_type: TypeId(as_box.const_type.id), segment_id: as_box.segment_id }),
        _ => None,
    }
}

/// The variant `Const` of `CoreTypeConcrete`: the wrapped type and the data
/// of a constant type; none for any other type.
#[verifier::external_body]
pub(crate) fn const_parts(ty: &cairo_lang_sierra::extensions::core::CoreTypeConcrete) -> (r: Option<
    (TypeId, Vec<GenericArg>),
>)
    ensures
        r == const_type_parts(*ty),
{
    let cairo_lang_sierra::extensions::core::CoreTypeConcrete::Const(c) = ty else { return None };
    let arg = |a: &cairo_lang_sierra::program::GenericArg| match a {
        cairo_lang_sierra::program::GenericArg::Type(t) => GenericArg::Type(TypeId(t.id)),
        cairo_lang_sierra::program::GenericArg::Value(v) => GenericArg::Value(v.clone()),
        _ => GenericArg::Other,
    };
    Some((TypeId(c.inner_ty.id), c.inner_data.iter().map(arg).collect()))
}

/// The variant `Enum` of `CoreTypeConcrete`: the types of the variants of
/// an enum type; none for any other type.
#[verifier::external_body]
pub(crate) fn enum_variants(ty: &cairo_lang_sierra::extensions::core::CoreTypeConcrete) -> (r: Option<
    Vec<TypeId>,
>)
    ensures
        r == enum_type_variants(*ty),
{
    match ty {
        cairo_lang_sierra::extensions::core::CoreTypeConcrete::Enum(e) => Some(
            e.variants.iter().map(|t| TypeId(t.id)).collect(),
        ),
        _ => None,
    }
}

/// The variant `Struct` of `CoreTypeConcrete`: whether the type is a struct
/// type.
#[verifier::external_body]
pub(crate) fn is_struct(ty: &cairo_lang_sierra::extensions::core::CoreTypeConcrete) -> (r: bool)
    ensures
        r == is_struct_type(*ty),
{
    matches!(ty, cairo_lang_sierra::extensions::core::CoreTypeConcrete::Struct(_))
}

/// A library function of the registry as compiling reads it.
pub open spec fn spec_resolve_libfunc(
    libfunc: cairo_lang_sierra::extensions::core::CoreConcreteLibfunc,
    resolved: ConcreteLibfunc,
) -> bool {
    &&& resolved.param_types@ == libfunc_param_types(libfunc)
    &&& resolved.branch_signatures@ == libfunc_branch_signatures(libfunc)
    &&& resolved.fallthrough == libfunc_fallthrough(libfunc)
    &&& resolved.const_as_box == libfunc_const_as_box(libfunc)
}

/// A type of the registry as the extraction of constants reads it.
pub open spec fn spec_resolve_type(ty: cairo_lang_sierra::extensions::core::CoreTypeConcrete) -> ConcreteType {
    match const_type_parts(ty) {
        Some((inner_ty, inner_data)) => ConcreteType::Const { inner_ty, inner_data },
        None => match enum_type_variants(ty) {
            Some(variants) => ConcreteType::Enum { variants },
            None => if is_struct_type(ty) {
                ConcreteType::Struct
            } else {
                ConcreteType::Other
            },
        },
    }
}

/// The declarations of those of the first `k` types `ids` that the
/// registry knows.
pub open spec fn spec_resolve_types(ids: Seq<TypeId>, registry: Registry, k: int) -> Seq<
    TypeDeclaration,
>
    decreases k,
{
    if k <= 0 || k > ids.len() {
        Seq::empty()
    } else if registry_types(registry).contains_key(ids[k - 1].0) {
        spec_resolve_types(ids, registry, k - 1).push(
            TypeDeclaration {
                id: ids[k - 1],
                ty: spec_resolve_type(registry_types(registry)[ids[k - 1].0]),
            },
        )
    } else {
        spec_resolve_types(ids, registry, k - 1)
    }
}

/// Whether `resolved` declares those of the library functions `ids` that
/// the registry knows, in order, each as the registry holds it.
pub open spec fn libfuncs_resolved(
    ids: Seq<LibfuncId>,
    registry: Registry,
    resolved: Seq<LibfuncDeclaration>,
) -> bool {
    &&& forall|d: int|
        0 <= d < resolved.len() ==> registry_libfuncs(registry).contains_key(
            (#[trigger] resolved[d]).id.0,
        ) && spec_resolve_libfunc(
            registry_libfuncs(registry)[resolved[d].id.0],
            resolved[d].libfunc,
        )
    &&& resolved.map_values(|d: LibfuncDeclaration| d.id) == ids.filter(
        |id: LibfuncId| registry_libfuncs(registry).contains_key(id.0),
    )
}

/// The type declared under `id`, as the registry holds it.
fn resolve_type(registry: &Registry, id: TypeId) -> (r: Option<TypeDeclaration>)
    ensures
        r == (if registry_types(*registry).contains_key(id.0) {
            Some(TypeDeclaration { id, ty: spec_resolve_type(registry_types(*registry)[id.0]) })
        } else {
            None
        }),
{
    let ty = match get_type(registry, id) {
        None => {
            return None;
        },
        Some(ty) => ty,
    };
    let resolved = match const_parts(ty) {
        Some((inner_ty, inner_data)) => ConcreteType::Const { inner_ty, inner_data },
        None => match enum_variants(ty) {
            Some(variants) => ConcreteType::Enum { variants },
            None => if is_struct(ty) {
                ConcreteType::Struct
            } else {
                ConcreteType::Other
            },
        },
    };
    Some(TypeDeclaration { id, ty: resolved })
}

/// The statements of the program.
pub(crate) fn load_statements(program: &Program) -> (r: Vec<Statement>)
    ensures
        r@ == program_statements(*program),
{
    let n: usize = statement_count(program);
    let mut statements: Vec<Statement> = Vec::new();
    let mut i: usize = 0;
    while i < n
        invariant
            i <= n,
            n == program_statements(*program).len(),
            statements@ == program_statements(*program).take(i as int),
        decreases n - i,
    {
        let (libfunc_id, vars) = statement_head(program, i);
        let statement = match libfunc_id {
            None => Statement::Return(vars),
            Some(libfunc_id) => Statement::Invocation(
                Invocation { libfunc_id, args: vars, branches: statement_branches(program, i) },
            ),
        };
        statements.push(statement);
        assert(statements@ =~= program_statements(*program).take(i + 1));
        i += 1;
    }
    assert(program_statements(*program).take(n as int) =~= program_statements(*program));
    statements
}

/// The declarations of those declared types of the program that the
/// registry knows.
pub(crate) fn load_types(program: &Program, registry: &Registry) -> (r: Vec<TypeDeclaration>)
    ensures
        r@ == spec_resolve_types(
            program_type_ids(*program),
            *registry,
            program_type_ids(*program).len() as int,
        ),
{
    let ids = load_type_ids(program);
    let mut types: Vec<TypeDeclaration> = Vec::new();
    let mut k: usize = 0;
    while k < ids.len()
        invariant
            k <= ids@.len(),
            ids@ == program_type_ids(*program),
            types@ == spec_resolve_types(ids@, *registry, k as int),
        decreases ids@.len() - k,
    {
        match resolve_type(registry, ids[k]) {
            None => {},
            Some(declaration) => {
                types.push(declaration);
            },
        }
        k += 1;
    }
    types
}

/// The declarations of those declared library functions of the program
/// that the registry knows.
pub(crate) fn load_libfuncs(program: &Program, registry: &Registry) -> (r: Vec<LibfuncDeclaration>)
    ensures
        libfuncs_resolved(program_libfunc_ids(*program), *registry, r@),
{
    let ids = load_libfunc_ids(program);
    let mut libfuncs: Vec<LibfuncDeclaration> = Vec::new();
    let mut k: usize = 0;
    proof {
        reveal(Seq::filter);
        assert(ids@.take(0) =~= Seq::<LibfuncId>::empty());
        assert(libfuncs@.map_values(|d: LibfuncDeclaration| d.id) =~= ids@.take(0).filter(
            |id: LibfuncId| registry_libfuncs(*registry).contains_key(id.0),
        ));
    }
    while k < ids.len()
        invariant
            k <= ids@.len(),
            ids@ == program_libfunc_ids(*program),
            libfuncs_resolved(ids@.take(k as int), *registry, libfuncs@),
        decreases ids@.len() - k,
    {
        let id = ids[k];
        let ghost before = libfuncs@;
        proof {
            assert(ids@.take(k + 1) =~= ids@.take(k as int).push(id));
            lemma_filter_push(ids@.take(k as int), id, *registry);
        }
        match get_libfunc(registry, id) {
            None => {},
            Some(libfunc) => {
                let declaration = LibfuncDeclaration {
                    id,
                    libfunc: ConcreteLibfunc {
                        param_types: param_types(libfunc),
                        branch_signatures: branch_signatures(libfunc),
                        fallthrough: fallthrough(libfunc),
                        const_as_box: const_as_box(libfunc),
                    },
                };
                libfuncs.push(declaration);
                assert(libfuncs@.map_values(|d: LibfuncDeclaration| d.id) =~= before.map_values(
                    |d: LibfuncDeclaration| d.id,
                ).push(id));
            },
        }
        k += 1;
    }
    assert(ids@.take(k as int) =~= ids@);
    libfuncs
}

/// The known ones of a sequence with one more identity are the known ones
/// of the sequence, and that identity where it is known.
pub proof fn lemma_filter_push(ids: Seq<LibfuncId>, id: LibfuncId, registry: Registry)
    ensures
        ids.push(id).filter(|x: LibfuncId| registry_libfuncs(registry).contains_key(x.0)) == (
        if registry_libfuncs(registry).contains_key(id.0) {
            ids.filter(|x: LibfuncId| registry_libfuncs(registry).contains_key(x.0)).push(id)
        } else {
            ids.filter(|x: LibfuncId| registry_libfuncs(registry).contains_key(x.0))
        }),
{
    assert(ids.push(id).drop_last() =~= ids);
    reveal(Seq::filter);
}

/// Whether `resolved` is the program `program` with its declarations
/// resolved by `registry`.
pub open spec fn resolves(program: Program, registry: Registry, resolved: ResolvedProgram) -> bool {
    &&& resolved.statements@ == program_statements(program)
    &&& resolved.funcs@ == program_functions(program)
    &&& resolved.type_declarations@ == spec_resolve_types(
        program_type_ids(program),
        registry,
        program_type_ids(program).len() as int,
    )
    &&& libfuncs_resolved(program_libfunc_ids(program), registry, resolved.libfunc_declarations@)
}

/// The program with its declarations resolved by the registry. A
/// declaration that the registry does not know is left out.
pub fn resolve_program(program: &Program, registry: &Registry) -> (r: ResolvedProgram)
    ensures
        resolves(*program, *registry, r),
{
    ResolvedProgram {
        type_declarations: load_types(program, registry),
        libfunc_declarations: load_libfuncs(program, registry),
        statements: load_statements(program),
        funcs: load_functions(program),
    }
}

} // verus!
