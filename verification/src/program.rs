//! A program with its declarations resolved: the statements, the functions,
//! and for each declared type and library function what compiling needs to
//! know of it.

use vstd::prelude::*;
use num_bigint::BigInt;
use crate::ids::BranchTarget;
use crate::ids::FunctionId;
use crate::ids::LibfuncId;
use crate::ids::StatementIdx;
use crate::ids::TypeId;
use crate::ids::VarId;

verus! {

/// One branch of an invocation: where it continues, and the variables that
/// its outputs are bound to.
#[derive(Clone, Debug, PartialEq, Eq)]
pub struct BranchInfo {
    pub target: BranchTarget,
    pub results: Vec<VarId>,
}

/// The invocation of a library function.
#[derive(Clone, Debug, PartialEq, Eq)]
pub struct Invocation {
    pub libfunc_id: LibfuncId,
    pub args: Vec<VarId>,
    pub branches: Vec<BranchInfo>,
}

/// A statement of a program.
#[derive(Clone, Debug, PartialEq, Eq)]
pub enum Statement {
    Invocation(Invocation),
    /// The return of the given variables from the current function.
    Return(Vec<VarId>),
}

/// A parameter of a function.
#[derive(Clone, Copy, Debug, PartialEq, Eq, Structural)]
pub struct Param {
    pub id: VarId,
    pub ty: TypeId,
}

/// A user function.
#[derive(Clone, Debug, PartialEq, Eq)]
pub struct Function {
    pub id: FunctionId,
    pub params: Vec<Param>,
    pub ret_types: Vec<TypeId>,
    pub entry_point: StatementIdx,
}

/// What a branch of a library function does to the allocation pointer.
#[derive(Clone, Copy, Debug, PartialEq, Eq, Structural)]
pub enum SierraApChange {
    Unknown,
    Known { new_vars_only: bool },
    /// The branch is that of the function that aligns the allocation
    /// pointer where branches meet.
    BranchAlign,
}

/// One branch of the signature of a library function.
#[derive(Clone, Debug, PartialEq, Eq)]
pub struct BranchSignature {
    /// The types of the variables that the branch produces.
    pub vars: Vec<TypeId>,
    pub ap_change: SierraApChange,
}

/// The constant that a library function puts into a constant segment.
#[derive(Clone, Copy, Debug, PartialEq, Eq, Structural)]
pub struct ConstAsBox {
    /// The constant type that holds the value.
    pub const_type: TypeId,
    /// The segment that the value goes to.
    pub segment_id: u32,
}

/// A library function as far as compiling reads it.
#[derive(Clone, Debug, PartialEq, Eq)]
pub struct ConcreteLibfunc {
    pub param_types: Vec<TypeId>,
    pub branch_signatures: Vec<BranchSignature>,
    /// The branch that continues with the next statement, if any.
    pub fallthrough: Option<usize>,
    /// Set where the function gives a boxed pointer to a constant.
    pub const_as_box: Option<ConstAsBox>,
}

/// The declaration of a library function.
#[derive(Clone, Debug, PartialEq, Eq)]
pub struct LibfuncDeclaration {
    pub id: LibfuncId,
    pub libfunc: ConcreteLibfunc,
}

/// One item of the data of a constant type.
#[derive(Clone, Debug, PartialEq, Eq)]
pub enum GenericArg {
    Type(TypeId),
    Value(BigInt),
    /// Any other kind of argument.
    Other,
}

/// A type as far as the extraction of constants reads it.
#[derive(Clone, Debug, PartialEq, Eq)]
pub enum ConcreteType {
    /// A constant of type `inner_ty`, described by `inner_data`.
    Const { inner_ty: TypeId, inner_data: Vec<GenericArg> },
    Struct,
    Enum { variants: Vec<TypeId> },
    Other,
}

/// The declaration of a type.
#[derive(Clone, Debug, PartialEq, Eq)]
pub struct TypeDeclaration {
    pub id: TypeId,
    pub ty: ConcreteType,
}

/// A program with its declarations resolved.
#[derive(Clone, Debug, PartialEq, Eq)]
pub struct ResolvedProgram {
    pub type_declarations: Vec<TypeDeclaration>,
    pub libfunc_declarations: Vec<LibfuncDeclaration>,
    pub statements: Vec<Statement>,
    pub funcs: Vec<Function>,
}

/// The library function that the first declaration with the identity `id`
/// declares.
pub open spec fn find_libfunc(decls: Seq<LibfuncDeclaration>, id: LibfuncId) -> Option<
    ConcreteLibfunc,
>
    decreases decls.len(),
{
    if decls.len() == 0 {
        None
    } else if decls[0].id == id {
        Some(decls[0].libfunc)
    } else {
        find_libfunc(decls.skip(1), id)
    }
}

/// The type that the first declaration with the identity `id` declares.
pub open spec fn find_type(decls: Seq<TypeDeclaration>, id: TypeId) -> Option<ConcreteType>
    decreases decls.len(),
{
    if decls.len() == 0 {
        None
    } else if decls[0].id == id {
        Some(decls[0].ty)
    } else {
        find_type(decls.skip(1), id)
    }
}

/// The first function with the identity `id`.
pub open spec fn find_function(funcs: Seq<Function>, id: FunctionId) -> Option<Function>
    decreases funcs.len(),
{
    if funcs.len() == 0 {
        None
    } else if funcs[0].id == id {
        Some(funcs[0])
    } else {
        find_function(funcs.skip(1), id)
    }
}

/// The first function of `funcs` with the identity `id`.
pub fn get_function(funcs: &Vec<Function>, id: FunctionId) -> (r: Option<&Function>)
    ensures
        match r {
            Some(f) => find_function(funcs@, id) == Some(*f),
            None => find_function(funcs@, id).is_none(),
        },
{
    let mut i: usize = 0;
    assert(funcs@.skip(0) =~= funcs@);
    while i < funcs.len()
        invariant
            i <= funcs.len(),
            find_function(funcs@, id) == find_function(funcs@.skip(i as int), id),
        decreases funcs.len() - i,
    {
        proof {
            assert(funcs@.skip(i as int).skip(1) =~= funcs@.skip(i + 1));
        }
        if funcs[i].id == id {
            return Some(&funcs[i]);
        }
        i += 1;
    }
    None
}

impl ResolvedProgram {
    /// The library function declared under `id`.
    pub open spec fn spec_get_libfunc(self, id: LibfuncId) -> Option<ConcreteLibfunc> {
        find_libfunc(self.libfunc_declarations@, id)
    }

    /// The library function declared under `id`.
    pub fn get_libfunc(&self, id: LibfuncId) -> (r: Option<&ConcreteLibfunc>)
        ensures
            match r {
                Some(l) => self.spec_get_libfunc(id) == Some(*l),
                None => self.spec_get_libfunc(id).is_none(),
            },
    {
        let mut i: usize = 0;
        assert(self.libfunc_declarations@.skip(0) =~= self.libfunc_declarations@);
        while i < self.libfunc_declarations.len()
            invariant
                i <= self.libfunc_declarations.len(),
                find_libfunc(self.libfunc_declarations@, id) == find_libfunc(
                    self.libfunc_declarations@.skip(i as int),
                    id,
                ),
            decreases self.libfunc_declarations.len() - i,
        {
            proof {
                assert(self.libfunc_declarations@.skip(i as int).skip(1)
                    =~= self.libfunc_declarations@.skip(i + 1));
            }
            if self.libfunc_declarations[i].id == id {
                return Some(&self.libfunc_declarations[i].libfunc);
            }
            i += 1;
        }
        None
    }

    /// The type declared under `id`.
    pub open spec fn spec_get_type(self, id: TypeId) -> Option<ConcreteType> {
        find_type(self.type_declarations@, id)
    }

    /// The type declared under `id`.
    pub fn get_type(&self, id: TypeId) -> (r: Option<&ConcreteType>)
        ensures
            match r {
                Some(t) => self.spec_get_type(id) == Some(*t),
                None => self.spec_get_type(id).is_none(),
            },
    {
        let mut i: usize = 0;
        assert(self.type_declarations@.skip(0) =~= self.type_declarations@);
        while i < self.type_declarations.len()
            invariant
                i <= self.type_declarations.len(),
                find_type(self.type_declarations@, id) == find_type(
                    self.type_declarations@.skip(i as int),
                    id,
                ),
            decreases self.type_declarations.len() - i,
        {
            proof {
                assert(self.type_declarations@.skip(i as int).skip(1)
                    =~= self.type_declarations@.skip(i + 1));
            }
            if self.type_declarations[i].id == id {
                return Some(&self.type_declarations[i].ty);
            }
            i += 1;
        }
        None
    }
}

} // verus!
