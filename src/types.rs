use vstd::prelude::*;

verus! {

/// Mathematical model of a [`Type`].
pub enum Ty {
    Int,
    Ptr(Box<Ty>),
    Func(Box<Ty>, Seq<Ty>),
}

/// A type of the source language.
pub struct Type {
    pub kind: TypeKind,
}

pub enum TypeKind {
    Int,
    Ptr(Box<Type>),
    Func { ty: Box<Type>, params: Vec<Type> },
}

impl Type {
    pub open spec fn view(&self) -> Ty
        decreases self,
    {
        match self.kind {
            TypeKind::Int => Ty::Int,
            TypeKind::Ptr(base) => Ty::Ptr(Box::new(base.view())),
            TypeKind::Func { ty, params } => Ty::Func(
                Box::new(ty.view()),
                types_view(params@),
            ),
        }
    }

    pub fn new(kind: TypeKind) -> (r: Self)
        ensures
            r.kind == kind,
    {
        Type { kind }
    }

    /// The parameter types of a function type.
    pub fn get_params(self) -> (r: Vec<Type>)
        requires
            self.kind is Func,
        ensures
            types_view(r@) == self.view()->Func_1,
    {
        match self.kind {
            TypeKind::Func { ty: _, params } => params,
            _ => {
                proof { assert(false); }
                Vec::new()
            }
        }
    }
}

pub open spec fn types_view(s: Seq<Type>) -> Seq<Ty>
    decreases s,
{
    if s.len() == 0 {
        Seq::empty()
    } else {
        types_view(s.drop_last()).push(s.last().view())
    }
}

pub proof fn lemma_types_view_push(s: Seq<Type>, t: Type)
    ensures
        types_view(s.push(t)) == types_view(s).push(t.view()),
        types_view(s).len() == s.len(),
    decreases s.len(),
{
    assert(s.push(t).drop_last() =~= s);
    if s.len() > 0 {
        lemma_types_view_push(s.drop_last(), s.last());
        assert(s.drop_last().push(s.last()) =~= s);
    }
}

pub proof fn lemma_types_view_len(s: Seq<Type>)
    ensures
        types_view(s).len() == s.len(),
    decreases s.len(),
{
    if s.len() > 0 {
        lemma_types_view_len(s.drop_last());
    }
}

impl TypeKind {
    pub fn is_pointer(&self) -> (r: bool)
        ensures
            r == (self is Ptr),
    {
        matches!(self, TypeKind::Ptr(_))
    }
}

pub fn pointer_to(base: Type) -> (r: Type)
    ensures
        r.view() == Ty::Ptr(Box::new(base.view())),
{
    Type::new(TypeKind::Ptr(Box::new(base)))
}

pub fn ty_int() -> (r: Type)
    ensures
        r.view() == Ty::Int,
{
    Type::new(TypeKind::Int)
}

pub fn func_type(return_ty: Type, params: Vec<Type>) -> (r: Type)
    ensures
        r.view() == Ty::Func(Box::new(return_ty.view()), types_view(params@)),
{
    Type::new(TypeKind::Func { ty: Box::new(return_ty), params })
}

/// A fresh copy of `ty`, equal to it.
pub fn copy_type(ty: &Type) -> (r: Type)
    ensures
        r.view() == ty.view(),
    decreases ty,
{
    match &ty.kind {
        TypeKind::Int => ty_int(),
        TypeKind::Ptr(base) => pointer_to(copy_type(base)),
        TypeKind::Func { ty: ret, params } => {
            let mut copied: Vec<Type> = Vec::new();
            let mut i: usize = 0;
            while i < params.len()
                invariant
                    i <= params.len(),
                    ty.kind == (TypeKind::Func { ty: *ret, params: *params }),
                    types_view(copied@) == types_view(params@.take(i as int)),
                decreases params.len() - i,
            {
                proof {
                    assert(decreases_to!(ty.kind => ty.kind->params));
                    assert(decreases_to!(*params => params[i as int]));
                }
                let p = copy_type(&params[i]);
                let ghost before = copied@;
                copied.push(p);
                proof {
                    assert(copied@.drop_last() == before);
                    assert(params@.take(i + 1).drop_last() == params@.take(i as int));
                }
                i = i + 1;
            }
            assert(params@.take(params.len() as int) == params@);
            func_type(copy_type(ret), copied)
        }
    }
}

} // verus!
