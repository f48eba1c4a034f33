//! The term algebra the prover works on: variables, lifetimes, types,
//! parameters, relations and lists of where-clauses, together with the
//! operations the prover needs from them: equality, cloning, a size
//! measure and the enumeration of free variables.

use vstd::prelude::*;

verus! {

/// How a variable is quantified in the environment that binds it.
#[derive(Clone, Copy, Debug, PartialEq, Eq, PartialOrd, Ord, Hash, Structural)]
pub enum Quantifier {
    /// Stands for every possible instantiation; rigid for the prover.
    Universal,
    /// The prover may pick an instantiation for it.
    Existential,
}

/// The sort of term a variable stands for.
#[derive(Clone, Copy, Debug, PartialEq, Eq, PartialOrd, Ord, Hash, Structural)]
pub enum ParameterKind {
    Ty,
    Lt,
}

/// A variable bound by an environment.
#[derive(Clone, Copy, Debug, PartialEq, Eq, PartialOrd, Ord, Hash, Structural)]
pub struct Variable {
    pub quantifier: Quantifier,
    pub kind: ParameterKind,
    pub index: usize,
}

/// A lifetime.
#[derive(Clone, Copy, Debug, PartialEq, Eq, PartialOrd, Ord, Hash, Structural)]
pub enum Lt {
    Static,
    Var(Variable),
}

/// A type: a variable, a scalar named by a number, or a reference with a
/// lifetime to another type.
#[derive(Debug, PartialEq, Eq, PartialOrd, Ord, Hash)]
pub enum Ty {
    Var(Variable),
    Scalar(u32),
    Ref(Lt, Box<Ty>),
}

/// A generic parameter: a type or a lifetime.
#[derive(Debug, PartialEq, Eq, PartialOrd, Ord, Hash)]
pub enum Parameter {
    Ty(Ty),
    Lt(Lt),
}

/// A where-clause: a relation between two parameters.
#[derive(Debug, PartialEq, Eq, PartialOrd, Ord, Hash)]
pub enum Relation {
    /// The two parameters are the same term.
    Equals(Parameter, Parameter),
    /// While the second parameter is usable, the first remains usable.
    Outlives(Parameter, Parameter),
}

/// An ordered list of where-clauses.
#[derive(Debug, PartialEq, Eq, PartialOrd, Ord, Hash)]
pub struct Wcs {
    pub clauses: Vec<Relation>,
}

impl Variable {
    pub fn universal(kind: ParameterKind, index: usize) -> (v: Variable)
        ensures
            v == (Variable { quantifier: Quantifier::Universal, kind, index }),
    {
        Variable { quantifier: Quantifier::Universal, kind, index }
    }

    pub fn existential(kind: ParameterKind, index: usize) -> (v: Variable)
        ensures
            v == (Variable { quantifier: Quantifier::Existential, kind, index }),
    {
        Variable { quantifier: Quantifier::Existential, kind, index }
    }

    pub open spec fn spec_is_existential(self) -> bool {
        self.quantifier == Quantifier::Existential
    }

    #[verifier::when_used_as_spec(spec_is_existential)]
    pub fn is_existential(self) -> (b: bool)
        ensures
            b == self.spec_is_existential(),
    {
        self.quantifier == Quantifier::Existential
    }

    pub open spec fn spec_is_universal(self) -> bool {
        self.quantifier == Quantifier::Universal
    }

    #[verifier::when_used_as_spec(spec_is_universal)]
    pub fn is_universal(self) -> (b: bool)
        ensures
            b == self.spec_is_universal(),
    {
        self.quantifier == Quantifier::Universal
    }
}

impl Lt {
    /// One for the constructor, one more for a variable.
    pub open spec fn spec_size(self) -> nat {
        match self {
            Lt::Static => 1,
            Lt::Var(_) => 2,
        }
    }

    pub open spec fn spec_free_variables(self) -> Seq<Variable> {
        match self {
            Lt::Static => seq![],
            Lt::Var(v) => seq![v],
        }
    }
}

impl Ty {
    /// The number of constructors, variables and scalar names in the type.
    pub open spec fn spec_size(self) -> nat
        decreases self,
    {
        match self {
            Ty::Var(_) => 2,
            Ty::Scalar(_) => 2,
            Ty::Ref(lt, ty) => 1 + lt.spec_size() + ty.spec_size(),
        }
    }

    /// The variables of the type, left to right, repeats included.
    pub open spec fn spec_free_variables(self) -> Seq<Variable>
        decreases self,
    {
        match self {
            Ty::Var(v) => seq![v],
            Ty::Scalar(_) => seq![],
            Ty::Ref(lt, ty) => lt.spec_free_variables() + ty.spec_free_variables(),
        }
    }

    /// Structural equality.
    pub fn same(&self, other: &Ty) -> (b: bool)
        ensures
            b == (*self == *other),
        decreases self,
    {
        match self {
            Ty::Var(v) => match other {
                Ty::Var(w) => *v == *w,
                _ => false,
            },
            Ty::Scalar(a) => match other {
                Ty::Scalar(b) => *a == *b,
                _ => false,
            },
            Ty::Ref(lt, ty) => match other {
                Ty::Ref(lt2, ty2) => *lt == *lt2 && ty.same(ty2),
                _ => false,
            },
        }
    }

    /// The size of the type, or `None` where it does not fit a `usize`.
    pub fn size(&self) -> (n: Option<usize>)
        ensures
            n == checked(self.spec_size()),
        decreases self,
    {
        match self {
            Ty::Var(_) => Some(2),
            Ty::Scalar(_) => Some(2),
            Ty::Ref(lt, ty) => {
                let head: usize = match lt {
                    Lt::Static => 2,
                    Lt::Var(_) => 3,
                };
                checked_sum(Some(head), ty.size())
            },
        }
    }

    /// Appends the variables of the type to `out`, left to right.
    pub fn collect_free_variables(&self, out: &mut Vec<Variable>)
        ensures
            final(out)@ == old(out)@ + self.spec_free_variables(),
        decreases self,
    {
        match self {
            Ty::Var(v) => {
                out.push(*v);
            },
            Ty::Scalar(_) => {},
            Ty::Ref(lt, ty) => {
                match lt {
                    Lt::Static => {},
                    Lt::Var(v) => {
                        out.push(*v);
                    },
                }
                ty.collect_free_variables(out);
            },
        }
    }
}

impl Clone for Ty {
    fn clone(&self) -> (t: Self)
        ensures
            t == *self,
        decreases self,
    {
        match self {
            Ty::Var(v) => Ty::Var(*v),
            Ty::Scalar(a) => Ty::Scalar(*a),
            Ty::Ref(lt, ty) => {
                let inner: Ty = (&**ty).clone();
                Ty::Ref(*lt, Box::new(inner))
            },
        }
    }
}

/// A size as the machine holds it: the number itself while it fits a
/// `usize`, `None` beyond.
pub open spec fn checked(n: nat) -> Option<usize> {
    if n <= usize::MAX {
        Some(n as usize)
    } else {
        None
    }
}

/// The sum of two machine sizes, `None` standing for a size beyond `usize`.
pub open spec fn spec_checked_sum(a: Option<usize>, b: Option<usize>) -> Option<usize> {
    match (a, b) {
        (Some(x), Some(y)) => checked((x + y) as nat),
        _ => None,
    }
}

/// Adds two machine sizes, `None` standing for a size beyond `usize`.
#[verifier::when_used_as_spec(spec_checked_sum)]
pub fn checked_sum(a: Option<usize>, b: Option<usize>) -> (c: Option<usize>)
    ensures
        c == spec_checked_sum(a, b),
{
    match a {
        None => None,
        Some(x) => match b {
            None => None,
            Some(y) => x.checked_add(y),
        },
    }
}

impl Parameter {
    pub open spec fn spec_size(self) -> nat {
        match self {
            Parameter::Ty(ty) => 1 + ty.spec_size(),
            Parameter::Lt(lt) => 1 + lt.spec_size(),
        }
    }

    pub open spec fn spec_free_variables(self) -> Seq<Variable> {
        match self {
            Parameter::Ty(ty) => ty.spec_free_variables(),
            Parameter::Lt(lt) => lt.spec_free_variables(),
        }
    }

    /// Whether the parameter is the lifetime `'static`.
    pub open spec fn spec_is_static(&self) -> bool {
        *self == Parameter::Lt(Lt::Static)
    }

    #[verifier::when_used_as_spec(spec_is_static)]
    pub fn is_static(&self) -> (b: bool)
        ensures
            b == self.spec_is_static(),
    {
        match self {
            Parameter::Lt(Lt::Static) => true,
            _ => false,
        }
    }

    /// Structural equality.
    pub fn same(&self, other: &Parameter) -> (b: bool)
        ensures
            b == (*self == *other),
    {
        match self {
            Parameter::Ty(a) => match other {
                Parameter::Ty(b) => a.same(b),
                _ => false,
            },
            Parameter::Lt(a) => match other {
                Parameter::Lt(b) => *a == *b,
                _ => false,
            },
        }
    }

    /// The size of the parameter, or `None` where it does not fit a `usize`.
    pub fn size(&self) -> (n: Option<usize>)
        ensures
            n == checked(self.spec_size()),
    {
        match self {
            Parameter::Ty(ty) => checked_sum(Some(1), ty.size()),
            Parameter::Lt(Lt::Static) => Some(2),
            Parameter::Lt(Lt::Var(_)) => Some(3),
        }
    }

    /// Appends the variables of the parameter to `out`, left to right.
    pub fn collect_free_variables(&self, out: &mut Vec<Variable>)
        ensures
            final(out)@ == old(out)@ + self.spec_free_variables(),
    {
        match self {
            Parameter::Ty(ty) => {
                ty.collect_free_variables(out);
            },
            Parameter::Lt(Lt::Static) => {},
            Parameter::Lt(Lt::Var(v)) => {
                out.push(*v);
            },
        }
    }
}

impl Clone for Parameter {
    fn clone(&self) -> (p: Self)
        ensures
            p == *self,
    {
        match self {
            Parameter::Ty(ty) => Parameter::Ty(ty.clone()),
            Parameter::Lt(lt) => Parameter::Lt(*lt),
        }
    }
}

impl Relation {
    pub fn outlives(a: Parameter, b: Parameter) -> (r: Relation)
        ensures
            r == Relation::Outlives(a, b),
    {
        Relation::Outlives(a, b)
    }

    pub fn equals(a: Parameter, b: Parameter) -> (r: Relation)
        ensures
            r == Relation::Equals(a, b),
    {
        Relation::Equals(a, b)
    }

    /// The left-hand parameter.
    pub open spec fn lhs(self) -> Parameter {
        match self {
            Relation::Equals(a, _) => a,
            Relation::Outlives(a, _) => a,
        }
    }

    /// The right-hand parameter.
    pub open spec fn rhs(self) -> Parameter {
        match self {
            Relation::Equals(_, b) => b,
            Relation::Outlives(_, b) => b,
        }
    }

    pub open spec fn spec_size(self) -> nat {
        1 + self.lhs().spec_size() + self.rhs().spec_size()
    }

    pub open spec fn spec_free_variables(self) -> Seq<Variable> {
        self.lhs().spec_free_variables() + self.rhs().spec_free_variables()
    }

    /// Structural equality.
    pub fn same(&self, other: &Relation) -> (b: bool)
        ensures
            b == (*self == *other),
    {
        match self {
            Relation::Equals(a, b) => match other {
                Relation::Equals(c, d) => a.same(c) && b.same(d),
                _ => false,
            },
            Relation::Outlives(a, b) => match other {
                Relation::Outlives(c, d) => a.same(c) && b.same(d),
                _ => false,
            },
        }
    }

    /// The size of the relation, or `None` where it does not fit a `usize`.
    pub fn size(&self) -> (n: Option<usize>)
        ensures
            n == checked(self.spec_size()),
    {
        match self {
            Relation::Equals(a, b) => checked_sum(Some(1), checked_sum(a.size(), b.size())),
            Relation::Outlives(a, b) => checked_sum(Some(1), checked_sum(a.size(), b.size())),
        }
    }

    /// Appends the variables of the relation to `out`, left to right.
    pub fn collect_free_variables(&self, out: &mut Vec<Variable>)
        ensures
            final(out)@ == old(out)@ + self.spec_free_variables(),
    {
        match self {
            Relation::Equals(a, b) => {
                a.collect_free_variables(out);
                b.collect_free_variables(out);
            },
            Relation::Outlives(a, b) => {
                a.collect_free_variables(out);
                b.collect_free_variables(out);
            },
        }
    }
}

impl Clone for Relation {
    fn clone(&self) -> (r: Self)
        ensures
            r == *self,
    {
        match self {
            Relation::Equals(a, b) => Relation::Equals(a.clone(), b.clone()),
            Relation::Outlives(a, b) => Relation::Outlives(a.clone(), b.clone()),
        }
    }
}

/// The size of a list of relations: the sum of the sizes of its members.
pub open spec fn relations_size(s: Seq<Relation>) -> nat
    decreases s.len(),
{
    if s.len() == 0 {
        0
    } else {
        relations_size(s.drop_last()) + s.last().spec_size()
    }
}

/// The variables of a list of relations, left to right, repeats included.
pub open spec fn relations_free_variables(s: Seq<Relation>) -> Seq<Variable>
    decreases s.len(),
{
    if s.len() == 0 {
        seq![]
    } else {
        relations_free_variables(s.drop_last()) + s.last().spec_free_variables()
    }
}

/// Structural equality of two lists of relations.
pub fn same_relations(a: &Vec<Relation>, b: &Vec<Relation>) -> (r: bool)
    ensures
        r == (a@ == b@),
{
    if a.len() != b.len() {
        return false;
    }
    let mut i: usize = 0;
    while i < a.len()
        invariant
            i <= a.len(),
            a.len() == b.len(),
            forall|j: int| 0 <= j < i ==> a@[j] == b@[j],
        decreases a.len() - i,
    {
        if !a[i].same(&b[i]) {
            return false;
        }
        i += 1;
    }
    assert(a@ =~= b@);
    true
}

/// A copy of a list of relations.
pub fn clone_relations(a: &Vec<Relation>) -> (r: Vec<Relation>)
    ensures
        r@ == a@,
{
    let mut r: Vec<Relation> = Vec::new();
    let mut i: usize = 0;
    while i < a.len()
        invariant
            i <= a.len(),
            r@ == a@.take(i as int),
        decreases a.len() - i,
    {
        r.push(a[i].clone());
        assert(a@.take(i + 1) =~= a@.take(i as int).push(a@[i as int]));
        i += 1;
    }
    assert(a@.take(a.len() as int) =~= a@);
    r
}

/// The size of a list of relations, or `None` where it does not fit a
/// `usize`.
pub fn size_of_relations(a: &Vec<Relation>) -> (n: Option<usize>)
    ensures
        n == checked(relations_size(a@)),
{
    let mut n: Option<usize> = Some(0);
    let mut i: usize = 0;
    while i < a.len()
        invariant
            i <= a.len(),
            n == checked(relations_size(a@.take(i as int))),
        decreases a.len() - i,
    {
        assert(a@.take(i + 1).drop_last() =~= a@.take(i as int));
        n = checked_sum(n, a[i].size());
        i += 1;
    }
    assert(a@.take(a.len() as int) =~= a@);
    n
}

/// Appends the variables of a list of relations to `out`, left to right.
pub fn collect_free_variables_of_relations(a: &Vec<Relation>, out: &mut Vec<Variable>)
    ensures
        final(out)@ == old(out)@ + relations_free_variables(a@),
{
    let mut i: usize = 0;
    while i < a.len()
        invariant
            i <= a.len(),
            out@ == old(out)@ + relations_free_variables(a@.take(i as int)),
        decreases a.len() - i,
    {
        assert(a@.take(i + 1).drop_last() =~= a@.take(i as int));
        a[i].collect_free_variables(out);
        i += 1;
    }
    assert(a@.take(a.len() as int) =~= a@);
}

impl View for Wcs {
    type V = Seq<Relation>;

    open spec fn view(&self) -> Seq<Relation> {
        self.clauses@
    }
}

impl Wcs {
    /// The empty list.
    pub fn t() -> (w: Wcs)
        ensures
            w@ == Seq::<Relation>::empty(),
    {
        Wcs { clauses: Vec::new() }
    }

    pub fn from_vec(clauses: Vec<Relation>) -> (w: Wcs)
        ensures
            w@ == clauses@,
    {
        Wcs { clauses }
    }

    /// One for the list itself, plus the sizes of its clauses.
    pub open spec fn spec_size(self) -> nat {
        1 + relations_size(self@)
    }

    pub open spec fn spec_free_variables(self) -> Seq<Variable> {
        relations_free_variables(self@)
    }

    pub fn len(&self) -> (n: usize)
        ensures
            n == self@.len(),
    {
        self.clauses.len()
    }

    /// The size of the list, or `None` where it does not fit a `usize`.
    pub fn size(&self) -> (n: Option<usize>)
        ensures
            n == checked(self.spec_size()),
    {
        checked_sum(Some(1), size_of_relations(&self.clauses))
    }

    /// The variables of the list, left to right, repeats included.
    pub fn free_variables(&self) -> (out: Vec<Variable>)
        ensures
            out@ == self.spec_free_variables(),
    {
        let mut out: Vec<Variable> = Vec::new();
        collect_free_variables_of_relations(&self.clauses, &mut out);
        out
    }
}

impl Clone for Wcs {
    fn clone(&self) -> (w: Self)
        ensures
            w@ == self@,
    {
        Wcs { clauses: clone_relations(&self.clauses) }
    }
}

} // verus!
