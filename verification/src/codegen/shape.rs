//! Which programs can be compiled.
//!
//! Whether code can be generated for a term depends on a few facts about what it
//! mentions: which variables, constants and fixpoints are in scope, and how many
//! fields the constructors of an inductive type have.
use vstd::prelude::*;

use crate::codegen::search::first;
use crate::hir::ir::{Constructor, DeBruijnIndex, Declaration, Inductive, Name, Term};

verus! {

/// What is known of a declaration before code is generated.
pub enum Shape {
    /// A constant.
    Constant { name: Seq<char> },
    /// An inductive type; for each of its constructors the number of fields of
    /// its structure, the tag included; and whether values of the type can be
    /// looked at.
    Inductive { name: Seq<char>, fields: Seq<nat>, laid_out: bool },
}

/// What is known of a fixpoint while its own function is generated: its name, and
/// whether it captures nothing.
pub struct Binding {
    pub name: Seq<char>,
    pub closed: bool,
}

/// Where the first inductive type of this name is declared.
pub open spec fn inductive_shape(shapes: Seq<Shape>, name: Seq<char>) -> Option<int> {
    first(
        shapes,
        |shape: Shape| shape matches Shape::Inductive { name: declared, .. } && declared == name,
    )
}

/// The fields of the constructors of the first inductive type of this name.
pub open spec fn inductive_fields(shapes: Seq<Shape>, name: Seq<char>) -> Option<Seq<nat>> {
    match inductive_shape(shapes, name) {
        Some(i) => Some(shapes[i]->fields),
        None => None,
    }
}

/// Values of the first inductive type of this name can be looked at.
pub open spec fn inductive_laid_out(shapes: Seq<Shape>, name: Seq<char>) -> bool {
    inductive_shape(shapes, name) matches Some(i) && shapes[i]->laid_out
}

/// Where the first constant of this name is declared.
pub open spec fn constant_shape(shapes: Seq<Shape>, name: Seq<char>) -> Option<int> {
    first(
        shapes,
        |shape: Shape| shape matches Shape::Constant { name: declared } && declared == name,
    )
}

/// The innermost fixpoint of this name, and whether it captures nothing.
pub open spec fn binding(bindings: Seq<Binding>, name: Seq<char>) -> Option<bool>
    decreases bindings.len(),
{
    if bindings.len() == 0 {
        None
    } else if bindings.last().name == name {
        Some(bindings.last().closed)
    } else {
        binding(bindings.drop_last(), name)
    }
}

/// How many variables a branch binds, for a constructor whose structure has this
/// many fields: one for each field after the tag.
pub open spec fn bound_by_branch(fields: nat) -> nat {
    if fields == 0 {
        0
    } else {
        (fields - 1) as nat
    }
}

/// The variable with this index, counted from outside `term`, occurs in `term`.
pub open spec fn free_in(shapes: Seq<Shape>, term: Term, index: nat) -> bool
    decreases term, 0nat,
{
    match term {
        Term::DeBruijnIndex(occurring) => occurring == index,
        Term::Lambda { body, .. } => free_in(shapes, *body, index + 1),
        Term::Application { function, argument } => free_in(shapes, *function, index) || free_in(
            shapes,
            *argument,
            index,
        ),
        Term::Fixpoint { body, .. } => free_in(shapes, *body, index),
        Term::Match { inductive_name, scrutinee, branches, .. } => free_in(
            shapes,
            *scrutinee,
            index,
        ) || (inductive_fields(shapes, inductive_name@) matches Some(fields)
            && free_in_branches(shapes, fields, branches@, index, branches@.len())),
        _ => false,
    }
}

/// The variable occurs in one of the first `n` branches of a match.
pub open spec fn free_in_branches(
    shapes: Seq<Shape>,
    fields: Seq<nat>,
    branches: Seq<Term>,
    index: nat,
    n: nat,
) -> bool
    decreases branches, n,
{
    0 < n <= branches.len() && (free_in_branches(shapes, fields, branches, index, (n - 1) as nat)
        || (n <= fields.len() && free_in(
        shapes,
        branches[n - 1],
        index + bound_by_branch(fields[n - 1]),
    )))
}

/// The indexes, outside a lambda, of the free variables of the lambda that occur
/// in `term`, a part of its body that stands under `bound` binders more than the
/// body. Each is listed where it occurs.
pub open spec fn captured(shapes: Seq<Shape>, term: Term, bound: nat) -> Seq<DeBruijnIndex>
    decreases term, 0nat,
{
    match term {
        Term::DeBruijnIndex(index) => if index > bound {
            seq![(index - bound - 1) as usize]
        } else {
            Seq::empty()
        },
        Term::Lambda { body, .. } => captured(shapes, *body, bound + 1),
        Term::Application { function, argument } => captured(shapes, *function, bound) + captured(
            shapes,
            *argument,
            bound,
        ),
        Term::Fixpoint { body, .. } => captured(shapes, *body, bound),
        Term::Match { inductive_name, scrutinee, branches, .. } => match inductive_fields(
            shapes,
            inductive_name@,
        ) {
            Some(fields) => captured(shapes, *scrutinee, bound) + captured_in_branches(
                shapes,
                fields,
                branches@,
                bound,
                branches@.len(),
            ),
            None => captured(shapes, *scrutinee, bound),
        },
        _ => Seq::empty(),
    }
}

/// The variables captured in the first `n` branches of a match.
pub open spec fn captured_in_branches(
    shapes: Seq<Shape>,
    fields: Seq<nat>,
    branches: Seq<Term>,
    bound: nat,
    n: nat,
) -> Seq<DeBruijnIndex>
    decreases branches, n,
{
    if n == 0 || n > branches.len() {
        Seq::empty()
    } else {
        let before = captured_in_branches(shapes, fields, branches, bound, (n - 1) as nat);
        if n > fields.len() {
            before
        } else {
            before + captured(shapes, branches[n - 1], bound + bound_by_branch(fields[n - 1]))
        }
    }
}

/// The captured variables of `term` can be found: it mentions known inductive
/// types only, holds no type where a value is expected, and its binders can be
/// counted.
pub open spec fn can_capture(shapes: Seq<Shape>, term: Term, bound: nat) -> bool
    decreases term, 0nat,
{
    match term {
        Term::DeBruijnIndex(_) | Term::Constant(_) | Term::Constructor(_, _) => true,
        Term::Lambda { body, .. } => bound + 1 <= usize::MAX && can_capture(
            shapes,
            *body,
            bound + 1,
        ),
        Term::Application { function, argument } => can_capture(shapes, *function, bound)
            && can_capture(shapes, *argument, bound),
        Term::Fixpoint { body, .. } => can_capture(shapes, *body, bound),
        Term::Match { inductive_name, scrutinee, branches, .. } => can_capture(
            shapes,
            *scrutinee,
            bound,
        ) && (inductive_fields(shapes, inductive_name@) matches Some(fields)
            && can_capture_branches(shapes, fields, branches@, bound, branches@.len())),
        Term::Sort(_) | Term::DependentProduct { .. } | Term::Inductive(_) => false,
    }
}

/// The captured variables of the first `n` branches can be found.
pub open spec fn can_capture_branches(
    shapes: Seq<Shape>,
    fields: Seq<nat>,
    branches: Seq<Term>,
    bound: nat,
    n: nat,
) -> bool
    decreases branches, n,
{
    n == 0 || n > branches.len() || (can_capture_branches(
        shapes,
        fields,
        branches,
        bound,
        (n - 1) as nat,
    ) && (n > fields.len() || (bound + bound_by_branch(fields[n - 1]) <= usize::MAX && can_capture(
        shapes,
        branches[n - 1],
        bound + bound_by_branch(fields[n - 1]),
    ))))
}

/// The fixpoints in scope in the body of a fixpoint. A fixpoint can be mentioned
/// where its function is generated, in the lambda that is its body.
pub open spec fn with_binding(
    shapes: Seq<Shape>,
    bindings: Seq<Binding>,
    name: Seq<char>,
    body: Term,
) -> Seq<Binding> {
    match body {
        Term::Lambda { body: inner, .. } => bindings.push(
            Binding { name, closed: captured(shapes, *inner, 0).len() == 0 },
        ),
        _ => bindings,
    }
}

/// Code can be generated for `term` where `depth` variables and the fixpoints in
/// `bindings` are in scope.
///
/// - A variable or a constant must be bound; a fixpoint that captures variables
///   cannot mention itself.
/// - A lambda captures variables that are in scope, no more than LLVM can count.
/// - A match has a branch for each constructor, and the values of the type can be
///   looked at.
/// - A term that is a type has no value.
pub open spec fn compilable(
    shapes: Seq<Shape>,
    bindings: Seq<Binding>,
    depth: nat,
    term: Term,
) -> bool
    decreases term, 0nat,
{
    match term {
        Term::DeBruijnIndex(index) => index < depth,
        Term::Lambda { body, .. } => {
            let indexes = captured(shapes, *body, 0);
            &&& can_capture(shapes, *body, 0)
            &&& indexes.len() <= u32::MAX
            &&& forall|i: int| 0 <= i < indexes.len() ==> #[trigger] indexes[i] < depth
            &&& compilable(shapes, bindings, depth + 1, *body)
        },
        Term::Application { function, argument } => compilable(shapes, bindings, depth, *function)
            && compilable(shapes, bindings, depth, *argument),
        Term::Constant(name) => match binding(bindings, name@) {
            Some(closed) => closed,
            None => constant_shape(shapes, name@) is Some,
        },
        Term::Constructor(name, index) => inductive_fields(shapes, name@) matches Some(fields)
            && index < fields.len(),
        Term::Match { inductive_name, scrutinee, branches, .. } => {
            &&& compilable(shapes, bindings, depth, *scrutinee)
            &&& inductive_laid_out(shapes, inductive_name@)
            &&& inductive_fields(shapes, inductive_name@) matches Some(fields) && fields.len()
                == branches@.len() && branches_compilable(
                shapes,
                bindings,
                depth,
                fields,
                branches@,
                branches@.len(),
            )
        },
        Term::Fixpoint { name, body, .. } => compilable(
            shapes,
            with_binding(shapes, bindings, name@, *body),
            depth,
            *body,
        ),
        Term::Sort(_) | Term::DependentProduct { .. } | Term::Inductive(_) => false,
    }
}

/// Code can be generated for the first `n` branches of a match.
pub open spec fn branches_compilable(
    shapes: Seq<Shape>,
    bindings: Seq<Binding>,
    depth: nat,
    fields: Seq<nat>,
    branches: Seq<Term>,
    n: nat,
) -> bool
    decreases branches, n,
{
    n == 0 || n > branches.len() || (branches_compilable(
        shapes,
        bindings,
        depth,
        fields,
        branches,
        (n - 1) as nat,
    ) && compilable(
        shapes,
        bindings,
        depth + bound_by_branch(fields[n - 1]),
        branches[n - 1],
    ))
}

/// Code can be generated for each branch if it can for all of them.
pub proof fn lemma_branch_compilable(
    shapes: Seq<Shape>,
    bindings: Seq<Binding>,
    depth: nat,
    fields: Seq<nat>,
    branches: Seq<Term>,
    n: nat,
    i: int,
)
    requires
        0 <= i < n <= branches.len(),
        branches_compilable(shapes, bindings, depth, fields, branches, n),
    ensures
        compilable(shapes, bindings, depth + bound_by_branch(fields[i]), branches[i]),
    decreases n,
{
    if i < n - 1 {
        lemma_branch_compilable(shapes, bindings, depth, fields, branches, (n - 1) as nat, i);
    }
}

/// How many types a constructor's type names, the result included; `None` if it
/// is not made of dependent products, known inductive types and type variables.
pub open spec fn leaf_count(shapes: Seq<Shape>, constructor_type: Term) -> Option<nat>
    decreases constructor_type,
{
    match constructor_type {
        Term::DependentProduct { parameter_type, return_type, .. } => match (
            leaf_count(shapes, *parameter_type),
            leaf_count(shapes, *return_type),
        ) {
            (Some(parameters), Some(results)) => Some(parameters + results),
            _ => None,
        },
        Term::Inductive(name) => if inductive_shape(shapes, name@) is Some {
            Some(1)
        } else {
            None
        },
        Term::DeBruijnIndex(_) => Some(1),
        _ => None,
    }
}

/// The first inductive type of this name has one more constructor, whose
/// structure has `count` fields.
pub open spec fn with_constructor_shape(
    shapes: Seq<Shape>,
    name: Seq<char>,
    count: nat,
) -> Seq<Shape> {
    let i = inductive_shape(shapes, name)->0;
    shapes.update(
        i,
        Shape::Inductive {
            name,
            fields: shapes[i]->fields.push(count),
            laid_out: shapes[i]->laid_out,
        },
    )
}

/// What is known after the first `n` constructors of an inductive type; `None` if
/// the structure of one of them cannot be laid out, or has more fields than LLVM
/// can count. The structure holds a tag and all that the constructor's type names
/// but the result.
pub open spec fn constructors_shapes(
    shapes: Seq<Shape>,
    name: Seq<char>,
    constructors: Seq<Constructor>,
    n: nat,
) -> Option<Seq<Shape>>
    decreases n,
{
    if n == 0 || n > constructors.len() {
        Some(shapes)
    } else {
        match constructors_shapes(shapes, name, constructors, (n - 1) as nat) {
            Some(before) => match leaf_count(before, constructors[n - 1].typ) {
                Some(count) => if count <= u32::MAX {
                    Some(with_constructor_shape(before, name, count))
                } else {
                    None
                },
                None => None,
            },
            None => None,
        }
    }
}

/// What is known after the declaration of an inductive type; `None` if code
/// cannot be generated for it. The structure of its values gets its fields from
/// the constructors of the first inductive type of its name.
pub open spec fn inductive_shapes(shapes: Seq<Shape>, inductive: Inductive) -> Option<Seq<Shape>> {
    let name = inductive.name@;
    let i = shapes.len() as int;
    match constructors_shapes(
        shapes.push(Shape::Inductive { name, fields: Seq::empty(), laid_out: false }),
        name,
        inductive.constructors@,
        inductive.constructors@.len(),
    ) {
        Some(after) => if inductive_fields(after, name)->0.len() > 0 {
            Some(
                after.update(
                    i,
                    Shape::Inductive { name, fields: after[i]->fields, laid_out: true },
                ),
            )
        } else {
            Some(after)
        },
        None => None,
    }
}

/// The name under which later declarations find the value of `term`.
pub open spec fn constant_name(term: Term) -> Option<Seq<char>> {
    match term {
        Term::Lambda { name: Name::Named(name), .. } => Some(name@),
        Term::Fixpoint { name, .. } => Some(name@),
        _ => None,
    }
}

/// What is known after a declaration; `None` if code cannot be generated for it.
pub open spec fn declaration_shapes(shapes: Seq<Shape>, declaration: Declaration) -> Option<
    Seq<Shape>,
> {
    match declaration {
        Declaration::Constant(term) => if compilable(shapes, Seq::empty(), 0, term) {
            match constant_name(term) {
                Some(name) => Some(shapes.push(Shape::Constant { name })),
                None => Some(shapes),
            }
        } else {
            None
        },
        Declaration::Inductive(inductive) => inductive_shapes(shapes, inductive),
    }
}

/// What is known after the first `n` declarations of a program.
pub open spec fn program_shapes(
    shapes: Seq<Shape>,
    declarations: Seq<Declaration>,
    n: nat,
) -> Option<Seq<Shape>>
    decreases n,
{
    if n == 0 || n > declarations.len() {
        Some(shapes)
    } else {
        match program_shapes(shapes, declarations, (n - 1) as nat) {
            Some(before) => declaration_shapes(before, declarations[n - 1]),
            None => None,
        }
    }
}

/// Code can be generated for the first declarations if it can for more of them.
pub proof fn lemma_program_shapes_some(
    shapes: Seq<Shape>,
    declarations: Seq<Declaration>,
    n: nat,
    more: nat,
)
    requires
        n <= more <= declarations.len(),
        program_shapes(shapes, declarations, more) is Some,
    ensures
        program_shapes(shapes, declarations, n) is Some,
    decreases more,
{
    if n < more {
        lemma_program_shapes_some(shapes, declarations, n, (more - 1) as nat);
    }
}

} // verus!
