//! Whether a program can be compiled, found out before any code is generated.
use vstd::prelude::*;

use crate::codegen::environment::global;
use crate::codegen::globals::{constructor_wf, declaration_wf, field_counts, shape_of};
use crate::codegen::search::{first, lemma_first};
use crate::codegen::shape::{
    binding, bound_by_branch, branches_compilable, can_capture, can_capture_branches, captured,
    captured_in_branches, compilable, constant_name, constant_shape, constructors_shapes,
    declaration_shapes, inductive_fields, inductive_shape, inductive_shapes, leaf_count,
    lemma_branch_compilable, program_shapes, with_binding, with_constructor_shape, Binding, Shape,
};
use crate::codegen::Context;
use crate::hir::ir::{Constructor, DeBruijnIndex, Declaration, HIR, Inductive, Name, Term};
use crate::llvm::session::{basic_types, element_type, Pointee};

verus! {

/// A declaration that can be mentioned.
pub enum Known {
    Constant { name: String },
    Inductive { name: String, fields: Vec<usize>, laid_out: bool },
}

impl View for Known {
    type V = Shape;

    open spec fn view(&self) -> Shape {
        match self {
            Known::Constant { name } => Shape::Constant { name: name@ },
            Known::Inductive { name, fields, laid_out } => Shape::Inductive {
                name: name@,
                fields: Seq::new(fields@.len(), |i: int| fields@[i] as nat),
                laid_out: *laid_out,
            },
        }
    }
}

/// A fixpoint that can be mentioned, if it captures nothing.
pub struct Bound {
    pub name: String,
    pub closed: bool,
}

impl View for Bound {
    type V = Binding;

    open spec fn view(&self) -> Binding {
        Binding { name: self.name@, closed: self.closed }
    }
}

/// What is known of the fixpoints.
pub open spec fn bindings_in(bound: Seq<Bound>) -> Seq<Binding> {
    Seq::new(bound.len(), |i: int| bound[i]@)
}

/// The declarations that can be mentioned, first to last.
pub struct Knowledge {
    known: Vec<Known>,
}

impl View for Knowledge {
    type V = Seq<Shape>;

    closed spec fn view(&self) -> Seq<Shape> {
        Seq::new(self.known@.len(), |i: int| self.known@[i]@)
    }
}

/// Every structure has a field for the tag.
pub open spec fn tagged(shapes: Seq<Shape>) -> bool {
    forall|i: int|
        0 <= i < shapes.len() ==> (#[trigger] shapes[i] matches Shape::Inductive { fields, .. }
            ==> forall|j: int| 0 <= j < fields.len() ==> #[trigger] fields[j] >= 1)
}

/// The number of variables in scope, or one more than there are indexes if it is
/// larger.
pub open spec fn capped_depth(depth: nat) -> nat {
    if depth <= usize::MAX {
        depth
    } else {
        (usize::MAX + 1) as nat
    }
}

/// The number, or one more than LLVM can count if it is larger.
pub open spec fn capped(n: nat) -> nat {
    if n <= u32::MAX {
        n
    } else {
        0x1_0000_0000
    }
}

proof fn lemma_inductive_shape_found(shapes: Seq<Shape>, name: Seq<char>)
    ensures
        match inductive_shape(shapes, name) {
            Some(i) => 0 <= i < shapes.len() && (shapes[i] matches Shape::Inductive {
                name: declared,
                ..
            } && declared == name) && forall|j: int|
                0 <= j < i ==> !(#[trigger] shapes[j] matches Shape::Inductive {
                    name: declared,
                    ..
                } && declared == name),
            None => forall|j: int|
                0 <= j < shapes.len() ==> !(#[trigger] shapes[j] matches Shape::Inductive {
                    name: declared,
                    ..
                } && declared == name),
        },
{
    let wanted = |shape: Shape|
        shape matches Shape::Inductive { name: declared, .. } && declared == name;
    lemma_first(shapes, wanted);
    assert forall|j: int| 0 <= j < shapes.len() implies wanted(#[trigger] shapes[j]) == (
    shapes[j] matches Shape::Inductive { name: declared, .. } && declared == name) by {}
}

proof fn lemma_constant_shape_found(shapes: Seq<Shape>, name: Seq<char>)
    ensures
        constant_shape(shapes, name) is Some <==> exists|i: int|
            0 <= i < shapes.len() && (#[trigger] shapes[i] matches Shape::Constant {
                name: declared,
            } && declared == name),
{
    let wanted = |shape: Shape|
        shape matches Shape::Constant { name: declared } && declared == name;
    lemma_first(shapes, wanted);
    if let Some(i) = first(shapes, wanted) {
        assert(wanted(shapes[i]));
    }
    assert forall|i: int|
        0 <= i < shapes.len() && (#[trigger] shapes[i] matches Shape::Constant { name: declared }
            && declared == name) implies constant_shape(shapes, name) is Some by {
        assert(wanted(shapes[i]));
    }
}

/// Branches are counted in order, so nothing can be captured in all of them if
/// something is wrong in the first ones.
proof fn lemma_cannot_capture(
    shapes: Seq<Shape>,
    fields: Seq<nat>,
    branches: Seq<Term>,
    bound: nat,
    n: nat,
    more: nat,
)
    requires
        n <= more <= branches.len(),
        !can_capture_branches(shapes, fields, branches, bound, n),
    ensures
        !can_capture_branches(shapes, fields, branches, bound, more),
    decreases more,
{
    if n < more {
        lemma_cannot_capture(shapes, fields, branches, bound, n, (more - 1) as nat);
    }
}

impl Knowledge {
    /// Nothing can be mentioned.
    pub fn new() -> (knowledge: Knowledge)
        ensures
            knowledge@ == Seq::<Shape>::empty(),
    {
        Knowledge { known: Vec::new() }
    }

    fn find_inductive(&self, name: &String) -> (found: Option<usize>)
        ensures
            match found {
                Some(i) => inductive_shape(self@, name@) == Some(i as int) && i < self@.len()
                    && self@[i as int] is Inductive,
                None => inductive_shape(self@, name@) is None,
            },
    {
        proof {
            lemma_inductive_shape_found(self@, name@);
        }
        let count: usize = self.known.len();
        let mut i: usize = 0;
        while i < count
            invariant
                i <= count == self.known@.len() == self@.len(),
                forall|j: int| 0 <= j < count ==> self@[j] == #[trigger] self.known@[j]@,
                forall|j: int|
                    0 <= j < i ==> !(#[trigger] self@[j] matches Shape::Inductive {
                        name: declared,
                        ..
                    } && declared == name@),
                match inductive_shape(self@, name@) {
                    Some(k) => i <= k < self@.len() && (self@[k] matches Shape::Inductive {
                        name: declared,
                        ..
                    } && declared == name@),
                    None => forall|j: int|
                        0 <= j < self@.len() ==> !(#[trigger] self@[j] matches Shape::Inductive {
                            name: declared,
                            ..
                        } && declared == name@),
                },
                inductive_shape(self@, name@) matches Some(k) ==> forall|j: int|
                    0 <= j < k ==> !(#[trigger] self@[j] matches Shape::Inductive {
                        name: declared,
                        ..
                    } && declared == name@),
            decreases count - i,
        {
            assert(self@[i as int] == self.known@[i as int]@);
            if let Known::Inductive { name: declared, .. } = &self.known[i] {
                if *declared == *name {
                    return Some(i);
                }
            }
            i = i + 1;
        }
        None
    }

    fn knows_constant(&self, name: &String) -> (known: bool)
        ensures
            known == (constant_shape(self@, name@) is Some),
    {
        proof {
            lemma_constant_shape_found(self@, name@);
        }
        let count: usize = self.known.len();
        let mut i: usize = 0;
        while i < count
            invariant
                i <= count == self.known@.len() == self@.len(),
                forall|j: int| 0 <= j < count ==> self@[j] == #[trigger] self.known@[j]@,
                forall|j: int|
                    0 <= j < i ==> !(#[trigger] self@[j] matches Shape::Constant { name: declared }
                        && declared == name@),
                constant_shape(self@, name@) is Some <==> exists|i: int|
                    0 <= i < self@.len() && (#[trigger] self@[i] matches Shape::Constant {
                        name: declared,
                    } && declared == name@),
            decreases count - i,
        {
            assert(self@[i as int] == self.known@[i as int]@);
            if let Known::Constant { name: declared } = &self.known[i] {
                if *declared == *name {
                    return true;
                }
            }
            i = i + 1;
        }
        false
    }

    /// The innermost fixpoint of this name, and whether it captures nothing.
    fn find_binding(bindings: &Vec<Bound>, name: &String) -> (found: Option<bool>)
        ensures
            found == binding(bindings_in(bindings@), name@),
    {
        let ghost all = bindings_in(bindings@);
        let mut i: usize = bindings.len();
        assert(all.take(i as int) =~= all);
        while i > 0
            invariant
                i <= bindings@.len() == all.len(),
                all == bindings_in(bindings@),
                binding(all, name@) == binding(all.take(i as int), name@),
            decreases i,
        {
            i = i - 1;
            let ghost before = all.take(i as int + 1);
            assert(before.last() == bindings@[i as int]@);
            assert(before.drop_last() =~= all.take(i as int));
            if bindings[i].name == *name {
                return Some(bindings[i].closed);
            }
        }
        None
    }

    /// The numbers of fields of the inductive type that is found at `i`.
    fn fields(&self, i: usize) -> (fields: &Vec<usize>)
        requires
            i < self@.len(),
            self@[i as int] is Inductive,
        ensures
            self@[i as int]->fields == Seq::new(fields@.len(), |j: int| fields@[j] as nat),
    {
        assert(self@[i as int] == self.known@[i as int]@);
        match &self.known[i] {
            Known::Inductive { fields, .. } => fields,
            Known::Constant { .. } => vstd::pervasive::unreached(),
        }
    }

    /// Values of the inductive type that is found at `i` can be looked at.
    fn laid_out(&self, i: usize) -> (laid_out: bool)
        requires
            i < self@.len(),
            self@[i as int] is Inductive,
        ensures
            laid_out == self@[i as int]->laid_out,
    {
        assert(self@[i as int] == self.known@[i as int]@);
        match &self.known[i] {
            Known::Inductive { laid_out, .. } => *laid_out,
            Known::Constant { .. } => vstd::pervasive::unreached(),
        }
    }

    /// The variables that are captured, if they can be found.
    fn captured(&self, term: &Term, bound: usize) -> (indexes: Option<Vec<DeBruijnIndex>>)
        requires
            tagged(self@),
        ensures
            match indexes {
                Some(indexes) => can_capture(self@, *term, bound as nat) && indexes@ == captured(
                    self@,
                    *term,
                    bound as nat,
                ),
                None => !can_capture(self@, *term, bound as nat),
            },
        decreases *term, 1nat,
    {
        match term {
            Term::DeBruijnIndex(index) => {
                let mut indexes: Vec<DeBruijnIndex> = Vec::new();
                if *index > bound {
                    indexes.push(*index - bound - 1);
                }
                Some(indexes)
            },
            Term::Lambda { body, .. } => {
                if bound == usize::MAX {
                    None
                } else {
                    self.captured(body, bound + 1)
                }
            },
            Term::Application { function, argument } => {
                match (self.captured(function, bound), self.captured(argument, bound)) {
                    (Some(mut indexes), Some(mut others)) => {
                        indexes.append(&mut others);
                        Some(indexes)
                    },
                    _ => None,
                }
            },
            Term::Fixpoint { body, .. } => self.captured(body, bound),
            Term::Match { .. } => self.captured_in_match(term, bound),
            Term::Constant(_) | Term::Constructor(_, _) => Some(Vec::new()),
            Term::Sort(_) | Term::DependentProduct { .. } | Term::Inductive(_) => None,
        }
    }

    fn captured_in_match(&self, term: &Term, bound: usize) -> (indexes: Option<
        Vec<DeBruijnIndex>,
    >)
        requires
            tagged(self@),
            *term is Match,
        ensures
            match indexes {
                Some(indexes) => can_capture(self@, *term, bound as nat) && indexes@ == captured(
                    self@,
                    *term,
                    bound as nat,
                ),
                None => !can_capture(self@, *term, bound as nat),
            },
        decreases *term, 0nat,
    {
        let (inductive_name, scrutinee, branches) = match term {
            Term::Match { inductive_name, scrutinee, branches, .. } => (
                inductive_name,
                scrutinee,
                branches,
            ),
            _ => vstd::pervasive::unreached(),
        };
        let mut indexes = match self.captured(scrutinee, bound) {
            Some(indexes) => indexes,
            None => {
                return None;
            },
        };
        let found = match self.find_inductive(inductive_name) {
            Some(found) => found,
            None => {
                return None;
            },
        };
        let ghost in_scrutinee = indexes@;
        let fields = self.fields(found);
        let ghost counts = inductive_fields(self@, inductive_name@)->0;
        assert(in_scrutinee + captured_in_branches(self@, counts, branches@, bound as nat, 0)
            =~= in_scrutinee);
        let count: usize = branches.len();
        let mut i: usize = 0;
        while i < count
            invariant
                i <= count == branches@.len(),
                tagged(self@),
                decreases_to!(*term => *branches),
                counts == Seq::new(fields@.len(), |j: int| fields@[j] as nat),
                forall|j: int| 0 <= j < counts.len() ==> #[trigger] counts[j] >= 1,
                can_capture_branches(self@, counts, branches@, bound as nat, i as nat),
                indexes@ == in_scrutinee + captured_in_branches(
                    self@,
                    counts,
                    branches@,
                    bound as nat,
                    i as nat,
                ),
                !can_capture_branches(self@, counts, branches@, bound as nat, count as nat)
                    ==> !can_capture(self@, *term, bound as nat),
            decreases count - i,
        {
            if i < fields.len() {
                assert(counts[i as int] == fields@[i as int] as nat);
                let payload: usize = fields[i] - 1;
                if payload > usize::MAX - bound {
                    proof {
                        lemma_cannot_capture(
                            self@,
                            counts,
                            branches@,
                            bound as nat,
                            (i + 1) as nat,
                            count as nat,
                        );
                    }
                    return None;
                }
                match self.captured(&branches[i], bound + payload) {
                    Some(mut captured_here) => {
                        let ghost before = captured_in_branches(
                            self@,
                            counts,
                            branches@,
                            bound as nat,
                            i as nat,
                        );
                        let ghost here = captured_here@;
                        indexes.append(&mut captured_here);
                        assert(in_scrutinee + before + here =~= in_scrutinee + (before + here));
                    },
                    None => {
                        proof {
                            lemma_cannot_capture(
                                self@,
                                counts,
                                branches@,
                                bound as nat,
                                (i + 1) as nat,
                                count as nat,
                            );
                        }
                        return None;
                    },
                }
            }
            i = i + 1;
        }
        Some(indexes)
    }

    /// Code can be generated for the term.
    fn compilable(
        &self,
        bindings: &mut Vec<Bound>,
        depth: u128,
        Ghost(variables): Ghost<nat>,
        term: &Term,
    ) -> (possible: bool)
        requires
            tagged(self@),
            depth == capped_depth(variables),
        ensures
            final(bindings)@ == old(bindings)@,
            possible == compilable(self@, bindings_in(old(bindings)@), variables, *term),
        decreases *term, 1nat,
    {
        match term {
            Term::DeBruijnIndex(index) => (*index as u128) < depth,
            Term::Lambda { body, .. } => self.lambda_compilable(
                bindings,
                depth,
                Ghost(variables),
                term,
            ),
            Term::Application { function, argument } => {
                self.compilable(bindings, depth, Ghost(variables), function) && self.compilable(
                    bindings,
                    depth,
                    Ghost(variables),
                    argument,
                )
            },
            Term::Constant(name) => match Self::find_binding(bindings, name) {
                Some(closed) => closed,
                None => self.knows_constant(name),
            },
            Term::Constructor(name, index) => match self.find_inductive(name) {
                Some(found) => *index < self.fields(found).len(),
                None => false,
            },
            Term::Match { .. } => self.match_compilable(bindings, depth, Ghost(variables), term),
            Term::Fixpoint { name, body, .. } => {
                match &**body {
                    Term::Lambda { body: inner, .. } => {
                        let closed = match self.captured(inner, 0) {
                            Some(indexes) => indexes.len() == 0,
                            None => {
                                assert(!compilable(
                                    self@,
                                    with_binding(self@, bindings_in(bindings@), name@, **body),
                                    variables,
                                    **body,
                                ));
                                return false;
                            },
                        };
                        let ghost before = bindings@;
                        bindings.push(Bound { name: name.clone(), closed });
                        assert(bindings_in(bindings@) =~= with_binding(
                            self@,
                            bindings_in(before),
                            name@,
                            **body,
                        ));
                        let possible = self.compilable(bindings, depth, Ghost(variables), body);
                        bindings.pop();
                        assert(bindings@ =~= before);
                        possible
                    },
                    _ => self.compilable(bindings, depth, Ghost(variables), body),
                }
            },
            Term::Sort(_) | Term::DependentProduct { .. } | Term::Inductive(_) => false,
        }
    }

    fn lambda_compilable(
        &self,
        bindings: &mut Vec<Bound>,
        depth: u128,
        Ghost(variables): Ghost<nat>,
        term: &Term,
    ) -> (possible: bool)
        requires
            tagged(self@),
            depth == capped_depth(variables),
            *term is Lambda,
        ensures
            final(bindings)@ == old(bindings)@,
            possible == compilable(self@, bindings_in(old(bindings)@), variables, *term),
        decreases *term, 0nat,
    {
        let body = match term {
            Term::Lambda { body, .. } => body,
            _ => vstd::pervasive::unreached(),
        };
        let indexes = match self.captured(body, 0) {
            Some(indexes) => indexes,
            None => {
                return false;
            },
        };
        if indexes.len() > u32::MAX as usize {
            return false;
        }
        let count: usize = indexes.len();
        let mut i: usize = 0;
        while i < count
            invariant
                i <= count == indexes@.len(),
                depth == capped_depth(variables),
                bindings@ == old(bindings)@,
                indexes@ == captured(self@, **body, 0),
                *term matches Term::Lambda { body: inner, .. } && inner == *body,
                forall|j: int| 0 <= j < i ==> #[trigger] indexes@[j] < variables,
            decreases count - i,
        {
            if (indexes[i] as u128) >= depth {
                return false;
            }
            i = i + 1;
        }
        let inner = deeper(depth, 1, Ghost(variables));
        self.compilable(bindings, inner, Ghost(variables + 1), body)
    }

    fn match_compilable(
        &self,
        bindings: &mut Vec<Bound>,
        depth: u128,
        Ghost(variables): Ghost<nat>,
        term: &Term,
    ) -> (possible: bool)
        requires
            tagged(self@),
            depth == capped_depth(variables),
            *term is Match,
        ensures
            final(bindings)@ == old(bindings)@,
            possible == compilable(self@, bindings_in(old(bindings)@), variables, *term),
        decreases *term, 0nat,
    {
        let (inductive_name, scrutinee, branches) = match term {
            Term::Match { inductive_name, scrutinee, branches, .. } => (
                inductive_name,
                scrutinee,
                branches,
            ),
            _ => vstd::pervasive::unreached(),
        };
        if !self.compilable(bindings, depth, Ghost(variables), scrutinee) {
            return false;
        }
        let found = match self.find_inductive(inductive_name) {
            Some(found) => found,
            None => {
                return false;
            },
        };
        let fields = self.fields(found);
        let ghost counts = inductive_fields(self@, inductive_name@)->0;
        let ghost known = bindings_in(bindings@);
        let count: usize = branches.len();
        if !self.laid_out(found) || fields.len() != count {
            return false;
        }
        let mut i: usize = 0;
        while i < count
            invariant
                i <= count == branches@.len() == fields@.len(),
                tagged(self@),
                depth == capped_depth(variables),
                bindings@ == old(bindings)@,
                known == bindings_in(bindings@),
                counts == Seq::new(fields@.len(), |j: int| fields@[j] as nat),
                forall|j: int| 0 <= j < counts.len() ==> #[trigger] counts[j] >= 1,
                decreases_to!(*term => *branches),
                branches_compilable(self@, known, variables, counts, branches@, i as nat),
                branches_compilable(self@, known, variables, counts, branches@, count as nat)
                    == compilable(self@, known, variables, *term),
            decreases count - i,
        {
            assert(counts[i as int] == fields@[i as int] as nat);
            let inner = deeper(depth, fields[i] - 1, Ghost(variables));
            if !self.compilable(
                bindings,
                inner,
                Ghost(variables + bound_by_branch(counts[i as int])),
                &branches[i],
            ) {
                proof {
                    if branches_compilable(
                        self@,
                        known,
                        variables,
                        counts,
                        branches@,
                        count as nat,
                    ) {
                        lemma_branch_compilable(
                            self@,
                            known,
                            variables,
                            counts,
                            branches@,
                            count as nat,
                            i as int,
                        );
                    }
                }
                return false;
            }
            i = i + 1;
        }
        true
    }

    /// How many types a constructor's type names, if it can be laid out.
    fn leaf_count(&self, constructor_type: &Term) -> (count: Option<u64>)
        ensures
            match count {
                Some(count) => leaf_count(self@, *constructor_type) matches Some(all) && count
                    == capped(all) && 1 <= all,
                None => leaf_count(self@, *constructor_type) is None,
            },
        decreases constructor_type,
    {
        match constructor_type {
            Term::DependentProduct { parameter_type, return_type, .. } => {
                match (self.leaf_count(parameter_type), self.leaf_count(return_type)) {
                    (Some(parameters), Some(results)) => {
                        let all: u64 = parameters + results;
                        if all <= u32::MAX as u64 {
                            Some(all)
                        } else {
                            Some(0x1_0000_0000)
                        }
                    },
                    _ => None,
                }
            },
            Term::Inductive(name) => if self.find_inductive(name).is_some() {
                Some(1)
            } else {
                None
            },
            Term::DeBruijnIndex(_) => Some(1),
            _ => None,
        }
    }

    /// Adds a constructor to an inductive type, if it can be laid out.
    fn add_constructor(&mut self, name: &String, constructor: &Constructor) -> (added: bool)
        requires
            tagged(old(self)@),
            inductive_shape(old(self)@, name@) is Some,
        ensures
            match leaf_count(old(self)@, constructor.typ) {
                Some(count) => if count <= u32::MAX {
                    added && final(self)@ == with_constructor_shape(old(self)@, name@, count)
                } else {
                    !added
                },
                None => !added,
            },
            added ==> tagged(final(self)@) && inductive_shape(final(self)@, name@)
                == inductive_shape(old(self)@, name@),
    {
        let count: u64 = match self.leaf_count(&constructor.typ) {
            Some(count) => count,
            None => {
                return false;
            },
        };
        if count > u32::MAX as u64 {
            return false;
        }
        let ghost before = self@;
        let found = match self.find_inductive(name) {
            Some(found) => found,
            None => vstd::pervasive::unreached(),
        };
        assert(before[found as int] == self.known@[found as int]@);
        proof {
            lemma_inductive_shape_found(before, name@);
        }
        match &mut self.known[found] {
            Known::Inductive { fields, .. } => {
                let ghost fields_before = fields@;
                fields.push(count as usize);
                assert(Seq::new(fields@.len(), |i: int| fields@[i] as nat) =~= Seq::new(
                    fields_before.len(),
                    |i: int| fields_before[i] as nat,
                ).push(count as nat));
            },
            Known::Constant { .. } => {},
        }
        proof {
            assert(self@ =~= with_constructor_shape(before, name@, count as nat));
            lemma_inductive_shape_found(self@, name@);
            assert(self@[found as int] is Inductive);
            if let Some(i) = inductive_shape(self@, name@) {
                if i != found {
                    assert(self@[i] == before[i]);
                }
            }
            assert forall|i: int| 0 <= i < self@.len() implies (#[trigger] self@[i]
                matches Shape::Inductive { fields, .. } ==> forall|j: int|
                0 <= j < fields.len() ==> #[trigger] fields[j] >= 1) by {
                assert(before[i] is Inductive ==> forall|j: int|
                    0 <= j < before[i]->fields.len() ==> #[trigger] before[i]->fields[j] >= 1);
            }
        }
        true
    }

    /// Adds an inductive type, if code can be generated for it.
    fn declare_inductive(&mut self, inductive: &Inductive) -> (declared: bool)
        requires
            tagged(old(self)@),
        ensures
            declared == (inductive_shapes(old(self)@, *inductive) is Some),
            declared ==> inductive_shapes(old(self)@, *inductive) == Some(final(self)@) && tagged(
                final(self)@,
            ),
    {
        let ghost name = inductive.name@;
        let ghost shapes_0 = self@;
        let position: usize = self.known.len();
        self.known.push(
            Known::Inductive { name: inductive.name.clone(), fields: Vec::new(), laid_out: false },
        );
        let ghost shapes_1 = self@;
        proof {
            assert(self.known@.last()@->fields =~= Seq::empty());
            assert(shapes_1 =~= shapes_0.push(
                Shape::Inductive { name, fields: Seq::empty(), laid_out: false },
            ));
            lemma_inductive_shape_found(shapes_1, name);
            assert(shapes_1[position as int] is Inductive);
        }
        let count: usize = inductive.constructors.len();
        let mut i: usize = 0;
        while i < count
            invariant
                i <= count == inductive.constructors@.len(),
                name == inductive.name@,
                tagged(self@),
                inductive_shape(self@, name) is Some,
                shapes_0 == old(self)@,
                shapes_1 == shapes_0.push(
                    Shape::Inductive { name, fields: Seq::empty(), laid_out: false },
                ),
                position == shapes_0.len(),
                self@.len() == position + 1,
                self@[position as int] matches Shape::Inductive { name: declared, .. } && declared
                    == name,
                constructors_shapes(shapes_1, name, inductive.constructors@, i as nat) == Some(
                    self@,
                ),
            decreases count - i,
        {
            let ghost before = self@;
            proof {
                lemma_inductive_shape_found(before, name);
            }
            if !self.add_constructor(&inductive.name, &inductive.constructors[i]) {
                proof {
                    lemma_cannot_construct(
                        shapes_1,
                        name,
                        inductive.constructors@,
                        (i + 1) as nat,
                        count as nat,
                    );
                }
                return false;
            }
            i = i + 1;
        }
        let found = match self.find_inductive(&inductive.name) {
            Some(found) => found,
            None => vstd::pervasive::unreached(),
        };
        let constructors: usize = self.fields(found).len();
        let ghost after = self@;
        if constructors > 0 {
            assert(after[position as int] == self.known@[position as int]@);
            match &mut self.known[position] {
                Known::Inductive { laid_out, .. } => {
                    *laid_out = true;
                },
                Known::Constant { .. } => {},
            }
            assert(self@ =~= after.update(
                position as int,
                Shape::Inductive { name, fields: after[position as int]->fields, laid_out: true },
            ));
        }
        true
    }

    /// Code can be generated for the term, where no variable is in scope.
    fn term_compilable(&self, term: &Term) -> (possible: bool)
        requires
            tagged(self@),
        ensures
            possible == compilable(self@, Seq::empty(), 0, *term),
    {
        let mut bindings: Vec<Bound> = Vec::new();
        assert(bindings_in(bindings@) =~= Seq::empty());
        self.compilable(&mut bindings, 0, Ghost(0nat), term)
    }

    /// Adds a declaration, if code can be generated for it.
    fn declare(&mut self, declaration: &Declaration) -> (declared: bool)
        requires
            tagged(old(self)@),
        ensures
            declared == (declaration_shapes(old(self)@, *declaration) is Some),
            declared ==> declaration_shapes(old(self)@, *declaration) == Some(final(self)@)
                && tagged(final(self)@),
    {
        match declaration {
            Declaration::Constant(term) => {
                if !self.term_compilable(term) {
                    return false;
                }
                let ghost before = self@;
                match term {
                    Term::Lambda { name: Name::Named(name), .. } => {
                        self.known.push(Known::Constant { name: name.clone() });
                    },
                    Term::Fixpoint { name, .. } => {
                        self.known.push(Known::Constant { name: name.clone() });
                    },
                    _ => {},
                }
                assert(self@ =~= match constant_name(*term) {
                    Some(name) => before.push(Shape::Constant { name }),
                    None => before,
                });
                true
            },
            Declaration::Inductive(inductive) => self.declare_inductive(inductive),
        }
    }
}

/// Structures cannot be laid out for all constructors if they cannot for the
/// first ones.
proof fn lemma_cannot_construct(
    shapes: Seq<Shape>,
    name: Seq<char>,
    constructors: Seq<Constructor>,
    n: nat,
    more: nat,
)
    requires
        n <= more <= constructors.len(),
        constructors_shapes(shapes, name, constructors, n) is None,
    ensures
        constructors_shapes(shapes, name, constructors, more) is None,
    decreases more,
{
    if n < more {
        lemma_cannot_construct(shapes, name, constructors, n, (more - 1) as nat);
    }
}

/// Code cannot be generated for a program if it cannot for its first
/// declarations.
proof fn lemma_cannot_declare(
    shapes: Seq<Shape>,
    declarations: Seq<Declaration>,
    n: nat,
    more: nat,
)
    requires
        n <= more <= declarations.len(),
        program_shapes(shapes, declarations, n) is None,
    ensures
        program_shapes(shapes, declarations, more) is None,
    decreases more,
{
    if n < more {
        lemma_cannot_declare(shapes, declarations, n, (more - 1) as nat);
    }
}

/// The number of variables in scope when `more` are bound.
fn deeper(depth: u128, more: usize, Ghost(variables): Ghost<nat>) -> (deeper: u128)
    requires
        depth == capped_depth(variables),
    ensures
        deeper == capped_depth(variables + more as nat),
{
    let limit: u128 = usize::MAX as u128;
    let all: u128 = depth + more as u128;
    if all <= limit {
        all
    } else {
        limit + 1
    }
}

impl<'ctx> Context<'ctx> {
    /// What is known of the declarations that have been compiled.
    fn knowledge(&self) -> (knowledge: Knowledge)
        requires
            self.wf(),
        ensures
            knowledge@ == self.shapes(),
            tagged(knowledge@),
    {
        let mut known: Vec<Known> = Vec::new();
        let count: usize = self.global.len();
        let mut i: usize = 0;
        while i < count
            invariant
                i <= count == self.declarations().len(),
                self.wf(),
                known@.len() == i,
                forall|j: int|
                    0 <= j < i ==> (#[trigger] known@[j])@ == shape_of(
                        self.calls(),
                        self.declarations()[j],
                    ),
            decreases count - i,
        {
            let entry = self.known_declaration(i);
            known.push(entry);
            i = i + 1;
        }
        let knowledge = Knowledge { known };
        proof {
            assert(knowledge@ =~= self.shapes());
            assert forall|i: int| 0 <= i < knowledge@.len() implies (#[trigger] knowledge@[i]
                matches Shape::Inductive { fields, .. } ==> forall|j: int|
                0 <= j < fields.len() ==> #[trigger] fields[j] >= 1) by {
                let declaration = self.declarations()[i];
                assert(declaration_wf(self.calls(), declaration));
                if let global::Entry::Inductive(_, inductive) = declaration {
                    assert forall|j: int|
                        0 <= j < inductive.constructors.len() implies #[trigger] field_counts(
                        self.calls(),
                        inductive.constructors,
                    )[j] >= 1 by {
                        assert(constructor_wf(self.calls(), inductive.constructors[j]));
                    }
                }
            }
        }
        knowledge
    }

    /// What is known of declaration `i`.
    fn known_declaration(&self, i: usize) -> (known: Known)
        requires
            self.wf(),
            i < self.declarations().len(),
        ensures
            known@ == shape_of(self.calls(), self.declarations()[i as int]),
    {
        let ghost declaration = self.declarations()[i as int];
        assert(declaration_wf(self.calls(), declaration));
        match self.global.get(i) {
            global::Declaration::Constant { name, .. } => Known::Constant { name: name.clone() },
            global::Declaration::Inductive(name, inductive) => {
                let ghost constructors = inductive@.constructors;
                let mut fields: Vec<usize> = Vec::new();
                let count: usize = inductive.constructors.len();
                let mut j: usize = 0;
                while j < count
                    invariant
                        j <= count == inductive.constructors@.len(),
                        constructors == inductive@.constructors,
                        fields@.len() == j,
                        forall|k: int|
                            0 <= k < constructors.len() ==> constructor_wf(
                                self.calls(),
                                #[trigger] constructors[k],
                            ),
                        forall|k: int|
                            0 <= k < j ==> #[trigger] fields@[k] == field_counts(
                                self.calls(),
                                constructors,
                            )[k],
                    decreases count - j,
                {
                    assert(constructor_wf(self.calls(), constructors[j as int]));
                    let structure = inductive.constructors[j].llvm_struct_type;
                    let types = self.llvm.get_field_types(structure);
                    assert(basic_types(types@).len() == types@.len());
                    fields.push(types.len());
                    j = j + 1;
                }
                let laid_out = match element_type(inductive.llvm_type) {
                    Pointee::Struct(structure) => {
                        let types = self.llvm.get_field_types(structure);
                        assert(basic_types(types@).len() == types@.len());
                        types.len() > 0
                    },
                    _ => vstd::pervasive::unreached(),
                };
                assert(Seq::new(fields@.len(), |k: int| fields@[k] as nat) =~= field_counts(
                    self.calls(),
                    constructors,
                ));
                Known::Inductive { name: name.clone(), fields, laid_out }
            },
        }
    }

    /// Code can be generated for the program.
    pub fn can_compile(&self, hir: &HIR) -> (possible: bool)
        requires
            self.wf(),
        ensures
            possible == (program_shapes(
                self.shapes(),
                hir.declarations@,
                hir.declarations@.len(),
            ) is Some),
    {
        let mut knowledge = self.knowledge();
        let count: usize = hir.declarations.len();
        let mut i: usize = 0;
        while i < count
            invariant
                i <= count == hir.declarations@.len(),
                tagged(knowledge@),
                program_shapes(self.shapes(), hir.declarations@, i as nat) == Some(knowledge@),
            decreases count - i,
        {
            if !knowledge.declare(&hir.declarations[i]) {
                proof {
                    lemma_cannot_declare(
                        self.shapes(),
                        hir.declarations@,
                        (i + 1) as nat,
                        count as nat,
                    );
                }
                return false;
            }
            i = i + 1;
        }
        true
    }

    /// Code can be generated for the inductive type.
    pub fn can_compile_inductive(&self, inductive: &Inductive) -> (possible: bool)
        requires
            self.wf(),
        ensures
            possible == (inductive_shapes(self.shapes(), *inductive) is Some),
    {
        let mut knowledge = self.knowledge();
        knowledge.declare_inductive(inductive)
    }

    /// Code can be generated for the term.
    pub fn can_compile_term(&self, term: &Term) -> (possible: bool)
        requires
            self.wf(),
        ensures
            possible == compilable(self.shapes(), Seq::empty(), 0, *term),
    {
        self.knowledge().term_compilable(term)
    }

    /// The term is a lambda whose free variables can be found.
    pub fn can_find_free_variables(&self, term: &Term) -> (possible: bool)
        requires
            self.wf(),
        ensures
            possible == (*term matches Term::Lambda { body, .. } && can_capture(
                self.shapes(),
                *body,
                0,
            )),
    {
        match term {
            Term::Lambda { body, .. } => self.knowledge().captured(body, 0).is_some(),
            _ => false,
        }
    }
}

} // verus!
