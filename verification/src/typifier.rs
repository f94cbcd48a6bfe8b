use vstd::prelude::*;

use crate::arena::{Arena, Handle};
use crate::error::{ErrorKind, SemanticError};
use crate::ir::{
    Constant, ConstantInner, ConstantInnerView, ConstantView, Expression, ExpressionView, Function,
    FunctionArgument, FunctionArgumentView, GlobalVariable, GlobalVariableView, LocalVariable,
    LocalVariableView, Module, ScalarKind, ScalarValue, Type, TypeInner, TypeInnerView, TypeView,
    BinaryOperator, BOOL_WIDTH,
};

verus! {

/// Everything the type of an expression can depend on: the module's type,
/// constant and global-variable arenas, and the owning function's local
/// variables, arguments and expression arena, each seen through its view.
pub ghost struct TypeEnv {
    pub types: Seq<TypeView>,
    pub constants: Seq<ConstantView>,
    pub globals: Seq<GlobalVariableView>,
    pub locals: Seq<LocalVariableView>,
    pub args: Seq<FunctionArgumentView>,
    pub exprs: Seq<ExpressionView>,
}

/// The environment assembled from the separate stores the resolver reads.
pub open spec fn parts_env(
    types: Arena<Type>,
    constants: Arena<Constant>,
    globals: Arena<GlobalVariable>,
    locals: Arena<LocalVariable>,
    args: Vec<FunctionArgument>,
    exprs: Arena<Expression>,
) -> TypeEnv {
    TypeEnv {
        types: types.items.deep_view(),
        constants: constants.items.deep_view(),
        globals: globals.items.deep_view(),
        locals: locals.items.deep_view(),
        args: args.deep_view(),
        exprs: exprs.items.deep_view(),
    }
}

/// The environment a module and one of its functions present.
pub open spec fn env_of(module: Module, function: Function) -> TypeEnv {
    parts_env(
        module.types,
        module.constants,
        module.global_variables,
        function.local_variables,
        function.arguments,
        function.expressions,
    )
}

/// The shape stored at a type handle, if the handle is in range.
pub open spec fn type_at(types: Seq<TypeView>, t: Handle) -> Option<TypeInnerView> {
    if t.idx() < types.len() {
        Some(types[t.idx()].inner)
    } else {
        None
    }
}

/// Whether a binary operator compares its operands, producing booleans.
pub open spec fn is_comparison(op: BinaryOperator) -> bool {
    match op {
        BinaryOperator::Equal => true,
        BinaryOperator::NotEqual => true,
        BinaryOperator::Less => true,
        BinaryOperator::LessEqual => true,
        BinaryOperator::Greater => true,
        BinaryOperator::GreaterEqual => true,
        _ => false,
    }
}

pub fn is_comparison_exec(op: BinaryOperator) -> (r: bool)
    ensures
        r == is_comparison(op),
{
    match op {
        BinaryOperator::Equal => true,
        BinaryOperator::NotEqual => true,
        BinaryOperator::Less => true,
        BinaryOperator::LessEqual => true,
        BinaryOperator::Greater => true,
        BinaryOperator::GreaterEqual => true,
        _ => false,
    }
}

/// The type of `base[index]` with a run-time index, given the shape of the
/// base: vectors yield their scalar, matrices a column vector, arrays their
/// element type.
pub open spec fn indexed_inner(types: Seq<TypeView>, b: TypeInnerView) -> Option<TypeInnerView> {
    match b {
        TypeInnerView::Vector { size, kind, width } => Some(TypeInnerView::Scalar { kind, width }),
        TypeInnerView::Matrix { columns, rows, width } => Some(
            TypeInnerView::Vector { size: rows, kind: ScalarKind::Float, width },
        ),
        TypeInnerView::Array { base, size, stride } => type_at(types, base),
        _ => None,
    }
}

/// The type of `base[index]` with an index fixed at lowering time; structs
/// additionally yield the selected member's type.
pub open spec fn fixed_indexed_inner(
    types: Seq<TypeView>,
    b: TypeInnerView,
    index: int,
) -> Option<TypeInnerView> {
    match b {
        TypeInnerView::Struct { members } => {
            if 0 <= index < members.len() {
                type_at(types, members[index].ty)
            } else {
                None
            }
        },
        _ => indexed_inner(types, b),
    }
}

/// The type of a comparison whose left operand has shape `l`: a boolean
/// vector of the same size over vectors, a boolean scalar otherwise.
pub open spec fn comparison_inner(l: TypeInnerView) -> TypeInnerView {
    match l {
        TypeInnerView::Vector { size, kind, width } => TypeInnerView::Vector {
            size,
            kind: ScalarKind::Bool,
            width: BOOL_WIDTH,
        },
        _ => TypeInnerView::Scalar { kind: ScalarKind::Bool, width: BOOL_WIDTH },
    }
}

/// The type of the expression at position `i`, derived transitively from its
/// operands, or `None` where no type can be derived.  An operand is only
/// consulted when it stands earlier in the arena than the expression using
/// it, which every well-formed graph satisfies since expressions are
/// appended after their operands.
pub open spec fn infer(env: TypeEnv, i: int) -> Option<TypeInnerView>
    decreases i,
{
    if i < 0 || i >= env.exprs.len() {
        None
    } else {
        match env.exprs[i] {
            ExpressionView::Access { base, index } => {
                if base.idx() < i && index.idx() < i {
                    match (infer(env, base.idx()), infer(env, index.idx())) {
                        (Some(b), Some(_)) => indexed_inner(env.types, b),
                        _ => None,
                    }
                } else {
                    None
                }
            },
            ExpressionView::AccessIndex { base, index } => {
                if base.idx() < i {
                    match infer(env, base.idx()) {
                        Some(b) => fixed_indexed_inner(env.types, b, index as int),
                        None => None,
                    }
                } else {
                    None
                }
            },
            ExpressionView::Constant(c) => {
                if c.idx() < env.constants.len() {
                    match env.constants[c.idx()].inner {
                        ConstantInnerView::Scalar { width, value } => Some(
                            TypeInnerView::Scalar { kind: value.kind(), width },
                        ),
                        ConstantInnerView::Composite { ty, components } => type_at(env.types, ty),
                    }
                } else {
                    None
                }
            },
            ExpressionView::Binary { op, left, right } => {
                if left.idx() < i && right.idx() < i {
                    match (infer(env, left.idx()), infer(env, right.idx())) {
                        (Some(l), Some(_)) => {
                            if is_comparison(op) {
                                Some(comparison_inner(l))
                            } else {
                                Some(l)
                            }
                        },
                        _ => None,
                    }
                } else {
                    None
                }
            },
            ExpressionView::Unary { op, expr } => {
                if expr.idx() < i {
                    infer(env, expr.idx())
                } else {
                    None
                }
            },
            ExpressionView::Select { condition, accept, reject } => {
                if condition.idx() < i && accept.idx() < i && reject.idx() < i {
                    match (infer(env, condition.idx()), infer(env, accept.idx()), infer(
                        env,
                        reject.idx(),
                    )) {
                        (Some(_), Some(a), Some(_)) => Some(a),
                        _ => None,
                    }
                } else {
                    None
                }
            },
            ExpressionView::Relational { fun, argument } => {
                if argument.idx() < i && infer(env, argument.idx()).is_some() {
                    Some(TypeInnerView::Scalar { kind: ScalarKind::Bool, width: BOOL_WIDTH })
                } else {
                    None
                }
            },
            ExpressionView::Compose { ty, components } => type_at(env.types, ty),
            ExpressionView::FunctionArgument(idx) => {
                if idx < env.args.len() {
                    type_at(env.types, env.args[idx as int].ty)
                } else {
                    None
                }
            },
            ExpressionView::GlobalVariable(g) => {
                if g.idx() < env.globals.len() {
                    Some(TypeInnerView::Pointer { base: env.globals[g.idx()].ty })
                } else {
                    None
                }
            },
            ExpressionView::LocalVariable(l) => {
                if l.idx() < env.locals.len() {
                    Some(TypeInnerView::Pointer { base: env.locals[l.idx()].ty })
                } else {
                    None
                }
            },
            ExpressionView::Load { pointer } => {
                if pointer.idx() < i {
                    match infer(env, pointer.idx()) {
                        Some(TypeInnerView::Pointer { base }) => type_at(env.types, base),
                        Some(TypeInnerView::ValuePointer { size: Some(s), kind, width }) => Some(
                            TypeInnerView::Vector { size: s, kind, width },
                        ),
                        Some(TypeInnerView::ValuePointer { size: None, kind, width }) => Some(
                            TypeInnerView::Scalar { kind, width },
                        ),
                        _ => None,
                    }
                } else {
                    None
                }
            },
        }
    }
}

/// One environment extends another when every store of the second is a
/// prefix of the corresponding store of the first.  Appending to any arena
/// extends the environment.
pub open spec fn env_extends(a: TypeEnv, b: TypeEnv) -> bool {
    &&& a.types.is_prefix_of(b.types)
    &&& a.constants.is_prefix_of(b.constants)
    &&& a.globals.is_prefix_of(b.globals)
    &&& a.locals.is_prefix_of(b.locals)
    &&& a.args.is_prefix_of(b.args)
    &&& a.exprs.is_prefix_of(b.exprs)
}

proof fn lemma_prefix_index<T>(a: Seq<T>, b: Seq<T>, i: int)
    requires
        a.is_prefix_of(b),
        0 <= i < a.len(),
    ensures
        a[i] == b[i],
{
    assert(a =~= b.subrange(0, a.len() as int));
}

proof fn lemma_type_at_extends(a: Seq<TypeView>, b: Seq<TypeView>, t: Handle)
    requires
        a.is_prefix_of(b),
        type_at(a, t).is_some(),
    ensures
        type_at(b, t) == type_at(a, t),
{
    lemma_prefix_index(a, b, t.idx());
}

/// A derived type never changes when the arenas grow: whatever `infer`
/// yields in one environment, it still yields after values are appended.
/// This is what makes cached resolutions safe to keep while lowering goes
/// on appending expressions, types and constants.
pub proof fn lemma_infer_extends(a: TypeEnv, b: TypeEnv, i: int)
    requires
        env_extends(a, b),
        infer(a, i).is_some(),
    ensures
        infer(b, i) == infer(a, i),
    decreases i,
{
    lemma_prefix_index(a.exprs, b.exprs, i);
    match a.exprs[i] {
        ExpressionView::Access { base, index } => {
            lemma_infer_extends(a, b, base.idx());
            lemma_infer_extends(a, b, index.idx());
            let inner = infer(a, base.idx()).unwrap();
            if indexed_inner(a.types, inner) is Some {
                match inner {
                    TypeInnerView::Array { base: tb, .. } => {
                        lemma_type_at_extends(a.types, b.types, tb);
                    },
                    _ => {},
                }
            }
        },
        ExpressionView::AccessIndex { base, index } => {
            lemma_infer_extends(a, b, base.idx());
            let inner = infer(a, base.idx()).unwrap();
            match inner {
                TypeInnerView::Array { base: tb, .. } => {
                    lemma_type_at_extends(a.types, b.types, tb);
                },
                TypeInnerView::Struct { members } => {
                    if 0 <= index < members.len() {
                        lemma_type_at_extends(a.types, b.types, members[index as int].ty);
                    }
                },
                _ => {},
            }
        },
        ExpressionView::Constant(c) => {
            lemma_prefix_index(a.constants, b.constants, c.idx());
            match a.constants[c.idx()].inner {
                ConstantInnerView::Composite { ty, .. } => {
                    lemma_type_at_extends(a.types, b.types, ty);
                },
                _ => {},
            }
        },
        ExpressionView::Binary { op, left, right } => {
            lemma_infer_extends(a, b, left.idx());
            lemma_infer_extends(a, b, right.idx());
        },
        ExpressionView::Unary { op, expr } => {
            lemma_infer_extends(a, b, expr.idx());
        },
        ExpressionView::Select { condition, accept, reject } => {
            lemma_infer_extends(a, b, condition.idx());
            lemma_infer_extends(a, b, accept.idx());
            lemma_infer_extends(a, b, reject.idx());
        },
        ExpressionView::Relational { fun, argument } => {
            lemma_infer_extends(a, b, argument.idx());
        },
        ExpressionView::Compose { ty, .. } => {
            lemma_type_at_extends(a.types, b.types, ty);
        },
        ExpressionView::FunctionArgument(idx) => {
            lemma_prefix_index(a.args, b.args, idx as int);
            lemma_type_at_extends(a.types, b.types, a.args[idx as int].ty);
        },
        ExpressionView::GlobalVariable(g) => {
            lemma_prefix_index(a.globals, b.globals, g.idx());
        },
        ExpressionView::LocalVariable(l) => {
            lemma_prefix_index(a.locals, b.locals, l.idx());
        },
        ExpressionView::Load { pointer } => {
            lemma_infer_extends(a, b, pointer.idx());
            match infer(a, pointer.idx()).unwrap() {
                TypeInnerView::Pointer { base } => {
                    lemma_type_at_extends(a.types, b.types, base);
                },
                _ => {},
            }
        },
    }
}

pub proof fn lemma_prefix_refl<T>(s: Seq<T>)
    ensures
        s.is_prefix_of(s),
{
    assert(s =~= s.subrange(0, s.len() as int));
}

pub proof fn lemma_prefix_push<T>(s: Seq<T>, x: T)
    ensures
        s.is_prefix_of(s.push(x)),
{
    assert(s =~= s.push(x).subrange(0, s.len() as int));
}

/// Cached resolutions stay valid when the environment grows.
pub proof fn lemma_memo_wf_extends(memo: Seq<TypeInnerView>, a: TypeEnv, b: TypeEnv)
    requires
        memo_wf(memo, a),
        env_extends(a, b),
    ensures
        memo_wf(memo, b),
{
    assert forall|i: int| 0 <= i < memo.len() implies infer(b, i) == Some(memo[i]) by {
        assert(infer(a, i) == Some(memo[i]));
        lemma_infer_extends(a, b, i);
    }
}

/// Every cached entry agrees with what `infer` derives in `env`.
pub open spec fn memo_wf(memo: Seq<TypeInnerView>, env: TypeEnv) -> bool {
    forall|i: int| 0 <= i < memo.len() ==> infer(env, i) == Some(memo[i])
}

/// The first position in `[from, to)` whose type cannot be derived, or `to`
/// when every one can.
pub open spec fn scan_unresolved(env: TypeEnv, from: int, to: int) -> int
    decreases to - from,
{
    if from >= to {
        to
    } else if infer(env, from).is_none() {
        from
    } else {
        scan_unresolved(env, from + 1, to)
    }
}

pub proof fn lemma_scan_unresolved(env: TypeEnv, from: int, to: int)
    requires
        from <= to,
    ensures
        from <= scan_unresolved(env, from, to) <= to,
        forall|i: int| from <= i < scan_unresolved(env, from, to) ==> infer(env, i).is_some(),
        scan_unresolved(env, from, to) < to ==> infer(env, scan_unresolved(env, from, to)).is_none(),
    decreases to - from,
{
    if from < to && infer(env, from).is_some() {
        lemma_scan_unresolved(env, from + 1, to);
    }
}

/// The memo table after resolving everything up to and including position
/// `t`: unchanged if resolution stops at or before the table's current end,
/// otherwise extended with each newly derived type.
pub open spec fn grow_memo(env: TypeEnv, memo: Seq<TypeInnerView>, t: int) -> Seq<TypeInnerView> {
    let stop = scan_unresolved(env, 0, t + 1);
    if stop <= memo.len() {
        memo
    } else {
        memo + Seq::new((stop - memo.len()) as nat, |k: int| infer(env, memo.len() + k).unwrap())
    }
}


/// Growing the cache never discards an entry: the old cache is a prefix of
/// the new one.
pub proof fn lemma_grow_memo_monotonic(env: TypeEnv, memo: Seq<TypeInnerView>, t: int)
    ensures
        memo.is_prefix_of(grow_memo(env, memo, t)),
{
    let stop = scan_unresolved(env, 0, t + 1);
    if stop <= memo.len() {
        lemma_prefix_refl(memo);
    } else {
        let grown = grow_memo(env, memo, t);
        assert(memo =~= grown.subrange(0, memo.len() as int));
    }
}

/// Resolving up to the same position twice derives nothing the second
/// time: the cache is already there.
pub proof fn lemma_grow_memo_idempotent(env: TypeEnv, memo: Seq<TypeInnerView>, t: int)
    ensures
        grow_memo(env, grow_memo(env, memo, t), t) == grow_memo(env, memo, t),
{
}

/// The handle resolution up to position `t` fails at: the first position
/// whose type cannot be derived, or `None` when all of them can.
pub open spec fn grow_err(env: TypeEnv, t: int) -> Option<Handle> {
    let stop = scan_unresolved(env, 0, t + 1);
    if stop == t + 1 {
        None
    } else {
        Some(Handle { index: stop as usize })
    }
}

/// The memoizing type resolver for one function.  Entry `i` caches the
/// derived type of the expression at position `i`; entries form a prefix of
/// the expression arena and are never recomputed once present.
#[derive(Debug)]
pub struct Typifier {
    pub resolutions: Vec<TypeInner>,
}

impl Typifier {
    /// The cached resolutions, as type shapes.
    pub open spec fn view(&self) -> Seq<TypeInnerView> {
        self.resolutions.deep_view()
    }

    /// Every cached entry agrees with what `infer` derives in `env`.
    pub open spec fn wf(self, env: TypeEnv) -> bool {
        memo_wf(self@, env)
    }

    pub fn new() -> (t: Typifier)
        ensures
            t@.len() == 0,
    {
        Typifier { resolutions: Vec::new() }
    }

    /// The cached type of the expression at `h`.
    pub fn get(&self, h: Handle) -> (r: &TypeInner)
        requires
            h.idx() < self@.len(),
        ensures
            r@ == self@[h.idx()],
    {
        &self.resolutions[h.index]
    }

    /// Derives the type of the next uncached expression, reading operand
    /// types from the cache, which already covers every earlier position.
    fn infer_one(
        &self,
        expressions: &Arena<Expression>,
        types: &Arena<Type>,
        constants: &Arena<Constant>,
        globals: &Arena<GlobalVariable>,
        locals: &Arena<LocalVariable>,
        args: &Vec<FunctionArgument>,
    ) -> (r: Option<TypeInner>)
        requires
            self.wf(parts_env(*types, *constants, *globals, *locals, *args, *expressions)),
        ensures
            ({
                let env = parts_env(*types, *constants, *globals, *locals, *args, *expressions);
                match r {
                    Some(t) => infer(env, self@.len() as int) == Some(t@),
                    None => infer(env, self@.len() as int) is None,
                }
            }),
    {
        let ghost env = parts_env(*types, *constants, *globals, *locals, *args, *expressions);
        let i = self.resolutions.len();
        if i >= expressions.len() {
            return None;
        }
        let exp = expressions.get(Handle { index: i });
        proof {
            assert(env.exprs[i as int] == expressions@[i as int]@);
        }
        match exp {
            Expression::Access { base, index } => {
                if base.index < i && index.index < i {
                    let b = &self.resolutions[base.index];
                    proof {
                        assert(infer(env, base.idx()) == Some(b@));
                        assert(infer(env, index.idx()).is_some());
                    }
                    self.indexed_exec(b, types)
                } else {
                    None
                }
            },
            Expression::AccessIndex { base, index } => {
                if base.index < i {
                    let b = &self.resolutions[base.index];
                    proof {
                        assert(infer(env, base.idx()) == Some(b@));
                    }
                    self.fixed_indexed_exec(b, *index, types)
                } else {
                    None
                }
            },
            Expression::Constant(c) => {
                if c.index < constants.len() {
                    match &constants.get(*c).inner {
                        ConstantInner::Scalar { width, value } => {
                            let kind = value.scalar_kind();
                            Some(TypeInner::Scalar { kind, width: *width })
                        },
                        ConstantInner::Composite { ty, components } => self.type_at_exec(*ty, types),
                    }
                } else {
                    None
                }
            },
            Expression::Binary { op, left, right } => {
                if left.index < i && right.index < i {
                    let l = &self.resolutions[left.index];
                    proof {
                        assert(infer(env, left.idx()) == Some(l@));
                        assert(infer(env, right.idx()).is_some());
                    }
                    if is_comparison_exec(*op) {
                        match l {
                            TypeInner::Vector { size, kind, width } => Some(
                                TypeInner::Vector {
                                    size: *size,
                                    kind: ScalarKind::Bool,
                                    width: BOOL_WIDTH,
                                },
                            ),
                            _ => Some(TypeInner::Scalar { kind: ScalarKind::Bool, width: BOOL_WIDTH }),
                        }
                    } else {
                        Some(l.duplicate())
                    }
                } else {
                    None
                }
            },
            Expression::Unary { op, expr } => {
                if expr.index < i {
                    let e = &self.resolutions[expr.index];
                    proof {
                        assert(infer(env, expr.idx()) == Some(e@));
                    }
                    Some(e.duplicate())
                } else {
                    None
                }
            },
            Expression::Select { condition, accept, reject } => {
                if condition.index < i && accept.index < i && reject.index < i {
                    let a = &self.resolutions[accept.index];
                    proof {
                        assert(infer(env, condition.idx()).is_some());
                        assert(infer(env, accept.idx()) == Some(a@));
                        assert(infer(env, reject.idx()).is_some());
                    }
                    Some(a.duplicate())
                } else {
                    None
                }
            },
            Expression::Relational { fun, argument } => {
                if argument.index < i {
                    proof {
                        assert(infer(env, argument.idx()).is_some());
                    }
                    Some(TypeInner::Scalar { kind: ScalarKind::Bool, width: BOOL_WIDTH })
                } else {
                    None
                }
            },
            Expression::Compose { ty, components } => self.type_at_exec(*ty, types),
            Expression::FunctionArgument(idx) => {
                if *idx < args.len() {
                    self.type_at_exec(args[*idx].ty, types)
                } else {
                    None
                }
            },
            Expression::GlobalVariable(g) => {
                if g.index < globals.len() {
                    Some(TypeInner::Pointer { base: globals.get(*g).ty })
                } else {
                    None
                }
            },
            Expression::LocalVariable(l) => {
                if l.index < locals.len() {
                    Some(TypeInner::Pointer { base: locals.get(*l).ty })
                } else {
                    None
                }
            },
            Expression::Load { pointer } => {
                if pointer.index < i {
                    let p = &self.resolutions[pointer.index];
                    proof {
                        assert(infer(env, pointer.idx()) == Some(p@));
                    }
                    match p {
                        TypeInner::Pointer { base } => self.type_at_exec(*base, types),
                        TypeInner::ValuePointer { size: Some(s), kind, width } => Some(
                            TypeInner::Vector { size: *s, kind: *kind, width: *width },
                        ),
                        TypeInner::ValuePointer { size: None, kind, width } => Some(
                            TypeInner::Scalar { kind: *kind, width: *width },
                        ),
                        _ => None,
                    }
                } else {
                    None
                }
            },
        }
    }

    /// Reads the shape stored at a type handle.
    fn type_at_exec(&self, t: Handle, types: &Arena<Type>) -> (r: Option<TypeInner>)
        ensures
            match r {
                Some(inner) => type_at(types.items.deep_view(), t) == Some(inner@),
                None => type_at(types.items.deep_view(), t) is None,
            },
    {
        if t.index < types.len() {
            Some(types.get(t).inner.duplicate())
        } else {
            None
        }
    }

    fn indexed_exec(&self, b: &TypeInner, types: &Arena<Type>) -> (r: Option<TypeInner>)
        ensures
            match r {
                Some(inner) => indexed_inner(types.items.deep_view(), b@) == Some(inner@),
                None => indexed_inner(types.items.deep_view(), b@) is None,
            },
    {
        match b {
            TypeInner::Vector { size, kind, width } => Some(
                TypeInner::Scalar { kind: *kind, width: *width },
            ),
            TypeInner::Matrix { columns, rows, width } => Some(
                TypeInner::Vector { size: *rows, kind: ScalarKind::Float, width: *width },
            ),
            TypeInner::Array { base, size, stride } => self.type_at_exec(*base, types),
            _ => None,
        }
    }

    fn fixed_indexed_exec(&self, b: &TypeInner, index: usize, types: &Arena<Type>) -> (r: Option<
        TypeInner,
    >)
        ensures
            match r {
                Some(inner) => fixed_indexed_inner(types.items.deep_view(), b@, index as int)
                    == Some(inner@),
                None => fixed_indexed_inner(types.items.deep_view(), b@, index as int) is None,
            },
    {
        match b {
            TypeInner::Struct { members } => {
                if index < members.len() {
                    proof {
                        assert(members.deep_view()[index as int] == members@[index as int]@);
                    }
                    self.type_at_exec(members[index].ty, types)
                } else {
                    None
                }
            },
            _ => self.indexed_exec(b, types),
        }
    }

    /// Resolves, and caches, the type of every expression up to and
    /// including `target`, in arena order.  Positions already cached are
    /// not re-derived.  Fails at the first position whose type cannot be
    /// derived, naming that expression's handle.
    pub fn grow(
        &mut self,
        target: Handle,
        expressions: &Arena<Expression>,
        types: &Arena<Type>,
        constants: &Arena<Constant>,
        globals: &Arena<GlobalVariable>,
        locals: &Arena<LocalVariable>,
        args: &Vec<FunctionArgument>,
    ) -> (r: Result<(), ErrorKind>)
        requires
            old(self).wf(parts_env(*types, *constants, *globals, *locals, *args, *expressions)),
        ensures
            ({
                let env = parts_env(*types, *constants, *globals, *locals, *args, *expressions);
                &&& final(self)@ == grow_memo(env, old(self)@, target.idx())
                &&& final(self).wf(env)
                &&& final(self)@.len() >= old(self)@.len()
                &&& match r {
                    Ok(()) => {
                        &&& grow_err(env, target.idx()) is None
                        &&& final(self)@.len() > target.idx()
                        &&& forall|i: int| 0 <= i <= target.idx() ==> infer(env, i).is_some()
                    },
                    Err(e) => {
                        &&& grow_err(env, target.idx()) matches Some(h) && e
                            == ErrorKind::SemanticError(SemanticError::UnresolvedType(h))
                    },
                }
            }),
    {
        let ghost env = parts_env(*types, *constants, *globals, *locals, *args, *expressions);
        proof {
            lemma_scan_unresolved(env, 0, target.idx() + 1);
        }
        while self.resolutions.len() <= target.index
            invariant
                env == parts_env(*types, *constants, *globals, *locals, *args, *expressions),
                self.wf(env),
                old(self)@.len() <= self@.len(),
                old(self)@.is_prefix_of(self@),
                self@.len() <= target.idx() + 1 || self@.len() == old(self)@.len(),
            decreases target.idx() + 1 - self@.len(),
        {
            match self.infer_one(expressions, types, constants, globals, locals, args) {
                Some(inner) => {
                    proof {
                        assert(infer(env, self@.len() as int) == Some(inner@));
                    }
                    let ghost pre = self@;
                    self.resolutions.push(inner);
                    proof {
                        assert(self@ =~= pre.push(inner@));
                        assert(old(self)@ =~= self@.subrange(0, old(self)@.len() as int));
                    }
                },
                None => {
                    let bad = Handle { index: self.resolutions.len() };
                    proof {
                        lemma_scan_unresolved(env, 0, target.idx() + 1);
                        let stop = scan_unresolved(env, 0, target.idx() + 1);
                        // every position below the cache's end resolves, and
                        // the one at its end does not, so the scan stops there
                        assert(infer(env, bad.idx()).is_none());
                        assert forall|i: int| 0 <= i < bad.idx() implies infer(env, i).is_some() by {
                            assert(infer(env, i) == Some(self@[i]));
                        }
                        if stop < bad.idx() {
                            assert(infer(env, stop).is_some());
                        }
                        if stop > bad.idx() {
                            assert(infer(env, bad.idx()).is_some());
                        }
                        assert(stop == bad.idx());
                        assert(self@ =~= grow_memo(env, old(self)@, target.idx()));
                    }
                    return Err(ErrorKind::SemanticError(SemanticError::UnresolvedType(bad)));
                },
            }
        }
        proof {
            lemma_scan_unresolved(env, 0, target.idx() + 1);
            let stop = scan_unresolved(env, 0, target.idx() + 1);
            assert forall|i: int| 0 <= i <= target.idx() implies infer(env, i).is_some() by {
                assert(infer(env, i) == Some(self@[i]));
            }
            if stop < target.idx() + 1 {
                assert(infer(env, stop).is_some());
            }
            assert(stop == target.idx() + 1);
            assert(self@ =~= grow_memo(env, old(self)@, target.idx()));
        }
        Ok(())
    }
}

} // verus!
