use vstd::prelude::*;

use crate::arena::Handle;
use crate::ast::{
    find_binding, find_local, lemma_env_extends_exprs, same_but_exprs, scopes_of, FunctionContext,
    Program, VariableReference,
};
use crate::error::{result_view, ErrorKind, ErrorView, SemanticError, TokenMetadata, Unsupported};
use crate::ir::{
    fetch_spec, BuiltIn, Expression, ExpressionView, ScalarKind, StructMember, StructMemberView,
    Type, TypeInner, TypeInnerView, TypeView, VectorSize,
};
use crate::typifier::{
    env_of, grow_err, grow_memo, infer, lemma_memo_wf_extends, lemma_prefix_refl, TypeEnv,
};

verus! {

/// The component a swizzle letter selects in one of the three canonical
/// letter sets: `xyzw` is set 0, `rgba` set 1, `stpq` set 2.
pub open spec fn letter_position(set: int, c: char) -> Option<usize> {
    if set == 0 {
        if c == 'x' {
            Some(0)
        } else if c == 'y' {
            Some(1)
        } else if c == 'z' {
            Some(2)
        } else if c == 'w' {
            Some(3)
        } else {
            None
        }
    } else if set == 1 {
        if c == 'r' {
            Some(0)
        } else if c == 'g' {
            Some(1)
        } else if c == 'b' {
            Some(2)
        } else if c == 'a' {
            Some(3)
        } else {
            None
        }
    } else {
        if c == 's' {
            Some(0)
        } else if c == 't' {
            Some(1)
        } else if c == 'p' {
            Some(2)
        } else if c == 'q' {
            Some(3)
        } else {
            None
        }
    }
}

/// The component positions `name` selects from one letter set, in order,
/// when every letter belongs to that set and selects a component below
/// `size`; `None` as soon as one letter does not.
pub open spec fn set_positions(name: Seq<char>, set: int, size: int) -> Option<Seq<usize>>
    decreases name.len(),
{
    if name.len() == 0 {
        Some(Seq::empty())
    } else {
        match (set_positions(name.drop_last(), set, size), letter_position(set, name.last())) {
            (Some(p), Some(i)) => {
                if (i as int) < size {
                    Some(p.push(i))
                } else {
                    None
                }
            },
            _ => None,
        }
    }
}

/// The positions a swizzle resolves to over a vector of `size` components:
/// the three letter sets are tried in a fixed priority order and the first
/// that accepts every letter wins, so letters of different sets never mix.
pub open spec fn swizzle_positions(name: Seq<char>, size: int) -> Option<Seq<usize>> {
    if set_positions(name, 0, size) is Some {
        set_positions(name, 0, size)
    } else if set_positions(name, 1, size) is Some {
        set_positions(name, 1, size)
    } else {
        set_positions(name, 2, size)
    }
}

/// The declared position of the first member carrying `name`.
pub open spec fn member_index(members: Seq<StructMemberView>, name: Seq<char>) -> Option<int>
    decreases members.len(),
{
    if members.len() == 0 {
        None
    } else if members.first().name == Some(name) {
        Some(0)
    } else {
        match member_index(members.drop_first(), name) {
            Some(j) => Some(j + 1),
            None => None,
        }
    }
}

/// The vector size with `n` components; meaningful for `n` between 2 and 4.
pub open spec fn size_of_count(n: int) -> VectorSize {
    if n == 2 {
        VectorSize::Bi
    } else if n == 3 {
        VectorSize::Tri
    } else {
        VectorSize::Quad
    }
}

/// The builtin identifier a bare name denotes, if any.
pub open spec fn builtin_of(name: Seq<char>) -> Option<BuiltIn> {
    if name == "gl_Position"@ {
        Some(BuiltIn::Position)
    } else if name == "gl_VertexIndex"@ {
        Some(BuiltIn::VertexIndex)
    } else if name == "gl_InstanceIndex"@ {
        Some(BuiltIn::InstanceIndex)
    } else {
        None
    }
}

/// Everything expression lowering reads and writes: the typing environment
/// (whose expression and type stores grow), the function body, and the
/// resolver's cache.
pub ghost struct LowerState {
    pub env: TypeEnv,
    pub body: Seq<crate::ir::Statement>,
    pub memo: Seq<TypeInnerView>,
}

/// The lowering state a program and a function context present.
pub open spec fn state_of(program: Program, context: FunctionContext) -> LowerState {
    LowerState {
        env: env_of(program.module, context.function),
        body: context.function.body@,
        memo: context.typifier@,
    }
}

/// The state after appending one expression.
pub open spec fn push_expr(st: LowerState, e: ExpressionView) -> LowerState {
    LowerState { env: TypeEnv { exprs: st.env.exprs.push(e), ..st.env }, ..st }
}

/// The state and outcome of resolving a swizzle `name` against a vector
/// base: one index access per selected component, then — for two to four
/// components — a compose node over a vector type of the selected length,
/// fetched from or appended to the type arena.  A single component yields
/// the index access alone.  Every other length fails after the accesses
/// were appended, as the implementation leaves them behind.
pub open spec fn swizzle_select_spec(
    st: LowerState,
    base: Handle,
    name: Seq<char>,
    size: VectorSize,
    kind: ScalarKind,
    width: u8,
) -> (LowerState, Result<Handle, ErrorView>) {
    match swizzle_positions(name, size.spec_count()) {
        None => (st, Err(ErrorView::InvalidSwizzle(name))),
        Some(pos) => {
            let first = st.env.exprs.len() as int;
            let accesses = Seq::new(
                pos.len(),
                |k: int| ExpressionView::AccessIndex { base, index: pos[k] },
            );
            let st2 = LowerState { env: TypeEnv { exprs: st.env.exprs + accesses, ..st.env }, ..st };
            if pos.len() == 1 {
                (st2, Ok(Handle { index: first as usize }))
            } else if 2 <= pos.len() && pos.len() <= 4 {
                let vt = TypeView {
                    name: None,
                    inner: TypeInnerView::Vector { size: size_of_count(pos.len() as int), kind, width },
                };
                let fetched = fetch_spec(st2.env.types, vt);
                let st3 = LowerState { env: TypeEnv { types: fetched.0, ..st2.env }, ..st2 };
                let comps = Seq::new(pos.len(), |k: int| Handle { index: (first + k) as usize });
                (
                    push_expr(st3, ExpressionView::Compose { ty: fetched.1, components: comps }),
                    Ok(Handle { index: st3.env.exprs.len() as usize }),
                )
            } else {
                (st2, Err(ErrorView::BadSwizzleLength(name)))
            }
        },
    }
}

/// The state and outcome of selecting `.name` on the expression at `base`:
/// the base's type is resolved (memoizing); a struct yields an index access
/// at the named member's declared position, or the unknown-field error; a
/// vector resolves `name` as a swizzle; any other type rejects the access.
pub open spec fn field_select_spec(
    st: LowerState,
    base: Handle,
    name: Seq<char>,
    meta: TokenMetadata,
) -> (LowerState, Result<Handle, ErrorView>) {
    let st1 = LowerState { memo: grow_memo(st.env, st.memo, base.idx()), ..st };
    match grow_err(st.env, base.idx()) {
        Some(h) => (st1, Err(ErrorView::UnresolvedType(h))),
        None => match infer(st.env, base.idx()) {
            Some(TypeInnerView::Struct { members }) => match member_index(members, name) {
                Some(j) => (
                    push_expr(st1, ExpressionView::AccessIndex { base, index: j as usize }),
                    Ok(Handle { index: st1.env.exprs.len() as usize }),
                ),
                None => (st1, Err(ErrorView::UnknownField(meta, name))),
            },
            Some(TypeInnerView::Vector { size, kind, width }) => swizzle_select_spec(
                st1,
                base,
                name,
                size,
                kind,
                width,
            ),
            _ => (st1, Err(ErrorView::BadAccessBase(name))),
        },
    }
}

fn letter_index(set: usize, c: char) -> (r: Option<usize>)
    ensures
        r == letter_position(set as int, c),
{
    if set == 0 {
        if c == 'x' {
            Some(0)
        } else if c == 'y' {
            Some(1)
        } else if c == 'z' {
            Some(2)
        } else if c == 'w' {
            Some(3)
        } else {
            None
        }
    } else if set == 1 {
        if c == 'r' {
            Some(0)
        } else if c == 'g' {
            Some(1)
        } else if c == 'b' {
            Some(2)
        } else if c == 'a' {
            Some(3)
        } else {
            None
        }
    } else {
        if c == 's' {
            Some(0)
        } else if c == 't' {
            Some(1)
        } else if c == 'p' {
            Some(2)
        } else if c == 'q' {
            Some(3)
        } else {
            None
        }
    }
}

proof fn lemma_set_positions_extend_none(name: Seq<char>, set: int, size: int, i: int)
    requires
        0 <= i <= name.len(),
        set_positions(name.take(i), set, size) is None,
    ensures
        set_positions(name, set, size) is None,
    decreases name.len() - i,
{
    if i < name.len() {
        assert(name.take(i + 1).drop_last() =~= name.take(i));
        lemma_set_positions_extend_none(name, set, size, i + 1);
    } else {
        assert(name.take(i) =~= name);
    }
}

fn swizzle_set(name: &str, set: usize, size: usize) -> (r: Option<Vec<usize>>)
    ensures
        match r {
            Some(v) => set_positions(name@, set as int, size as int) == Some(v@),
            None => set_positions(name@, set as int, size as int) is None,
        },
{
    let n = name.unicode_len();
    let mut out: Vec<usize> = Vec::new();
    let mut i: usize = 0;
    while i < n
        invariant
            i <= n,
            n == name@.len(),
            out@.len() == i,
            set_positions(name@.take(i as int), set as int, size as int) == Some(out@),
        decreases n - i,
    {
        let c = name.get_char(i);
        proof {
            assert(name@.take(i as int + 1).last() == c);
            assert(name@.take(i as int + 1).drop_last() =~= name@.take(i as int));
        }
        match letter_index(set, c) {
            Some(p) => {
                if p < size {
                    out.push(p);
                    i = i + 1;
                } else {
                    proof {
                        lemma_set_positions_extend_none(name@, set as int, size as int, i as int + 1);
                    }
                    return None;
                }
            },
            None => {
                proof {
                    lemma_set_positions_extend_none(name@, set as int, size as int, i as int + 1);
                }
                return None;
            },
        }
    }
    proof {
        assert(name@.take(n as int) =~= name@);
    }
    Some(out)
}

fn swizzle_resolve(name: &str, size: usize) -> (r: Option<Vec<usize>>)
    ensures
        match r {
            Some(v) => swizzle_positions(name@, size as int) == Some(v@),
            None => swizzle_positions(name@, size as int) is None,
        },
{
    match swizzle_set(name, 0, size) {
        Some(v) => Some(v),
        None => match swizzle_set(name, 1, size) {
            Some(v) => Some(v),
            None => swizzle_set(name, 2, size),
        },
    }
}

proof fn lemma_member_index_at(members: Seq<StructMemberView>, name: Seq<char>, j: int)
    requires
        0 <= j < members.len(),
        members[j].name == Some(name),
        forall|k: int| 0 <= k < j ==> members[k].name != Some(name),
    ensures
        member_index(members, name) == Some(j),
    decreases j,
{
    if j > 0 {
        assert(members.drop_first()[j - 1] == members[j]);
        assert forall|k: int| 0 <= k < j - 1 implies members.drop_first()[k].name != Some(name) by {
            assert(members.drop_first()[k] == members[k + 1]);
        }
        lemma_member_index_at(members.drop_first(), name, j - 1);
    }
}

proof fn lemma_member_index_none(members: Seq<StructMemberView>, name: Seq<char>)
    requires
        forall|k: int| 0 <= k < members.len() ==> members[k].name != Some(name),
    ensures
        member_index(members, name) is None,
    decreases members.len(),
{
    if members.len() > 0 {
        assert forall|k: int| 0 <= k < members.len() - 1 implies members.drop_first()[k].name
            != Some(name) by {
            assert(members.drop_first()[k] == members[k + 1]);
        }
        lemma_member_index_none(members.drop_first(), name);
    }
}

fn member_lookup(members: &Vec<StructMember>, name: &str) -> (r: Option<usize>)
    ensures
        match r {
            Some(j) => member_index(members.deep_view(), name@) == Some(j as int),
            None => member_index(members.deep_view(), name@) is None,
        },
{
    let ghost whole = members.deep_view();
    let mut j: usize = 0;
    while j < members.len()
        invariant
            j <= members@.len(),
            whole == members.deep_view(),
            forall|k: int| 0 <= k < j ==> whole[k].name != Some(name@),
        decreases members@.len() - j,
    {
        if crate::ir::name_matches(&members[j].name, name) {
            proof {
                lemma_member_index_at(whole, name@, j as int);
            }
            return Some(j);
        }
        j += 1;
    }
    proof {
        lemma_member_index_none(whole, name@);
    }
    None
}

impl Program {
    /// Resolves a bare identifier: the scope stack innermost to outermost,
    /// then the cached global variables, then the cached named constants.
    /// A name matching none of these and none of the builtin identifiers
    /// is simply not found; the builtin identifiers themselves are a
    /// capability this stage does not provide yet.
    pub fn lookup_variable(&mut self, context: &mut FunctionContext, name: &str) -> (r: Result<
        Option<VariableReference>,
        ErrorKind,
    >)
        ensures
            *final(self) == *old(self),
            *final(context) == *old(context),
            ({
                let local = find_local(scopes_of(*old(context)), name@);
                let global = find_binding(old(context).lookup_global_var_exps@, name@);
                let constant = find_binding(old(context).lookup_constant_exps@, name@);
                match r {
                    Ok(v) => {
                        &&& local is Some ==> v == local
                        &&& local is None && global is Some ==> v == global
                        &&& local is None && global is None && constant is Some ==> v == constant
                        &&& local is None && global is None && constant is None ==> v is None
                            && builtin_of(name@) is None
                    },
                    Err(e) => {
                        &&& local is None
                        &&& global is None
                        &&& constant is None
                        &&& builtin_of(name@) matches Some(b) && e == ErrorKind::NotImplemented(
                            Unsupported::BuiltinVariable(b),
                        )
                    },
                }
            }),
    {
        match context.lookup_local_var(name) {
            Some(local_var) => {
                return Ok(Some(local_var));
            },
            None => {},
        }
        match context.lookup_global_var_exps.get(name) {
            Some(global_var) => {
                return Ok(Some(global_var));
            },
            None => {},
        }
        match context.lookup_constant_exps.get(name) {
            Some(constant) => {
                return Ok(Some(constant));
            },
            None => {},
        }
        let owned = name.to_owned();
        if owned == "gl_Position".to_owned() {
            Err(ErrorKind::NotImplemented(Unsupported::BuiltinVariable(BuiltIn::Position)))
        } else if owned == "gl_VertexIndex".to_owned() {
            Err(ErrorKind::NotImplemented(Unsupported::BuiltinVariable(BuiltIn::VertexIndex)))
        } else if owned == "gl_InstanceIndex".to_owned() {
            Err(ErrorKind::NotImplemented(Unsupported::BuiltinVariable(BuiltIn::InstanceIndex)))
        } else {
            Ok(None)
        }
    }

    /// Selects `.name` on the lowered expression at `expression`, exactly
    /// as `field_select_spec` lays it out: a member access against a
    /// struct, a swizzle against a vector, an error against anything else.
    #[verifier::loop_isolation(false)]
    pub fn field_selection(
        &mut self,
        context: &mut FunctionContext,
        expression: Handle,
        name: &str,
        meta: TokenMetadata,
    ) -> (r: Result<Handle, ErrorKind>)
        requires
            old(context).wf(*old(self)),
        ensures
            ({
                let fss = field_select_spec(
                    state_of(*old(self), *old(context)),
                    expression,
                    name@,
                    meta,
                );
                &&& state_of(*final(self), *final(context)) == fss.0
                &&& result_view(r) == fss.1
            }),
            final(context).wf(*final(self)),
            old(context).same_but_function(*final(context)),
            same_but_exprs(old(context).function, final(context).function),
            final(self).module.constants == old(self).module.constants,
            final(self).module.global_variables == old(self).module.global_variables,
            final(self).module.functions == old(self).module.functions,
            old(self).module.types.items.deep_view().is_prefix_of(
                final(self).module.types.items.deep_view(),
            ),
            final(self).version == old(self).version,
            final(self).profile == old(self).profile,
            final(self).entry_points == old(self).entry_points,
            final(self).lookup_function == old(self).lookup_function,
            final(self).lookup_type == old(self).lookup_type,
            final(self).lookup_global_variables == old(self).lookup_global_variables,
            final(self).lookup_constants == old(self).lookup_constants,
    {
        let ghost st0 = state_of(*self, *context);
        let ghost env0 = env_of(self.module, context.function);
        let resolved = match self.resolve_type(context, expression) {
            Ok(t) => t,
            Err(e) => {
                return Err(e);
            },
        };
        let ghost st1 = LowerState { memo: grow_memo(st0.env, st0.memo, expression.idx()), ..st0 };
        let ghost ctx1 = *context;
        proof {
            assert(state_of(*self, *context) == st1);
        }
        match resolved {
            TypeInner::Struct { members } => {
                match member_lookup(&members, name) {
                    Some(index) => {
                        let ghost pre = crate::ast::exprs_of(context.function);
                        let h = context.function.expressions.append(
                            Expression::AccessIndex { base: expression, index },
                        );
                        proof {
                            assert(crate::ast::exprs_of(context.function) =~= pre.push(
                                ExpressionView::AccessIndex { base: expression, index },
                            ));
                            let env1 = env_of(self.module, context.function);
                            assert(env0.exprs =~= env1.exprs.subrange(0, env0.exprs.len() as int));
                            lemma_env_extends_exprs(env0, env1);
                            lemma_memo_wf_extends(context.typifier@, env0, env1);
                        }
                        Ok(h)
                    },
                    None => Err(ErrorKind::UnknownField(meta, name.to_owned())),
                }
            },
            TypeInner::Vector { size, kind, width } => {
                let count = size.count();
                match swizzle_resolve(name, count as usize) {
                    None => Err(ErrorKind::SemanticError(SemanticError::InvalidSwizzle(
                        name.to_owned(),
                    ))),
                    Some(pos) => {
                        let ghost base_exprs = crate::ast::exprs_of(context.function);
                        let ghost accesses = Seq::new(
                            pos@.len(),
                            |k: int| ExpressionView::AccessIndex { base: expression, index: pos@[k] },
                        );
                        let first = context.function.expressions.len();
                        let mut components: Vec<Handle> = Vec::new();
                        let mut k: usize = 0;
                        while k < pos.len()
                            invariant
                                k <= pos@.len(),
                                first == base_exprs.len(),
                                accesses == Seq::new(
                                    pos@.len(),
                                    |k: int| ExpressionView::AccessIndex {
                                        base: expression,
                                        index: pos@[k],
                                    },
                                ),
                                crate::ast::exprs_of(context.function) == base_exprs
                                    + accesses.take(k as int),
                                components@ == Seq::new(
                                    k as nat,
                                    |i: int| Handle { index: (first + i) as usize },
                                ),
                                same_but_exprs(ctx1.function, context.function),
                                ctx1.same_but_function(*context),
                                context.typifier == ctx1.typifier,
                            decreases pos@.len() - k,
                        {
                            let ghost pre = crate::ast::exprs_of(context.function);
                            let h = context.function.expressions.append(
                                Expression::AccessIndex { base: expression, index: pos[k] },
                            );
                            components.push(h);
                            k += 1;
                            proof {
                                assert(pre.push(accesses[k - 1 as int]) =~= base_exprs
                                    + accesses.take(k as int));
                                assert(crate::ast::exprs_of(context.function) =~= pre.push(
                                    accesses[k - 1 as int],
                                ));
                                assert(components@ =~= Seq::new(
                                    k as nat,
                                    |i: int| Handle { index: (first + i) as usize },
                                ));
                            }
                        }
                        proof {
                            assert(accesses.take(pos@.len() as int) =~= accesses);
                        }
                        let ghost st2 = LowerState {
                            env: TypeEnv { exprs: st1.env.exprs + accesses, ..st1.env },
                            ..st1
                        };
                        proof {
                            assert(state_of(*self, *context) == st2);
                            assert(env0.exprs.is_prefix_of(env_of(self.module, context.function).exprs)) by {
                                assert(env0.exprs =~= (env0.exprs + accesses).subrange(
                                    0,
                                    env0.exprs.len() as int,
                                ));
                            }
                        }
                        if components.len() == 1 {
                            proof {
                                let env1 = env_of(self.module, context.function);
                                lemma_env_extends_exprs(env0, env1);
                                lemma_memo_wf_extends(context.typifier@, env0, env1);
                            }
                            Ok(components[0])
                        } else if components.len() >= 2 && components.len() <= 4 {
                            let vsize = if components.len() == 2 {
                                VectorSize::Bi
                            } else if components.len() == 3 {
                                VectorSize::Tri
                            } else {
                                VectorSize::Quad
                            };
                            let ty = self.module.types.fetch_or_append(
                                Type {
                                    name: None,
                                    inner: TypeInner::Vector { size: vsize, kind, width },
                                },
                            );
                            let ghost st3 = LowerState {
                                env: TypeEnv {
                                    types: fetch_spec(
                                        st2.env.types,
                                        TypeView {
                                            name: None,
                                            inner: TypeInnerView::Vector {
                                                size: size_of_count(pos@.len() as int),
                                                kind,
                                                width,
                                            },
                                        },
                                    ).0,
                                    ..st2.env
                                },
                                ..st2
                            };
                            proof {
                                assert(vsize == size_of_count(pos@.len() as int));
                                assert(state_of(*self, *context) == st3);
                            }
                            let ghost pre = crate::ast::exprs_of(context.function);
                            let h = context.function.expressions.append(
                                Expression::Compose { ty, components },
                            );
                            proof {
                                assert(crate::ast::exprs_of(context.function) =~= pre.push(
                                    ExpressionView::Compose {
                                        ty,
                                        components: Seq::new(
                                            pos@.len(),
                                            |i: int| Handle { index: (first + i) as usize },
                                        ),
                                    },
                                ));
                                let env1 = env_of(self.module, context.function);
                                assert(env0.types.is_prefix_of(env1.types));
                                assert(env0.exprs.is_prefix_of(env1.exprs)) by {
                                    assert(env0.exprs =~= env1.exprs.subrange(
                                        0,
                                        env0.exprs.len() as int,
                                    ));
                                }
                                lemma_env_extends_general(env0, env1);
                                lemma_memo_wf_extends(context.typifier@, env0, env1);
                            }
                            Ok(h)
                        } else {
                            proof {
                                let env1 = env_of(self.module, context.function);
                                lemma_env_extends_exprs(env0, env1);
                                lemma_memo_wf_extends(context.typifier@, env0, env1);
                            }
                            Err(ErrorKind::SemanticError(SemanticError::BadSwizzleLength(
                                name.to_owned(),
                            )))
                        }
                    },
                }
            },
            _ => Err(ErrorKind::SemanticError(SemanticError::BadAccessBase(name.to_owned()))),
        }
    }
}

/// Two environments over stores of which some were appended to extend one
/// another.
pub proof fn lemma_env_extends_general(a: TypeEnv, b: TypeEnv)
    requires
        b.constants == a.constants,
        b.globals == a.globals,
        b.locals == a.locals,
        b.args == a.args,
        a.types.is_prefix_of(b.types),
        a.exprs.is_prefix_of(b.exprs),
    ensures
        crate::typifier::env_extends(a, b),
{
    lemma_prefix_refl(a.constants);
    lemma_prefix_refl(a.globals);
    lemma_prefix_refl(a.locals);
    lemma_prefix_refl(a.args);
}

} // verus!
