use vstd::prelude::*;

use crate::arena::Handle;
use crate::error::{result_view, ErrorKind, ErrorView, SemanticError, TokenMetadata, Unsupported};
use crate::ir::{
    ArraySize, Binding, BinaryOperator, ConstantInner, ConstantInnerView, ConstantView, Expression,
    ExpressionView, Function, Interpolation, Module, RelationalFunction, ResourceBinding,
    Sampling, ScalarValue, ShaderStage, Statement, StorageClass, TypeInner, TypeInnerView,
    TypeView, UnaryOperator, VectorSize,
};
use crate::typifier::{
    env_of, grow_err, grow_memo, infer, lemma_memo_wf_extends, lemma_prefix_refl, TypeEnv,
    Typifier,
};

verus! {

/// The source profile a compilation unit declares.
#[derive(Clone, Copy, Debug, PartialEq, Eq, Structural)]
pub enum Profile {
    Core,
}

/// The storage expression a name resolves to, together with the load
/// emitted for it at declaration time, if any.  Function arguments carry no
/// load: their value and storage coincide.  Local variables always carry
/// one, so repeated reads reuse a single load expression.
#[derive(Clone, Copy, Debug, PartialEq, Eq, Structural)]
pub struct VariableReference {
    pub expr: Handle,
    pub load: Option<Handle>,
}

/// One name bound in a scope.
#[derive(Debug)]
pub struct NamedVariable {
    pub name: String,
    pub var: VariableReference,
}

pub ghost struct NamedVariableView {
    pub name: Seq<char>,
    pub var: VariableReference,
}

impl View for NamedVariable {
    type V = NamedVariableView;

    open spec fn view(&self) -> NamedVariableView {
        NamedVariableView { name: self.name@, var: self.var }
    }
}

impl DeepView for NamedVariable {
    type V = NamedVariableView;

    open spec fn deep_view(&self) -> NamedVariableView {
        self.view()
    }
}

/// The binding a name carries in one frame: the latest insertion of the
/// name wins.
pub open spec fn find_binding(
    entries: Seq<NamedVariableView>,
    name: Seq<char>,
) -> Option<VariableReference>
    decreases entries.len(),
{
    if entries.len() == 0 {
        None
    } else if entries.last().name == name {
        Some(entries.last().var)
    } else {
        find_binding(entries.drop_last(), name)
    }
}

/// One binding frame: a map from names to variable references, realised as
/// the sequence of insertions.
#[derive(Debug)]
pub struct Bindings {
    pub entries: Vec<NamedVariable>,
}

impl View for Bindings {
    type V = Seq<NamedVariableView>;

    open spec fn view(&self) -> Seq<NamedVariableView> {
        self.entries.deep_view()
    }
}

impl DeepView for Bindings {
    type V = Seq<NamedVariableView>;

    open spec fn deep_view(&self) -> Seq<NamedVariableView> {
        self.view()
    }
}

impl Bindings {
    pub fn new() -> (b: Bindings)
        ensures
            b@.len() == 0,
    {
        Bindings { entries: Vec::new() }
    }

    /// Binds `name`, shadowing any earlier binding of it in this frame.
    pub fn insert(&mut self, name: String, var: VariableReference)
        ensures
            final(self)@ == old(self)@.push(NamedVariableView { name: name@, var }),
            find_binding(final(self)@, name@) == Some(var),
            forall|n: Seq<char>| n != name@ ==> find_binding(final(self)@, n) == find_binding(
                old(self)@,
                n,
            ),
    {
        let ghost pre = self@;
        self.entries.push(NamedVariable { name, var });
        proof {
            assert(self@ =~= pre.push(NamedVariableView { name: name@, var }));
            assert forall|n: Seq<char>| n != name@ implies find_binding(self@, n) == find_binding(
                pre,
                n,
            ) by {
                assert(self@.drop_last() =~= pre);
            }
            assert(self@.drop_last() =~= pre);
        }
    }

    /// Looks `name` up in this frame alone.
    pub fn get(&self, name: &str) -> (r: Option<VariableReference>)
        ensures
            r == find_binding(self@, name@),
    {
        let ghost whole = self@;
        let mut j: usize = self.entries.len();
        proof {
            assert(whole.take(j as int) =~= whole);
        }
        while j > 0
            invariant
                j <= self.entries@.len(),
                whole == self@,
                find_binding(whole, name@) == find_binding(whole.take(j as int), name@),
            decreases j,
        {
            j = j - 1;
            let entry = &self.entries[j];
            proof {
                assert(whole.take(j as int + 1).last() == entry@);
            }
            if entry.name == name.to_owned() {
                proof {
                    assert(find_binding(whole.take(j as int + 1), name@) == Some(entry.var));
                }
                return Some(entry.var);
            }
            proof {
                assert(whole.take(j as int + 1).drop_last() =~= whole.take(j as int));
            }
        }
        proof {
            assert(whole.take(0) =~= Seq::<NamedVariableView>::empty());
        }
        None
    }
}

/// One name known to the module, with the handle it resolves to.
#[derive(Debug)]
pub struct NamedHandle {
    pub name: String,
    pub handle: Handle,
}

pub ghost struct NamedHandleView {
    pub name: Seq<char>,
    pub handle: Handle,
}

impl View for NamedHandle {
    type V = NamedHandleView;

    open spec fn view(&self) -> NamedHandleView {
        NamedHandleView { name: self.name@, handle: self.handle }
    }
}

impl DeepView for NamedHandle {
    type V = NamedHandleView;

    open spec fn deep_view(&self) -> NamedHandleView {
        self.view()
    }
}

/// The handle a name maps to; the latest insertion of the name wins.
pub open spec fn find_handle(entries: Seq<NamedHandleView>, name: Seq<char>) -> Option<Handle>
    decreases entries.len(),
{
    if entries.len() == 0 {
        None
    } else if entries.last().name == name {
        Some(entries.last().handle)
    } else {
        find_handle(entries.drop_last(), name)
    }
}

/// A name-to-handle lookup table, realised as the sequence of insertions.
#[derive(Debug)]
pub struct NameTable {
    pub entries: Vec<NamedHandle>,
}

impl View for NameTable {
    type V = Seq<NamedHandleView>;

    open spec fn view(&self) -> Seq<NamedHandleView> {
        self.entries.deep_view()
    }
}

impl NameTable {
    pub fn new() -> (t: NameTable)
        ensures
            t@.len() == 0,
    {
        NameTable { entries: Vec::new() }
    }

    pub fn insert(&mut self, name: String, handle: Handle)
        ensures
            final(self)@ == old(self)@.push(NamedHandleView { name: name@, handle }),
            find_handle(final(self)@, name@) == Some(handle),
            forall|n: Seq<char>| n != name@ ==> find_handle(final(self)@, n) == find_handle(
                old(self)@,
                n,
            ),
    {
        let ghost pre = self@;
        self.entries.push(NamedHandle { name, handle });
        proof {
            assert(self@ =~= pre.push(NamedHandleView { name: name@, handle }));
            assert(self@.drop_last() =~= pre);
        }
    }

    pub fn lookup(&self, name: &str) -> (r: Option<Handle>)
        ensures
            r == find_handle(self@, name@),
    {
        let ghost whole = self@;
        let mut j: usize = self.entries.len();
        proof {
            assert(whole.take(j as int) =~= whole);
        }
        while j > 0
            invariant
                j <= self.entries@.len(),
                whole == self@,
                find_handle(whole, name@) == find_handle(whole.take(j as int), name@),
            decreases j,
        {
            j = j - 1;
            let entry = &self.entries[j];
            proof {
                assert(whole.take(j as int + 1).last() == entry@);
            }
            if entry.name == name.to_owned() {
                proof {
                    assert(find_handle(whole.take(j as int + 1), name@) == Some(entry.handle));
                }
                return Some(entry.handle);
            }
            proof {
                assert(whole.take(j as int + 1).drop_last() =~= whole.take(j as int));
            }
        }
        proof {
            assert(whole.take(0) =~= Seq::<NamedHandleView>::empty());
        }
        None
    }
}

/// An entry-point name and the pipeline stage it serves, supplied by the
/// caller before compilation starts.
#[derive(Debug)]
pub struct EntryPoint {
    pub name: String,
    pub stage: ShaderStage,
}

/// The transient build context for one compilation unit: the module under
/// construction plus the name-to-handle tables other front-end phases
/// populate and query.
#[derive(Debug)]
pub struct Program {
    pub version: u16,
    pub profile: Profile,
    pub entry_points: Vec<EntryPoint>,
    pub lookup_function: NameTable,
    pub lookup_type: NameTable,
    pub lookup_global_variables: NameTable,
    pub lookup_constants: NameTable,
    pub module: Module,
}

/// The expression views a function holds, in arena order.
pub open spec fn exprs_of(f: Function) -> Seq<ExpressionView> {
    f.expressions.items.deep_view()
}

/// Everything of a function except its expression arena is the same.
pub open spec fn same_but_exprs(a: Function, b: Function) -> bool {
    &&& b.name == a.name
    &&& b.arguments == a.arguments
    &&& b.return_type == a.return_type
    &&& b.local_variables == a.local_variables
    &&& b.body == a.body
}

/// The transient context for one function being lowered: the function under
/// construction, the scope stack (innermost last), the caches of
/// already-resolved global and constant expressions, and the type resolver
/// scoped to this function.
#[derive(Debug)]
pub struct FunctionContext {
    pub function: Function,
    pub scopes: Vec<Bindings>,
    pub lookup_global_var_exps: Bindings,
    pub lookup_constant_exps: Bindings,
    pub typifier: Typifier,
}

/// The scope stack seen as binding frames, innermost last.
pub open spec fn scopes_of(c: FunctionContext) -> Seq<Seq<NamedVariableView>> {
    c.scopes.deep_view()
}

/// A name's binding: frames are searched innermost to outermost.
pub open spec fn find_local(
    scopes: Seq<Seq<NamedVariableView>>,
    name: Seq<char>,
) -> Option<VariableReference>
    decreases scopes.len(),
{
    if scopes.len() == 0 {
        None
    } else {
        match find_binding(scopes.last(), name) {
            Some(v) => Some(v),
            None => find_local(scopes.drop_last(), name),
        }
    }
}

impl FunctionContext {
    /// The context's cached resolutions agree with the types its function's
    /// expressions have under this program's module.
    pub open spec fn wf(self, program: Program) -> bool {
        self.typifier.wf(env_of(program.module, self.function))
    }

    /// Everything of the context except its function and typifier is the
    /// same.
    pub open spec fn same_but_function(self, b: FunctionContext) -> bool {
        &&& b.scopes == self.scopes
        &&& b.lookup_global_var_exps == self.lookup_global_var_exps
        &&& b.lookup_constant_exps == self.lookup_constant_exps
    }

    pub fn new(function: Function) -> (c: FunctionContext)
        ensures
            c.function == function,
            scopes_of(c).len() == 1,
            scopes_of(c)[0].len() == 0,
            c.lookup_global_var_exps@.len() == 0,
            c.lookup_constant_exps@.len() == 0,
            c.typifier@.len() == 0,
    {
        let mut scopes: Vec<Bindings> = Vec::new();
        scopes.push(Bindings::new());
        let c = FunctionContext {
            function,
            scopes,
            lookup_global_var_exps: Bindings::new(),
            lookup_constant_exps: Bindings::new(),
            typifier: Typifier::new(),
        };
        proof {
            assert(scopes_of(c)[0] =~= Seq::<NamedVariableView>::empty());
        }
        c
    }

    /// Searches the scope stack for `name`, innermost frame first.
    pub fn lookup_local_var(&self, name: &str) -> (r: Option<VariableReference>)
        ensures
            r == find_local(scopes_of(*self), name@),
    {
        let ghost whole = scopes_of(*self);
        let mut j: usize = self.scopes.len();
        proof {
            assert(whole.take(j as int) =~= whole);
        }
        while j > 0
            invariant
                j <= self.scopes@.len(),
                whole == scopes_of(*self),
                find_local(whole, name@) == find_local(whole.take(j as int), name@),
            decreases j,
        {
            j = j - 1;
            let frame = &self.scopes[j];
            proof {
                assert(whole.take(j as int + 1).last() == frame@);
            }
            match frame.get(name) {
                Some(var) => {
                    return Some(var);
                },
                None => {
                    proof {
                        assert(whole.take(j as int + 1).drop_last() =~= whole.take(j as int));
                    }
                },
            }
        }
        proof {
            assert(whole.take(0) =~= Seq::<Seq<NamedVariableView>>::empty());
        }
        None
    }

    /// Searches the innermost frame alone.
    pub fn lookup_local_var_current_scope(&self, name: &str) -> (r: Option<VariableReference>)
        ensures
            r == if scopes_of(*self).len() == 0 {
                None
            } else {
                find_binding(scopes_of(*self).last(), name@)
            },
    {
        if self.scopes.len() == 0 {
            None
        } else {
            let frame = &self.scopes[self.scopes.len() - 1];
            frame.get(name)
        }
    }

    /// Discards every frame and leaves one empty scope.
    pub fn clear_scopes(&mut self)
        ensures
            scopes_of(*final(self)).len() == 1,
            scopes_of(*final(self))[0].len() == 0,
            final(self).function == old(self).function,
            final(self).lookup_global_var_exps == old(self).lookup_global_var_exps,
            final(self).lookup_constant_exps == old(self).lookup_constant_exps,
            final(self).typifier == old(self).typifier,
    {
        self.scopes.clear();
        self.scopes.push(Bindings::new());
    }

    /// Opens a new, empty innermost frame.
    pub fn push_scope(&mut self)
        ensures
            scopes_of(*final(self)).len() == scopes_of(*old(self)).len() + 1,
            scopes_of(*final(self)).drop_last() == scopes_of(*old(self)),
            scopes_of(*final(self)).last().len() == 0,
            final(self).function == old(self).function,
            final(self).lookup_global_var_exps == old(self).lookup_global_var_exps,
            final(self).lookup_constant_exps == old(self).lookup_constant_exps,
            final(self).typifier == old(self).typifier,
    {
        let ghost pre = scopes_of(*self);
        self.scopes.push(Bindings::new());
        proof {
            assert(scopes_of(*self).drop_last() =~= pre);
        }
    }

    /// Discards the innermost frame and everything bound in it.
    pub fn remove_current_scope(&mut self)
        ensures
            scopes_of(*old(self)).len() > 0 ==> scopes_of(*final(self)) == scopes_of(
                *old(self),
            ).drop_last(),
            scopes_of(*old(self)).len() == 0 ==> scopes_of(*final(self)) == scopes_of(*old(self)),
            final(self).function == old(self).function,
            final(self).lookup_global_var_exps == old(self).lookup_global_var_exps,
            final(self).lookup_constant_exps == old(self).lookup_constant_exps,
            final(self).typifier == old(self).typifier,
    {
        let ghost pre = scopes_of(*self);
        let _discarded = self.scopes.pop();
        proof {
            if pre.len() > 0 {
                assert(scopes_of(*self) =~= pre.drop_last());
            } else {
                assert(scopes_of(*self) =~= pre);
            }
        }
    }

    /// Binds `name` in the innermost frame to the storage expression
    /// `expr`, emitting a load against it so later reads reuse one load.
    /// With no open frame, nothing happens.
    pub fn add_local_var(&mut self, name: String, expr: Handle)
        ensures
            scopes_of(*old(self)).len() == 0 ==> *final(self) == *old(self),
            scopes_of(*old(self)).len() > 0 ==> ({
                let load = Handle { index: exprs_of(old(self).function).len() as usize };
                let entry = NamedVariableView {
                    name: name@,
                    var: VariableReference { expr, load: Some(load) },
                };
                let frames = scopes_of(*old(self));
                &&& exprs_of(final(self).function) == exprs_of(old(self).function).push(
                    ExpressionView::Load { pointer: expr },
                )
                &&& same_but_exprs(old(self).function, final(self).function)
                &&& scopes_of(*final(self)) == frames.update(
                    frames.len() - 1,
                    frames.last().push(entry),
                )
                &&& final(self).lookup_global_var_exps == old(self).lookup_global_var_exps
                &&& final(self).lookup_constant_exps == old(self).lookup_constant_exps
                &&& final(self).typifier == old(self).typifier
            }),
    {
        let n = self.scopes.len();
        if n == 0 {
            return ;
        }
        let ghost pre_exprs = exprs_of(self.function);
        let ghost frames = scopes_of(*self);
        let load = self.function.expressions.append(Expression::Load { pointer: expr });
        match self.scopes.pop() {
            Some(mut frame) => {
                let ghost frame_pre = frame@;
                frame.insert(name, VariableReference { expr, load: Some(load) });
                self.scopes.push(frame);
                proof {
                    assert(exprs_of(self.function) =~= pre_exprs.push(
                        ExpressionView::Load { pointer: expr },
                    ));
                    assert(frame_pre == frames.last());
                    assert(scopes_of(*self) =~= frames.update(
                        frames.len() - 1,
                        frames.last().push(
                            NamedVariableView {
                                name: name@,
                                var: VariableReference { expr, load: Some(load) },
                            },
                        ),
                    ));
                }
            },
            None => {},
        }
    }

    /// Appends a new positional function argument of type `ty` and, when it
    /// is named and a frame is open, binds the name to an argument
    /// expression, with no load: an argument is already a value.
    pub fn add_function_arg(&mut self, name: Option<String>, ty: Handle)
        ensures
            ({
                let arg = crate::ir::FunctionArgumentView {
                    name: crate::ir::name_view(name),
                    ty,
                    binding: None,
                };
                let position = old(self).function.arguments@.len() as usize;
                let handle = Handle { index: exprs_of(old(self).function).len() as usize };
                let frames = scopes_of(*old(self));
                &&& final(self).function.arguments.deep_view() == old(
                    self,
                ).function.arguments.deep_view().push(arg)
                &&& final(self).function.name == old(self).function.name
                &&& final(self).function.return_type == old(self).function.return_type
                &&& final(self).function.local_variables == old(self).function.local_variables
                &&& final(self).function.body == old(self).function.body
                &&& final(self).lookup_global_var_exps == old(self).lookup_global_var_exps
                &&& final(self).lookup_constant_exps == old(self).lookup_constant_exps
                &&& final(self).typifier == old(self).typifier
                &&& if name is Some && frames.len() > 0 {
                    let entry = NamedVariableView {
                        name: name.unwrap()@,
                        var: VariableReference { expr: handle, load: None },
                    };
                    &&& exprs_of(final(self).function) == exprs_of(old(self).function).push(
                        ExpressionView::FunctionArgument(position),
                    )
                    &&& scopes_of(*final(self)) == frames.update(
                        frames.len() - 1,
                        frames.last().push(entry),
                    )
                } else {
                    &&& exprs_of(final(self).function) == exprs_of(old(self).function)
                    &&& scopes_of(*final(self)) == frames
                }
            }),
    {
        let index = self.function.arguments.len();
        let ghost pre_args = self.function.arguments.deep_view();
        self.function.arguments.push(
            crate::ir::FunctionArgument { name: crate::ir::clone_name(&name), ty, binding: None },
        );
        proof {
            assert(self.function.arguments.deep_view() =~= pre_args.push(
                crate::ir::FunctionArgumentView {
                    name: crate::ir::name_view(name),
                    ty,
                    binding: None,
                },
            ));
        }
        match name {
            Some(name) => {
                let n = self.scopes.len();
                if n > 0 {
                    let ghost pre_exprs = exprs_of(self.function);
                    let ghost frames = scopes_of(*self);
                    let expr = self.function.expressions.append(
                        Expression::FunctionArgument(index),
                    );
                    match self.scopes.pop() {
                        Some(mut frame) => {
                            frame.insert(name, VariableReference { expr, load: None });
                            self.scopes.push(frame);
                            proof {
                                assert(exprs_of(self.function) =~= pre_exprs.push(
                                    ExpressionView::FunctionArgument(index as usize),
                                ));
                                assert(scopes_of(*self) =~= frames.update(
                                    frames.len() - 1,
                                    frames.last().push(
                                        NamedVariableView {
                                            name: name@,
                                            var: VariableReference { expr, load: None },
                                        },
                                    ),
                                ));
                            }
                        },
                        None => {},
                    }
                }
            },
            None => {},
        }
    }
}

/// The result of lowering one syntax subtree: the expression handle it
/// produced, statements that must be emitted alongside it, and the sampler
/// associated with texture-sampling patterns, if any.
#[derive(Debug)]
pub struct ExpressionRule {
    pub expression: Handle,
    pub statements: Vec<Statement>,
    pub sampler: Option<Handle>,
}

impl ExpressionRule {
    pub fn from_expression(expression: Handle) -> (r: ExpressionRule)
        ensures
            r.expression == expression,
            r.statements@ == Seq::<Statement>::empty(),
            r.sampler is None,
    {
        ExpressionRule { expression, statements: Vec::new(), sampler: None }
    }
}

/// A syntax-tree expression, annotated with its source location.
#[derive(Debug)]
pub struct Expr {
    pub kind: ExprKind,
    pub meta: TokenMetadata,
}

/// The syntax-tree expression shapes this stage consumes; produced by the
/// surrounding parser.
#[derive(Debug)]
pub enum ExprKind {
    Access { base: Box<Expr>, index: Box<Expr> },
    Select { base: Box<Expr>, field: String },
    Constant(Handle),
    Binary { left: Box<Expr>, op: BinaryOperator, right: Box<Expr> },
    Unary { op: UnaryOperator, expr: Box<Expr> },
    Variable(VariableReference),
    Call(FunctionCall),
    Conditional { condition: Box<Expr>, accept: Box<Expr>, reject: Box<Expr> },
    Assign { tgt: Box<Expr>, value: Box<Expr> },
}

#[derive(Debug)]
pub enum FunctionCallKind {
    TypeConstructor(Handle),
    Function(String),
}

#[derive(Debug)]
pub struct FunctionCall {
    pub kind: FunctionCallKind,
    pub args: Vec<Expr>,
}

/// A qualifier seen on a declaration.
#[derive(Debug)]
pub enum TypeQualifier {
    StorageQualifier(StorageQualifier),
    Interpolation(Interpolation),
    ResourceBinding(ResourceBinding),
    Binding(Binding),
    Sampling(Sampling),
    Layout(StructLayout),
    EarlyFragmentTests,
}

/// One parsed variable declaration: its qualifiers, its identifiers with
/// their optional initializers, and its type.
#[derive(Debug)]
pub struct VarDeclaration {
    pub type_qualifiers: Vec<TypeQualifier>,
    pub ids_initializers: Vec<(Option<String>, Option<ExpressionRule>)>,
    pub ty: Handle,
}

#[derive(Clone, Copy, Debug, PartialEq, Eq, Structural)]
pub enum StorageQualifier {
    StorageClass(StorageClass),
    Input,
    Output,
    InOut,
    Const,
}

#[derive(Clone, Copy, Debug, PartialEq, Eq, Structural)]
pub enum StructLayout {
    Std140,
}

impl Program {
    /// A fresh build context: version 0, core profile, the given entry
    /// points, empty lookup tables, an empty module.
    pub fn new(entry_points: Vec<EntryPoint>) -> (p: Program)
        ensures
            p.version == 0,
            p.profile == Profile::Core,
            p.entry_points == entry_points,
            p.lookup_function@.len() == 0,
            p.lookup_type@.len() == 0,
            p.lookup_global_variables@.len() == 0,
            p.lookup_constants@.len() == 0,
            p.module.is_empty(),
    {
        Program {
            version: 0,
            profile: Profile::Core,
            entry_points,
            lookup_function: NameTable::new(),
            lookup_type: NameTable::new(),
            lookup_global_variables: NameTable::new(),
            lookup_constants: NameTable::new(),
            module: Module::new(),
        }
    }

    /// Appends one binary node over the two operands and wraps its handle.
    pub fn binary_expr(
        &mut self,
        function: &mut Function,
        op: BinaryOperator,
        left: &ExpressionRule,
        right: &ExpressionRule,
    ) -> (r: ExpressionRule)
        ensures
            *final(self) == *old(self),
            exprs_of(*final(function)) == exprs_of(*old(function)).push(
                ExpressionView::Binary { op, left: left.expression, right: right.expression },
            ),
            same_but_exprs(*old(function), *final(function)),
            r.expression == (Handle { index: exprs_of(*old(function)).len() as usize }),
            r.statements@ == Seq::<Statement>::empty(),
            r.sampler is None,
    {
        let ghost pre = exprs_of(*function);
        let h = function.expressions.append(
            Expression::Binary { op, left: left.expression, right: right.expression },
        );
        proof {
            assert(exprs_of(*function) =~= pre.push(
                ExpressionView::Binary { op, left: left.expression, right: right.expression },
            ));
        }
        ExpressionRule::from_expression(h)
    }

    /// Appends one unary node over the operand and wraps its handle.
    pub fn unary_expr(
        &mut self,
        function: &mut Function,
        op: UnaryOperator,
        tgt: &ExpressionRule,
    ) -> (r: ExpressionRule)
        ensures
            *final(self) == *old(self),
            exprs_of(*final(function)) == exprs_of(*old(function)).push(
                ExpressionView::Unary { op, expr: tgt.expression },
            ),
            same_but_exprs(*old(function), *final(function)),
            r.expression == (Handle { index: exprs_of(*old(function)).len() as usize }),
            r.statements@ == Seq::<Statement>::empty(),
            r.sampler is None,
    {
        let ghost pre = exprs_of(*function);
        let h = function.expressions.append(Expression::Unary { op, expr: tgt.expression });
        proof {
            assert(exprs_of(*function) =~= pre.push(ExpressionView::Unary { op, expr: tgt.expression }));
        }
        ExpressionRule::from_expression(h)
    }

    /// Resolves, memoizing, the type of the expression at `handle` in the
    /// context's function.  Succeeds exactly when every expression up to
    /// and including `handle` has a derivable type; fails naming the first
    /// handle that has none.  Resolving again re-derives nothing.
    pub fn resolve_type(
        &mut self,
        context: &mut FunctionContext,
        handle: Handle,
    ) -> (r: Result<TypeInner, ErrorKind>)
        requires
            old(context).wf(*old(self)),
        ensures
            *final(self) == *old(self),
            final(context).function == old(context).function,
            old(context).same_but_function(*final(context)),
            final(context).wf(*old(self)),
            ({
                let env = env_of(old(self).module, old(context).function);
                &&& final(context).typifier@ == grow_memo(
                    env,
                    old(context).typifier@,
                    handle.idx(),
                )
                &&& match r {
                    Ok(inner) => {
                        &&& grow_err(env, handle.idx()) is None
                        &&& Some(inner@) == infer(env, handle.idx())
                        &&& forall|i: int| 0 <= i <= handle.idx() ==> infer(env, i).is_some()
                    },
                    Err(e) => grow_err(env, handle.idx()) matches Some(h) && e
                        == ErrorKind::SemanticError(SemanticError::UnresolvedType(h)),
                }
            }),
    {
        match context.typifier.grow(
            handle,
            &context.function.expressions,
            &self.module.types,
            &self.module.constants,
            &self.module.global_variables,
            &context.function.local_variables,
            &context.function.arguments,
        ) {
            Ok(()) => Ok(context.typifier.get(handle).duplicate()),
            Err(e) => Err(e),
        }
    }

    /// Appends an equality or inequality comparison of the two operands.
    /// When both operands resolve to vectors, the comparison is followed by
    /// a reduction — `all` over `==`, `any` over `!=` — and the reduction's
    /// handle is returned; otherwise the comparison node's own handle is.
    pub fn equality_expr(
        &mut self,
        context: &mut FunctionContext,
        equals: bool,
        left: &ExpressionRule,
        right: &ExpressionRule,
    ) -> (r: Result<ExpressionRule, ErrorKind>)
        requires
            old(context).wf(*old(self)),
        ensures
            *final(self) == *old(self),
            old(context).same_but_function(*final(context)),
            final(context).wf(*final(self)),
            same_but_exprs(old(context).function, final(context).function),
            ({
                let env = env_of(old(self).module, old(context).function);
                let li = left.expression.idx();
                let ri = right.expression.idx();
                let top = if li >= ri { li } else { ri };
                let op = if equals { BinaryOperator::Equal } else { BinaryOperator::NotEqual };
                let fun = if equals { RelationalFunction::All } else { RelationalFunction::Any };
                let cmp = ExpressionView::Binary {
                    op,
                    left: left.expression,
                    right: right.expression,
                };
                let cmp_handle = Handle { index: exprs_of(old(context).function).len() as usize };
                match r {
                    Ok(rule) => {
                        let both_vectors = (infer(env, li).unwrap() matches TypeInnerView::Vector {
                            ..
                        }) && (infer(env, ri).unwrap() matches TypeInnerView::Vector { .. });
                        &&& forall|i: int| 0 <= i <= top ==> infer(env, i).is_some()
                        &&& final(context).typifier@ == grow_memo(
                            env,
                            grow_memo(env, old(context).typifier@, li),
                            ri,
                        )
                        &&& if both_vectors {
                            &&& exprs_of(final(context).function) == exprs_of(
                                old(context).function,
                            ).push(cmp).push(
                                ExpressionView::Relational { fun, argument: cmp_handle },
                            )
                            &&& rule.expression == (Handle {
                                index: (exprs_of(old(context).function).len() + 1) as usize,
                            })
                        } else {
                            &&& exprs_of(final(context).function) == exprs_of(
                                old(context).function,
                            ).push(cmp)
                            &&& rule.expression == cmp_handle
                        }
                        &&& rule.statements@ == Seq::<Statement>::empty()
                        &&& rule.sampler is None
                    },
                    Err(e) => {
                        &&& grow_err(env, top) matches Some(h) && e == ErrorKind::SemanticError(
                            SemanticError::UnresolvedType(h),
                        )
                        &&& final(context).function == old(context).function
                    },
                }
            }),
    {
        let ghost env = env_of(self.module, context.function);
        let lt = match self.resolve_type(context, left.expression) {
            Ok(t) => t,
            Err(e) => {
                proof {
                    lemma_grow_err_widen(
                        env,
                        left.expression.idx(),
                        right.expression.idx(),
                    );
                }
                return Err(e);
            },
        };
        let left_is_vector = matches!(lt, TypeInner::Vector { .. });
        let rt = match self.resolve_type(context, right.expression) {
            Ok(t) => t,
            Err(e) => {
                proof {
                    lemma_grow_err_narrow(
                        env,
                        left.expression.idx(),
                        right.expression.idx(),
                    );
                }
                return Err(e);
            },
        };
        let right_is_vector = matches!(rt, TypeInner::Vector { .. });
        let (op, fun) = if equals {
            (BinaryOperator::Equal, RelationalFunction::All)
        } else {
            (BinaryOperator::NotEqual, RelationalFunction::Any)
        };
        let ghost pre = exprs_of(context.function);
        let ghost cmp = ExpressionView::Binary { op, left: left.expression, right: right.expression };
        let h0 = context.function.expressions.append(
            Expression::Binary { op, left: left.expression, right: right.expression },
        );
        proof {
            assert(exprs_of(context.function) =~= pre.push(cmp));
            let env1 = env_of(self.module, context.function);
            assert(env.exprs =~= env1.exprs.subrange(0, env.exprs.len() as int));
            lemma_env_extends_exprs(env, env1);
            lemma_memo_wf_extends(context.typifier@, env, env1);
        }
        if left_is_vector && right_is_vector {
            let h1 = context.function.expressions.append(
                Expression::Relational { fun, argument: h0 },
            );
            proof {
                assert(exprs_of(context.function) =~= pre.push(cmp).push(
                    ExpressionView::Relational { fun, argument: h0 },
                ));
                let env1 = env_of(self.module, context.function);
                assert(env.exprs =~= env1.exprs.subrange(0, env.exprs.len() as int));
                lemma_env_extends_exprs(env, env1);
                lemma_memo_wf_extends(context.typifier@, env, env1);
            }
            Ok(ExpressionRule::from_expression(h1))
        } else {
            Ok(ExpressionRule::from_expression(h0))
        }
    }
}

/// Two environments over the same stores, the second with further
/// expressions appended, extend one another.
pub proof fn lemma_env_extends_exprs(a: TypeEnv, b: TypeEnv)
    requires
        b.types == a.types,
        b.constants == a.constants,
        b.globals == a.globals,
        b.locals == a.locals,
        b.args == a.args,
        a.exprs.is_prefix_of(b.exprs),
    ensures
        crate::typifier::env_extends(a, b),
{
    lemma_prefix_refl(a.types);
    lemma_prefix_refl(a.constants);
    lemma_prefix_refl(a.globals);
    lemma_prefix_refl(a.locals);
    lemma_prefix_refl(a.args);
}

/// A failure resolving up to `li` is the same failure resolving up to any
/// larger target: the first unresolvable position is shared.
proof fn lemma_grow_err_widen(env: TypeEnv, li: int, ri: int)
    requires
        li >= 0,
        ri >= 0,
        grow_err(env, li) is Some,
    ensures
        grow_err(env, if li >= ri { li } else { ri }) == grow_err(env, li),
{
    crate::typifier::lemma_scan_unresolved(env, 0, li + 1);
    let top = if li >= ri { li } else { ri };
    let stop = crate::typifier::scan_unresolved(env, 0, li + 1);
    crate::typifier::lemma_scan_unresolved(env, 0, top + 1);
    let stop2 = crate::typifier::scan_unresolved(env, 0, top + 1);
    if stop2 < stop {
        assert(infer(env, stop2).is_some());
        assert(infer(env, stop2).is_none());
    }
    if stop2 > stop {
        assert(infer(env, stop).is_some());
    }
}

/// When everything up to `li` resolves but something up to `ri` does not,
/// the failure is the same as resolving straight to the larger target.
proof fn lemma_grow_err_narrow(env: TypeEnv, li: int, ri: int)
    requires
        li >= 0,
        ri >= 0,
        grow_err(env, li) is None,
        grow_err(env, ri) is Some,
    ensures
        grow_err(env, if li >= ri { li } else { ri }) == grow_err(env, ri),
        (if li >= ri {
            li
        } else {
            ri
        }) == ri,
{
    crate::typifier::lemma_scan_unresolved(env, 0, li + 1);
    crate::typifier::lemma_scan_unresolved(env, 0, ri + 1);
    let stop_l = crate::typifier::scan_unresolved(env, 0, li + 1);
    let stop_r = crate::typifier::scan_unresolved(env, 0, ri + 1);
    if ri <= li {
        assert(infer(env, stop_r).is_some());
    }
}


/// A byte count when it fits the small unsigned range, else the oversize
/// error naming the type.
pub open spec fn checked_size(n: int, ty: Handle) -> Result<u8, ErrorView> {
    if n <= 255 {
        Ok(n as u8)
    } else {
        Err(ErrorView::OversizedType(ty))
    }
}

/// The storage size of an array with the given stride and extent constant.
pub open spec fn array_size_spec(
    constants: Seq<ConstantView>,
    c: Handle,
    stride: u8,
    ty: Handle,
) -> Result<u8, ErrorView> {
    if c.idx() < constants.len() {
        match constants[c.idx()].inner {
            ConstantInnerView::Scalar { value: ScalarValue::Uint(v), .. } => checked_size(
                (stride as int) * (v as int),
                ty,
            ),
            ConstantInnerView::Scalar { value: ScalarValue::Sint(v), .. } => {
                if v >= 0 {
                    checked_size((stride as int) * (v as int), ty)
                } else {
                    Err(ErrorView::InvalidArraySize(c))
                }
            },
            ConstantInnerView::Scalar { value: ScalarValue::Bool(_), .. } => Err(
                ErrorView::InvalidArraySize(c),
            ),
            ConstantInnerView::Composite { .. } => Err(
                ErrorView::NotImplemented(Unsupported::CompositeArraySize),
            ),
        }
    } else {
        Err(ErrorView::InvalidArraySize(c))
    }
}

/// The storage size, in bytes, of the type at `ty`: a scalar is its width,
/// a vector its component count times its width, a matrix columns times
/// rows times width, an array its stride times its constant extent.  Every
/// other kind of type is reported as an unimplemented capability, each
/// tagged with its own kind.
pub open spec fn type_size_spec(
    types: Seq<TypeView>,
    constants: Seq<ConstantView>,
    ty: Handle,
) -> Result<u8, ErrorView>
    recommends
        ty.idx() < types.len(),
{
    match types[ty.idx()].inner {
        TypeInnerView::Scalar { width, .. } => Ok(width),
        TypeInnerView::Vector { size, width, .. } => checked_size(
            size.spec_count() * (width as int),
            ty,
        ),
        TypeInnerView::Matrix { columns, rows, width } => checked_size(
            columns.spec_count() * rows.spec_count() * (width as int),
            ty,
        ),
        TypeInnerView::Pointer { .. } => Err(ErrorView::NotImplemented(Unsupported::PointerSize)),
        TypeInnerView::ValuePointer { .. } => Err(
            ErrorView::NotImplemented(Unsupported::ValuePointerSize),
        ),
        TypeInnerView::Array { base, size, stride } => match size {
            ArraySize::Dynamic => Err(ErrorView::NotImplemented(Unsupported::DynamicArraySize)),
            ArraySize::Constant(c) => array_size_spec(constants, c, stride, ty),
        },
        TypeInnerView::Struct { .. } => Err(ErrorView::NotImplemented(Unsupported::StructSize)),
        TypeInnerView::Image => Err(ErrorView::NotImplemented(Unsupported::ImageSize)),
        TypeInnerView::Sampler { .. } => Err(ErrorView::NotImplemented(Unsupported::SamplerSize)),
    }
}

impl Program {
    /// Multiplies an array stride by its extent, reporting the oversize
    /// error when the product leaves the byte count's range.
    fn array_bytes(stride: u8, count: u64, ty: Handle) -> (r: Result<u8, ErrorKind>)
        ensures
            result_view(r) == checked_size((stride as int) * (count as int), ty),
    {
        if count <= 255 {
            proof {
                assert((stride as int) * (count as int) <= 255 * 255) by (nonlinear_arith)
                    requires
                        stride as int <= 255,
                        count as int <= 255,
                        stride as int >= 0,
                        count as int >= 0,
                ;
            }
            let p: u32 = (stride as u32) * (count as u32);
            if p <= 255 {
                Ok(p as u8)
            } else {
                Err(ErrorKind::SemanticError(SemanticError::OversizedType(ty)))
            }
        } else if stride == 0 {
            Ok(0)
        } else {
            proof {
                assert((stride as int) * (count as int) > 255) by (nonlinear_arith)
                    requires
                        stride as int >= 1,
                        count as int > 255,
                ;
            }
            Err(ErrorKind::SemanticError(SemanticError::OversizedType(ty)))
        }
    }

    /// Computes the storage size of the type at `ty`, exactly as
    /// `type_size_spec` lays it out, failing with a distinctly tagged
    /// not-implemented error on every kind of type whose size this stage
    /// does not compute.
    pub fn type_size(&self, ty: Handle) -> (r: Result<u8, ErrorKind>)
        requires
            ty.idx() < self.module.types@.len(),
        ensures
            result_view(r) == type_size_spec(
                self.module.types.items.deep_view(),
                self.module.constants.items.deep_view(),
                ty,
            ),
    {
        let ghost types_v = self.module.types.items.deep_view();
        let ghost consts_v = self.module.constants.items.deep_view();
        let t = self.module.types.get(ty);
        proof {
            assert(types_v[ty.idx()] == self.module.types@[ty.idx()]@);
        }
        match &t.inner {
            TypeInner::Scalar { width, .. } => Ok(*width),
            TypeInner::Vector { size, width, .. } => {
                let n: u32 = match size {
                    VectorSize::Bi => 2 * (*width as u32),
                    VectorSize::Tri => 3 * (*width as u32),
                    VectorSize::Quad => 4 * (*width as u32),
                };
                if n <= 255 {
                    Ok(n as u8)
                } else {
                    Err(ErrorKind::SemanticError(SemanticError::OversizedType(ty)))
                }
            },
            TypeInner::Matrix { columns, rows, width } => {
                let rw: u32 = match rows {
                    VectorSize::Bi => 2 * (*width as u32),
                    VectorSize::Tri => 3 * (*width as u32),
                    VectorSize::Quad => 4 * (*width as u32),
                };
                let n: u32 = match columns {
                    VectorSize::Bi => 2 * rw,
                    VectorSize::Tri => 3 * rw,
                    VectorSize::Quad => 4 * rw,
                };
                proof {
                    assert(rw as int == rows.spec_count() * (*width as int));
                    assert(n as int == columns.spec_count() * (rw as int));
                    assert(n as int == columns.spec_count() * rows.spec_count() * (*width as int))
                        by (nonlinear_arith)
                        requires
                            rw as int == rows.spec_count() * (*width as int),
                            n as int == columns.spec_count() * (rw as int),
                    ;
                }
                if n <= 255 {
                    Ok(n as u8)
                } else {
                    Err(ErrorKind::SemanticError(SemanticError::OversizedType(ty)))
                }
            },
            TypeInner::Pointer { .. } => Err(ErrorKind::NotImplemented(Unsupported::PointerSize)),
            TypeInner::ValuePointer { .. } => Err(
                ErrorKind::NotImplemented(Unsupported::ValuePointerSize),
            ),
            TypeInner::Array { base, size, stride } => match size {
                ArraySize::Dynamic => Err(ErrorKind::NotImplemented(Unsupported::DynamicArraySize)),
                ArraySize::Constant(c) => {
                    if c.index < self.module.constants.len() {
                        let k = self.module.constants.get(*c);
                        proof {
                            assert(consts_v[c.idx()] == self.module.constants@[c.idx()]@);
                        }
                        match &k.inner {
                            ConstantInner::Scalar { value, .. } => match value {
                                ScalarValue::Uint(v) => Self::array_bytes(*stride, *v, ty),
                                ScalarValue::Sint(v) => {
                                    if *v >= 0 {
                                        Self::array_bytes(*stride, (*v) as u64, ty)
                                    } else {
                                        Err(ErrorKind::SemanticError(
                                            SemanticError::InvalidArraySize(*c),
                                        ))
                                    }
                                },
                                ScalarValue::Bool(_) => Err(ErrorKind::SemanticError(
                                    SemanticError::InvalidArraySize(*c),
                                )),
                            },
                            ConstantInner::Composite { .. } => Err(
                                ErrorKind::NotImplemented(Unsupported::CompositeArraySize),
                            ),
                        }
                    } else {
                        Err(ErrorKind::SemanticError(SemanticError::InvalidArraySize(*c)))
                    }
                },
            },
            TypeInner::Struct { .. } => Err(ErrorKind::NotImplemented(Unsupported::StructSize)),
            TypeInner::Image => Err(ErrorKind::NotImplemented(Unsupported::ImageSize)),
            TypeInner::Sampler { .. } => Err(ErrorKind::NotImplemented(Unsupported::SamplerSize)),
        }
    }
}



/// The state and outcome of lowering one syntax subtree, exactly as the
/// implementation performs it: operands are lowered left to right (the
/// lvalue/rvalue flag threading through element accesses and member
/// selects, every other operand an rvalue), each compound shape appends
/// one node over its operands' handles, a variable yields its preloaded
/// value in rvalue position and its storage in lvalue position, and an
/// assignment appends a store statement and is valued at the stored
/// handle.  Function calls are a capability this stage does not provide.
pub open spec fn lower(st: crate::variables::LowerState, e: Expr, lhs: bool) -> (
    crate::variables::LowerState,
    Result<Handle, ErrorView>,
)
    decreases e,
{
    match e.kind {
        ExprKind::Access { base, index } => {
            let r1 = lower(st, *base, lhs);
            match r1.1 {
                Ok(b) => {
                    let r2 = lower(r1.0, *index, false);
                    match r2.1 {
                        Ok(ix) => (
                            crate::variables::push_expr(
                                r2.0,
                                ExpressionView::Access { base: b, index: ix },
                            ),
                            Ok(Handle { index: r2.0.env.exprs.len() as usize }),
                        ),
                        Err(err) => (r2.0, Err(err)),
                    }
                },
                Err(err) => (r1.0, Err(err)),
            }
        },
        ExprKind::Select { base, field } => {
            let r1 = lower(st, *base, lhs);
            match r1.1 {
                Ok(b) => crate::variables::field_select_spec(r1.0, b, field@, e.meta),
                Err(err) => (r1.0, Err(err)),
            }
        },
        ExprKind::Constant(c) => (
            crate::variables::push_expr(st, ExpressionView::Constant(c)),
            Ok(Handle { index: st.env.exprs.len() as usize }),
        ),
        ExprKind::Binary { left, op, right } => {
            let r1 = lower(st, *left, false);
            match r1.1 {
                Ok(l) => {
                    let r2 = lower(r1.0, *right, false);
                    match r2.1 {
                        Ok(rr) => (
                            crate::variables::push_expr(
                                r2.0,
                                ExpressionView::Binary { op, left: l, right: rr },
                            ),
                            Ok(Handle { index: r2.0.env.exprs.len() as usize }),
                        ),
                        Err(err) => (r2.0, Err(err)),
                    }
                },
                Err(err) => (r1.0, Err(err)),
            }
        },
        ExprKind::Unary { op, expr } => {
            let r1 = lower(st, *expr, false);
            match r1.1 {
                Ok(operand) => (
                    crate::variables::push_expr(
                        r1.0,
                        ExpressionView::Unary { op, expr: operand },
                    ),
                    Ok(Handle { index: r1.0.env.exprs.len() as usize }),
                ),
                Err(err) => (r1.0, Err(err)),
            }
        },
        ExprKind::Variable(var) => (
            st,
            Ok(
                if lhs {
                    var.expr
                } else {
                    match var.load {
                        Some(l) => l,
                        None => var.expr,
                    }
                },
            ),
        ),
        ExprKind::Call(_) => (st, Err(ErrorView::NotImplemented(Unsupported::FunctionCall))),
        ExprKind::Conditional { condition, accept, reject } => {
            let r1 = lower(st, *condition, false);
            match r1.1 {
                Ok(c) => {
                    let r2 = lower(r1.0, *accept, false);
                    match r2.1 {
                        Ok(a) => {
                            let r3 = lower(r2.0, *reject, false);
                            match r3.1 {
                                Ok(j) => (
                                    crate::variables::push_expr(
                                        r3.0,
                                        ExpressionView::Select { condition: c, accept: a, reject: j },
                                    ),
                                    Ok(Handle { index: r3.0.env.exprs.len() as usize }),
                                ),
                                Err(err) => (r3.0, Err(err)),
                            }
                        },
                        Err(err) => (r2.0, Err(err)),
                    }
                },
                Err(err) => (r1.0, Err(err)),
            }
        },
        ExprKind::Assign { tgt, value } => {
            let r1 = lower(st, *tgt, true);
            match r1.1 {
                Ok(p) => {
                    let r2 = lower(r1.0, *value, false);
                    match r2.1 {
                        Ok(v) => (
                            crate::variables::LowerState {
                                body: r2.0.body.push(Statement::Store { pointer: p, value: v }),
                                ..r2.0
                            },
                            Ok(v),
                        ),
                        Err(err) => (r2.0, Err(err)),
                    }
                },
                Err(err) => (r1.0, Err(err)),
            }
        },
    }
}

impl FunctionContext {
    /// Lowers one syntax-tree expression into the function's expression
    /// graph, exactly as `lower` lays it out, returning the handle of the
    /// node that carries the expression's value — or, with `lhs` set, its
    /// storage location.
    pub fn resolve(&mut self, program: &mut Program, expr: Expr, lhs: bool) -> (r: Result<
        Handle,
        ErrorKind,
    >)
        requires
            old(self).wf(*old(program)),
        ensures
            ({
                let lowered = lower(crate::variables::state_of(*old(program), *old(self)), expr, lhs);
                &&& crate::variables::state_of(*final(program), *final(self)) == lowered.0
                &&& result_view(r) == lowered.1
            }),
            final(self).wf(*final(program)),
            old(self).same_but_function(*final(self)),
            final(self).function.name == old(self).function.name,
            final(self).function.arguments == old(self).function.arguments,
            final(self).function.return_type == old(self).function.return_type,
            final(self).function.local_variables == old(self).function.local_variables,
            final(program).module.constants == old(program).module.constants,
            final(program).module.global_variables == old(program).module.global_variables,
            final(program).module.functions == old(program).module.functions,
            final(program).version == old(program).version,
            final(program).profile == old(program).profile,
            final(program).entry_points == old(program).entry_points,
            final(program).lookup_function == old(program).lookup_function,
            final(program).lookup_type == old(program).lookup_type,
            final(program).lookup_global_variables == old(program).lookup_global_variables,
            final(program).lookup_constants == old(program).lookup_constants,
        decreases expr,
    {
        let meta = expr.meta;
        match expr.kind {
            ExprKind::Access { base, index } => {
                let b = match self.resolve(program, *base, lhs) {
                    Ok(b) => b,
                    Err(e) => {
                        return Err(e);
                    },
                };
                let ix = match self.resolve(program, *index, false) {
                    Ok(i) => i,
                    Err(e) => {
                        return Err(e);
                    },
                };
                let ghost env1 = env_of(program.module, self.function);
                let ghost pre = exprs_of(self.function);
                let h = self.function.expressions.append(
                    Expression::Access { base: b, index: ix },
                );
                proof {
                    assert(exprs_of(self.function) =~= pre.push(
                        ExpressionView::Access { base: b, index: ix },
                    ));
                    let env2 = env_of(program.module, self.function);
                    assert(env1.exprs =~= env2.exprs.subrange(0, env1.exprs.len() as int));
                    crate::variables::lemma_env_extends_general(env1, env2);
                    lemma_memo_wf_extends(self.typifier@, env1, env2);
                }
                Ok(h)
            },
            ExprKind::Select { base, field } => {
                let b = match self.resolve(program, *base, lhs) {
                    Ok(b) => b,
                    Err(e) => {
                        return Err(e);
                    },
                };
                program.field_selection(self, b, field.as_str(), meta)
            },
            ExprKind::Constant(c) => {
                let ghost pre = exprs_of(self.function);
                let h = self.function.expressions.append(Expression::Constant(c));
                proof {
                    assert(exprs_of(self.function) =~= pre.push(ExpressionView::Constant(c)));
                    let env1 = env_of(old(program).module, old(self).function);
                    let env2 = env_of(program.module, self.function);
                    assert(env1.exprs =~= env2.exprs.subrange(0, env1.exprs.len() as int));
                    crate::variables::lemma_env_extends_general(env1, env2);
                    lemma_memo_wf_extends(self.typifier@, env1, env2);
                }
                Ok(h)
            },
            ExprKind::Binary { left, op, right } => {
                let l = match self.resolve(program, *left, false) {
                    Ok(l) => l,
                    Err(e) => {
                        return Err(e);
                    },
                };
                let rr = match self.resolve(program, *right, false) {
                    Ok(rr) => rr,
                    Err(e) => {
                        return Err(e);
                    },
                };
                let ghost env1 = env_of(program.module, self.function);
                let ghost pre = exprs_of(self.function);
                let h = self.function.expressions.append(
                    Expression::Binary { op, left: l, right: rr },
                );
                proof {
                    assert(exprs_of(self.function) =~= pre.push(
                        ExpressionView::Binary { op, left: l, right: rr },
                    ));
                    let env2 = env_of(program.module, self.function);
                    assert(env1.exprs =~= env2.exprs.subrange(0, env1.exprs.len() as int));
                    crate::variables::lemma_env_extends_general(env1, env2);
                    lemma_memo_wf_extends(self.typifier@, env1, env2);
                }
                Ok(h)
            },
            ExprKind::Unary { op, expr } => {
                let operand = match self.resolve(program, *expr, false) {
                    Ok(x) => x,
                    Err(e) => {
                        return Err(e);
                    },
                };
                let ghost env1 = env_of(program.module, self.function);
                let ghost pre = exprs_of(self.function);
                let h = self.function.expressions.append(
                    Expression::Unary { op, expr: operand },
                );
                proof {
                    assert(exprs_of(self.function) =~= pre.push(
                        ExpressionView::Unary { op, expr: operand },
                    ));
                    let env2 = env_of(program.module, self.function);
                    assert(env1.exprs =~= env2.exprs.subrange(0, env1.exprs.len() as int));
                    crate::variables::lemma_env_extends_general(env1, env2);
                    lemma_memo_wf_extends(self.typifier@, env1, env2);
                }
                Ok(h)
            },
            ExprKind::Variable(var) => {
                if lhs {
                    Ok(var.expr)
                } else {
                    match var.load {
                        Some(load) => Ok(load),
                        None => Ok(var.expr),
                    }
                }
            },
            ExprKind::Call(_) => Err(ErrorKind::NotImplemented(Unsupported::FunctionCall)),
            ExprKind::Conditional { condition, accept, reject } => {
                let c = match self.resolve(program, *condition, false) {
                    Ok(c) => c,
                    Err(e) => {
                        return Err(e);
                    },
                };
                let a = match self.resolve(program, *accept, false) {
                    Ok(a) => a,
                    Err(e) => {
                        return Err(e);
                    },
                };
                let j = match self.resolve(program, *reject, false) {
                    Ok(j) => j,
                    Err(e) => {
                        return Err(e);
                    },
                };
                let ghost env1 = env_of(program.module, self.function);
                let ghost pre = exprs_of(self.function);
                let h = self.function.expressions.append(
                    Expression::Select { condition: c, accept: a, reject: j },
                );
                proof {
                    assert(exprs_of(self.function) =~= pre.push(
                        ExpressionView::Select { condition: c, accept: a, reject: j },
                    ));
                    let env2 = env_of(program.module, self.function);
                    assert(env1.exprs =~= env2.exprs.subrange(0, env1.exprs.len() as int));
                    crate::variables::lemma_env_extends_general(env1, env2);
                    lemma_memo_wf_extends(self.typifier@, env1, env2);
                }
                Ok(h)
            },
            ExprKind::Assign { tgt, value } => {
                let pointer = match self.resolve(program, *tgt, true) {
                    Ok(p) => p,
                    Err(e) => {
                        return Err(e);
                    },
                };
                let value = match self.resolve(program, *value, false) {
                    Ok(v) => v,
                    Err(e) => {
                        return Err(e);
                    },
                };
                self.function.body.push(Statement::Store { pointer, value });
                Ok(value)
            },
        }
    }
}

} // verus!
