use vstd::prelude::*;

use crate::arena::{Arena, Handle};

verus! {

/// Storage width, in bytes, of the boolean scalar type.
pub const BOOL_WIDTH: u8 = 1;

#[derive(Clone, Copy, Debug, PartialEq, Eq, Structural)]
pub enum ScalarKind {
    Sint,
    Uint,
    Float,
    Bool,
}

#[derive(Clone, Copy, Debug, PartialEq, Eq, Structural)]
pub enum VectorSize {
    Bi,
    Tri,
    Quad,
}

impl VectorSize {
    /// Number of components, as a mathematical integer.
    pub open spec fn spec_count(self) -> int {
        match self {
            VectorSize::Bi => 2,
            VectorSize::Tri => 3,
            VectorSize::Quad => 4,
        }
    }

    pub fn count(self) -> (n: u8)
        ensures
            n == self.spec_count(),
    {
        match self {
            VectorSize::Bi => 2,
            VectorSize::Tri => 3,
            VectorSize::Quad => 4,
        }
    }
}

/// A compile-time scalar value.  Boolean and integer values suffice for the
/// constants this stage manipulates (array extents, folded integer
/// arithmetic); floating-point constants are outside its scope.
#[derive(Clone, Copy, Debug, PartialEq, Eq, Structural)]
pub enum ScalarValue {
    Sint(i64),
    Uint(u64),
    Bool(bool),
}

impl ScalarValue {
    pub open spec fn kind(self) -> ScalarKind {
        match self {
            ScalarValue::Sint(_) => ScalarKind::Sint,
            ScalarValue::Uint(_) => ScalarKind::Uint,
            ScalarValue::Bool(_) => ScalarKind::Bool,
        }
    }

    pub fn scalar_kind(&self) -> (k: ScalarKind)
        ensures
            k == self.kind(),
    {
        match self {
            ScalarValue::Sint(_) => ScalarKind::Sint,
            ScalarValue::Uint(_) => ScalarKind::Uint,
            ScalarValue::Bool(_) => ScalarKind::Bool,
        }
    }
}

/// The extent of an array type: fixed by a constant, or unknown until run
/// time.
#[derive(Clone, Copy, Debug, PartialEq, Eq, Structural)]
pub enum ArraySize {
    Constant(Handle),
    Dynamic,
}

/// An optional name, seen as the characters it holds.
pub open spec fn name_view(n: Option<String>) -> Option<Seq<char>> {
    match n {
        Some(s) => Some(s@),
        None => None,
    }
}

#[derive(Debug)]
pub struct StructMember {
    pub name: Option<String>,
    pub ty: Handle,
}

pub ghost struct StructMemberView {
    pub name: Option<Seq<char>>,
    pub ty: Handle,
}

impl View for StructMember {
    type V = StructMemberView;

    open spec fn view(&self) -> StructMemberView {
        StructMemberView { name: name_view(self.name), ty: self.ty }
    }
}

impl DeepView for StructMember {
    type V = StructMemberView;

    open spec fn deep_view(&self) -> StructMemberView {
        self.view()
    }
}

/// The shape of a type.  Handles refer to the owning module's type and
/// constant arenas.
#[derive(Debug)]
pub enum TypeInner {
    Scalar { kind: ScalarKind, width: u8 },
    Vector { size: VectorSize, kind: ScalarKind, width: u8 },
    Matrix { columns: VectorSize, rows: VectorSize, width: u8 },
    Pointer { base: Handle },
    ValuePointer { size: Option<VectorSize>, kind: ScalarKind, width: u8 },
    Array { base: Handle, size: ArraySize, stride: u8 },
    Struct { members: Vec<StructMember> },
    Image,
    Sampler { comparison: bool },
}

pub ghost enum TypeInnerView {
    Scalar { kind: ScalarKind, width: u8 },
    Vector { size: VectorSize, kind: ScalarKind, width: u8 },
    Matrix { columns: VectorSize, rows: VectorSize, width: u8 },
    Pointer { base: Handle },
    ValuePointer { size: Option<VectorSize>, kind: ScalarKind, width: u8 },
    Array { base: Handle, size: ArraySize, stride: u8 },
    Struct { members: Seq<StructMemberView> },
    Image,
    Sampler { comparison: bool },
}

impl View for TypeInner {
    type V = TypeInnerView;

    open spec fn view(&self) -> TypeInnerView {
        match self {
            TypeInner::Scalar { kind, width } => TypeInnerView::Scalar { kind: *kind, width: *width },
            TypeInner::Vector { size, kind, width } => TypeInnerView::Vector {
                size: *size,
                kind: *kind,
                width: *width,
            },
            TypeInner::Matrix { columns, rows, width } => TypeInnerView::Matrix {
                columns: *columns,
                rows: *rows,
                width: *width,
            },
            TypeInner::Pointer { base } => TypeInnerView::Pointer { base: *base },
            TypeInner::ValuePointer { size, kind, width } => TypeInnerView::ValuePointer {
                size: *size,
                kind: *kind,
                width: *width,
            },
            TypeInner::Array { base, size, stride } => TypeInnerView::Array {
                base: *base,
                size: *size,
                stride: *stride,
            },
            TypeInner::Struct { members } => TypeInnerView::Struct { members: members.deep_view() },
            TypeInner::Image => TypeInnerView::Image,
            TypeInner::Sampler { comparison } => TypeInnerView::Sampler { comparison: *comparison },
        }
    }
}

impl DeepView for TypeInner {
    type V = TypeInnerView;

    open spec fn deep_view(&self) -> TypeInnerView {
        self.view()
    }
}

#[derive(Debug)]
pub struct Type {
    pub name: Option<String>,
    pub inner: TypeInner,
}

pub ghost struct TypeView {
    pub name: Option<Seq<char>>,
    pub inner: TypeInnerView,
}

impl View for Type {
    type V = TypeView;

    open spec fn view(&self) -> TypeView {
        TypeView { name: name_view(self.name), inner: self.inner@ }
    }
}

impl DeepView for Type {
    type V = TypeView;

    open spec fn deep_view(&self) -> TypeView {
        self.view()
    }
}

#[derive(Debug)]
pub enum ConstantInner {
    Scalar { width: u8, value: ScalarValue },
    Composite { ty: Handle, components: Vec<Handle> },
}

pub ghost enum ConstantInnerView {
    Scalar { width: u8, value: ScalarValue },
    Composite { ty: Handle, components: Seq<Handle> },
}

impl View for ConstantInner {
    type V = ConstantInnerView;

    open spec fn view(&self) -> ConstantInnerView {
        match self {
            ConstantInner::Scalar { width, value } => ConstantInnerView::Scalar {
                width: *width,
                value: *value,
            },
            ConstantInner::Composite { ty, components } => ConstantInnerView::Composite {
                ty: *ty,
                components: components@,
            },
        }
    }
}

impl DeepView for ConstantInner {
    type V = ConstantInnerView;

    open spec fn deep_view(&self) -> ConstantInnerView {
        self.view()
    }
}

#[derive(Debug)]
pub struct Constant {
    pub name: Option<String>,
    pub inner: ConstantInner,
}

pub ghost struct ConstantView {
    pub name: Option<Seq<char>>,
    pub inner: ConstantInnerView,
}

impl View for Constant {
    type V = ConstantView;

    open spec fn view(&self) -> ConstantView {
        ConstantView { name: name_view(self.name), inner: self.inner@ }
    }
}

impl DeepView for Constant {
    type V = ConstantView;

    open spec fn deep_view(&self) -> ConstantView {
        self.view()
    }
}

#[derive(Clone, Copy, Debug, PartialEq, Eq, Structural)]
pub enum BinaryOperator {
    Add,
    Subtract,
    Multiply,
    Divide,
    Modulo,
    Equal,
    NotEqual,
    Less,
    LessEqual,
    Greater,
    GreaterEqual,
    And,
    ExclusiveOr,
    InclusiveOr,
    LogicalAnd,
    LogicalOr,
    ShiftLeft,
    ShiftRight,
}

#[derive(Clone, Copy, Debug, PartialEq, Eq, Structural)]
pub enum UnaryOperator {
    Negate,
    Not,
}

/// A reduction collapsing a per-component boolean vector into one boolean.
#[derive(Clone, Copy, Debug, PartialEq, Eq, Structural)]
pub enum RelationalFunction {
    All,
    Any,
}

/// One node of a function's expression graph.  Every `Handle` field refers
/// to the same function's expression arena, except where noted.
#[derive(Debug)]
pub enum Expression {
    /// `base[index]`, with a dynamically computed index.
    Access { base: Handle, index: Handle },
    /// `base[index]`, with an index fixed at lowering time.
    AccessIndex { base: Handle, index: usize },
    /// A reference into the module's constant arena.
    Constant(Handle),
    Binary { op: BinaryOperator, left: Handle, right: Handle },
    Unary { op: UnaryOperator, expr: Handle },
    /// Ternary selection; both branches are values, no control flow.
    Select { condition: Handle, accept: Handle, reject: Handle },
    Relational { fun: RelationalFunction, argument: Handle },
    /// Builds a value of type `ty` (a handle into the module's type arena)
    /// out of `components`.
    Compose { ty: Handle, components: Vec<Handle> },
    /// The function's argument at the given position.
    FunctionArgument(usize),
    /// A reference into the module's global-variable arena; a pointer.
    GlobalVariable(Handle),
    /// A reference into the function's local-variable arena; a pointer.
    LocalVariable(Handle),
    /// Reads the value behind a pointer-typed expression.
    Load { pointer: Handle },
}

pub ghost enum ExpressionView {
    Access { base: Handle, index: Handle },
    AccessIndex { base: Handle, index: usize },
    Constant(Handle),
    Binary { op: BinaryOperator, left: Handle, right: Handle },
    Unary { op: UnaryOperator, expr: Handle },
    Select { condition: Handle, accept: Handle, reject: Handle },
    Relational { fun: RelationalFunction, argument: Handle },
    Compose { ty: Handle, components: Seq<Handle> },
    FunctionArgument(usize),
    GlobalVariable(Handle),
    LocalVariable(Handle),
    Load { pointer: Handle },
}

impl View for Expression {
    type V = ExpressionView;

    open spec fn view(&self) -> ExpressionView {
        match self {
            Expression::Access { base, index } => ExpressionView::Access {
                base: *base,
                index: *index,
            },
            Expression::AccessIndex { base, index } => ExpressionView::AccessIndex {
                base: *base,
                index: *index,
            },
            Expression::Constant(h) => ExpressionView::Constant(*h),
            Expression::Binary { op, left, right } => ExpressionView::Binary {
                op: *op,
                left: *left,
                right: *right,
            },
            Expression::Unary { op, expr } => ExpressionView::Unary { op: *op, expr: *expr },
            Expression::Select { condition, accept, reject } => ExpressionView::Select {
                condition: *condition,
                accept: *accept,
                reject: *reject,
            },
            Expression::Relational { fun, argument } => ExpressionView::Relational {
                fun: *fun,
                argument: *argument,
            },
            Expression::Compose { ty, components } => ExpressionView::Compose {
                ty: *ty,
                components: components@,
            },
            Expression::FunctionArgument(i) => ExpressionView::FunctionArgument(*i),
            Expression::GlobalVariable(h) => ExpressionView::GlobalVariable(*h),
            Expression::LocalVariable(h) => ExpressionView::LocalVariable(*h),
            Expression::Load { pointer } => ExpressionView::Load { pointer: *pointer },
        }
    }
}

impl DeepView for Expression {
    type V = ExpressionView;

    open spec fn deep_view(&self) -> ExpressionView {
        self.view()
    }
}

/// One statement of a function body.
#[derive(Debug, PartialEq, Eq, Structural)]
pub enum Statement {
    Store { pointer: Handle, value: Handle },
}

#[derive(Clone, Copy, Debug, PartialEq, Eq, Structural)]
pub enum BuiltIn {
    Position,
    VertexIndex,
    InstanceIndex,
}

#[derive(Clone, Copy, Debug, PartialEq, Eq, Structural)]
pub enum Binding {
    BuiltIn(BuiltIn),
    Location(u32),
}

#[derive(Clone, Copy, Debug, PartialEq, Eq, Structural)]
pub enum Interpolation {
    Perspective,
    Linear,
    Flat,
}

#[derive(Clone, Copy, Debug, PartialEq, Eq, Structural)]
pub enum Sampling {
    Center,
    Centroid,
    Sample,
}

#[derive(Clone, Copy, Debug, PartialEq, Eq, Structural)]
pub struct ResourceBinding {
    pub group: u32,
    pub binding: u32,
}

#[derive(Clone, Copy, Debug, PartialEq, Eq, Structural)]
pub enum StorageClass {
    Function,
    Private,
    WorkGroup,
    Uniform,
    Storage,
    Handle,
    PushConstant,
}

#[derive(Clone, Copy, Debug, PartialEq, Eq, Structural)]
pub enum ShaderStage {
    Vertex,
    Fragment,
    Compute,
}

#[derive(Debug)]
pub struct FunctionArgument {
    pub name: Option<String>,
    pub ty: Handle,
    pub binding: Option<Binding>,
}

pub ghost struct FunctionArgumentView {
    pub name: Option<Seq<char>>,
    pub ty: Handle,
    pub binding: Option<Binding>,
}

impl View for FunctionArgument {
    type V = FunctionArgumentView;

    open spec fn view(&self) -> FunctionArgumentView {
        FunctionArgumentView { name: name_view(self.name), ty: self.ty, binding: self.binding }
    }
}

impl DeepView for FunctionArgument {
    type V = FunctionArgumentView;

    open spec fn deep_view(&self) -> FunctionArgumentView {
        self.view()
    }
}

#[derive(Debug)]
pub struct LocalVariable {
    pub name: Option<String>,
    pub ty: Handle,
    pub init: Option<Handle>,
}

pub ghost struct LocalVariableView {
    pub name: Option<Seq<char>>,
    pub ty: Handle,
    pub init: Option<Handle>,
}

impl View for LocalVariable {
    type V = LocalVariableView;

    open spec fn view(&self) -> LocalVariableView {
        LocalVariableView { name: name_view(self.name), ty: self.ty, init: self.init }
    }
}

impl DeepView for LocalVariable {
    type V = LocalVariableView;

    open spec fn deep_view(&self) -> LocalVariableView {
        self.view()
    }
}

#[derive(Debug)]
pub struct GlobalVariable {
    pub name: Option<String>,
    pub class: StorageClass,
    pub binding: Option<ResourceBinding>,
    pub ty: Handle,
}

pub ghost struct GlobalVariableView {
    pub name: Option<Seq<char>>,
    pub class: StorageClass,
    pub binding: Option<ResourceBinding>,
    pub ty: Handle,
}

impl View for GlobalVariable {
    type V = GlobalVariableView;

    open spec fn view(&self) -> GlobalVariableView {
        GlobalVariableView {
            name: name_view(self.name),
            class: self.class,
            binding: self.binding,
            ty: self.ty,
        }
    }
}

impl DeepView for GlobalVariable {
    type V = GlobalVariableView;

    open spec fn deep_view(&self) -> GlobalVariableView {
        self.view()
    }
}

/// A function under construction: its own expression arena, its ordered
/// body, its arguments and its local variables.  Expression handles are
/// never shared across functions.
#[derive(Debug)]
pub struct Function {
    pub name: Option<String>,
    pub arguments: Vec<FunctionArgument>,
    pub return_type: Option<Handle>,
    pub local_variables: Arena<LocalVariable>,
    pub expressions: Arena<Expression>,
    pub body: Vec<Statement>,
}

impl Function {
    pub fn new(name: Option<String>) -> (f: Function)
        ensures
            f.name == name,
            f.arguments@ == Seq::<FunctionArgument>::empty(),
            f.return_type == None::<Handle>,
            f.local_variables@ == Seq::<LocalVariable>::empty(),
            f.expressions@ == Seq::<Expression>::empty(),
            f.body@ == Seq::<Statement>::empty(),
    {
        Function {
            name,
            arguments: Vec::new(),
            return_type: None,
            local_variables: Arena::new(),
            expressions: Arena::new(),
            body: Vec::new(),
        }
    }
}

/// The finished product of a compilation unit: four arenas holding every
/// type, constant, global variable and function, all cross-referenced by
/// handle.
#[derive(Debug)]
pub struct Module {
    pub types: Arena<Type>,
    pub constants: Arena<Constant>,
    pub global_variables: Arena<GlobalVariable>,
    pub functions: Arena<Function>,
}

impl Module {
    pub open spec fn is_empty(self) -> bool {
        &&& self.types@ == Seq::<Type>::empty()
        &&& self.constants@ == Seq::<Constant>::empty()
        &&& self.global_variables@ == Seq::<GlobalVariable>::empty()
        &&& self.functions@ == Seq::<Function>::empty()
    }

    pub fn new() -> (m: Module)
        ensures
            m.is_empty(),
    {
        Module {
            types: Arena::new(),
            constants: Arena::new(),
            global_variables: Arena::new(),
            functions: Arena::new(),
        }
    }
}

impl Default for Module {
    fn default() -> (m: Module)
        ensures
            m.is_empty(),
    {
        Module::new()
    }
}

/// Copies an optional name; the copy is equal to the original.
pub fn clone_name(n: &Option<String>) -> (r: Option<String>)
    ensures
        r == *n,
{
    match n {
        Some(s) => Some(s.clone()),
        None => None,
    }
}

/// Decides whether a stored optional name holds exactly the requested
/// characters.
pub fn name_matches(stored: &Option<String>, requested: &str) -> (r: bool)
    ensures
        r == (name_view(*stored) == Some(requested@)),
{
    match stored {
        Some(s) => *s == requested.to_owned(),
        None => false,
    }
}

impl TypeInner {
    /// Rebuilds this shape from its parts; the copy has the same view.
    pub fn duplicate(&self) -> (r: TypeInner)
        ensures
            r@ == self@,
    {
        match self {
            TypeInner::Scalar { kind, width } => TypeInner::Scalar { kind: *kind, width: *width },
            TypeInner::Vector { size, kind, width } => TypeInner::Vector {
                size: *size,
                kind: *kind,
                width: *width,
            },
            TypeInner::Matrix { columns, rows, width } => TypeInner::Matrix {
                columns: *columns,
                rows: *rows,
                width: *width,
            },
            TypeInner::Pointer { base } => TypeInner::Pointer { base: *base },
            TypeInner::ValuePointer { size, kind, width } => TypeInner::ValuePointer {
                size: *size,
                kind: *kind,
                width: *width,
            },
            TypeInner::Array { base, size, stride } => TypeInner::Array {
                base: *base,
                size: *size,
                stride: *stride,
            },
            TypeInner::Struct { members } => {
                let mut out: Vec<StructMember> = Vec::new();
                let mut k: usize = 0;
                while k < members.len()
                    invariant
                        k <= members@.len(),
                        out@.len() == k,
                        forall|j: int| 0 <= j < k ==> out@[j]@ == members@[j]@,
                    decreases members@.len() - k,
                {
                    let m = &members[k];
                    out.push(StructMember { name: clone_name(&m.name), ty: m.ty });
                    k += 1;
                }
                proof {
                    assert(out.deep_view() =~= members.deep_view());
                }
                TypeInner::Struct { members: out }
            },
            TypeInner::Image => TypeInner::Image,
            TypeInner::Sampler { comparison } => TypeInner::Sampler { comparison: *comparison },
        }
    }
}


/// Decides view equality of optional names.
pub fn names_eq(a: &Option<String>, b: &Option<String>) -> (r: bool)
    ensures
        r == (name_view(*a) == name_view(*b)),
{
    match (a, b) {
        (Some(x), Some(y)) => *x == *y,
        (None, None) => true,
        _ => false,
    }
}

/// Decides view equality of two type shapes.
pub fn inners_eq(a: &TypeInner, b: &TypeInner) -> (r: bool)
    ensures
        r == (a@ == b@),
{
    match (a, b) {
        (TypeInner::Scalar { kind: k1, width: w1 }, TypeInner::Scalar { kind: k2, width: w2 }) => {
            k1 == k2 && w1 == w2
        },
        (
            TypeInner::Vector { size: s1, kind: k1, width: w1 },
            TypeInner::Vector { size: s2, kind: k2, width: w2 },
        ) => s1 == s2 && k1 == k2 && w1 == w2,
        (
            TypeInner::Matrix { columns: c1, rows: r1, width: w1 },
            TypeInner::Matrix { columns: c2, rows: r2, width: w2 },
        ) => c1 == c2 && r1 == r2 && w1 == w2,
        (TypeInner::Pointer { base: b1 }, TypeInner::Pointer { base: b2 }) => b1 == b2,
        (
            TypeInner::ValuePointer { size: s1, kind: k1, width: w1 },
            TypeInner::ValuePointer { size: s2, kind: k2, width: w2 },
        ) => {
            let sizes = match (s1, s2) {
                (Some(x), Some(y)) => x == y,
                (None, None) => true,
                _ => false,
            };
            sizes && k1 == k2 && w1 == w2
        },
        (
            TypeInner::Array { base: b1, size: s1, stride: t1 },
            TypeInner::Array { base: b2, size: s2, stride: t2 },
        ) => b1 == b2 && s1 == s2 && t1 == t2,
        (TypeInner::Struct { members: m1 }, TypeInner::Struct { members: m2 }) => {
            if m1.len() != m2.len() {
                proof {
                    assert(m1.deep_view().len() != m2.deep_view().len());
                }
                false
            } else {
                let mut k: usize = 0;
                while k < m1.len()
                    invariant
                        k <= m1@.len(),
                        m1@.len() == m2@.len(),
                        a@ == (TypeInnerView::Struct { members: m1.deep_view() }),
                        b@ == (TypeInnerView::Struct { members: m2.deep_view() }),
                        forall|j: int| 0 <= j < k ==> m1.deep_view()[j] == m2.deep_view()[j],
                    decreases m1@.len() - k,
                {
                    let same_name = names_eq(&m1[k].name, &m2[k].name);
                    if !(same_name && m1[k].ty == m2[k].ty) {
                        proof {
                            assert(m1.deep_view()[k as int] != m2.deep_view()[k as int]);
                        }
                        return false;
                    }
                    k += 1;
                }
                proof {
                    assert(m1.deep_view() =~= m2.deep_view());
                }
                true
            }
        },
        (TypeInner::Image, TypeInner::Image) => true,
        (TypeInner::Sampler { comparison: c1 }, TypeInner::Sampler { comparison: c2 }) => c1 == c2,
        _ => false,
    }
}

/// Decides view equality of two types.
pub fn types_eq(a: &Type, b: &Type) -> (r: bool)
    ensures
        r == (a@ == b@),
{
    names_eq(&a.name, &b.name) && inners_eq(&a.inner, &b.inner)
}

/// The first position holding a type with this view, or -1.
pub open spec fn find_type(types: Seq<TypeView>, t: TypeView) -> int
    decreases types.len(),
{
    if types.len() == 0 {
        -1
    } else if types.first() == t {
        0
    } else {
        let r = find_type(types.drop_first(), t);
        if r < 0 {
            -1
        } else {
            r + 1
        }
    }
}

proof fn lemma_find_type_at(types: Seq<TypeView>, t: TypeView, j: int)
    requires
        0 <= j < types.len(),
        types[j] == t,
        forall|k: int| 0 <= k < j ==> types[k] != t,
    ensures
        find_type(types, t) == j,
    decreases j,
{
    if j > 0 {
        assert(types.drop_first()[j - 1] == types[j]);
        assert forall|k: int| 0 <= k < j - 1 implies types.drop_first()[k] != t by {
            assert(types.drop_first()[k] == types[k + 1]);
        }
        lemma_find_type_at(types.drop_first(), t, j - 1);
    }
}

proof fn lemma_find_type_none(types: Seq<TypeView>, t: TypeView)
    requires
        forall|k: int| 0 <= k < types.len() ==> types[k] != t,
    ensures
        find_type(types, t) == -1,
    decreases types.len(),
{
    if types.len() > 0 {
        assert forall|k: int| 0 <= k < types.len() - 1 implies types.drop_first()[k] != t by {
            assert(types.drop_first()[k] == types[k + 1]);
        }
        lemma_find_type_none(types.drop_first(), t);
    }
}

/// The arena and handle after inserting `t` with deduplication: the first
/// position already holding an equal type, or a fresh position at the end.
pub open spec fn fetch_spec(types: Seq<TypeView>, t: TypeView) -> (Seq<TypeView>, Handle) {
    let j = find_type(types, t);
    if j >= 0 {
        (types, Handle { index: j as usize })
    } else {
        (types.push(t), Handle { index: types.len() as usize })
    }
}

impl Arena<Type> {
    /// Inserts `t`, deduplicating: an equal type already present keeps its
    /// handle and nothing is appended.
    pub fn fetch_or_append(&mut self, t: Type) -> (h: Handle)
        ensures
            final(self).items.deep_view() == fetch_spec(old(self).items.deep_view(), t@).0,
            h == fetch_spec(old(self).items.deep_view(), t@).1,
            old(self).items.deep_view().is_prefix_of(final(self).items.deep_view()),
            h.idx() < final(self).items.deep_view().len(),
            final(self).items.deep_view()[h.idx()] == t@,
    {
        let ghost whole = self.items.deep_view();
        let n = self.items.len();
        let mut j: usize = 0;
        while j < n
            invariant
                j <= n,
                n == self.items@.len(),
                whole == self.items.deep_view(),
                forall|k: int| 0 <= k < j ==> whole[k] != t@,
            decreases n - j,
        {
            if types_eq(&self.items[j], &t) {
                proof {
                    lemma_find_type_at(whole, t@, j as int);
                    crate::typifier::lemma_prefix_refl(whole);
                }
                return Handle { index: j };
            }
            j += 1;
        }
        proof {
            lemma_find_type_none(whole, t@);
        }
        let h = self.append(t);
        proof {
            assert(self.items.deep_view() =~= whole.push(t@));
            crate::typifier::lemma_prefix_push(whole, t@);
        }
        h
    }
}


} // verus!
