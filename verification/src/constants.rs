use vstd::prelude::*;

use crate::arena::{Arena, Handle};
use crate::ast::Program;
use crate::error::{result_view, ErrorKind, ErrorView, SemanticError};
use crate::ir::{
    BinaryOperator, Constant, ConstantInner, ConstantInnerView, ConstantView, Expression,
    ExpressionView, ScalarValue, UnaryOperator,
};

verus! {

/// The first position holding a constant with this view, or -1.
pub open spec fn find_const(constants: Seq<ConstantView>, c: ConstantView) -> int
    decreases constants.len(),
{
    if constants.len() == 0 {
        -1
    } else if constants.first() == c {
        0
    } else {
        let r = find_const(constants.drop_first(), c);
        if r < 0 {
            -1
        } else {
            r + 1
        }
    }
}

/// The constant arena and handle after inserting `c` with deduplication.
pub open spec fn fetch_const_spec(constants: Seq<ConstantView>, c: ConstantView) -> (
    Seq<ConstantView>,
    Handle,
) {
    let j = find_const(constants, c);
    if j >= 0 {
        (constants, Handle { index: j as usize })
    } else {
        (constants.push(c), Handle { index: constants.len() as usize })
    }
}

/// An unnamed scalar constant of the given width and value.
pub open spec fn scalar_const(width: u8, value: ScalarValue) -> ConstantView {
    ConstantView { name: None, inner: ConstantInnerView::Scalar { width, value } }
}

/// The arena and outcome of negating the constant at `h`: integer scalars
/// negate, everything else cannot be folded; the handle `at` names the
/// expression being folded in either error.
pub open spec fn negate_const(constants: Seq<ConstantView>, h: Handle, at: Handle) -> (
    Seq<ConstantView>,
    Result<Handle, ErrorView>,
) {
    if h.idx() < constants.len() {
        match constants[h.idx()].inner {
            ConstantInnerView::Scalar { width, value: ScalarValue::Sint(v) } => {
                if v == i64::MIN {
                    (constants, Err(ErrorView::ConstantOverflow(at)))
                } else {
                    let folded = fetch_const_spec(
                        constants,
                        scalar_const(width, ScalarValue::Sint((0 - v as int) as i64)),
                    );
                    (folded.0, Ok(folded.1))
                }
            },
            _ => (constants, Err(ErrorView::UnfoldableConstant(at))),
        }
    } else {
        (constants, Err(ErrorView::UnfoldableConstant(at)))
    }
}

/// The mathematical result of one foldable binary operator.
pub open spec fn binary_value(op: BinaryOperator, a: int, b: int) -> int {
    match op {
        BinaryOperator::Add => a + b,
        BinaryOperator::Subtract => a - b,
        _ => a * b,
    }
}

pub open spec fn is_foldable_op(op: BinaryOperator) -> bool {
    match op {
        BinaryOperator::Add => true,
        BinaryOperator::Subtract => true,
        BinaryOperator::Multiply => true,
        _ => false,
    }
}

/// The arena and outcome of combining the constants at `hl` and `hr` under
/// a foldable operator: two signed or two unsigned integer scalars fold,
/// taking the left operand's width; a result out of the scalar's range is
/// an overflow; everything else cannot be folded.
pub open spec fn combine_consts(
    constants: Seq<ConstantView>,
    op: BinaryOperator,
    hl: Handle,
    hr: Handle,
    at: Handle,
) -> (Seq<ConstantView>, Result<Handle, ErrorView>) {
    if hl.idx() < constants.len() && hr.idx() < constants.len() {
        match (constants[hl.idx()].inner, constants[hr.idx()].inner) {
            (
                ConstantInnerView::Scalar { width, value: ScalarValue::Sint(a) },
                ConstantInnerView::Scalar { width: _w2, value: ScalarValue::Sint(b) },
            ) => {
                let x = binary_value(op, a as int, b as int);
                if i64::MIN <= x <= i64::MAX {
                    let folded = fetch_const_spec(
                        constants,
                        scalar_const(width, ScalarValue::Sint(x as i64)),
                    );
                    (folded.0, Ok(folded.1))
                } else {
                    (constants, Err(ErrorView::ConstantOverflow(at)))
                }
            },
            (
                ConstantInnerView::Scalar { width, value: ScalarValue::Uint(a) },
                ConstantInnerView::Scalar { width: _w2, value: ScalarValue::Uint(b) },
            ) => {
                let x = binary_value(op, a as int, b as int);
                if 0 <= x <= u64::MAX {
                    let folded = fetch_const_spec(
                        constants,
                        scalar_const(width, ScalarValue::Uint(x as u64)),
                    );
                    (folded.0, Ok(folded.1))
                } else {
                    (constants, Err(ErrorView::ConstantOverflow(at)))
                }
            },
            _ => (constants, Err(ErrorView::UnfoldableConstant(at))),
        }
    } else {
        (constants, Err(ErrorView::UnfoldableConstant(at)))
    }
}

/// The constant arena and outcome of folding the expression at `i` into a
/// single constant: a constant reference is already folded; negation and
/// the foldable binary operators fold their operands first, left before
/// right, threading the arena through; every other shape — and any operand
/// that does not stand earlier in the arena than its user — cannot be
/// folded, and the error names the expression that stopped the fold.
pub open spec fn fold_spec(
    exprs: Seq<ExpressionView>,
    constants: Seq<ConstantView>,
    i: int,
) -> (Seq<ConstantView>, Result<Handle, ErrorView>)
    decreases i,
{
    let at = Handle { index: if i >= 0 { i as usize } else { 0 } };
    if i < 0 || i >= exprs.len() {
        (constants, Err(ErrorView::UnfoldableConstant(at)))
    } else {
        match exprs[i] {
            ExpressionView::Constant(h) => (constants, Ok(h)),
            ExpressionView::Unary { op: UnaryOperator::Negate, expr } => {
                if expr.idx() < i {
                    let r1 = fold_spec(exprs, constants, expr.idx());
                    match r1.1 {
                        Ok(h) => negate_const(r1.0, h, at),
                        Err(err) => (r1.0, Err(err)),
                    }
                } else {
                    (constants, Err(ErrorView::UnfoldableConstant(at)))
                }
            },
            ExpressionView::Binary { op, left, right } => {
                if is_foldable_op(op) && left.idx() < i && right.idx() < i {
                    let r1 = fold_spec(exprs, constants, left.idx());
                    match r1.1 {
                        Ok(hl) => {
                            let r2 = fold_spec(exprs, r1.0, right.idx());
                            match r2.1 {
                                Ok(hr) => combine_consts(r2.0, op, hl, hr, at),
                                Err(err) => (r2.0, Err(err)),
                            }
                        },
                        Err(err) => (r1.0, Err(err)),
                    }
                } else {
                    (constants, Err(ErrorView::UnfoldableConstant(at)))
                }
            },
            _ => (constants, Err(ErrorView::UnfoldableConstant(at))),
        }
    }
}

proof fn lemma_find_const_at(constants: Seq<ConstantView>, c: ConstantView, j: int)
    requires
        0 <= j < constants.len(),
        constants[j] == c,
        forall|k: int| 0 <= k < j ==> constants[k] != c,
    ensures
        find_const(constants, c) == j,
    decreases j,
{
    if j > 0 {
        assert(constants.drop_first()[j - 1] == constants[j]);
        assert forall|k: int| 0 <= k < j - 1 implies constants.drop_first()[k] != c by {
            assert(constants.drop_first()[k] == constants[k + 1]);
        }
        lemma_find_const_at(constants.drop_first(), c, j - 1);
    }
}

proof fn lemma_find_const_none(constants: Seq<ConstantView>, c: ConstantView)
    requires
        forall|k: int| 0 <= k < constants.len() ==> constants[k] != c,
    ensures
        find_const(constants, c) == -1,
    decreases constants.len(),
{
    if constants.len() > 0 {
        assert forall|k: int| 0 <= k < constants.len() - 1 implies constants.drop_first()[k] != c by {
            assert(constants.drop_first()[k] == constants[k + 1]);
        }
        lemma_find_const_none(constants.drop_first(), c);
    }
}

/// Decides view equality between a stored constant and a fresh unnamed
/// scalar constant.
fn is_same_scalar_const(stored: &Constant, width: u8, value: ScalarValue) -> (r: bool)
    ensures
        r == (stored@ == scalar_const(width, value)),
{
    match (&stored.name, &stored.inner) {
        (None, ConstantInner::Scalar { width: w2, value: v2 }) => width == *w2 && value == *v2,
        _ => false,
    }
}

impl Arena<Constant> {
    /// Inserts an unnamed scalar constant, deduplicating.
    fn fetch_scalar(&mut self, width: u8, value: ScalarValue) -> (h: Handle)
        ensures
            final(self).items.deep_view() == fetch_const_spec(
                old(self).items.deep_view(),
                scalar_const(width, value),
            ).0,
            h == fetch_const_spec(old(self).items.deep_view(), scalar_const(width, value)).1,
            old(self).items.deep_view().is_prefix_of(final(self).items.deep_view()),
    {
        let ghost whole = self.items.deep_view();
        let ghost target = scalar_const(width, value);
        let n = self.items.len();
        let mut j: usize = 0;
        while j < n
            invariant
                j <= n,
                n == self.items@.len(),
                whole == self.items.deep_view(),
                target == scalar_const(width, value),
                forall|k: int| 0 <= k < j ==> whole[k] != target,
            decreases n - j,
        {
            if is_same_scalar_const(&self.items[j], width, value) {
                proof {
                    lemma_find_const_at(whole, target, j as int);
                    crate::typifier::lemma_prefix_refl(whole);
                }
                return Handle { index: j };
            }
            j += 1;
        }
        proof {
            lemma_find_const_none(whole, target);
        }
        let h = self.append(
            Constant { name: None, inner: ConstantInner::Scalar { width, value } },
        );
        proof {
            assert(self.items.deep_view() =~= whole.push(target));
            crate::typifier::lemma_prefix_push(whole, target);
        }
        h
    }
}

impl Program {
    /// Folds the expression subgraph rooted at `root` into a single
    /// constant, appending it to — or reusing it from, by deduplication —
    /// the module's constant arena, exactly as `fold_spec` lays it out.
    /// Fails, naming the offending expression, as soon as any node of the
    /// subgraph is not a compile-time value, and reports an overflow when
    /// a folded integer leaves its scalar's range.
    pub fn solve_constant(&mut self, expressions: &Arena<Expression>, root: Handle) -> (r: Result<
        Handle,
        ErrorKind,
    >)
        ensures
            ({
                let folded = fold_spec(
                    expressions.items.deep_view(),
                    old(self).module.constants.items.deep_view(),
                    root.idx(),
                );
                &&& final(self).module.constants.items.deep_view() == folded.0
                &&& result_view(r) == folded.1
            }),
            old(self).module.constants.items.deep_view().is_prefix_of(
                final(self).module.constants.items.deep_view(),
            ),
            final(self).module.types == old(self).module.types,
            final(self).module.global_variables == old(self).module.global_variables,
            final(self).module.functions == old(self).module.functions,
            final(self).version == old(self).version,
            final(self).profile == old(self).profile,
            final(self).entry_points == old(self).entry_points,
            final(self).lookup_function == old(self).lookup_function,
            final(self).lookup_type == old(self).lookup_type,
            final(self).lookup_global_variables == old(self).lookup_global_variables,
            final(self).lookup_constants == old(self).lookup_constants,
        decreases root.index,
    {
        let unfoldable = ErrorKind::SemanticError(SemanticError::UnfoldableConstant(root));
        if root.index >= expressions.len() {
            proof {
                crate::typifier::lemma_prefix_refl(self.module.constants.items.deep_view());
            }
            return Err(unfoldable);
        }
        let ghost consts0 = self.module.constants.items.deep_view();
        match expressions.get(root) {
            Expression::Constant(h) => {
                proof {
                    crate::typifier::lemma_prefix_refl(consts0);
                }
                Ok(*h)
            },
            Expression::Unary { op: UnaryOperator::Negate, expr } => {
                if expr.index < root.index {
                    let operand = match self.solve_constant(expressions, *expr) {
                        Ok(h) => h,
                        Err(e) => {
                            return Err(e);
                        },
                    };
                    let ghost consts1 = self.module.constants.items.deep_view();
                    if operand.index < self.module.constants.len() {
                        let stored = self.module.constants.get(operand);
                        proof {
                            assert(consts1[operand.idx()] == self.module.constants@[operand.idx()]@);
                        }
                        match &stored.inner {
                            ConstantInner::Scalar { width, value: ScalarValue::Sint(v) } => {
                                if *v == i64::MIN {
                                    Err(ErrorKind::SemanticError(SemanticError::ConstantOverflow(
                                        root,
                                    )))
                                } else {
                                    let width = *width;
                                    let folded: i64 = -(*v);
                                    Ok(self.module.constants.fetch_scalar(
                                        width,
                                        ScalarValue::Sint(folded),
                                    ))
                                }
                            },
                            _ => Err(unfoldable),
                        }
                    } else {
                        Err(unfoldable)
                    }
                } else {
                    proof {
                        crate::typifier::lemma_prefix_refl(consts0);
                    }
                    Err(unfoldable)
                }
            },
            Expression::Binary { op, left, right } => {
                let foldable = match op {
                    BinaryOperator::Add => true,
                    BinaryOperator::Subtract => true,
                    BinaryOperator::Multiply => true,
                    _ => false,
                };
                if foldable && left.index < root.index && right.index < root.index {
                    let hl = match self.solve_constant(expressions, *left) {
                        Ok(h) => h,
                        Err(e) => {
                            return Err(e);
                        },
                    };
                    let hr = match self.solve_constant(expressions, *right) {
                        Ok(h) => h,
                        Err(e) => {
                            return Err(e);
                        },
                    };
                    let ghost consts2 = self.module.constants.items.deep_view();
                    if hl.index < self.module.constants.len() && hr.index
                        < self.module.constants.len() {
                        let wl;
                        let vl;
                        match &self.module.constants.get(hl).inner {
                            ConstantInner::Scalar { width, value } => {
                                wl = *width;
                                vl = Some(*value);
                            },
                            _ => {
                                wl = 0;
                                vl = None;
                            },
                        }
                        let vr;
                        match &self.module.constants.get(hr).inner {
                            ConstantInner::Scalar { width: _w, value } => {
                                vr = Some(*value);
                            },
                            _ => {
                                vr = None;
                            },
                        }
                        proof {
                            assert(consts2[hl.idx()] == self.module.constants@[hl.idx()]@);
                            assert(consts2[hr.idx()] == self.module.constants@[hr.idx()]@);
                        }
                        match (vl, vr) {
                            (Some(ScalarValue::Sint(a)), Some(ScalarValue::Sint(b))) => {
                                let folded: Option<i64> = match op {
                                    BinaryOperator::Add => a.checked_add(b),
                                    BinaryOperator::Subtract => a.checked_sub(b),
                                    _ => a.checked_mul(b),
                                };
                                match folded {
                                    Some(x) => Ok(self.module.constants.fetch_scalar(
                                        wl,
                                        ScalarValue::Sint(x),
                                    )),
                                    None => Err(ErrorKind::SemanticError(
                                        SemanticError::ConstantOverflow(root),
                                    )),
                                }
                            },
                            (Some(ScalarValue::Uint(a)), Some(ScalarValue::Uint(b))) => {
                                let folded: Option<u64> = match op {
                                    BinaryOperator::Add => a.checked_add(b),
                                    BinaryOperator::Subtract => a.checked_sub(b),
                                    _ => a.checked_mul(b),
                                };
                                match folded {
                                    Some(x) => Ok(self.module.constants.fetch_scalar(
                                        wl,
                                        ScalarValue::Uint(x),
                                    )),
                                    None => Err(ErrorKind::SemanticError(
                                        SemanticError::ConstantOverflow(root),
                                    )),
                                }
                            },
                            _ => Err(unfoldable),
                        }
                    } else {
                        Err(unfoldable)
                    }
                } else {
                    proof {
                        crate::typifier::lemma_prefix_refl(consts0);
                    }
                    Err(unfoldable)
                }
            },
            _ => {
                proof {
                    crate::typifier::lemma_prefix_refl(consts0);
                }
                Err(unfoldable)
            },
        }
    }
}

} // verus!
