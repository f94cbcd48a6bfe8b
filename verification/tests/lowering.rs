use glsl_front::arena::Handle;
use glsl_front::ast::{Expr, ExprKind, ExpressionRule, FunctionContext, Program};
use glsl_front::error::{ErrorKind, SemanticError, TokenMetadata, Unsupported};
use glsl_front::ir::{
    BinaryOperator, BuiltIn, Constant, ConstantInner, Expression, Function, LocalVariable,
    RelationalFunction, ScalarKind, ScalarValue, Statement, Type, TypeInner, UnaryOperator,
    VectorSize,
};

fn meta() -> TokenMetadata {
    TokenMetadata { line: 1, start: 0, end: 1 }
}

fn scalar_type(program: &mut Program) -> Handle {
    program.module.types.append(Type {
        name: None,
        inner: TypeInner::Scalar { kind: ScalarKind::Float, width: 4 },
    })
}

fn vector_type(program: &mut Program) -> Handle {
    program.module.types.append(Type {
        name: None,
        inner: TypeInner::Vector { size: VectorSize::Tri, kind: ScalarKind::Float, width: 4 },
    })
}

/// Declares a local of the given type and binds `name` to it, the way a
/// declaration lowers: a local-variable pointer expression, then the
/// binding with its preemitted load.
fn bind_local(context: &mut FunctionContext, name: &str, ty: Handle) {
    let local = context.function.local_variables.append(LocalVariable {
        name: Some(String::from(name)),
        ty,
        init: None,
    });
    let pointer = context.function.expressions.append(Expression::LocalVariable(local));
    context.add_local_var(String::from(name), pointer);
}

#[test]
fn inner_scope_binding_shadows_and_pop_restores() {
    let mut program = Program::new(Vec::new());
    let ty = scalar_type(&mut program);
    let mut context = FunctionContext::new(Function::new(None));

    bind_local(&mut context, "x", ty);
    let outer = context.lookup_local_var("x").unwrap();

    context.push_scope();
    bind_local(&mut context, "x", ty);
    let inner = context.lookup_local_var("x").unwrap();
    assert_ne!(outer.expr, inner.expr);
    assert_eq!(context.lookup_local_var("x").unwrap().expr, inner.expr);

    context.remove_current_scope();
    assert_eq!(context.lookup_local_var("x").unwrap().expr, outer.expr);
}

#[test]
fn current_scope_lookup_sees_only_the_innermost_frame() {
    let mut program = Program::new(Vec::new());
    let ty = scalar_type(&mut program);
    let mut context = FunctionContext::new(Function::new(None));
    bind_local(&mut context, "x", ty);
    context.push_scope();
    assert!(context.lookup_local_var_current_scope("x").is_none());
    assert!(context.lookup_local_var("x").is_some());
    context.remove_current_scope();
    assert!(context.lookup_local_var_current_scope("x").is_some());
}

#[test]
fn clear_scopes_leaves_one_empty_frame() {
    let mut program = Program::new(Vec::new());
    let ty = scalar_type(&mut program);
    let mut context = FunctionContext::new(Function::new(None));
    bind_local(&mut context, "x", ty);
    context.push_scope();
    context.clear_scopes();
    assert!(context.lookup_local_var("x").is_none());
    assert_eq!(context.scopes.len(), 1);
}

#[test]
fn lookup_order_is_locals_then_globals_then_constants() {
    let mut program = Program::new(Vec::new());
    let ty = scalar_type(&mut program);
    let mut context = FunctionContext::new(Function::new(None));

    let g = context.function.expressions.append(Expression::GlobalVariable(Handle::new(0)));
    context
        .lookup_global_var_exps
        .insert(String::from("shared"), glsl_front::ast::VariableReference { expr: g, load: None });
    let c = context.function.expressions.append(Expression::Constant(Handle::new(0)));
    context
        .lookup_constant_exps
        .insert(String::from("shared"), glsl_front::ast::VariableReference { expr: c, load: None });

    // the global cache wins over the constant cache
    let found = program.lookup_variable(&mut context, "shared").unwrap().unwrap();
    assert_eq!(found.expr, g);

    // a local shadows both caches
    bind_local(&mut context, "shared", ty);
    let local = context.lookup_local_var("shared").unwrap();
    let found = program.lookup_variable(&mut context, "shared").unwrap().unwrap();
    assert_eq!(found.expr, local.expr);

    // the constant cache answers when nothing shadows it
    let k = context.function.expressions.append(Expression::Constant(Handle::new(0)));
    context
        .lookup_constant_exps
        .insert(String::from("pi"), glsl_front::ast::VariableReference { expr: k, load: None });
    let found = program.lookup_variable(&mut context, "pi").unwrap().unwrap();
    assert_eq!(found.expr, k);
}

#[test]
fn unknown_names_are_not_found_and_builtins_are_not_implemented() {
    let mut program = Program::new(Vec::new());
    let mut context = FunctionContext::new(Function::new(None));
    assert!(program.lookup_variable(&mut context, "nothing").unwrap().is_none());
    let r = program.lookup_variable(&mut context, "gl_Position");
    assert!(matches!(
        r,
        Err(ErrorKind::NotImplemented(Unsupported::BuiltinVariable(BuiltIn::Position)))
    ));
    let r = program.lookup_variable(&mut context, "gl_VertexIndex");
    assert!(matches!(
        r,
        Err(ErrorKind::NotImplemented(Unsupported::BuiltinVariable(BuiltIn::VertexIndex)))
    ));
    let r = program.lookup_variable(&mut context, "gl_InstanceIndex");
    assert!(matches!(
        r,
        Err(ErrorKind::NotImplemented(Unsupported::BuiltinVariable(BuiltIn::InstanceIndex)))
    ));
}

#[test]
fn assignment_emits_one_store_and_is_valued_at_the_rvalue() {
    let mut program = Program::new(Vec::new());
    let ty = scalar_type(&mut program);
    let mut context = FunctionContext::new(Function::new(None));
    bind_local(&mut context, "a", ty);
    bind_local(&mut context, "b", ty);
    let a = context.lookup_local_var("a").unwrap();
    let b = context.lookup_local_var("b").unwrap();

    let expr = Expr {
        kind: ExprKind::Assign {
            tgt: Box::new(Expr { kind: ExprKind::Variable(a), meta: meta() }),
            value: Box::new(Expr { kind: ExprKind::Variable(b), meta: meta() }),
        },
        meta: meta(),
    };
    let value = context.resolve(&mut program, expr, false).unwrap();

    // the assignment is valued at b's preloaded rvalue
    assert_eq!(value, b.load.unwrap());
    // exactly one store, binding a's storage to that value
    assert_eq!(context.function.body.len(), 1);
    assert!(matches!(
        context.function.body[0],
        Statement::Store { pointer, value: v } if pointer == a.expr && v == value
    ));
}

#[test]
fn variable_lowering_distinguishes_lvalue_and_rvalue() {
    let mut program = Program::new(Vec::new());
    let ty = scalar_type(&mut program);
    let mut context = FunctionContext::new(Function::new(None));
    bind_local(&mut context, "a", ty);
    let a = context.lookup_local_var("a").unwrap();

    let as_rvalue = context
        .resolve(&mut program, Expr { kind: ExprKind::Variable(a), meta: meta() }, false)
        .unwrap();
    assert_eq!(as_rvalue, a.load.unwrap());
    let as_lvalue = context
        .resolve(&mut program, Expr { kind: ExprKind::Variable(a), meta: meta() }, true)
        .unwrap();
    assert_eq!(as_lvalue, a.expr);
}

#[test]
fn binary_and_unary_lowering_append_their_nodes() {
    let mut program = Program::new(Vec::new());
    let ty = scalar_type(&mut program);
    let mut context = FunctionContext::new(Function::new(None));
    bind_local(&mut context, "a", ty);
    let a = context.lookup_local_var("a").unwrap();

    let expr = Expr {
        kind: ExprKind::Unary {
            op: UnaryOperator::Negate,
            expr: Box::new(Expr {
                kind: ExprKind::Binary {
                    left: Box::new(Expr { kind: ExprKind::Variable(a), meta: meta() }),
                    op: BinaryOperator::Add,
                    right: Box::new(Expr { kind: ExprKind::Variable(a), meta: meta() }),
                },
                meta: meta(),
            }),
        },
        meta: meta(),
    };
    let h = context.resolve(&mut program, expr, false).unwrap();
    assert!(matches!(
        &context.function.expressions.items[h.index],
        Expression::Unary { op: UnaryOperator::Negate, expr } if matches!(
            &context.function.expressions.items[expr.index],
            Expression::Binary { op: BinaryOperator::Add, left, right }
                if *left == a.load.unwrap() && *right == a.load.unwrap()
        )
    ));
}

#[test]
fn conditional_lowering_appends_a_select_node() {
    let mut program = Program::new(Vec::new());
    let ty = scalar_type(&mut program);
    let mut context = FunctionContext::new(Function::new(None));
    bind_local(&mut context, "c", ty);
    let c = context.lookup_local_var("c").unwrap();

    let leaf = |var| Box::new(Expr { kind: ExprKind::Variable(var), meta: meta() });
    let expr = Expr {
        kind: ExprKind::Conditional { condition: leaf(c), accept: leaf(c), reject: leaf(c) },
        meta: meta(),
    };
    let h = context.resolve(&mut program, expr, false).unwrap();
    assert!(matches!(
        &context.function.expressions.items[h.index],
        Expression::Select { .. }
    ));
}

#[test]
fn element_access_keeps_the_ambient_context_for_the_base() {
    let mut program = Program::new(Vec::new());
    let ty = vector_type(&mut program);
    let index_ty = scalar_type(&mut program);
    let mut context = FunctionContext::new(Function::new(None));
    bind_local(&mut context, "v", ty);
    bind_local(&mut context, "i", index_ty);
    let v = context.lookup_local_var("v").unwrap();
    let i = context.lookup_local_var("i").unwrap();

    let access = Expr {
        kind: ExprKind::Access {
            base: Box::new(Expr { kind: ExprKind::Variable(v), meta: meta() }),
            index: Box::new(Expr { kind: ExprKind::Variable(i), meta: meta() }),
        },
        meta: meta(),
    };
    // in lvalue context the base contributes its storage, the index its value
    let h = context.resolve(&mut program, access, true).unwrap();
    assert!(matches!(
        &context.function.expressions.items[h.index],
        Expression::Access { base, index }
            if *base == v.expr && *index == i.load.unwrap()
    ));
}

#[test]
fn function_calls_are_not_implemented() {
    let mut program = Program::new(Vec::new());
    let mut context = FunctionContext::new(Function::new(None));
    let expr = Expr {
        kind: ExprKind::Call(glsl_front::ast::FunctionCall {
            kind: glsl_front::ast::FunctionCallKind::Function(String::from("max")),
            args: Vec::new(),
        }),
        meta: meta(),
    };
    let r = context.resolve(&mut program, expr, false);
    assert!(matches!(r, Err(ErrorKind::NotImplemented(Unsupported::FunctionCall))));
}

#[test]
fn scalar_equality_lowers_to_one_comparison_node() {
    let mut program = Program::new(Vec::new());
    let ty = scalar_type(&mut program);
    let mut context = FunctionContext::new(Function::new(None));
    context.add_function_arg(Some(String::from("a")), ty);
    context.add_function_arg(Some(String::from("b")), ty);
    let a = context.lookup_local_var("a").unwrap();
    let b = context.lookup_local_var("b").unwrap();

    let before = context.function.expressions.len();
    let rule = program
        .equality_expr(
            &mut context,
            true,
            &ExpressionRule::from_expression(a.expr),
            &ExpressionRule::from_expression(b.expr),
        )
        .unwrap();
    assert_eq!(context.function.expressions.len(), before + 1);
    assert!(matches!(
        &context.function.expressions.items[rule.expression.index],
        Expression::Binary { op: BinaryOperator::Equal, left, right }
            if *left == a.expr && *right == b.expr
    ));
}

#[test]
fn vector_equality_lowers_to_comparison_and_all_reduction() {
    let mut program = Program::new(Vec::new());
    let ty = vector_type(&mut program);
    let mut context = FunctionContext::new(Function::new(None));
    context.add_function_arg(Some(String::from("a")), ty);
    context.add_function_arg(Some(String::from("b")), ty);
    let a = context.lookup_local_var("a").unwrap();
    let b = context.lookup_local_var("b").unwrap();

    let before = context.function.expressions.len();
    let rule = program
        .equality_expr(
            &mut context,
            true,
            &ExpressionRule::from_expression(a.expr),
            &ExpressionRule::from_expression(b.expr),
        )
        .unwrap();
    assert_eq!(context.function.expressions.len(), before + 2);
    match &context.function.expressions.items[rule.expression.index] {
        Expression::Relational { fun: RelationalFunction::All, argument } => {
            assert!(matches!(
                &context.function.expressions.items[argument.index],
                Expression::Binary { op: BinaryOperator::Equal, .. }
            ));
        },
        other => panic!("expected an all-reduction, found {:?}", other),
    }
}

#[test]
fn vector_inequality_lowers_to_comparison_and_any_reduction() {
    let mut program = Program::new(Vec::new());
    let ty = vector_type(&mut program);
    let mut context = FunctionContext::new(Function::new(None));
    context.add_function_arg(Some(String::from("a")), ty);
    context.add_function_arg(Some(String::from("b")), ty);
    let a = context.lookup_local_var("a").unwrap();
    let b = context.lookup_local_var("b").unwrap();

    let rule = program
        .equality_expr(
            &mut context,
            false,
            &ExpressionRule::from_expression(a.expr),
            &ExpressionRule::from_expression(b.expr),
        )
        .unwrap();
    match &context.function.expressions.items[rule.expression.index] {
        Expression::Relational { fun: RelationalFunction::Any, argument } => {
            assert!(matches!(
                &context.function.expressions.items[argument.index],
                Expression::Binary { op: BinaryOperator::NotEqual, .. }
            ));
        },
        other => panic!("expected an any-reduction, found {:?}", other),
    }
}

#[test]
fn resolve_type_memoizes_and_reports_the_failing_handle() {
    let mut program = Program::new(Vec::new());
    let mut context = FunctionContext::new(Function::new(None));
    let c = program.module.constants.append(Constant {
        name: None,
        inner: ConstantInner::Scalar { width: 4, value: ScalarValue::Sint(7) },
    });
    let e = context.function.expressions.append(Expression::Constant(c));
    let t = program.resolve_type(&mut context, e).unwrap();
    assert!(matches!(t, TypeInner::Scalar { kind: ScalarKind::Sint, width: 4 }));
    assert_eq!(context.typifier.resolutions.len(), 1);
    // resolving again re-derives nothing
    let t = program.resolve_type(&mut context, e).unwrap();
    assert!(matches!(t, TypeInner::Scalar { kind: ScalarKind::Sint, width: 4 }));
    assert_eq!(context.typifier.resolutions.len(), 1);

    // a load behind a dangling pointer cannot be typed, and the error
    // names its handle
    let bad = context.function.expressions.append(Expression::Load {
        pointer: Handle::new(99),
    });
    let r = program.resolve_type(&mut context, bad);
    assert!(matches!(
        r,
        Err(ErrorKind::SemanticError(SemanticError::UnresolvedType(h))) if h == bad
    ));
}

#[test]
fn constant_folding_adds_and_deduplicates() {
    let mut program = Program::new(Vec::new());
    let mut function = Function::new(None);
    let c3 = program.module.constants.append(Constant {
        name: None,
        inner: ConstantInner::Scalar { width: 4, value: ScalarValue::Sint(3) },
    });
    let c4 = program.module.constants.append(Constant {
        name: None,
        inner: ConstantInner::Scalar { width: 4, value: ScalarValue::Sint(4) },
    });
    let e3 = function.expressions.append(Expression::Constant(c3));
    let e4 = function.expressions.append(Expression::Constant(c4));
    let sum = function.expressions.append(Expression::Binary {
        op: BinaryOperator::Add,
        left: e3,
        right: e4,
    });
    let h = program.solve_constant(&function.expressions, sum).unwrap();
    assert!(matches!(
        program.module.constants.items[h.index].inner,
        ConstantInner::Scalar { width: 4, value: ScalarValue::Sint(7) }
    ));
    // solving the same subgraph again reuses the folded constant
    let before = program.module.constants.len();
    let again = program.solve_constant(&function.expressions, sum).unwrap();
    assert_eq!(again, h);
    assert_eq!(program.module.constants.len(), before);
}

#[test]
fn constant_folding_negates_subtracts_and_multiplies() {
    let mut program = Program::new(Vec::new());
    let mut function = Function::new(None);
    let c10 = program.module.constants.append(Constant {
        name: None,
        inner: ConstantInner::Scalar { width: 4, value: ScalarValue::Uint(10) },
    });
    let c6 = program.module.constants.append(Constant {
        name: None,
        inner: ConstantInner::Scalar { width: 4, value: ScalarValue::Uint(6) },
    });
    let e10 = function.expressions.append(Expression::Constant(c10));
    let e6 = function.expressions.append(Expression::Constant(c6));
    let diff = function.expressions.append(Expression::Binary {
        op: BinaryOperator::Subtract,
        left: e10,
        right: e6,
    });
    let h = program.solve_constant(&function.expressions, diff).unwrap();
    assert!(matches!(
        program.module.constants.items[h.index].inner,
        ConstantInner::Scalar { value: ScalarValue::Uint(4), .. }
    ));

    let prod = function.expressions.append(Expression::Binary {
        op: BinaryOperator::Multiply,
        left: e10,
        right: e6,
    });
    let h = program.solve_constant(&function.expressions, prod).unwrap();
    assert!(matches!(
        program.module.constants.items[h.index].inner,
        ConstantInner::Scalar { value: ScalarValue::Uint(60), .. }
    ));

    let cs = program.module.constants.append(Constant {
        name: None,
        inner: ConstantInner::Scalar { width: 4, value: ScalarValue::Sint(9) },
    });
    let es = function.expressions.append(Expression::Constant(cs));
    let neg = function.expressions.append(Expression::Unary {
        op: UnaryOperator::Negate,
        expr: es,
    });
    let h = program.solve_constant(&function.expressions, neg).unwrap();
    assert!(matches!(
        program.module.constants.items[h.index].inner,
        ConstantInner::Scalar { value: ScalarValue::Sint(-9), .. }
    ));
}

#[test]
fn constant_folding_reports_overflow_and_unfoldable_nodes() {
    let mut program = Program::new(Vec::new());
    let mut function = Function::new(None);
    let big = program.module.constants.append(Constant {
        name: None,
        inner: ConstantInner::Scalar { width: 8, value: ScalarValue::Sint(i64::MAX) },
    });
    let one = program.module.constants.append(Constant {
        name: None,
        inner: ConstantInner::Scalar { width: 8, value: ScalarValue::Sint(1) },
    });
    let eb = function.expressions.append(Expression::Constant(big));
    let eo = function.expressions.append(Expression::Constant(one));
    let sum = function.expressions.append(Expression::Binary {
        op: BinaryOperator::Add,
        left: eb,
        right: eo,
    });
    let r = program.solve_constant(&function.expressions, sum);
    assert!(matches!(
        r,
        Err(ErrorKind::SemanticError(SemanticError::ConstantOverflow(h))) if h == sum
    ));

    let load = function.expressions.append(Expression::Load { pointer: eb });
    let r = program.solve_constant(&function.expressions, load);
    assert!(matches!(
        r,
        Err(ErrorKind::SemanticError(SemanticError::UnfoldableConstant(h))) if h == load
    ));
}

#[test]
fn builder_helpers_wrap_fresh_nodes() {
    let mut program = Program::new(Vec::new());
    let mut function = Function::new(None);
    let left = ExpressionRule::from_expression(function.expressions.append(
        Expression::FunctionArgument(0),
    ));
    let right = ExpressionRule::from_expression(function.expressions.append(
        Expression::FunctionArgument(1),
    ));
    let sum = program.binary_expr(&mut function, BinaryOperator::Add, &left, &right);
    assert!(sum.statements.is_empty());
    assert!(sum.sampler.is_none());
    assert!(matches!(
        &function.expressions.items[sum.expression.index],
        Expression::Binary { op: BinaryOperator::Add, left: l, right: r }
            if *l == left.expression && *r == right.expression
    ));
    let neg = program.unary_expr(&mut function, UnaryOperator::Negate, &sum);
    assert!(matches!(
        &function.expressions.items[neg.expression.index],
        Expression::Unary { op: UnaryOperator::Negate, expr } if *expr == sum.expression
    ));
}

#[test]
fn name_tables_answer_the_latest_insertion() {
    let mut program = Program::new(Vec::new());
    let ty = scalar_type(&mut program);
    program.lookup_type.insert(String::from("float"), ty);
    assert_eq!(program.lookup_type.lookup("float"), Some(ty));
    assert_eq!(program.lookup_type.lookup("int"), None);
    let other = scalar_type(&mut program);
    program.lookup_type.insert(String::from("float"), other);
    assert_eq!(program.lookup_type.lookup("float"), Some(other));
}

#[test]
fn member_select_lowers_through_the_expression_tree() {
    let mut program = Program::new(Vec::new());
    let scalar = scalar_type(&mut program);
    let st = program.module.types.append(Type {
        name: None,
        inner: TypeInner::Struct {
            members: vec![
                glsl_front::ir::StructMember { name: Some(String::from("a")), ty: scalar },
                glsl_front::ir::StructMember { name: Some(String::from("b")), ty: scalar },
            ],
        },
    });
    let mut context = FunctionContext::new(Function::new(None));
    context.add_function_arg(Some(String::from("data")), st);
    let v = context.lookup_local_var("data").unwrap();

    let expr = Expr {
        kind: ExprKind::Select {
            base: Box::new(Expr { kind: ExprKind::Variable(v), meta: meta() }),
            field: String::from("b"),
        },
        meta: meta(),
    };
    let h = context.resolve(&mut program, expr, false).unwrap();
    assert!(matches!(
        &context.function.expressions.items[h.index],
        Expression::AccessIndex { base, index: 1 } if *base == v.expr
    ));
}

#[test]
fn constant_references_lower_to_constant_nodes() {
    let mut program = Program::new(Vec::new());
    let mut context = FunctionContext::new(Function::new(None));
    let c = program.module.constants.append(Constant {
        name: None,
        inner: ConstantInner::Scalar { width: 4, value: ScalarValue::Sint(7) },
    });
    let h = context
        .resolve(&mut program, Expr { kind: ExprKind::Constant(c), meta: meta() }, false)
        .unwrap();
    assert!(matches!(
        &context.function.expressions.items[h.index],
        Expression::Constant(k) if *k == c
    ));
}

#[test]
fn unnamed_arguments_are_appended_but_not_bound() {
    let mut program = Program::new(Vec::new());
    let ty = scalar_type(&mut program);
    let mut context = FunctionContext::new(Function::new(None));
    context.add_function_arg(None, ty);
    assert_eq!(context.function.arguments.len(), 1);
    assert_eq!(context.function.expressions.len(), 0);
    context.add_function_arg(Some(String::from("named")), ty);
    assert_eq!(context.function.arguments.len(), 2);
    // the named argument binds to a positional argument expression
    let var = context.lookup_local_var("named").unwrap();
    assert!(var.load.is_none());
    assert!(matches!(
        context.function.expressions.items[var.expr.index],
        Expression::FunctionArgument(1)
    ));
}
