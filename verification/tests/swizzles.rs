use glsl_front::arena::Handle;
use glsl_front::ast::{FunctionContext, Program};
use glsl_front::error::{ErrorKind, SemanticError, TokenMetadata};
use glsl_front::ir::{
    Expression, Function, ScalarKind, StructMember, Type, TypeInner, VectorSize,
};

fn meta() -> TokenMetadata {
    TokenMetadata { line: 3, start: 14, end: 17 }
}

/// A program with one function argument of the given type, returning the
/// build context and the argument's expression handle.
fn with_argument(inner: TypeInner) -> (Program, FunctionContext, Handle) {
    let mut program = Program::new(Vec::new());
    let ty = program.module.types.append(Type { name: None, inner });
    let mut context = FunctionContext::new(Function::new(None));
    context.add_function_arg(Some(String::from("arg")), ty);
    let var = context.lookup_local_var("arg").unwrap();
    (program, context, var.expr)
}

fn vec3_float() -> TypeInner {
    TypeInner::Vector { size: VectorSize::Tri, kind: ScalarKind::Float, width: 4 }
}

#[test]
fn single_letter_swizzle_is_one_index_access() {
    let (mut program, mut context, base) = with_argument(vec3_float());
    let types_before = program.module.types.len();
    let h = program.field_selection(&mut context, base, "y", meta()).unwrap();
    // one access-index node, no compose, no new type
    assert_eq!(context.function.expressions.len(), 2);
    assert!(matches!(
        &context.function.expressions.items[h.index],
        Expression::AccessIndex { base: b, index: 1 } if *b == base
    ));
    assert_eq!(program.module.types.len(), types_before);
}

#[test]
fn repeated_swizzle_composes_a_two_component_vector() {
    // `.xx` on a size-3 vector of floats yields a 2-component float vector
    // built from component 0 twice.
    let (mut program, mut context, base) = with_argument(vec3_float());
    let h = program.field_selection(&mut context, base, "xx", meta()).unwrap();
    assert_eq!(context.function.expressions.len(), 4);
    match &context.function.expressions.items[h.index] {
        Expression::Compose { ty, components } => {
            assert_eq!(components.len(), 2);
            assert!(matches!(
                &context.function.expressions.items[components[0].index],
                Expression::AccessIndex { base: b, index: 0 } if *b == base
            ));
            assert!(matches!(
                &context.function.expressions.items[components[1].index],
                Expression::AccessIndex { base: b, index: 0 } if *b == base
            ));
            assert!(matches!(
                program.module.types.items[ty.index].inner,
                TypeInner::Vector { size: VectorSize::Bi, kind: ScalarKind::Float, width: 4 }
            ));
        },
        other => panic!("expected a compose node, found {:?}", other),
    }
}

#[test]
fn reordering_swizzle_keeps_the_requested_order() {
    let (mut program, mut context, base) = with_argument(vec3_float());
    let h = program.field_selection(&mut context, base, "zyx", meta()).unwrap();
    match &context.function.expressions.items[h.index] {
        Expression::Compose { components, .. } => {
            let indices: Vec<usize> = components
                .iter()
                .map(|c| match &context.function.expressions.items[c.index] {
                    Expression::AccessIndex { index, .. } => *index,
                    other => panic!("expected an access, found {:?}", other),
                })
                .collect();
            assert_eq!(indices, vec![2, 1, 0]);
        },
        other => panic!("expected a compose node, found {:?}", other),
    }
}

#[test]
fn color_letters_resolve_through_their_own_set() {
    let (mut program, mut context, base) = with_argument(vec3_float());
    let h = program.field_selection(&mut context, base, "gr", meta()).unwrap();
    match &context.function.expressions.items[h.index] {
        Expression::Compose { components, .. } => {
            assert!(matches!(
                &context.function.expressions.items[components[0].index],
                Expression::AccessIndex { index: 1, .. }
            ));
            assert!(matches!(
                &context.function.expressions.items[components[1].index],
                Expression::AccessIndex { index: 0, .. }
            ));
        },
        other => panic!("expected a compose node, found {:?}", other),
    }
}

#[test]
fn texture_letters_resolve_through_their_own_set() {
    let (mut program, mut context, base) = with_argument(vec3_float());
    let h = program.field_selection(&mut context, base, "p", meta()).unwrap();
    assert!(matches!(
        &context.function.expressions.items[h.index],
        Expression::AccessIndex { index: 2, .. }
    ));
}

#[test]
fn mixed_set_swizzle_is_rejected() {
    let (mut program, mut context, base) = with_argument(vec3_float());
    let r = program.field_selection(&mut context, base, "xg", meta());
    assert!(matches!(
        r,
        Err(ErrorKind::SemanticError(SemanticError::InvalidSwizzle(s))) if s == "xg"
    ));
}

#[test]
fn out_of_range_swizzle_letter_is_rejected() {
    // `w` selects component 3, which a three-component vector lacks.
    let (mut program, mut context, base) = with_argument(vec3_float());
    let r = program.field_selection(&mut context, base, "w", meta());
    assert!(matches!(
        r,
        Err(ErrorKind::SemanticError(SemanticError::InvalidSwizzle(_)))
    ));
}

#[test]
fn overlong_swizzle_is_rejected() {
    let (mut program, mut context, base) = with_argument(
        TypeInner::Vector { size: VectorSize::Quad, kind: ScalarKind::Float, width: 4 },
    );
    let r = program.field_selection(&mut context, base, "xyzwx", meta());
    assert!(matches!(
        r,
        Err(ErrorKind::SemanticError(SemanticError::BadSwizzleLength(s))) if s == "xyzwx"
    ));
}

#[test]
fn empty_swizzle_is_rejected() {
    let (mut program, mut context, base) = with_argument(vec3_float());
    let r = program.field_selection(&mut context, base, "", meta());
    assert!(matches!(
        r,
        Err(ErrorKind::SemanticError(SemanticError::BadSwizzleLength(_)))
    ));
}

#[test]
fn compose_type_is_deduplicated_across_swizzles() {
    let (mut program, mut context, base) = with_argument(vec3_float());
    let first = program.field_selection(&mut context, base, "xy", meta()).unwrap();
    let types_after_first = program.module.types.len();
    let second = program.field_selection(&mut context, base, "yz", meta()).unwrap();
    assert_eq!(program.module.types.len(), types_after_first);
    let ty_of = |h: Handle, context: &FunctionContext| match &context.function.expressions.items[h
        .index] {
        Expression::Compose { ty, .. } => *ty,
        other => panic!("expected a compose node, found {:?}", other),
    };
    assert_eq!(ty_of(first, &context), ty_of(second, &context));
}

#[test]
fn declared_member_resolves_to_its_position() {
    let mut program = Program::new(Vec::new());
    let scalar = program.module.types.append(Type {
        name: None,
        inner: TypeInner::Scalar { kind: ScalarKind::Float, width: 4 },
    });
    let st = program.module.types.append(Type {
        name: Some(String::from("Light")),
        inner: TypeInner::Struct {
            members: vec![
                StructMember { name: Some(String::from("intensity")), ty: scalar },
                StructMember { name: Some(String::from("range")), ty: scalar },
            ],
        },
    });
    let mut context = FunctionContext::new(Function::new(None));
    context.add_function_arg(Some(String::from("light")), st);
    let base = context.lookup_local_var("light").unwrap().expr;
    let h = program.field_selection(&mut context, base, "range", meta()).unwrap();
    assert!(matches!(
        &context.function.expressions.items[h.index],
        Expression::AccessIndex { base: b, index: 1 } if *b == base
    ));
}

#[test]
fn undeclared_member_reports_unknown_field() {
    let mut program = Program::new(Vec::new());
    let scalar = program.module.types.append(Type {
        name: None,
        inner: TypeInner::Scalar { kind: ScalarKind::Float, width: 4 },
    });
    let st = program.module.types.append(Type {
        name: None,
        inner: TypeInner::Struct {
            members: vec![StructMember { name: Some(String::from("intensity")), ty: scalar }],
        },
    });
    let mut context = FunctionContext::new(Function::new(None));
    context.add_function_arg(Some(String::from("light")), st);
    let base = context.lookup_local_var("light").unwrap().expr;
    let r = program.field_selection(&mut context, base, "colour", meta());
    assert!(matches!(
        r,
        Err(ErrorKind::UnknownField(m, s)) if s == "colour" && m == meta()
    ));
}

#[test]
fn field_selection_on_a_scalar_is_rejected() {
    let (mut program, mut context, base) = with_argument(
        TypeInner::Scalar { kind: ScalarKind::Float, width: 4 },
    );
    let r = program.field_selection(&mut context, base, "x", meta());
    assert!(matches!(
        r,
        Err(ErrorKind::SemanticError(SemanticError::BadAccessBase(s))) if s == "x"
    ));
}

#[test]
fn full_four_component_swizzle_composes_a_quad_vector() {
    let (mut program, mut context, base) = with_argument(
        TypeInner::Vector { size: VectorSize::Quad, kind: ScalarKind::Sint, width: 4 },
    );
    let h = program.field_selection(&mut context, base, "wzyx", meta()).unwrap();
    match &context.function.expressions.items[h.index] {
        Expression::Compose { ty, components } => {
            assert_eq!(components.len(), 4);
            let indices: Vec<usize> = components
                .iter()
                .map(|c| match &context.function.expressions.items[c.index] {
                    Expression::AccessIndex { index, .. } => *index,
                    other => panic!("expected an access, found {:?}", other),
                })
                .collect();
            assert_eq!(indices, vec![3, 2, 1, 0]);
            assert!(matches!(
                program.module.types.items[ty.index].inner,
                TypeInner::Vector { size: VectorSize::Quad, kind: ScalarKind::Sint, width: 4 }
            ));
        },
        other => panic!("expected a compose node, found {:?}", other),
    }
}
