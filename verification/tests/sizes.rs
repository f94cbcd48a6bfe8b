use glsl_front::arena::Handle;
use glsl_front::ast::Program;
use glsl_front::error::{ErrorKind, SemanticError, Unsupported};
use glsl_front::ir::{
    ArraySize, Constant, ConstantInner, ScalarKind, ScalarValue, StructMember, Type, TypeInner,
    VectorSize,
};

fn add_type(program: &mut Program, inner: TypeInner) -> Handle {
    program.module.types.append(Type { name: None, inner })
}

#[test]
fn scalar_size_is_width() {
    let mut program = Program::new(Vec::new());
    let t = add_type(
        &mut program,
        TypeInner::Scalar { kind: ScalarKind::Float, width: 4 },
    );
    assert_eq!(program.type_size(t).unwrap(), 4);
}

#[test]
fn three_component_vector_of_four_byte_scalars_is_twelve() {
    let mut program = Program::new(Vec::new());
    let t = add_type(
        &mut program,
        TypeInner::Vector { size: VectorSize::Tri, kind: ScalarKind::Float, width: 4 },
    );
    assert_eq!(program.type_size(t).unwrap(), 12);
}

#[test]
fn four_by_four_matrix_of_four_byte_scalars_is_sixty_four() {
    let mut program = Program::new(Vec::new());
    let t = add_type(
        &mut program,
        TypeInner::Matrix { columns: VectorSize::Quad, rows: VectorSize::Quad, width: 4 },
    );
    assert_eq!(program.type_size(t).unwrap(), 64);
}

#[test]
fn struct_size_is_not_implemented() {
    let mut program = Program::new(Vec::new());
    let member_ty = add_type(
        &mut program,
        TypeInner::Scalar { kind: ScalarKind::Float, width: 4 },
    );
    let t = add_type(
        &mut program,
        TypeInner::Struct {
            members: vec![StructMember { name: Some(String::from("x")), ty: member_ty }],
        },
    );
    let r = program.type_size(t);
    assert!(matches!(r, Err(ErrorKind::NotImplemented(Unsupported::StructSize))));
}

#[test]
fn sampler_size_is_not_implemented() {
    let mut program = Program::new(Vec::new());
    let t = add_type(&mut program, TypeInner::Sampler { comparison: false });
    let r = program.type_size(t);
    assert!(matches!(r, Err(ErrorKind::NotImplemented(Unsupported::SamplerSize))));
}

#[test]
fn image_size_is_not_implemented() {
    let mut program = Program::new(Vec::new());
    let t = add_type(&mut program, TypeInner::Image);
    let r = program.type_size(t);
    assert!(matches!(r, Err(ErrorKind::NotImplemented(Unsupported::ImageSize))));
}

#[test]
fn pointer_sizes_are_not_implemented() {
    let mut program = Program::new(Vec::new());
    let base = add_type(
        &mut program,
        TypeInner::Scalar { kind: ScalarKind::Float, width: 4 },
    );
    let p = add_type(&mut program, TypeInner::Pointer { base });
    assert!(matches!(
        program.type_size(p),
        Err(ErrorKind::NotImplemented(Unsupported::PointerSize))
    ));
    let vp = add_type(
        &mut program,
        TypeInner::ValuePointer { size: None, kind: ScalarKind::Float, width: 4 },
    );
    assert!(matches!(
        program.type_size(vp),
        Err(ErrorKind::NotImplemented(Unsupported::ValuePointerSize))
    ));
}

#[test]
fn fixed_array_size_is_stride_times_count() {
    let mut program = Program::new(Vec::new());
    let base = add_type(
        &mut program,
        TypeInner::Scalar { kind: ScalarKind::Float, width: 4 },
    );
    let count = program.module.constants.append(Constant {
        name: None,
        inner: ConstantInner::Scalar { width: 4, value: ScalarValue::Uint(5) },
    });
    let t = add_type(
        &mut program,
        TypeInner::Array { base, size: ArraySize::Constant(count), stride: 16 },
    );
    assert_eq!(program.type_size(t).unwrap(), 80);
}

#[test]
fn signed_array_count_works_when_nonnegative() {
    let mut program = Program::new(Vec::new());
    let base = add_type(
        &mut program,
        TypeInner::Scalar { kind: ScalarKind::Sint, width: 4 },
    );
    let count = program.module.constants.append(Constant {
        name: None,
        inner: ConstantInner::Scalar { width: 4, value: ScalarValue::Sint(3) },
    });
    let t = add_type(
        &mut program,
        TypeInner::Array { base, size: ArraySize::Constant(count), stride: 4 },
    );
    assert_eq!(program.type_size(t).unwrap(), 12);
}

#[test]
fn dynamic_array_size_is_not_implemented() {
    let mut program = Program::new(Vec::new());
    let base = add_type(
        &mut program,
        TypeInner::Scalar { kind: ScalarKind::Float, width: 4 },
    );
    let t = add_type(
        &mut program,
        TypeInner::Array { base, size: ArraySize::Dynamic, stride: 4 },
    );
    assert!(matches!(
        program.type_size(t),
        Err(ErrorKind::NotImplemented(Unsupported::DynamicArraySize))
    ));
}

#[test]
fn composite_array_count_is_not_implemented() {
    let mut program = Program::new(Vec::new());
    let base = add_type(
        &mut program,
        TypeInner::Scalar { kind: ScalarKind::Float, width: 4 },
    );
    let inner_ty = add_type(
        &mut program,
        TypeInner::Vector { size: VectorSize::Bi, kind: ScalarKind::Float, width: 4 },
    );
    let count = program.module.constants.append(Constant {
        name: None,
        inner: ConstantInner::Composite { ty: inner_ty, components: Vec::new() },
    });
    let t = add_type(
        &mut program,
        TypeInner::Array { base, size: ArraySize::Constant(count), stride: 4 },
    );
    assert!(matches!(
        program.type_size(t),
        Err(ErrorKind::NotImplemented(Unsupported::CompositeArraySize))
    ));
}

#[test]
fn boolean_array_count_is_invalid() {
    let mut program = Program::new(Vec::new());
    let base = add_type(
        &mut program,
        TypeInner::Scalar { kind: ScalarKind::Float, width: 4 },
    );
    let count = program.module.constants.append(Constant {
        name: None,
        inner: ConstantInner::Scalar { width: 1, value: ScalarValue::Bool(true) },
    });
    let t = add_type(
        &mut program,
        TypeInner::Array { base, size: ArraySize::Constant(count), stride: 4 },
    );
    let r = program.type_size(t);
    assert!(matches!(
        r,
        Err(ErrorKind::SemanticError(SemanticError::InvalidArraySize(c))) if c == count
    ));
}

#[test]
fn negative_array_count_is_invalid() {
    let mut program = Program::new(Vec::new());
    let base = add_type(
        &mut program,
        TypeInner::Scalar { kind: ScalarKind::Float, width: 4 },
    );
    let count = program.module.constants.append(Constant {
        name: None,
        inner: ConstantInner::Scalar { width: 4, value: ScalarValue::Sint(-1) },
    });
    let t = add_type(
        &mut program,
        TypeInner::Array { base, size: ArraySize::Constant(count), stride: 4 },
    );
    assert!(matches!(
        program.type_size(t),
        Err(ErrorKind::SemanticError(SemanticError::InvalidArraySize(_)))
    ));
}

#[test]
fn oversized_types_are_rejected() {
    let mut program = Program::new(Vec::new());
    let v = add_type(
        &mut program,
        TypeInner::Vector { size: VectorSize::Quad, kind: ScalarKind::Float, width: 255 },
    );
    assert!(matches!(
        program.type_size(v),
        Err(ErrorKind::SemanticError(SemanticError::OversizedType(t))) if t == v
    ));
    let base = add_type(
        &mut program,
        TypeInner::Scalar { kind: ScalarKind::Float, width: 4 },
    );
    let count = program.module.constants.append(Constant {
        name: None,
        inner: ConstantInner::Scalar { width: 4, value: ScalarValue::Uint(1_000_000) },
    });
    let a = add_type(
        &mut program,
        TypeInner::Array { base, size: ArraySize::Constant(count), stride: 4 },
    );
    assert!(matches!(
        program.type_size(a),
        Err(ErrorKind::SemanticError(SemanticError::OversizedType(_)))
    ));
}
