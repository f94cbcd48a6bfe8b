use vstd::prelude::*;

use crate::arena::Handle;
use crate::ast::{find_binding, find_local, lower, Expr, ExprKind, NamedVariableView, VariableReference};
use crate::error::ErrorView;
use crate::ir::{fetch_spec, find_type, ExpressionView, ScalarKind, Statement, TypeInnerView, TypeView, VectorSize};
use crate::ir::StructMemberView;
use crate::variables::{
    field_select_spec, letter_position, member_index, push_expr, set_positions, size_of_count,
    swizzle_positions, swizzle_select_spec, LowerState,
};

verus! {

/// Every letter of `name` belongs to letter set `set` and selects a
/// component below `size`.
pub open spec fn accepts(name: Seq<char>, set: int, size: int) -> bool {
    forall|i: int|
        0 <= i < name.len() ==> ((#[trigger] letter_position(set, name[i])) matches Some(p) && (
        p as int) < size)
}

/// The positions `name` selects from letter set `set`, letter by letter.
pub open spec fn mapped(name: Seq<char>, set: int) -> Seq<usize> {
    Seq::new(name.len(), |i: int| letter_position(set, name[i]).unwrap())
}

/// Against one letter set, a swizzle resolves exactly when every letter
/// belongs to the set and stays below the vector's size, and then selects
/// the letters' components in the order they were written — repeated
/// letters select the same component again.
pub proof fn lemma_set_positions_pointwise(name: Seq<char>, set: int, size: int)
    ensures
        set_positions(name, set, size) == if accepts(name, set, size) {
            Some(mapped(name, set))
        } else {
            None::<Seq<usize>>
        },
    decreases name.len(),
{
    if name.len() == 0 {
        if accepts(name, set, size) {
            assert(mapped(name, set) =~= Seq::<usize>::empty());
        }
    } else {
        lemma_set_positions_pointwise(name.drop_last(), set, size);
        assert forall|i: int| 0 <= i < name.len() - 1 implies name.drop_last()[i] == name[i] by {}
        if accepts(name, set, size) {
            assert(accepts(name.drop_last(), set, size));
            assert((letter_position(set, name.last()) matches Some(p) && (p as int) < size));
            assert(mapped(name, set) =~= mapped(name.drop_last(), set).push(
                letter_position(set, name.last()).unwrap(),
            ));
        } else {
            if accepts(name.drop_last(), set, size) {
                let bad = choose|i: int|
                    0 <= i < name.len() && !((#[trigger] letter_position(set, name[i])) matches Some(
                        p,
                    ) && (p as int) < size);
                assert(bad == name.len() - 1);
            }
        }
    }
}

/// Swizzle resolution is a pure function of the vector's size and the
/// requested name: the three letter sets are tried in priority order, a
/// name resolves exactly when one set accepts every letter below the size,
/// and the resolved positions follow the name's letters in order, length
/// included.  A name that no set accepts — letters of mixed sets, a letter
/// of no set, or a letter past the vector's size — resolves to nothing.
pub proof fn lemma_swizzle_resolution(name: Seq<char>, size: int)
    ensures
        accepts(name, 0, size) ==> swizzle_positions(name, size) == Some(mapped(name, 0)),
        !accepts(name, 0, size) && accepts(name, 1, size) ==> swizzle_positions(name, size)
            == Some(mapped(name, 1)),
        !accepts(name, 0, size) && !accepts(name, 1, size) && accepts(name, 2, size)
            ==> swizzle_positions(name, size) == Some(mapped(name, 2)),
        !accepts(name, 0, size) && !accepts(name, 1, size) && !accepts(name, 2, size)
            ==> swizzle_positions(name, size) is None,
        swizzle_positions(name, size) matches Some(pos) ==> pos.len() == name.len(),
{
    lemma_set_positions_pointwise(name, 0, size);
    lemma_set_positions_pointwise(name, 1, size);
    lemma_set_positions_pointwise(name, 2, size);
}


/// No letter belongs to two of the three component-letter sets.
pub proof fn lemma_letter_sets_disjoint(c: char)
    ensures
        !(letter_position(0, c) is Some && letter_position(1, c) is Some),
        !(letter_position(0, c) is Some && letter_position(2, c) is Some),
        !(letter_position(1, c) is Some && letter_position(2, c) is Some),
{
}

/// Letters of different sets never mix: a name holding a letter of one set
/// and a letter of another resolves to nothing, whatever the vector size.
pub proof fn lemma_mixed_alphabets_fail(name: Seq<char>, size: int, a: int, b: int, i: int, j: int)
    requires
        0 <= a < 3,
        0 <= b < 3,
        a != b,
        0 <= i < name.len(),
        0 <= j < name.len(),
        letter_position(a, name[i]) is Some,
        letter_position(b, name[j]) is Some,
    ensures
        swizzle_positions(name, size) is None,
{
    lemma_letter_sets_disjoint(name[i]);
    lemma_letter_sets_disjoint(name[j]);
    assert forall|s: int| 0 <= s < 3 implies !accepts(name, s, size) by {
        if s == a {
            assert(letter_position(s, name[j]) is None);
            assert(!((letter_position(s, name[j])) matches Some(p) && (p as int) < size));
        } else {
            assert(letter_position(s, name[i]) is None);
            assert(!((letter_position(s, name[i])) matches Some(p) && (p as int) < size));
        }
    }
    lemma_swizzle_resolution(name, size);
    assert(!accepts(name, 0, size));
    assert(!accepts(name, 1, size));
    assert(!accepts(name, 2, size));
}

/// A deduplicating fetch hands back a handle to a type equal to the one
/// inserted, into an arena of which the old one is a prefix.
pub proof fn lemma_fetch_spec_found(types: Seq<TypeView>, t: TypeView)
    requires
        types.len() < usize::MAX,
    ensures
        ({
            let fetched = fetch_spec(types, t);
            &&& fetched.1.idx() < fetched.0.len()
            &&& fetched.0[fetched.1.idx()] == t
            &&& types.is_prefix_of(fetched.0)
        }),
{
    lemma_find_type_found(types, t);
    if find_type(types, t) >= 0 {
        crate::typifier::lemma_prefix_refl(types);
    } else {
        crate::typifier::lemma_prefix_push(types, t);
    }
}

proof fn lemma_find_type_found(types: Seq<TypeView>, t: TypeView)
    ensures
        find_type(types, t) >= 0 ==> 0 <= find_type(types, t) < types.len() && types[find_type(
            types,
            t,
        )] == t,
    decreases types.len(),
{
    if types.len() > 0 && types.first() != t {
        lemma_find_type_found(types.drop_first(), t);
        if find_type(types.drop_first(), t) >= 0 {
            assert(types.drop_first()[find_type(types.drop_first(), t)] == types[find_type(
                types.drop_first(),
                t,
            ) + 1]);
        }
    }
}

/// Resolving a swizzle of a single component appends one index access and
/// yields its handle — never a composed vector.  Resolving two to four
/// components appends one index access per selected component, in the
/// order the name requested, then one compose node over exactly those
/// accesses, whose type is a vector of the selected length with the base
/// vector's kind and width; the compose node's handle is the result.  Any
/// other accepted length appends the accesses and then fails, and a name
/// that resolves to nothing fails with the state untouched.
pub proof fn lemma_swizzle_nodes(
    st: LowerState,
    base: Handle,
    name: Seq<char>,
    size: VectorSize,
    kind: ScalarKind,
    width: u8,
)
    requires
        st.env.types.len() < usize::MAX,
    ensures
        ({
            let outcome = swizzle_select_spec(st, base, name, size, kind, width);
            match swizzle_positions(name, size.spec_count()) {
                None => outcome == (st, Err::<Handle, ErrorView>(ErrorView::InvalidSwizzle(name))),
                Some(pos) => {
                    let first = st.env.exprs.len() as int;
                    let accesses = Seq::new(
                        pos.len(),
                        |k: int| ExpressionView::AccessIndex { base, index: pos[k] },
                    );
                    &&& outcome.0.env.exprs.subrange(0, first + pos.len() as int) == st.env.exprs
                        + accesses
                    &&& if pos.len() == 1 {
                        &&& outcome.0.env.exprs.len() == first + 1
                        &&& outcome.1 == Ok::<Handle, ErrorView>(Handle { index: first as usize })
                        &&& outcome.0.env.types == st.env.types
                    } else if 2 <= pos.len() && pos.len() <= 4 {
                        let compose_at = Handle { index: (first + pos.len()) as usize };
                        &&& outcome.0.env.exprs.len() == first + pos.len() + 1
                        &&& outcome.0.env.exprs.last() matches ExpressionView::Compose {
                            ty,
                            components,
                        } && components == Seq::new(
                            pos.len(),
                            |k: int| Handle { index: (first + k) as usize },
                        ) && ty.idx() < outcome.0.env.types.len() && outcome.0.env.types[ty.idx()]
                            == (TypeView {
                            name: None,
                            inner: TypeInnerView::Vector {
                                size: size_of_count(pos.len() as int),
                                kind,
                                width,
                            },
                        })
                        &&& outcome.1 == Ok::<Handle, ErrorView>(compose_at)
                    } else {
                        &&& outcome.0.env.exprs.len() == first + pos.len()
                        &&& outcome.1 == Err::<Handle, ErrorView>(ErrorView::BadSwizzleLength(name))
                    }
                },
            }
        }),
{
    match swizzle_positions(name, size.spec_count()) {
        None => {},
        Some(pos) => {
            let first = st.env.exprs.len() as int;
            let accesses = Seq::new(
                pos.len(),
                |k: int| ExpressionView::AccessIndex { base, index: pos[k] },
            );
            let st2 = st.env.exprs + accesses;
            if pos.len() == 1 {
                assert(st2.subrange(0, first + 1) =~= st2);
            } else if 2 <= pos.len() && pos.len() <= 4 {
                let vt = TypeView {
                    name: None,
                    inner: TypeInnerView::Vector { size: size_of_count(pos.len() as int), kind, width },
                };
                lemma_fetch_spec_found(st.env.types, vt);
                let outcome = swizzle_select_spec(st, base, name, size, kind, width);
                assert(outcome.0.env.exprs.subrange(0, first + pos.len() as int) =~= st2);
            } else {
                let outcome = swizzle_select_spec(st, base, name, size, kind, width);
                assert(outcome.0.env.exprs.subrange(0, first + pos.len() as int) =~= st2);
            }
        },
    }
}

/// The declared position a member name selects: when a member carries the
/// name, the lookup finds the first such member; when none does, it finds
/// nothing.
pub proof fn lemma_member_position(members: Seq<StructMemberView>, name: Seq<char>)
    ensures
        member_index(members, name) matches Some(j) ==> 0 <= j < members.len() && members[j].name
            == Some(name) && forall|k: int| 0 <= k < j ==> members[k].name != Some(name),
        member_index(members, name) is None ==> forall|k: int|
            0 <= k < members.len() ==> members[k].name != Some(name),
    decreases members.len(),
{
    if members.len() > 0 && members.first().name != Some(name) {
        lemma_member_position(members.drop_first(), name);
        assert forall|k: int| 0 <= k < members.len() - 1 implies members.drop_first()[k]
            == members[k + 1] by {}
        match member_index(members.drop_first(), name) {
            Some(j) => {
                assert(members[j + 1].name == Some(name));
                assert forall|k: int| 0 <= k < j + 1 implies members[k].name != Some(name) by {
                    if k > 0 {
                        assert(members.drop_first()[k - 1].name != Some(name));
                    }
                }
            },
            None => {
                assert forall|k: int| 0 <= k < members.len() implies members[k].name != Some(
                    name,
                ) by {
                    if k > 0 {
                        assert(members.drop_first()[k - 1].name != Some(name));
                    }
                }
            },
        }
    }
}

/// Selecting a declared member name on a struct-typed base appends exactly
/// one index access at that member's declared position and yields its
/// handle; selecting an undeclared name fails with the unknown-field error
/// carrying the source location and the requested name, appending nothing.
pub proof fn lemma_struct_field_access(
    st: LowerState,
    base: Handle,
    name: Seq<char>,
    meta: crate::error::TokenMetadata,
    members: Seq<StructMemberView>,
)
    requires
        crate::typifier::grow_err(st.env, base.idx()) is None,
        crate::typifier::infer(st.env, base.idx()) == Some(TypeInnerView::Struct { members }),
    ensures
        ({
            let st1 = LowerState {
                memo: crate::typifier::grow_memo(st.env, st.memo, base.idx()),
                ..st
            };
            match member_index(members, name) {
                Some(j) => field_select_spec(st, base, name, meta) == (
                    push_expr(st1, ExpressionView::AccessIndex { base, index: j as usize }),
                    Ok::<Handle, ErrorView>(Handle { index: st1.env.exprs.len() as usize }),
                ),
                None => field_select_spec(st, base, name, meta) == (
                    st1,
                    Err::<Handle, ErrorView>(ErrorView::UnknownField(meta, name)),
                ),
            }
        }),
{
}

/// Binding a local name in an inner scope shadows any outer binding of the
/// same name: looking the name up finds the inner binding; every other
/// name still resolves as before; and discarding the inner frame restores
/// the stack exactly as it was, outer bindings included.
pub proof fn lemma_scope_shadowing(
    scopes: Seq<Seq<NamedVariableView>>,
    name: Seq<char>,
    var: VariableReference,
)
    ensures
        ({
            let entry = NamedVariableView { name, var };
            let inner = Seq::<NamedVariableView>::empty().push(entry);
            let pushed = scopes.push(inner);
            &&& find_local(pushed, name) == Some(var)
            &&& forall|n: Seq<char>| n != name ==> find_local(pushed, n) == find_local(scopes, n)
            &&& pushed.drop_last() == scopes
        }),
{
    let entry = NamedVariableView { name, var };
    let inner = Seq::<NamedVariableView>::empty().push(entry);
    let pushed = scopes.push(inner);
    assert(inner.drop_last() =~= Seq::<NamedVariableView>::empty());
    assert(find_binding(inner, name) == Some(var));
    assert(pushed.drop_last() =~= scopes);
    assert forall|n: Seq<char>| n != name implies find_local(pushed, n) == find_local(
        scopes,
        n,
    ) by {
        assert(find_binding(inner, n) == find_binding(inner.drop_last(), n));
    }
}

/// Lowering the assignment `a = b`, where `a` is a bound variable, appends
/// exactly one store statement whose pointer is `a`'s storage handle and
/// whose value is the lowered rvalue of `b`; the assignment expression's
/// own value is that same rvalue handle.  `a`'s preloaded value plays no
/// part: an assignment targets storage.
pub proof fn lemma_assignment_roundtrip(st: LowerState, e: Expr, var: VariableReference)
    requires
        e.kind matches ExprKind::Assign { tgt, value } && (*tgt).kind == ExprKind::Variable(var),
    ensures
        ({
            let value = match e.kind {
                ExprKind::Assign { tgt: _t, value } => *value,
                _ => e,
            };
            let lowered_value = lower(st, value, false);
            match lowered_value.1 {
                Ok(v) => lower(st, e, false) == (
                    LowerState {
                        body: lowered_value.0.body.push(
                            Statement::Store { pointer: var.expr, value: v },
                        ),
                        ..lowered_value.0
                    },
                    Ok::<Handle, ErrorView>(v),
                ),
                Err(err) => lower(st, e, false) == (lowered_value.0, Err::<Handle, ErrorView>(err)),
            }
        }),
{
    match e.kind {
        ExprKind::Assign { tgt, value } => {
            assert(lower(st, *tgt, true) == (st, Ok::<Handle, ErrorView>(var.expr)));
        },
        _ => {},
    }
}

} // verus!
