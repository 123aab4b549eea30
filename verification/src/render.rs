//! Textual rendering of types for diagnostics, in the shape of their `Debug` form.
use crate::text::{concat, decimal, push_decimal, text};
use crate::types::{AddressSpace, DType, FragmentType, FragmentTypeV, IndexExpr, IndexExprV, PointerType, TypeRef, TypeRefV, exprs_view};
use vstd::prelude::*;

verus! {

pub open spec fn dtype_name(d: DType) -> Seq<char> {
    match d {
        DType::Bool => "Bool"@,
        DType::I32 => "I32"@,
        DType::I64 => "I64"@,
        DType::U32 => "U32"@,
        DType::U64 => "U64"@,
        DType::F16 => "F16"@,
        DType::BF16 => "BF16"@,
        DType::F32 => "F32"@,
        DType::F64 => "F64"@,
    }
}

fn dtype_text(d: DType) -> (r: &'static str)
    ensures
        r@ == dtype_name(d),
{
    match d {
        DType::Bool => "Bool",
        DType::I32 => "I32",
        DType::I64 => "I64",
        DType::U32 => "U32",
        DType::U64 => "U64",
        DType::F16 => "F16",
        DType::BF16 => "BF16",
        DType::F32 => "F32",
        DType::F64 => "F64",
    }
}

pub open spec fn space_name(a: AddressSpace) -> Seq<char> {
    match a {
        AddressSpace::Global => "Global"@,
        AddressSpace::Shared => "Shared"@,
        AddressSpace::Private => "Private"@,
    }
}

fn space_text(a: AddressSpace) -> (r: &'static str)
    ensures
        r@ == space_name(a),
{
    match a {
        AddressSpace::Global => "Global",
        AddressSpace::Shared => "Shared",
        AddressSpace::Private => "Private",
    }
}

pub open spec fn bool_name(b: bool) -> Seq<char> {
    if b {
        "true"@
    } else {
        "false"@
    }
}

/// A quoted name, its characters taken verbatim.
pub open spec fn quoted(s: Seq<char>) -> Seq<char> {
    "\""@ + s + "\""@
}

pub open spec fn index_text(e: IndexExprV) -> Seq<char>
    decreases e,
{
    match e {
        IndexExprV::Constant(n) => "Constant("@ + decimal(n as nat) + ")"@,
        IndexExprV::Value(id) => "Value(ValueId("@ + quoted(id) + "))"@,
        IndexExprV::Add(a, b) => "Add("@ + index_text(*a) + ", "@ + index_text(*b) + ")"@,
        IndexExprV::Mul(a, b) => "Mul("@ + index_text(*a) + ", "@ + index_text(*b) + ")"@,
        IndexExprV::FloorDiv(a, b) => "FloorDiv("@ + index_text(*a) + ", "@ + index_text(*b)
            + ")"@,
    }
}

/// The items of a list, separated by ", ".
pub open spec fn list_items(s: Seq<IndexExprV>) -> Seq<char>
    decreases s.len(),
{
    if s.len() == 0 {
        seq![]
    } else if s.len() == 1 {
        index_text(s[0])
    } else {
        list_items(s.drop_last()) + ", "@ + index_text(s.last())
    }
}

pub open spec fn pointer_text(p: PointerType) -> Seq<char> {
    "Pointer(PointerType { element: "@ + dtype_name(p.element) + ", address_space: "@
        + space_name(p.address_space) + ", mutable: "@ + bool_name(p.mutable) + " })"@
}

pub open spec fn fragment_text(f: FragmentTypeV) -> Seq<char> {
    "Fragment(FragmentType { element: "@ + dtype_name(f.element) + ", logical_shape: ["@
        + list_items(f.logical_shape) + "], participants: RoleId("@ + quoted(f.participants)
        + "), representation: "@ + quoted(f.representation) + " })"@
}

/// The rendering of a value type used in diagnostics.
pub open spec fn type_text(t: TypeRefV) -> Seq<char> {
    match t {
        TypeRefV::Scalar(d) => "Scalar("@ + dtype_name(d) + ")"@,
        TypeRefV::Index => "Index"@,
        TypeRefV::Predicate => "Predicate"@,
        TypeRefV::Pointer(p) => pointer_text(p),
        TypeRefV::Fragment(f) => fragment_text(f),
    }
}

fn push_index(s: String, e: &IndexExpr) -> (r: String)
    ensures
        r@ == s@ + index_text(e@),
    decreases e,
{
    match e {
        IndexExpr::Constant(n) => {
            let t = push_decimal(concat(s, "Constant("), *n);
            let r = concat(t, ")");
            assert(r@ =~= s@ + index_text(e@));
            r
        },
        IndexExpr::Value(id) => {
            let t = concat(concat(concat(s, "Value(ValueId("), "\""), id.0.as_str());
            let r = concat(concat(t, "\""), "))");
            assert(r@ =~= s@ + index_text(e@));
            r
        },
        IndexExpr::Add(a, b) => {
            let t = push_index(concat(s, "Add("), a);
            let t = push_index(concat(t, ", "), b);
            let r = concat(t, ")");
            assert(r@ =~= s@ + index_text(e@));
            r
        },
        IndexExpr::Mul(a, b) => {
            let t = push_index(concat(s, "Mul("), a);
            let t = push_index(concat(t, ", "), b);
            let r = concat(t, ")");
            assert(r@ =~= s@ + index_text(e@));
            r
        },
        IndexExpr::FloorDiv(a, b) => {
            let t = push_index(concat(s, "FloorDiv("), a);
            let t = push_index(concat(t, ", "), b);
            let r = concat(t, ")");
            assert(r@ =~= s@ + index_text(e@));
            r
        },
    }
}

fn push_list(s: String, v: &Vec<IndexExpr>) -> (r: String)
    ensures
        r@ == s@ + list_items(exprs_view(v@)),
{
    let mut r = s;
    let mut i: usize = 0;
    while i < v.len()
        invariant
            i <= v@.len(),
            r@ == s@ + list_items(exprs_view(v@.take(i as int))),
        decreases v@.len() - i,
    {
        let ghost before = r@;
        if i > 0 {
            r = concat(r, ", ");
        }
        r = push_index(r, &v[i]);
        proof {
            let t = exprs_view(v@.take(i + 1));
            assert(t.drop_last() =~= exprs_view(v@.take(i as int)));
            assert(t.last() == v@[i as int]@);
            if i == 0 {
                assert(t.len() == 1);
                assert(list_items(exprs_view(v@.take(0))) =~= Seq::<char>::empty());
            }
            assert(r@ =~= s@ + list_items(t));
        }
        i = i + 1;
    }
    assert(v@.take(v@.len() as int) =~= v@);
    r
}

/// The rendering of a value type used in diagnostics.
pub fn render_type(t: &TypeRef) -> (r: String)
    ensures
        r@ == type_text(t@),
{
    match t {
        TypeRef::Scalar(d) => {
            let r = concat(concat(text("Scalar("), dtype_text(*d)), ")");
            assert(r@ =~= type_text(t@));
            r
        },
        TypeRef::Index => text("Index"),
        TypeRef::Predicate => text("Predicate"),
        TypeRef::Pointer(p) => {
            let s = concat(text("Pointer(PointerType { element: "), dtype_text(p.element));
            let s = concat(concat(s, ", address_space: "), space_text(p.address_space));
            let s = concat(concat(s, ", mutable: "), if p.mutable { "true" } else { "false" });
            let r = concat(s, " })");
            assert(r@ =~= type_text(t@));
            r
        },
        TypeRef::Fragment(f) => {
            let s = concat(text("Fragment(FragmentType { element: "), dtype_text(f.element));
            let s = push_list(concat(s, ", logical_shape: ["), &f.logical_shape);
            let s = concat(concat(concat(s, "], participants: RoleId("), "\""), f.participants.0.as_str());
            let s = concat(concat(concat(s, "\""), "), representation: "), "\"");
            let s = concat(concat(s, f.representation.as_str()), "\"");
            let r = concat(s, " })");
            assert(r@ =~= type_text(t@));
            r
        },
    }
}

} // verus!
