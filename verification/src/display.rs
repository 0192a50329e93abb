use vstd::prelude::*;
use crate::ty::{Type, Ty, types_view};
use crate::text::{dec, push_dec};

verus! {

/// The rendering of a list of types, separated by `", "`.
pub open spec fn show_list(s: Seq<Ty>) -> Seq<char>
    decreases s, 0nat,
{
    if s.len() == 0 {
        Seq::empty()
    } else if s.len() == 1 {
        show(s[0])
    } else {
        show_list(s.subrange(0, s.len() - 1)) + ", "@ + show(s[s.len() - 1])
    }
}

/// How a type is written in diagnostics.
pub open spec fn show(t: Ty) -> Seq<char>
    decreases t, 1nat,
{
    match t {
        Ty::Int => "Int"@,
        Ty::U8 => "U8"@,
        Ty::U64 => "U64"@,
        Ty::U128 => "U128"@,
        Ty::U256 => "U256"@,
        Ty::Bool => "Bool"@,
        Ty::Str => "String"@,
        Ty::Bytes => "Bytes"@,
        Ty::Named { name, args } => {
            if args.len() == 0 {
                name
            } else {
                name + "<"@ + show_list(args) + ">"@
            }
        },
        Ty::Option(inner) => "Option<"@ + show(*inner) + ">"@,
        Ty::Result(ok, err) => "Result<"@ + show(*ok) + ", "@ + show(*err) + ">"@,
        Ty::List(inner) => "List<"@ + show(*inner) + ">"@,
        Ty::SetOf(inner) => "Set<"@ + show(*inner) + ">"@,
        Ty::MapOf(k, v) => "Map<"@ + show(*k) + ", "@ + show(*v) + ">"@,
        Ty::Array(inner, len) => match len {
            Some(n) => "["@ + show(*inner) + "; "@ + dec(n as nat) + "]"@,
            None => "Array<"@ + show(*inner) + ">"@,
        },
        Ty::Slice(inner) => "Slice<"@ + show(*inner) + ">"@,
        Ty::Tuple(elems) => "("@ + show_list(elems) + ")"@,
        Ty::Fn { params, ret } => "Fn("@ + show_list(params) + ") -> "@ + show(*ret),
    }
}

/// Appends the rendering of every type of `v`, separated by `", "`.
pub fn push_shown_list(s: &mut String, v: &Vec<Type>)
    ensures
        final(s)@ == old(s)@ + show_list(types_view(v@)),
    decreases v, 0nat,
{
    let ghost tv = types_view(v@);
    let mut i: usize = 0;
    while i < v.len()
        invariant
            i <= v.len(),
            tv == types_view(v@),
            s@ == old(s)@ + show_list(tv.subrange(0, i as int)),
        decreases v.len() - i,
    {
        assert(decreases_to!(v => v@[i as int]));
        let ghost before = s@;
        if i > 0 {
            s.append(", ");
        }
        push_shown(s, &v[i]);
        proof {
            let pre = tv.subrange(0, i as int);
            let post = tv.subrange(0, i as int + 1);
            assert(post.subrange(0, post.len() - 1) =~= pre);
            assert(post[post.len() - 1] == tv[i as int]);
            if i == 0 {
                assert(pre =~= Seq::<Ty>::empty());
            }
        }
        i = i + 1;
    }
    assert(tv.subrange(0, v.len() as int) =~= tv);
}

/// Appends the rendering of `t` to `s`.
pub fn push_shown(s: &mut String, t: &Type)
    ensures
        final(s)@ == old(s)@ + show(t@),
    decreases t, 1nat,
{
    match t {
        Type::Int => s.append("Int"),
        Type::U8 => s.append("U8"),
        Type::U64 => s.append("U64"),
        Type::U128 => s.append("U128"),
        Type::U256 => s.append("U256"),
        Type::Bool => s.append("Bool"),
        Type::String => s.append("String"),
        Type::Bytes => s.append("Bytes"),
        Type::Named { name, args } => {
            s.append(name.as_str());
            if args.len() > 0 {
                s.append("<");
                push_shown_list(s, args);
                s.append(">");
            }
        },
        Type::Option(inner) => {
            s.append("Option<");
            push_shown(s, inner);
            s.append(">");
        },
        Type::Result(ok, err) => {
            s.append("Result<");
            push_shown(s, ok);
            s.append(", ");
            push_shown(s, err);
            s.append(">");
        },
        Type::List(inner) => {
            s.append("List<");
            push_shown(s, inner);
            s.append(">");
        },
        Type::SetOf(inner) => {
            s.append("Set<");
            push_shown(s, inner);
            s.append(">");
        },
        Type::MapOf(k, v) => {
            s.append("Map<");
            push_shown(s, k);
            s.append(", ");
            push_shown(s, v);
            s.append(">");
        },
        Type::Array(inner, len) => {
            match len {
                Some(n) => {
                    s.append("[");
                    push_shown(s, inner);
                    s.append("; ");
                    push_dec(s, *n as u128);
                    s.append("]");
                },
                None => {
                    s.append("Array<");
                    push_shown(s, inner);
                    s.append(">");
                },
            }
        },
        Type::Slice(inner) => {
            s.append("Slice<");
            push_shown(s, inner);
            s.append(">");
        },
        Type::Tuple(elems) => {
            s.append("(");
            push_shown_list(s, elems);
            s.append(")");
        },
        Type::Fn { params, ret } => {
            s.append("Fn(");
            push_shown_list(s, params);
            s.append(") -> ");
            push_shown(s, ret);
        },
    }
    assert(final(s)@ =~= old(s)@ + show(t@));
}

/// The rendering of `t` used in diagnostics.
pub fn show_ty(t: &Type) -> (r: String)
    ensures
        r@ == show(t@),
{
    let mut s = String::new();
    push_shown(&mut s, t);
    assert(s@ =~= show(t@));
    s
}

} // verus!
