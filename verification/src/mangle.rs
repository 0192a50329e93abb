use vstd::prelude::*;
use vstd::utf8::{encode_scalar, encode_utf8};
use crate::errors::{at_span, TyperError};
use crate::names::NameMap;
use crate::ty::Span;
use crate::text::{chars_of, dec, hex_fixed, push_char, push_dec, push_hex_fixed};
use crate::ty::{type_view, types_view, Ty, Type};
use crate::type_resolve::AliasMap;

verus! {

/// How mangled names are post-processed: when a maximum length is set,
/// longer names are cut and given a hash suffix.
#[derive(Clone, Copy, Debug, PartialEq, Eq, Structural)]
pub struct MangleConfig {
    pub shorten_max_len: Option<usize>,
}

// ---------------------------------------------------------------------------
// UTF-8 lengths

/// The number of bytes of the UTF-8 encoding of `c`.
pub open spec fn char_width(c: char) -> nat {
    let v = c as u32;
    if v <= 0x7F { 1 } else if v <= 0x7FF { 2 } else if v <= 0xFFFF { 3 } else { 4 }
}

/// The number of bytes of the UTF-8 encoding of `s`.
pub open spec fn utf8_len(s: Seq<char>) -> nat
    decreases s.len(),
{
    if s.len() == 0 { 0 } else { char_width(s[0]) + utf8_len(s.drop_first()) }
}

proof fn lemma_char_width(c: char)
    ensures
        encode_scalar(c as u32).len() == char_width(c),
{
    broadcast use vstd::utf8::char_is_scalar;
}

pub proof fn lemma_utf8_len(s: Seq<char>)
    ensures
        encode_utf8(s).len() == utf8_len(s),
    decreases s.len(),
{
    if s.len() > 0 {
        lemma_char_width(s[0]);
        lemma_utf8_len(s.drop_first());
    }
}

proof fn lemma_utf8_len_push(s: Seq<char>, c: char)
    ensures
        utf8_len(s.push(c)) == utf8_len(s) + char_width(c),
    decreases s.len(),
{
    if s.len() > 0 {
        assert(s.push(c).drop_first() =~= s.drop_first().push(c));
        assert(s.push(c)[0] == s[0]);
        lemma_utf8_len_push(s.drop_first(), c);
    } else {
        assert(s.push(c).drop_first() =~= Seq::<char>::empty());
        assert(s.push(c)[0] == c);
        assert(utf8_len(Seq::<char>::empty()) == 0);
    }
}

fn char_width_exec(c: char) -> (w: usize)
    ensures
        w == char_width(c),
{
    let v = c as u32;
    if v <= 0x7F {
        1
    } else if v <= 0x7FF {
        2
    } else if v <= 0xFFFF {
        3
    } else {
        4
    }
}

/// The longest prefix of `s` whose UTF-8 encoding fits in `max` bytes.
pub open spec fn take_bytes(s: Seq<char>, max: nat) -> Seq<char>
    decreases s.len(),
{
    if s.len() == 0 || char_width(s[0]) > max {
        Seq::empty()
    } else {
        seq![s[0]] + take_bytes(s.drop_first(), (max - char_width(s[0])) as nat)
    }
}

proof fn lemma_take_bytes_step(s: Seq<char>, i: int, max: nat)
    requires
        0 <= i < s.len(),
        utf8_len(s.subrange(0, i)) + char_width(s[i]) <= max,
        take_bytes(s, max).len() >= i,
    ensures
        take_bytes(s, max).len() >= i + 1,
    decreases i,
{
    if i > 0 {
        let rest = s.drop_first();
        assert(s.subrange(0, i) =~= seq![s[0]] + rest.subrange(0, i - 1));
        assert(utf8_len(s.subrange(0, i)) == char_width(s[0]) + utf8_len(rest.subrange(0, i - 1))) by {
            assert((seq![s[0]] + rest.subrange(0, i - 1)).drop_first() =~= rest.subrange(0, i - 1));
        }
        assert(rest[i - 1] == s[i]);
        lemma_take_bytes_step(rest, i - 1, (max - char_width(s[0])) as nat);
    } else {
        assert(s.subrange(0, 0) =~= Seq::<char>::empty());
    }
}

/// `take_bytes` is a prefix; it ends where the next character no longer fits.
proof fn lemma_take_bytes(s: Seq<char>, max: nat)
    ensures
        take_bytes(s, max).len() <= s.len(),
        take_bytes(s, max) =~= s.subrange(0, take_bytes(s, max).len() as int),
        utf8_len(take_bytes(s, max)) <= max,
        take_bytes(s, max).len() < s.len() ==> utf8_len(take_bytes(s, max)) + char_width(s[take_bytes(s, max).len() as int]) > max,
    decreases s.len(),
{
    if s.len() > 0 && char_width(s[0]) <= max {
        let rest = s.drop_first();
        let m = (max - char_width(s[0])) as nat;
        lemma_take_bytes(rest, m);
        let t = take_bytes(s, max);
        assert(t.drop_first() =~= take_bytes(rest, m));
    }
}

/// The longest prefix of `s` that fits in `max_bytes` bytes of UTF-8.
pub fn prefix_with_max_bytes(s: &str, max_bytes: usize) -> (r: String)
    ensures
        r@ == take_bytes(s@, max_bytes as nat),
{
    let n = s.unicode_len();
    let mut out = String::new();
    let mut used: usize = 0;
    let mut i: usize = 0;
    let mut done = false;
    assert(out@ =~= s@.subrange(0, 0));
    while i < n && !done
        invariant
            n == s@.len(),
            i <= n,
            out@ == s@.subrange(0, i as int),
            used == utf8_len(out@),
            used <= max_bytes,
            take_bytes(s@, max_bytes as nat).len() >= i,
            done ==> i < n && used + char_width(s@[i as int]) > max_bytes,
        decreases n - i + (if done { 0int } else { 1int }),
    {
        let c = s.get_char(i);
        let w = char_width_exec(c);
        if w > max_bytes - used {
            done = true;
        } else {
            proof {
                lemma_utf8_len_push(out@, c);
                lemma_take_bytes_step(s@, i as int, max_bytes as nat);
            }
            push_char(&mut out, c);
            used = used + w;
            assert(out@ =~= s@.subrange(0, i as int + 1));
            i = i + 1;
        }
    }
    proof {
        lemma_take_bytes(s@, max_bytes as nat);
        let t = take_bytes(s@, max_bytes as nat);
        if t.len() > i {
            assert(t.subrange(0, i as int + 1) =~= s@.subrange(0, i as int + 1));
            lemma_take_bytes_len_prefix(t, i as int + 1);
            lemma_utf8_len_push(s@.subrange(0, i as int), s@[i as int]);
            assert(s@.subrange(0, i as int).push(s@[i as int]) =~= s@.subrange(0, i as int + 1));
        }
        assert(t.len() == i);
        assert(out@ =~= t);
    }
    out
}

proof fn lemma_take_bytes_len_prefix(t: Seq<char>, k: int)
    requires
        0 <= k <= t.len(),
    ensures
        utf8_len(t.subrange(0, k)) <= utf8_len(t),
    decreases t.len() - k,
{
    if k < t.len() {
        lemma_take_bytes_len_prefix(t, k + 1);
        lemma_utf8_len_push(t.subrange(0, k), t[k]);
        assert(t.subrange(0, k).push(t[k]) =~= t.subrange(0, k + 1));
    } else {
        assert(t.subrange(0, k) =~= t);
    }
}

// ---------------------------------------------------------------------------
// Hashing

/// The 64-bit FNV-1a hash of `bytes`.
pub open spec fn fnv1a64_spec(bytes: Seq<u8>) -> u64
    decreases bytes.len(),
{
    if bytes.len() == 0 {
        0xcbf29ce484222325u64
    } else {
        let h = fnv1a64_spec(bytes.subrange(0, bytes.len() - 1));
        (h ^ (bytes[bytes.len() - 1] as u64)).wrapping_mul(0x100000001b3u64)
    }
}

/// The 64-bit FNV-1a hash of `bytes`.
pub fn fnv1a64(bytes: &[u8]) -> (h: u64)
    ensures
        h == fnv1a64_spec(bytes@),
{
    let mut hash: u64 = 0xcbf29ce484222325;
    let mut i: usize = 0;
    while i < bytes.len()
        invariant
            i <= bytes@.len(),
            hash == fnv1a64_spec(bytes@.subrange(0, i as int)),
        decreases bytes.len() - i,
    {
        let b = bytes[i];
        hash = hash ^ (b as u64);
        hash = hash.wrapping_mul(0x100000001b3);
        proof {
            let next = bytes@.subrange(0, i as int + 1);
            assert(next.subrange(0, i as int) =~= bytes@.subrange(0, i as int));
        }
        i = i + 1;
    }
    assert(bytes@.subrange(0, bytes@.len() as int) =~= bytes@);
    hash
}

// ---------------------------------------------------------------------------
// Shortening

/// The suffix that stands for a shortened name: `$h` and 16 hex digits of
/// the hash of its UTF-8 bytes.
pub open spec fn hash_suffix(name: Seq<char>) -> Seq<char> {
    "$h"@ + hex_fixed(fnv1a64_spec(encode_utf8(name)) as nat, 16)
}

/// `name` cut to the configured number of bytes, if it is longer.
pub open spec fn shortened(name: Seq<char>, config: MangleConfig) -> Seq<char> {
    match config.shorten_max_len {
        None => name,
        Some(max) => {
            if utf8_len(name) <= max {
                name
            } else if max <= hash_suffix(name).len() {
                hash_suffix(name).subrange(0, max as int)
            } else {
                take_bytes(name, (max - hash_suffix(name).len()) as nat) + hash_suffix(name)
            }
        },
    }
}

proof fn lemma_hex_fixed_len(n: nat, w: nat)
    ensures
        hex_fixed(n, w).len() == w,
    decreases w,
{
    if w > 0 {
        lemma_hex_fixed_len(n / 16, (w - 1) as nat);
    }
}

/// Cuts `name` to the configured maximum length, keeping a hash suffix.
pub fn shorten_if_needed(name: String, config: MangleConfig) -> (r: String)
    ensures
        r@ == shortened(name@, config),
{
    let max_len = match config.shorten_max_len {
        Some(m) => m,
        None => return name,
    };
    proof {
        lemma_utf8_len(name@);
        reveal_strlit("$h");
        lemma_hex_fixed_len(fnv1a64_spec(encode_utf8(name@)) as nat, 16);
    }
    if name.as_str().as_bytes().len() <= max_len {
        return name;
    }
    let mut suffix = String::new();
    suffix.append("$h");
    push_hex_fixed(&mut suffix, fnv1a64(name.as_str().as_bytes()), 16);
    assert(suffix@ =~= hash_suffix(name@));
    let suffix_len: usize = 18;
    if max_len <= suffix_len {
        let mut cut = String::new();
        let mut i: usize = 0;
        while i < max_len
            invariant
                i <= max_len <= suffix@.len(),
                cut@ == suffix@.subrange(0, i as int),
            decreases max_len - i,
        {
            push_char(&mut cut, suffix.as_str().get_char(i));
            assert(cut@ =~= suffix@.subrange(0, i as int + 1));
            i = i + 1;
        }
        return cut;
    }
    let mut out = prefix_with_max_bytes(name.as_str(), max_len - suffix_len);
    out.append(suffix.as_str());
    out
}

// ---------------------------------------------------------------------------
// Mangling

/// The `$`-separated encodings of the types of `s`, each preceded by `$`.
pub open spec fn mangled_tail(s: Seq<Ty>) -> Seq<char>
    decreases s, 0nat,
{
    if s.len() == 0 {
        Seq::empty()
    } else {
        mangled_tail(s.subrange(0, s.len() - 1)) + "$"@ + mangled(s[s.len() - 1])
    }
}

/// The identifier-friendly encoding of a type.
pub open spec fn mangled(t: Ty) -> Seq<char>
    decreases t, 1nat,
{
    match t {
        Ty::Int => "Int"@,
        Ty::U8 => "U8"@,
        Ty::U64 => "U64"@,
        Ty::U128 => "U128"@,
        Ty::U256 => "U256"@,
        Ty::Bool => "Bool"@,
        Ty::Str => "String"@,
        Ty::Bytes => "Bytes"@,
        Ty::Named { name, args } => {
            if args.len() == 0 {
                name
            } else {
                "N$"@ + name + "$"@ + dec(args.len()) + mangled_tail(args)
            }
        },
        Ty::Option(inner) => "Option$"@ + mangled(*inner),
        Ty::Result(ok, err) => "Result$"@ + mangled(*ok) + "$"@ + mangled(*err),
        Ty::List(inner) => "List$"@ + mangled(*inner),
        Ty::SetOf(inner) => "Set$"@ + mangled(*inner),
        Ty::MapOf(k, v) => "Map$"@ + mangled(*k) + "$"@ + mangled(*v),
        Ty::Array(inner, _) => "Array$"@ + mangled(*inner),
        Ty::Slice(inner) => "Slice$"@ + mangled(*inner),
        Ty::Tuple(elems) => "Tuple$"@ + dec(elems.len()) + mangled_tail(elems),
        Ty::Fn { params, ret } => "Fn$"@ + dec(params.len()) + mangled_tail(params) + "$"@ + mangled(*ret),
    }
}

fn push_mangled_tail(out: &mut String, v: &Vec<Type>)
    ensures
        final(out)@ == old(out)@ + mangled_tail(types_view(v@)),
    decreases v, 0nat,
{
    let ghost tv = types_view(v@);
    let mut i: usize = 0;
    assert(tv.subrange(0, 0) =~= Seq::<Ty>::empty());
    assert(out@ =~= old(out)@ + mangled_tail(tv.subrange(0, 0)));
    while i < v.len()
        invariant
            i <= v@.len(),
            tv == types_view(v@),
            out@ == old(out)@ + mangled_tail(tv.subrange(0, i as int)),
        decreases v.len() - i,
    {
        assert(decreases_to!(v => v@[i as int]));
        out.append("$");
        push_mangled(out, &v[i]);
        proof {
            let next = tv.subrange(0, i as int + 1);
            assert(next.subrange(0, i as int) =~= tv.subrange(0, i as int));
            assert(next[i as int] == tv[i as int]);
        }
        assert(out@ =~= old(out)@ + mangled_tail(tv.subrange(0, i as int + 1)));
        i = i + 1;
    }
    assert(tv.subrange(0, v@.len() as int) =~= tv);
}

fn push_mangled_slice(out: &mut String, v: &[Type])
    ensures
        final(out)@ == old(out)@ + mangled_tail(types_view(v@)),
{
    let ghost tv = types_view(v@);
    let mut i: usize = 0;
    assert(tv.subrange(0, 0) =~= Seq::<Ty>::empty());
    assert(out@ =~= old(out)@ + mangled_tail(tv.subrange(0, 0)));
    while i < v.len()
        invariant
            i <= v@.len(),
            tv == types_view(v@),
            out@ == old(out)@ + mangled_tail(tv.subrange(0, i as int)),
        decreases v.len() - i,
    {
        out.append("$");
        push_mangled(out, &v[i]);
        proof {
            let next = tv.subrange(0, i as int + 1);
            assert(next.subrange(0, i as int) =~= tv.subrange(0, i as int));
            assert(next[i as int] == tv[i as int]);
        }
        assert(out@ =~= old(out)@ + mangled_tail(tv.subrange(0, i as int + 1)));
        i = i + 1;
    }
    assert(tv.subrange(0, v@.len() as int) =~= tv);
}

fn push_mangled(out: &mut String, t: &Type)
    ensures
        final(out)@ == old(out)@ + mangled(t@),
    decreases t, 1nat,
{
    proof {
        match t {
            Type::Named { args, .. } => assert(types_view(args@).len() == args@.len()),
            Type::Tuple(elems) => assert(types_view(elems@).len() == elems@.len()),
            Type::Fn { params, .. } => assert(types_view(params@).len() == params@.len()),
            _ => {},
        }
    }
    match t {
        Type::Int => out.append("Int"),
        Type::U8 => out.append("U8"),
        Type::U64 => out.append("U64"),
        Type::U128 => out.append("U128"),
        Type::U256 => out.append("U256"),
        Type::Bool => out.append("Bool"),
        Type::String => out.append("String"),
        Type::Bytes => out.append("Bytes"),
        Type::Named { name, args } => {
            if args.len() == 0 {
                out.append(name.as_str());
            } else {
                out.append("N$");
                out.append(name.as_str());
                out.append("$");
                push_dec(out, args.len() as u128);
                push_mangled_tail(out, args);
            }
        },
        Type::Option(inner) => {
            out.append("Option$");
            push_mangled(out, inner);
        },
        Type::Result(ok, err) => {
            out.append("Result$");
            push_mangled(out, ok);
            out.append("$");
            push_mangled(out, err);
        },
        Type::List(inner) => {
            out.append("List$");
            push_mangled(out, inner);
        },
        Type::SetOf(inner) => {
            out.append("Set$");
            push_mangled(out, inner);
        },
        Type::MapOf(k, v) => {
            out.append("Map$");
            push_mangled(out, k);
            out.append("$");
            push_mangled(out, v);
        },
        Type::Array(inner, _) => {
            out.append("Array$");
            push_mangled(out, inner);
        },
        Type::Slice(inner) => {
            out.append("Slice$");
            push_mangled(out, inner);
        },
        Type::Tuple(elems) => {
            out.append("Tuple$");
            push_dec(out, elems.len() as u128);
            push_mangled_tail(out, elems);
        },
        Type::Fn { params, ret } => {
            out.append("Fn$");
            push_dec(out, params.len() as u128);
            push_mangled_tail(out, params);
            out.append("$");
            push_mangled(out, ret);
        },
    }
    assert(final(out)@ =~= old(out)@ + mangled(t@));
}

/// The mangled encoding of a type (aliases are not expanded).
pub fn mangle_type(ty: &Type, aliases: &AliasMap) -> (r: Result<String, TyperError>)
    ensures
        r matches Ok(s) && s@ == mangled(ty@),
{
    let _ = aliases;
    let mut out = String::new();
    push_mangled(&mut out, ty);
    assert(out@ =~= mangled(ty@));
    Ok(out)
}

/// The name of the instance of generic function `name` at type arguments
/// `args`: `name$T1$T2...`, shortened as configured.
pub fn mangle_fn_name_with_config(name: &str, args: &[Type], aliases: &AliasMap, config: MangleConfig) -> (r: Result<String, TyperError>)
    ensures
        r matches Ok(s) && s@ == (if args@.len() == 0 {
            name@
        } else {
            shortened(name@ + mangled_tail(types_view(args@)), config)
        }),
{
    let _ = aliases;
    if args.len() == 0 {
        return Ok(String::from_str(name));
    }
    let mut out = String::from_str(name);
    push_mangled_slice(&mut out, args);
    Ok(shorten_if_needed(out, config))
}

/// The name of method `method` of the implementation of `trait_name` for
/// `self_ty`: `impl$Trait$Self$method`, shortened as configured.
pub fn mangle_impl_method_name_with_config(
    trait_name: &str,
    self_ty: &Type,
    method: &str,
    aliases: &AliasMap,
    config: MangleConfig,
) -> (r: Result<String, TyperError>)
    ensures
        r matches Ok(s) && s@ == shortened("impl$"@ + trait_name@ + "$"@ + mangled(self_ty@) + "$"@ + method@, config),
{
    let _ = aliases;
    let mut out = String::new();
    out.append("impl$");
    out.append(trait_name);
    out.append("$");
    push_mangled(&mut out, self_ty);
    out.append("$");
    out.append(method);
    assert(out@ =~= "impl$"@ + trait_name@ + "$"@ + mangled(self_ty@) + "$"@ + method@);
    Ok(shorten_if_needed(out, config))
}

// ---------------------------------------------------------------------------
// Laws

/// Characters allowed in emitted identifiers.
pub open spec fn ident_char(c: char) -> bool {
    ('a' <= c && c <= 'z') || ('A' <= c && c <= 'Z') || ('0' <= c && c <= '9') || c == '_' || c == '$'
}

pub open spec fn ident_safe(s: Seq<char>) -> bool {
    forall|i: int| 0 <= i < s.len() ==> ident_char(#[trigger] s[i])
}

/// Every type name occurring in the types of `s` is identifier-safe.
pub open spec fn all_names_safe(s: Seq<Ty>) -> bool
    decreases s, 0nat,
{
    if s.len() == 0 {
        true
    } else {
        all_names_safe(s.subrange(0, s.len() - 1)) && names_safe(s[s.len() - 1])
    }
}

/// Every type name occurring in `t` is identifier-safe.
pub open spec fn names_safe(t: Ty) -> bool
    decreases t, 1nat,
{
    match t {
        Ty::Named { name, args } => ident_safe(name) && all_names_safe(args),
        Ty::Option(inner) => names_safe(*inner),
        Ty::Result(ok, err) => names_safe(*ok) && names_safe(*err),
        Ty::List(inner) => names_safe(*inner),
        Ty::SetOf(inner) => names_safe(*inner),
        Ty::MapOf(k, v) => names_safe(*k) && names_safe(*v),
        Ty::Array(inner, _) => names_safe(*inner),
        Ty::Slice(inner) => names_safe(*inner),
        Ty::Tuple(elems) => all_names_safe(elems),
        Ty::Fn { params, ret } => all_names_safe(params) && names_safe(*ret),
        _ => true,
    }
}

proof fn lemma_safe_concat(a: Seq<char>, b: Seq<char>)
    requires
        ident_safe(a),
        ident_safe(b),
    ensures
        ident_safe(a + b),
{
    assert forall|i: int| 0 <= i < (a + b).len() implies ident_char(#[trigger] (a + b)[i]) by {
        if i < a.len() {
            assert((a + b)[i] == a[i]);
        } else {
            assert((a + b)[i] == b[i - a.len()]);
        }
    }
}

proof fn lemma_dec_safe(n: nat)
    ensures
        ident_safe(dec(n)),
    decreases n,
{
    if n >= 10 {
        lemma_dec_safe(n / 10);
        lemma_safe_concat(dec(n / 10), seq![crate::text::digit_char(n % 10)]);
        assert(dec(n / 10).push(crate::text::digit_char(n % 10)) =~= dec(n / 10) + seq![crate::text::digit_char(n % 10)]);
    }
}

proof fn lemma_hex_safe(n: nat, w: nat)
    ensures
        ident_safe(hex_fixed(n, w)),
    decreases w,
{
    if w > 0 {
        lemma_hex_safe(n / 16, (w - 1) as nat);
        let d = crate::text::hex_char(n % 16);
        lemma_safe_concat(hex_fixed(n / 16, (w - 1) as nat), seq![d]);
        assert(hex_fixed(n / 16, (w - 1) as nat).push(d) =~= hex_fixed(n / 16, (w - 1) as nat) + seq![d]);
    }
}

proof fn lemma_literals_safe()
    ensures
        ident_safe("Int"@), ident_safe("U8"@), ident_safe("U64"@), ident_safe("U128"@),
        ident_safe("U256"@), ident_safe("Bool"@), ident_safe("String"@), ident_safe("Bytes"@),
        ident_safe("N$"@), ident_safe("$"@), ident_safe("Option$"@), ident_safe("Result$"@),
        ident_safe("List$"@), ident_safe("Set$"@), ident_safe("Map$"@), ident_safe("Array$"@),
        ident_safe("Slice$"@), ident_safe("Tuple$"@), ident_safe("Fn$"@), ident_safe("impl$"@),
        ident_safe("$h"@),
{
    reveal_strlit("Int"); reveal_strlit("U8"); reveal_strlit("U64"); reveal_strlit("U128");
    reveal_strlit("U256"); reveal_strlit("Bool"); reveal_strlit("String"); reveal_strlit("Bytes");
    reveal_strlit("N$"); reveal_strlit("$"); reveal_strlit("Option$"); reveal_strlit("Result$");
    reveal_strlit("List$"); reveal_strlit("Set$"); reveal_strlit("Map$"); reveal_strlit("Array$");
    reveal_strlit("Slice$"); reveal_strlit("Tuple$"); reveal_strlit("Fn$"); reveal_strlit("impl$");
    reveal_strlit("$h");
}

proof fn lemma_mangled_tail_safe(s: Seq<Ty>)
    requires
        all_names_safe(s),
    ensures
        ident_safe(mangled_tail(s)),
    decreases s, 0nat,
{
    if s.len() > 0 {
        let init = s.subrange(0, s.len() - 1);
        lemma_mangled_tail_safe(init);
        lemma_mangled_safe(s[s.len() - 1]);
        lemma_literals_safe();
        lemma_safe_concat(mangled_tail(init), "$"@);
        lemma_safe_concat(mangled_tail(init) + "$"@, mangled(s[s.len() - 1]));
    }
}

/// The encoding of a type whose names are identifier-safe is itself an
/// identifier-safe string.
pub proof fn lemma_mangled_safe(t: Ty)
    requires
        names_safe(t),
    ensures
        ident_safe(mangled(t)),
    decreases t, 1nat,
{
    lemma_literals_safe();
    match t {
        Ty::Named { name, args } => {
            if args.len() > 0 {
                lemma_mangled_tail_safe(args);
                lemma_dec_safe(args.len());
                lemma_safe_concat("N$"@, name);
                lemma_safe_concat("N$"@ + name, "$"@);
                lemma_safe_concat("N$"@ + name + "$"@, dec(args.len()));
                lemma_safe_concat("N$"@ + name + "$"@ + dec(args.len()), mangled_tail(args));
            }
        },
        Ty::Option(inner) => {
            lemma_mangled_safe(*inner);
            lemma_safe_concat("Option$"@, mangled(*inner));
        },
        Ty::Result(ok, err) => {
            lemma_mangled_safe(*ok);
            lemma_mangled_safe(*err);
            lemma_safe_concat("Result$"@, mangled(*ok));
            lemma_safe_concat("Result$"@ + mangled(*ok), "$"@);
            lemma_safe_concat("Result$"@ + mangled(*ok) + "$"@, mangled(*err));
        },
        Ty::List(inner) => {
            lemma_mangled_safe(*inner);
            lemma_safe_concat("List$"@, mangled(*inner));
        },
        Ty::SetOf(inner) => {
            lemma_mangled_safe(*inner);
            lemma_safe_concat("Set$"@, mangled(*inner));
        },
        Ty::MapOf(k, v) => {
            lemma_mangled_safe(*k);
            lemma_mangled_safe(*v);
            lemma_safe_concat("Map$"@, mangled(*k));
            lemma_safe_concat("Map$"@ + mangled(*k), "$"@);
            lemma_safe_concat("Map$"@ + mangled(*k) + "$"@, mangled(*v));
        },
        Ty::Array(inner, _) => {
            lemma_mangled_safe(*inner);
            lemma_safe_concat("Array$"@, mangled(*inner));
        },
        Ty::Slice(inner) => {
            lemma_mangled_safe(*inner);
            lemma_safe_concat("Slice$"@, mangled(*inner));
        },
        Ty::Tuple(elems) => {
            lemma_mangled_tail_safe(elems);
            lemma_dec_safe(elems.len());
            lemma_safe_concat("Tuple$"@, dec(elems.len()));
            lemma_safe_concat("Tuple$"@ + dec(elems.len()), mangled_tail(elems));
        },
        Ty::Fn { params, ret } => {
            lemma_mangled_tail_safe(params);
            lemma_mangled_safe(*ret);
            lemma_dec_safe(params.len());
            lemma_safe_concat("Fn$"@, dec(params.len()));
            lemma_safe_concat("Fn$"@ + dec(params.len()), mangled_tail(params));
            lemma_safe_concat("Fn$"@ + dec(params.len()) + mangled_tail(params), "$"@);
            lemma_safe_concat("Fn$"@ + dec(params.len()) + mangled_tail(params) + "$"@, mangled(*ret));
        },
        _ => {},
    }
}

proof fn lemma_ascii_utf8_len(s: Seq<char>)
    requires
        ident_safe(s),
    ensures
        utf8_len(s) == s.len(),
    decreases s.len(),
{
    if s.len() > 0 {
        assert(ident_char(s[0]));
        assert forall|i: int| 0 <= i < s.drop_first().len() implies ident_char(#[trigger] s.drop_first()[i]) by {
            assert(s.drop_first()[i] == s[i + 1]);
        }
        lemma_ascii_utf8_len(s.drop_first());
    }
}

proof fn lemma_utf8_len_concat(a: Seq<char>, b: Seq<char>)
    ensures
        utf8_len(a + b) == utf8_len(a) + utf8_len(b),
    decreases a.len(),
{
    if a.len() > 0 {
        assert((a + b).drop_first() =~= a.drop_first() + b);
        assert((a + b)[0] == a[0]);
        lemma_utf8_len_concat(a.drop_first(), b);
    } else {
        assert(a + b =~= b);
    }
}

proof fn lemma_hash_suffix(name: Seq<char>)
    ensures
        ident_safe(hash_suffix(name)),
        hash_suffix(name).len() == 18,
        utf8_len(hash_suffix(name)) == 18,
{
    let h = fnv1a64_spec(encode_utf8(name)) as nat;
    lemma_literals_safe();
    lemma_hex_safe(h, 16);
    lemma_hex_fixed_len(h, 16);
    reveal_strlit("$h");
    lemma_safe_concat("$h"@, hex_fixed(h, 16));
    lemma_ascii_utf8_len(hash_suffix(name));
}

/// A shortened name never exceeds the configured number of bytes, and
/// shortening keeps an identifier-safe name identifier-safe.
pub proof fn lemma_shortened_bounds(name: Seq<char>, config: MangleConfig)
    ensures
        config.shorten_max_len matches Some(max) ==> utf8_len(shortened(name, config)) <= max,
        ident_safe(name) ==> ident_safe(shortened(name, config)),
{
    if let Some(max) = config.shorten_max_len {
        lemma_hash_suffix(name);
        let suffix = hash_suffix(name);
        if utf8_len(name) > max {
            if max <= suffix.len() {
                let cut = suffix.subrange(0, max as int);
                assert forall|i: int| 0 <= i < cut.len() implies ident_char(#[trigger] cut[i]) by {
                    assert(cut[i] == suffix[i]);
                }
                lemma_ascii_utf8_len(cut);
            } else {
                let m = (max - suffix.len()) as nat;
                lemma_take_bytes(name, m);
                let p = take_bytes(name, m);
                lemma_utf8_len_concat(p, suffix);
                if ident_safe(name) {
                    assert forall|i: int| 0 <= i < p.len() implies ident_char(#[trigger] p[i]) by {
                        assert(p[i] == name[i]);
                    }
                    lemma_safe_concat(p, suffix);
                }
            }
        }
    }
}

/// Recording that `canonical` was emitted as `emitted`: `None` when the
/// emitted name already stands for another canonical name.
pub open spec fn track_outcome(m: Map<Seq<char>, Seq<char>>, emitted: Seq<char>, canonical: Seq<char>) -> Option<Map<Seq<char>, Seq<char>>> {
    if m.contains_key(emitted) {
        if m[emitted] == canonical {
            Some(m)
        } else {
            None
        }
    } else {
        Some(m.insert(emitted, canonical))
    }
}

/// The canonical name behind each emitted (possibly shortened) name.
#[derive(Debug)]
pub struct MangledNameOrigins {
    origins: NameMap<String>,
}

impl View for MangledNameOrigins {
    type V = Map<Seq<char>, Seq<char>>;

    closed spec fn view(&self) -> Map<Seq<char>, Seq<char>> {
        self.origins@
    }
}

impl MangledNameOrigins {
    pub fn new() -> (o: Self)
        ensures
            o@ == Map::<Seq<char>, Seq<char>>::empty(),
    {
        MangledNameOrigins { origins: NameMap::new() }
    }

    /// Records that `canonical_name` is emitted as `emitted_name`; refuses a
    /// second, different canonical name for the same emitted name.
    pub fn track_mangled_name_origin(&mut self, emitted_name: &str, canonical_name: &str, span: Span) -> (r: Result<(), TyperError>)
        ensures
            match track_outcome(old(self)@, emitted_name@, canonical_name@) {
                Some(m) => r is Ok && final(self)@ == m,
                None => final(self)@ == old(self)@ && (r matches Err(e) && e.code@ == "T250"@
                    && e.message@ == at_span(span) + "mangled name `"@ + emitted_name@ + "` is produced by both `"@
                    + old(self)@[emitted_name@] + "` and `"@ + canonical_name@ + "`"@
                    && e.start == span.start && e.end == span.end),
            },
    {
        if let Some(existing) = self.origins.get(emitted_name) {
            if !crate::text::str_eq(existing.as_str(), canonical_name) {
                return Err(TyperError::mangled_name_collision(emitted_name, existing.as_str(), canonical_name, span));
            }
            return Ok(());
        }
        self.origins.insert(emitted_name.to_string(), canonical_name.to_string());
        Ok(())
    }
}

/// An emitted name keeps the first canonical name recorded for it; other
/// entries are untouched.
pub proof fn lemma_origins_stable(m: Map<Seq<char>, Seq<char>>, emitted: Seq<char>, canonical: Seq<char>, other: Seq<char>)
    requires
        track_outcome(m, emitted, canonical) is Some,
    ensures
        track_outcome(m, emitted, canonical)->0[emitted] == (if m.contains_key(emitted) { m[emitted] } else { canonical }),
        other != emitted ==> (track_outcome(m, emitted, canonical)->0.contains_key(other) == m.contains_key(other)),
        other != emitted && m.contains_key(other) ==> track_outcome(m, emitted, canonical)->0[other] == m[other],
{
}

/// One emitted name never stands for two different canonical names.
pub proof fn lemma_no_two_origins(m: Map<Seq<char>, Seq<char>>, emitted: Seq<char>, first: Seq<char>, second: Seq<char>)
    requires
        track_outcome(m, emitted, first) is Some,
        track_outcome(track_outcome(m, emitted, first)->0, emitted, second) is Some,
    ensures
        first == second,
{
}

/// Recording the same origin again changes nothing.
pub proof fn lemma_track_idempotent(m: Map<Seq<char>, Seq<char>>, emitted: Seq<char>, canonical: Seq<char>)
    requires
        track_outcome(m, emitted, canonical) is Some,
    ensures
        track_outcome(track_outcome(m, emitted, canonical)->0, emitted, canonical) == track_outcome(m, emitted, canonical),
{
}

// ---------------------------------------------------------------------------
// The maximum-length setting

/// Unicode white space, as `str::trim` removes it.
pub open spec fn is_white(c: char) -> bool {
    let v = c as u32;
    (0x09 <= v && v <= 0x0D) || v == 0x20 || v == 0x85 || v == 0xA0 || v == 0x1680 || (0x2000 <= v && v <= 0x200A)
        || v == 0x2028 || v == 0x2029 || v == 0x202F || v == 0x205F || v == 0x3000
}

fn is_white_exec(c: char) -> (r: bool)
    ensures
        r == is_white(c),
{
    let v = c as u32;
    (0x09 <= v && v <= 0x0D) || v == 0x20 || v == 0x85 || v == 0xA0 || v == 0x1680 || (0x2000 <= v && v <= 0x200A)
        || v == 0x2028 || v == 0x2029 || v == 0x202F || v == 0x205F || v == 0x3000
}

pub open spec fn trim_start(s: Seq<char>) -> Seq<char>
    decreases s.len(),
{
    if s.len() > 0 && is_white(s[0]) { trim_start(s.drop_first()) } else { s }
}

pub open spec fn trim_end(s: Seq<char>) -> Seq<char>
    decreases s.len(),
{
    if s.len() > 0 && is_white(s.last()) { trim_end(s.drop_last()) } else { s }
}

/// `s` without leading and trailing white space.
pub open spec fn trimmed(s: Seq<char>) -> Seq<char> {
    trim_end(trim_start(s))
}

pub open spec fn is_digit(c: char) -> bool {
    '0' <= c && c <= '9'
}

pub open spec fn all_digits(d: Seq<char>) -> bool {
    forall|i: int| 0 <= i < d.len() ==> is_digit(#[trigger] d[i])
}

/// The number written by a string of decimal digits.
pub open spec fn digits_value(d: Seq<char>) -> nat
    decreases d.len(),
{
    if d.len() == 0 { 0 } else { digits_value(d.drop_last()) * 10 + ((d.last() as u32) - ('0' as u32)) as nat }
}

/// `usize` parsing: an optional `+`, then one or more decimal digits, with a
/// value that fits.
pub open spec fn parse_usize(t: Seq<char>) -> Option<nat> {
    let d = if t.len() > 0 && t[0] == '+' { t.drop_first() } else { t };
    if d.len() == 0 || !all_digits(d) || digits_value(d) > usize::MAX {
        None
    } else {
        Some(digits_value(d))
    }
}

/// The length limit a setting asks for: a positive number, white space
/// around it ignored; anything else sets no limit.
pub open spec fn max_len_setting(raw: Seq<char>) -> Option<nat> {
    match parse_usize(trimmed(raw)) {
        Some(n) => if n > 0 { Some(n) } else { None },
        None => None,
    }
}

proof fn lemma_trim_start_suffix(s: Seq<char>, lo: int)
    requires
        0 <= lo <= s.len(),
        forall|i: int| 0 <= i < lo ==> is_white(#[trigger] s[i]),
        lo == s.len() || !is_white(s[lo]),
    ensures
        trim_start(s) == s.subrange(lo, s.len() as int),
    decreases s.len(),
{
    if lo > 0 {
        assert forall|i: int| 0 <= i < lo - 1 implies is_white(#[trigger] s.drop_first()[i]) by {
            assert(s.drop_first()[i] == s[i + 1]);
        }
        if lo < s.len() {
            assert(s.drop_first()[lo - 1] == s[lo]);
        }
        lemma_trim_start_suffix(s.drop_first(), lo - 1);
        assert(s.drop_first().subrange(lo - 1, s.len() - 1) =~= s.subrange(lo, s.len() as int));
    } else {
        assert(s.subrange(0, s.len() as int) =~= s);
    }
}

proof fn lemma_trim_end_prefix(s: Seq<char>, hi: int)
    requires
        0 <= hi <= s.len(),
        forall|i: int| hi <= i < s.len() ==> is_white(#[trigger] s[i]),
        hi == 0 || !is_white(s[hi - 1]),
    ensures
        trim_end(s) == s.subrange(0, hi),
    decreases s.len(),
{
    if hi < s.len() {
        assert forall|i: int| hi <= i < s.len() - 1 implies is_white(#[trigger] s.drop_last()[i]) by {
            assert(s.drop_last()[i] == s[i]);
        }
        if hi > 0 {
            assert(s.drop_last()[hi - 1] == s[hi - 1]);
        }
        lemma_trim_end_prefix(s.drop_last(), hi);
        assert(s.drop_last().subrange(0, hi) =~= s.subrange(0, hi));
    } else {
        assert(s.subrange(0, s.len() as int) =~= s);
    }
}

proof fn lemma_digits_monotone(d: Seq<char>, i: int)
    requires
        0 <= i <= d.len(),
        all_digits(d),
    ensures
        digits_value(d.subrange(0, i)) <= digits_value(d),
    decreases d.len() - i,
{
    if i < d.len() {
        let next = d.subrange(0, i + 1);
        assert(next.drop_last() =~= d.subrange(0, i));
        assert(is_digit(d[i]));
        lemma_digits_monotone(d, i + 1);
    } else {
        assert(d.subrange(0, i) =~= d);
    }
}

/// Reads the maximum-length setting of name mangling.
pub fn parse_max_len(raw: &str) -> (r: Option<usize>)
    ensures
        match r {
            Some(n) => max_len_setting(raw@) == Some(n as nat),
            None => max_len_setting(raw@) is None,
        },
{
    let cs = chars_of(raw);
    let n = cs.len();
    let mut lo: usize = 0;
    while lo < n && is_white_exec(cs[lo])
        invariant
            n == cs@.len(),
            lo <= n,
            forall|i: int| 0 <= i < lo ==> is_white(#[trigger] cs@[i]),
        decreases n - lo,
    {
        lo = lo + 1;
    }
    let mut hi: usize = n;
    while hi > lo && is_white_exec(cs[hi - 1])
        invariant
            n == cs@.len(),
            lo <= hi <= n,
            forall|i: int| hi <= i < n ==> is_white(#[trigger] cs@[i]),
        decreases hi - lo,
    {
        hi = hi - 1;
    }
    let ghost ts = cs@.subrange(lo as int, n as int);
    let ghost t = cs@.subrange(lo as int, hi as int);
    proof {
        lemma_trim_start_suffix(cs@, lo as int);
        assert forall|i: int| hi - lo <= i < ts.len() implies is_white(#[trigger] ts[i]) by {
            assert(ts[i] == cs@[lo + i]);
        }
        if hi > lo {
            assert(ts[hi - lo - 1] == cs@[hi - 1]);
        }
        lemma_trim_end_prefix(ts, hi - lo);
        assert(ts.subrange(0, hi - lo) =~= t);
        assert(trimmed(raw@) == t);
    }
    let mut start = lo;
    if start < hi && cs[start] == '+' {
        start = start + 1;
    }
    let ghost d = cs@.subrange(start as int, hi as int);
    proof {
        if lo < hi && cs@[lo as int] == '+' {
            assert(t.drop_first() =~= d);
        } else {
            assert(t =~= d);
        }
    }
    if start == hi {
        proof {
            assert(d.len() == 0);
            assert(parse_usize(t) is None);
        }
        return None;
    }
    let ghost stripped = t.len() > 0 && t[0] == '+';
    assert(stripped ==> t.drop_first() == d);
    assert(!stripped ==> t == d);
    let mut acc: usize = 0;
    let mut i: usize = start;
    while i < hi
        invariant
            start <= i <= hi <= n,
            n == cs@.len(),
            d == cs@.subrange(start as int, hi as int),
            d.len() > 0,
            trimmed(raw@) == t,
            stripped == (t.len() > 0 && t[0] == '+'),
            stripped ==> t.drop_first() == d,
            !stripped ==> t == d,
            forall|j: int| 0 <= j < i - start ==> is_digit(#[trigger] d[j]),
            acc as nat == digits_value(d.subrange(0, i - start)),
        decreases hi - i,
    {
        let c = cs[i];
        if !('0' <= c && c <= '9') {
            proof {
                assert(d[i - start] == c);
                assert(!all_digits(d));
            }
            return None;
        }
        let digit = (c as u32 - '0' as u32) as usize;
        proof {
            let pre = d.subrange(0, i - start + 1);
            assert(pre.drop_last() =~= d.subrange(0, i - start));
            assert(pre.last() == c);
        }
        let next = match acc.checked_mul(10) {
            Some(m) => m.checked_add(digit),
            None => None,
        };
        match next {
            Some(v) => {
                acc = v;
            },
            None => {
                proof {
                    let pre = d.subrange(0, i - start + 1);
                    assert(digits_value(pre) > usize::MAX);
                    if all_digits(d) {
                        lemma_digits_monotone(d, i - start + 1);
                    }
                }
                return None;
            },
        }
        i = i + 1;
    }
    proof {
        assert(d.subrange(0, hi - start) =~= d);
        assert(all_digits(d));
    }
    if acc == 0 {
        return None;
    }
    Some(acc)
}

/// The configuration for a maximum-length setting, when one is given.
pub fn mangle_config_from_setting(raw: Option<&str>) -> (c: MangleConfig)
    ensures
        match raw {
            Some(text) => match max_len_setting(text@) {
                Some(n) => c.shorten_max_len == Some(n as usize),
                None => c.shorten_max_len is None,
            },
            None => c.shorten_max_len is None,
        },
{
    match raw {
        Some(text) => MangleConfig { shorten_max_len: parse_max_len(text) },
        None => MangleConfig { shorten_max_len: None },
    }
}

proof fn lemma_cancel_prefix(p: Seq<char>, a: Seq<char>, b: Seq<char>)
    requires
        p + a == p + b,
    ensures
        a == b,
{
    assert(a =~= (p + a).subrange(p.len() as int, (p + a).len() as int));
    assert(b =~= (p + b).subrange(p.len() as int, (p + b).len() as int));
}

proof fn lemma_cancel_suffix(a: Seq<char>, b: Seq<char>, q: Seq<char>)
    requires
        a + q == b + q,
    ensures
        a == b,
{
    assert(a =~= (a + q).subrange(0, a.len() as int));
    assert(b =~= (b + q).subrange(0, b.len() as int));
}

/// Every component of a type goes into its mangled name: instances that
/// differ in one component (with the others the same) get different names.
/// So `Option`, `List`, `Set`, `Slice` and `Array` keep their element,
/// and `Result` and `Map` keep both of their components.
pub proof fn lemma_mangled_keeps_components(a: Ty, b: Ty, c: Ty)
    ensures
        mangled(Ty::Option(Box::new(a))) == mangled(Ty::Option(Box::new(b))) ==> mangled(a) == mangled(b),
        mangled(Ty::List(Box::new(a))) == mangled(Ty::List(Box::new(b))) ==> mangled(a) == mangled(b),
        mangled(Ty::SetOf(Box::new(a))) == mangled(Ty::SetOf(Box::new(b))) ==> mangled(a) == mangled(b),
        mangled(Ty::Slice(Box::new(a))) == mangled(Ty::Slice(Box::new(b))) ==> mangled(a) == mangled(b),
        mangled(Ty::Result(Box::new(c), Box::new(a))) == mangled(Ty::Result(Box::new(c), Box::new(b))) ==> mangled(a) == mangled(b),
        mangled(Ty::Result(Box::new(a), Box::new(c))) == mangled(Ty::Result(Box::new(b), Box::new(c))) ==> mangled(a) == mangled(b),
        mangled(Ty::MapOf(Box::new(c), Box::new(a))) == mangled(Ty::MapOf(Box::new(c), Box::new(b))) ==> mangled(a) == mangled(b),
        mangled(Ty::MapOf(Box::new(a), Box::new(c))) == mangled(Ty::MapOf(Box::new(b), Box::new(c))) ==> mangled(a) == mangled(b),
{
    let ma = mangled(a);
    let mb = mangled(b);
    let mc = mangled(c);
    if mangled(Ty::Option(Box::new(a))) == mangled(Ty::Option(Box::new(b))) {
        lemma_cancel_prefix("Option$"@, ma, mb);
    }
    if mangled(Ty::List(Box::new(a))) == mangled(Ty::List(Box::new(b))) {
        lemma_cancel_prefix("List$"@, ma, mb);
    }
    if mangled(Ty::SetOf(Box::new(a))) == mangled(Ty::SetOf(Box::new(b))) {
        lemma_cancel_prefix("Set$"@, ma, mb);
    }
    if mangled(Ty::Slice(Box::new(a))) == mangled(Ty::Slice(Box::new(b))) {
        lemma_cancel_prefix("Slice$"@, ma, mb);
    }
    if mangled(Ty::Result(Box::new(c), Box::new(a))) == mangled(Ty::Result(Box::new(c), Box::new(b))) {
        assert(("Result$"@ + mc + "$"@) + ma == ("Result$"@ + mc + "$"@) + mb);
        lemma_cancel_prefix("Result$"@ + mc + "$"@, ma, mb);
    }
    if mangled(Ty::Result(Box::new(a), Box::new(c))) == mangled(Ty::Result(Box::new(b), Box::new(c))) {
        assert(("Result$"@ + ma) + ("$"@ + mc) =~= "Result$"@ + ma + "$"@ + mc);
        assert(("Result$"@ + mb) + ("$"@ + mc) =~= "Result$"@ + mb + "$"@ + mc);
        lemma_cancel_suffix("Result$"@ + ma, "Result$"@ + mb, "$"@ + mc);
        lemma_cancel_prefix("Result$"@, ma, mb);
    }
    if mangled(Ty::MapOf(Box::new(c), Box::new(a))) == mangled(Ty::MapOf(Box::new(c), Box::new(b))) {
        assert(("Map$"@ + mc + "$"@) + ma == ("Map$"@ + mc + "$"@) + mb);
        lemma_cancel_prefix("Map$"@ + mc + "$"@, ma, mb);
    }
    if mangled(Ty::MapOf(Box::new(a), Box::new(c))) == mangled(Ty::MapOf(Box::new(b), Box::new(c))) {
        assert(("Map$"@ + ma) + ("$"@ + mc) =~= "Map$"@ + ma + "$"@ + mc);
        assert(("Map$"@ + mb) + ("$"@ + mc) =~= "Map$"@ + mb + "$"@ + mc);
        lemma_cancel_suffix("Map$"@ + ma, "Map$"@ + mb, "$"@ + mc);
        lemma_cancel_prefix("Map$"@, ma, mb);
    }
}

} // verus!
