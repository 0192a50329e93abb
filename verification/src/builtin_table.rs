use vstd::prelude::*;
use crate::builtins::{compat_alias_of, text_compat_of};
use crate::names::NameSet;
use crate::ty::{params_view, types_view, Effect, Param, ParamKind, ParamV, Ty, Type};

verus! {

/// A builtin's signature: its qualified name, parameters, return type and effect.
pub type BuiltinSig = (String, Vec<Param>, Type, Effect);

/// Model of a builtin signature.
pub type SigV = (Seq<char>, Seq<ParamV>, Ty, Effect);

pub open spec fn sig_view(s: BuiltinSig) -> SigV {
    (s.0@, params_view(s.1@), s.2@, s.3)
}

pub open spec fn sigs_view(v: Seq<BuiltinSig>) -> Seq<SigV> {
    v.map_values(|s: BuiltinSig| sig_view(s))
}

/// A parameter passed by borrow.
pub open spec fn borrow_v(name: Seq<char>, ty: Ty) -> ParamV {
    ParamV { kind: ParamKind::Borrow, name, ty }
}

/// A named type without arguments.
pub open spec fn named_v(name: Seq<char>) -> Ty {
    Ty::Named { name, args: Seq::empty() }
}

/// A pair type.
pub open spec fn pair_v(a: Ty, b: Ty) -> Ty {
    Ty::Tuple(seq![a, b])
}

fn borrow(name: &str, ty: Type) -> (p: Param)
    ensures
        p@ == borrow_v(name@, ty@),
{
    Param { kind: ParamKind::Borrow, name: name.to_string(), ty }
}

fn named(name: &str) -> (t: Type)
    ensures
        t@ == named_v(name@),
{
    let args: Vec<Type> = Vec::new();
    assert(types_view(args@) =~= Seq::<Ty>::empty());
    Type::Named { name: name.to_string(), args }
}

fn pair(a: Type, b: Type) -> (t: Type)
    ensures
        t@ == pair_v(a@, b@),
{
    let ghost (av, bv) = (a@, b@);
    let elems = vec![a, b];
    assert(types_view(elems@) =~= seq![av, bv]);
    Type::Tuple(elems)
}

fn params0() -> (v: Vec<Param>)
    ensures
        params_view(v@) == Seq::<ParamV>::empty(),
{
    let v: Vec<Param> = Vec::new();
    assert(params_view(v@) =~= Seq::<ParamV>::empty());
    v
}

fn params1(a: Param) -> (v: Vec<Param>)
    ensures
        params_view(v@) == seq![a@],
{
    let ghost views = seq![a@];
    let v = vec![a];
    assert(params_view(v@) =~= views);
    v
}

fn params2(a: Param, b: Param) -> (v: Vec<Param>)
    ensures
        params_view(v@) == seq![a@, b@],
{
    let ghost views = seq![a@, b@];
    let v = vec![a, b];
    assert(params_view(v@) =~= views);
    v
}

fn params3(a: Param, b: Param, c: Param) -> (v: Vec<Param>)
    ensures
        params_view(v@) == seq![a@, b@, c@],
{
    let ghost views = seq![a@, b@, c@];
    let v = vec![a, b, c];
    assert(params_view(v@) =~= views);
    v
}

fn params4(a: Param, b: Param, c: Param, d: Param) -> (v: Vec<Param>)
    ensures
        params_view(v@) == seq![a@, b@, c@, d@],
{
    let ghost views = seq![a@, b@, c@, d@];
    let v = vec![a, b, c, d];
    assert(params_view(v@) =~= views);
    v
}

fn option_of(t: Type) -> (r: Type)
    ensures
        r@ == Ty::Option(Box::new(t@)),
{
    Type::Option(Box::new(t))
}

fn list_of(t: Type) -> (r: Type)
    ensures
        r@ == Ty::List(Box::new(t@)),
{
    Type::List(Box::new(t))
}

fn set_of(t: Type) -> (r: Type)
    ensures
        r@ == Ty::SetOf(Box::new(t@)),
{
    Type::SetOf(Box::new(t))
}

fn array_of(t: Type) -> (r: Type)
    ensures
        r@ == Ty::Array(Box::new(t@), None),
{
    Type::Array(Box::new(t), None)
}

fn result_of(ok: Type, err: Type) -> (r: Type)
    ensures
        r@ == Ty::Result(Box::new(ok@), Box::new(err@)),
{
    Type::Result(Box::new(ok), Box::new(err))
}

fn sig(name: &str, params: Vec<Param>, ret: Type, effect: Effect) -> (s: BuiltinSig)
    ensures
        s.0@ == name@,
        s.1 == params,
        s.2 == ret,
        s.3 == effect,
{
    (name.to_string(), params, ret, effect)
}

/// The builtins of byte strings, console output and the environment.
pub open spec fn bytes_env_sigs() -> Seq<SigV> {
    seq![
        ("std::bytes::len"@, seq![borrow_v("b"@, Ty::Bytes)], Ty::Int, Effect::Pure),
        ("std::bytes::is_empty"@, seq![borrow_v("b"@, Ty::Bytes)], Ty::Bool, Effect::Pure),
        ("std::bytes::concat"@, seq![borrow_v("a"@, Ty::Bytes), borrow_v("b"@, Ty::Bytes)], Ty::Bytes, Effect::Pure),
        ("std::bytes::eq"@, seq![borrow_v("a"@, Ty::Bytes), borrow_v("b"@, Ty::Bytes)], Ty::Bool, Effect::Pure),
        ("std::bytes::equals"@, seq![borrow_v("a"@, Ty::Bytes), borrow_v("b"@, Ty::Bytes)], Ty::Bool, Effect::Pure),
        ("std::bytes::eq_ct"@, seq![borrow_v("a"@, Ty::Bytes), borrow_v("b"@, Ty::Bytes)], Ty::Bool, Effect::Pure),
        ("std::bytes::equals_ct"@, seq![borrow_v("a"@, Ty::Bytes), borrow_v("b"@, Ty::Bytes)], Ty::Bool, Effect::Pure),
        ("std::bytes::from_string"@, seq![borrow_v("s"@, Ty::Str)], Ty::Bytes, Effect::Pure),
        ("std::bytes::to_string"@, seq![borrow_v("b"@, Ty::Bytes)], Ty::Str, Effect::Pure),
        ("std::wasi::print"@, seq![borrow_v("b"@, Ty::Bytes)], Ty::Int, Effect::Io),
        ("std::env::time"@, seq![], Ty::Int, Effect::Io),
        ("std::env::chain_id"@, seq![], Ty::Str, Effect::Io),
        ("std::env::random"@, seq![borrow_v("len"@, Ty::Int)], Ty::Bytes, Effect::Io),
    ]
}

fn bytes_env_builtin_sigs() -> (v: Vec<BuiltinSig>)
    ensures
        sigs_view(v@) =~~= bytes_env_sigs(),
{
    let v = vec![
        sig("std::bytes::len", params1(borrow("b", Type::Bytes)), Type::Int, Effect::Pure),
        sig("std::bytes::is_empty", params1(borrow("b", Type::Bytes)), Type::Bool, Effect::Pure),
        sig("std::bytes::concat", params2(borrow("a", Type::Bytes), borrow("b", Type::Bytes)), Type::Bytes, Effect::Pure),
        sig("std::bytes::eq", params2(borrow("a", Type::Bytes), borrow("b", Type::Bytes)), Type::Bool, Effect::Pure),
        sig("std::bytes::equals", params2(borrow("a", Type::Bytes), borrow("b", Type::Bytes)), Type::Bool, Effect::Pure),
        sig("std::bytes::eq_ct", params2(borrow("a", Type::Bytes), borrow("b", Type::Bytes)), Type::Bool, Effect::Pure),
        sig("std::bytes::equals_ct", params2(borrow("a", Type::Bytes), borrow("b", Type::Bytes)), Type::Bool, Effect::Pure),
        sig("std::bytes::from_string", params1(borrow("s", Type::String)), Type::Bytes, Effect::Pure),
        sig("std::bytes::to_string", params1(borrow("b", Type::Bytes)), Type::String, Effect::Pure),
        sig("std::wasi::print", params1(borrow("b", Type::Bytes)), Type::Int, Effect::Io),
        sig("std::env::time", params0(), Type::Int, Effect::Io),
        sig("std::env::chain_id", params0(), Type::String, Effect::Io),
        sig("std::env::random", params1(borrow("len", Type::Int)), Type::Bytes, Effect::Io),
    ];
    proof {
        assert(sigs_view(v@) =~~= bytes_env_sigs());
    }
    v
}

/// The builtins of cryptography and the host interface.
pub open spec fn crypto_host_sigs() -> Seq<SigV> {
    seq![
        ("std::crypto::hash"@, seq![borrow_v("alg"@, Ty::Str), borrow_v("data"@, Ty::Bytes)], Ty::Bytes, Effect::Io),
        ("std::crypto::hmac"@, seq![borrow_v("alg"@, Ty::Str), borrow_v("key"@, Ty::Bytes), borrow_v("data"@, Ty::Bytes)], Ty::Bytes, Effect::Io),
        ("std::crypto::sha256"@, seq![borrow_v("data"@, Ty::Bytes)], Ty::Bytes, Effect::Io),
        ("std::crypto::hmac_sha256"@, seq![borrow_v("key"@, Ty::Bytes), borrow_v("data"@, Ty::Bytes)], Ty::Bytes, Effect::Io),
        ("std::crypto::verify"@, seq![borrow_v("alg"@, Ty::Str), borrow_v("msg"@, Ty::Bytes), borrow_v("sig"@, Ty::Bytes), borrow_v("pk"@, Ty::Bytes)], Ty::Bool, Effect::Io),
        ("std::host::storage::contains"@, seq![borrow_v("key"@, Ty::Bytes)], Ty::Result(Box::new(Ty::Bool), Box::new(named_v("std::host::HostError"@))), Effect::Io),
        ("std::host::storage::get"@, seq![borrow_v("key"@, Ty::Bytes)], Ty::Result(Box::new(Ty::Option(Box::new(Ty::Bytes))), Box::new(named_v("std::host::HostError"@))), Effect::Io),
        ("std::host::storage::set"@, seq![borrow_v("key"@, Ty::Bytes), borrow_v("value"@, Ty::Bytes)], Ty::Result(Box::new(Ty::Bool), Box::new(named_v("std::host::HostError"@))), Effect::Io),
        ("std::host::storage::delete"@, seq![borrow_v("key"@, Ty::Bytes)], Ty::Result(Box::new(Ty::Bool), Box::new(named_v("std::host::HostError"@))), Effect::Io),
        ("std::host::log::info"@, seq![borrow_v("code"@, named_v("std::core::ErrorCode"@)), borrow_v("message"@, Ty::Str)], Ty::Result(Box::new(Ty::Bool), Box::new(named_v("std::host::HostError"@))), Effect::Io),
        ("std::host::log::warn"@, seq![borrow_v("code"@, named_v("std::core::ErrorCode"@)), borrow_v("message"@, Ty::Str)], Ty::Result(Box::new(Ty::Bool), Box::new(named_v("std::host::HostError"@))), Effect::Io),
        ("std::host::log::error"@, seq![borrow_v("code"@, named_v("std::core::ErrorCode"@)), borrow_v("message"@, Ty::Str)], Ty::Result(Box::new(Ty::Bool), Box::new(named_v("std::host::HostError"@))), Effect::Io),
        ("std::host::env::chain_id"@, seq![], Ty::Result(Box::new(Ty::U64), Box::new(named_v("std::host::HostError"@))), Effect::Io),
        ("std::host::env::caller"@, seq![], Ty::Result(Box::new(Ty::Bytes), Box::new(named_v("std::host::HostError"@))), Effect::Io),
        ("std::host::env::block_height"@, seq![], Ty::Result(Box::new(Ty::U64), Box::new(named_v("std::host::HostError"@))), Effect::Io),
        ("std::host::env::timestamp"@, seq![], Ty::Result(Box::new(Ty::U64), Box::new(named_v("std::host::HostError"@))), Effect::Io),
        ("std::host::host_error::code"@, seq![borrow_v("err"@, named_v("std::host::HostError"@))], named_v("std::core::ErrorCode"@), Effect::Pure),
        ("std::host::host_error::equals"@, seq![borrow_v("lhs"@, named_v("std::host::HostError"@)), borrow_v("rhs"@, named_v("std::host::HostError"@))], Ty::Bool, Effect::Pure),
    ]
}

fn crypto_host_builtin_sigs() -> (v: Vec<BuiltinSig>)
    ensures
        sigs_view(v@) =~~= crypto_host_sigs(),
{
    let v = vec![
        sig("std::crypto::hash", params2(borrow("alg", Type::String), borrow("data", Type::Bytes)), Type::Bytes, Effect::Io),
        sig("std::crypto::hmac", params3(borrow("alg", Type::String), borrow("key", Type::Bytes), borrow("data", Type::Bytes)), Type::Bytes, Effect::Io),
        sig("std::crypto::sha256", params1(borrow("data", Type::Bytes)), Type::Bytes, Effect::Io),
        sig("std::crypto::hmac_sha256", params2(borrow("key", Type::Bytes), borrow("data", Type::Bytes)), Type::Bytes, Effect::Io),
        sig("std::crypto::verify", params4(borrow("alg", Type::String), borrow("msg", Type::Bytes), borrow("sig", Type::Bytes), borrow("pk", Type::Bytes)), Type::Bool, Effect::Io),
        sig("std::host::storage::contains", params1(borrow("key", Type::Bytes)), result_of(Type::Bool, named("std::host::HostError")), Effect::Io),
        sig("std::host::storage::get", params1(borrow("key", Type::Bytes)), result_of(option_of(Type::Bytes), named("std::host::HostError")), Effect::Io),
        sig("std::host::storage::set", params2(borrow("key", Type::Bytes), borrow("value", Type::Bytes)), result_of(Type::Bool, named("std::host::HostError")), Effect::Io),
        sig("std::host::storage::delete", params1(borrow("key", Type::Bytes)), result_of(Type::Bool, named("std::host::HostError")), Effect::Io),
        sig("std::host::log::info", params2(borrow("code", named("std::core::ErrorCode")), borrow("message", Type::String)), result_of(Type::Bool, named("std::host::HostError")), Effect::Io),
        sig("std::host::log::warn", params2(borrow("code", named("std::core::ErrorCode")), borrow("message", Type::String)), result_of(Type::Bool, named("std::host::HostError")), Effect::Io),
        sig("std::host::log::error", params2(borrow("code", named("std::core::ErrorCode")), borrow("message", Type::String)), result_of(Type::Bool, named("std::host::HostError")), Effect::Io),
        sig("std::host::env::chain_id", params0(), result_of(Type::U64, named("std::host::HostError")), Effect::Io),
        sig("std::host::env::caller", params0(), result_of(Type::Bytes, named("std::host::HostError")), Effect::Io),
        sig("std::host::env::block_height", params0(), result_of(Type::U64, named("std::host::HostError")), Effect::Io),
        sig("std::host::env::timestamp", params0(), result_of(Type::U64, named("std::host::HostError")), Effect::Io),
        sig("std::host::host_error::code", params1(borrow("err", named("std::host::HostError"))), named("std::core::ErrorCode"), Effect::Pure),
        sig("std::host::host_error::equals", params2(borrow("lhs", named("std::host::HostError")), borrow("rhs", named("std::host::HostError"))), Type::Bool, Effect::Pure),
    ];
    proof {
        assert(sigs_view(v@) =~~= crypto_host_sigs());
    }
    v
}

/// The builtins of contract addresses, amounts, events and verification results.
pub open spec fn contract_sigs() -> Seq<SigV> {
    seq![
        ("std::contract::address::from_bytes"@, seq![borrow_v("input"@, Ty::Bytes)], Ty::Result(Box::new(named_v("std::contract::Address"@)), Box::new(named_v("std::contract::ContractError"@))), Effect::Pure),
        ("std::contract::address::to_bytes"@, seq![borrow_v("addr"@, named_v("std::contract::Address"@))], Ty::Bytes, Effect::Pure),
        ("std::contract::address::equals"@, seq![borrow_v("lhs"@, named_v("std::contract::Address"@)), borrow_v("rhs"@, named_v("std::contract::Address"@))], Ty::Bool, Effect::Pure),
        ("std::contract::amount::from_u64"@, seq![borrow_v("value"@, Ty::U64)], named_v("std::contract::Amount"@), Effect::Pure),
        ("std::contract::amount::value"@, seq![borrow_v("amount"@, named_v("std::contract::Amount"@))], Ty::U64, Effect::Pure),
        ("std::contract::amount::add_checked"@, seq![borrow_v("lhs"@, named_v("std::contract::Amount"@)), borrow_v("rhs"@, named_v("std::contract::Amount"@))], Ty::Result(Box::new(named_v("std::contract::Amount"@)), Box::new(named_v("std::contract::ContractError"@))), Effect::Pure),
        ("std::contract::amount::sub_checked"@, seq![borrow_v("lhs"@, named_v("std::contract::Amount"@)), borrow_v("rhs"@, named_v("std::contract::Amount"@))], Ty::Result(Box::new(named_v("std::contract::Amount"@)), Box::new(named_v("std::contract::ContractError"@))), Effect::Pure),
        ("std::contract::amount::is_zero"@, seq![borrow_v("amount"@, named_v("std::contract::Amount"@))], Ty::Bool, Effect::Pure),
        ("std::contract::event::new"@, seq![borrow_v("topic"@, Ty::Bytes), borrow_v("payload"@, Ty::Bytes)], named_v("std::contract::Event"@), Effect::Pure),
        ("std::contract::event::topic"@, seq![borrow_v("event"@, named_v("std::contract::Event"@))], Ty::Bytes, Effect::Pure),
        ("std::contract::event::payload"@, seq![borrow_v("event"@, named_v("std::contract::Event"@))], Ty::Bytes, Effect::Pure),
        ("std::contract::contract_error::code"@, seq![borrow_v("err"@, named_v("std::contract::ContractError"@))], named_v("std::core::ErrorCode"@), Effect::Pure),
        ("std::contract::contract_error::equals"@, seq![borrow_v("lhs"@, named_v("std::contract::ContractError"@)), borrow_v("rhs"@, named_v("std::contract::ContractError"@))], Ty::Bool, Effect::Pure),
        ("std::crypto::verify_result::is_valid"@, seq![borrow_v("value"@, named_v("std::crypto::VerifyResult"@))], Ty::Bool, Effect::Pure),
        ("std::crypto::verify_result::error_or_none"@, seq![borrow_v("value"@, named_v("std::crypto::VerifyResult"@))], Ty::Option(Box::new(named_v("std::crypto::CryptoError"@))), Effect::Pure),
        ("std::crypto::verify_result::valid"@, seq![], named_v("std::crypto::VerifyResult"@), Effect::Pure),
        ("std::crypto::verify_result::invalid"@, seq![borrow_v("err"@, named_v("std::crypto::CryptoError"@))], named_v("std::crypto::VerifyResult"@), Effect::Pure),
        ("std::crypto::crypto_error::code"@, seq![borrow_v("err"@, named_v("std::crypto::CryptoError"@))], named_v("std::core::ErrorCode"@), Effect::Pure),
        ("std::crypto::crypto_error::equals"@, seq![borrow_v("lhs"@, named_v("std::crypto::CryptoError"@)), borrow_v("rhs"@, named_v("std::crypto::CryptoError"@))], Ty::Bool, Effect::Pure),
    ]
}

fn contract_builtin_sigs() -> (v: Vec<BuiltinSig>)
    ensures
        sigs_view(v@) =~~= contract_sigs(),
{
    let v = vec![
        sig("std::contract::address::from_bytes", params1(borrow("input", Type::Bytes)), result_of(named("std::contract::Address"), named("std::contract::ContractError")), Effect::Pure),
        sig("std::contract::address::to_bytes", params1(borrow("addr", named("std::contract::Address"))), Type::Bytes, Effect::Pure),
        sig("std::contract::address::equals", params2(borrow("lhs", named("std::contract::Address")), borrow("rhs", named("std::contract::Address"))), Type::Bool, Effect::Pure),
        sig("std::contract::amount::from_u64", params1(borrow("value", Type::U64)), named("std::contract::Amount"), Effect::Pure),
        sig("std::contract::amount::value", params1(borrow("amount", named("std::contract::Amount"))), Type::U64, Effect::Pure),
        sig("std::contract::amount::add_checked", params2(borrow("lhs", named("std::contract::Amount")), borrow("rhs", named("std::contract::Amount"))), result_of(named("std::contract::Amount"), named("std::contract::ContractError")), Effect::Pure),
        sig("std::contract::amount::sub_checked", params2(borrow("lhs", named("std::contract::Amount")), borrow("rhs", named("std::contract::Amount"))), result_of(named("std::contract::Amount"), named("std::contract::ContractError")), Effect::Pure),
        sig("std::contract::amount::is_zero", params1(borrow("amount", named("std::contract::Amount"))), Type::Bool, Effect::Pure),
        sig("std::contract::event::new", params2(borrow("topic", Type::Bytes), borrow("payload", Type::Bytes)), named("std::contract::Event"), Effect::Pure),
        sig("std::contract::event::topic", params1(borrow("event", named("std::contract::Event"))), Type::Bytes, Effect::Pure),
        sig("std::contract::event::payload", params1(borrow("event", named("std::contract::Event"))), Type::Bytes, Effect::Pure),
        sig("std::contract::contract_error::code", params1(borrow("err", named("std::contract::ContractError"))), named("std::core::ErrorCode"), Effect::Pure),
        sig("std::contract::contract_error::equals", params2(borrow("lhs", named("std::contract::ContractError")), borrow("rhs", named("std::contract::ContractError"))), Type::Bool, Effect::Pure),
        sig("std::crypto::verify_result::is_valid", params1(borrow("value", named("std::crypto::VerifyResult"))), Type::Bool, Effect::Pure),
        sig("std::crypto::verify_result::error_or_none", params1(borrow("value", named("std::crypto::VerifyResult"))), option_of(named("std::crypto::CryptoError")), Effect::Pure),
        sig("std::crypto::verify_result::valid", params0(), named("std::crypto::VerifyResult"), Effect::Pure),
        sig("std::crypto::verify_result::invalid", params1(borrow("err", named("std::crypto::CryptoError"))), named("std::crypto::VerifyResult"), Effect::Pure),
        sig("std::crypto::crypto_error::code", params1(borrow("err", named("std::crypto::CryptoError"))), named("std::core::ErrorCode"), Effect::Pure),
        sig("std::crypto::crypto_error::equals", params2(borrow("lhs", named("std::crypto::CryptoError")), borrow("rhs", named("std::crypto::CryptoError"))), Type::Bool, Effect::Pure),
    ];
    proof {
        assert(sigs_view(v@) =~~= contract_sigs());
    }
    v
}

/// The builtins of the encoder and decoder.
pub open spec fn codec_sigs() -> Seq<SigV> {
    seq![
        ("std::encoder::new"@, seq![], named_v("std::encoder::Encoder"@), Effect::Pure),
        ("std::encoder::write_u64"@, seq![borrow_v("enc"@, named_v("std::encoder::Encoder"@)), borrow_v("value"@, Ty::U64)], Ty::Result(Box::new(named_v("std::encoder::Encoder"@)), Box::new(named_v("std::encode_error::EncodeError"@))), Effect::Pure),
        ("std::encoder::write_bool"@, seq![borrow_v("enc"@, named_v("std::encoder::Encoder"@)), borrow_v("value"@, Ty::Bool)], Ty::Result(Box::new(named_v("std::encoder::Encoder"@)), Box::new(named_v("std::encode_error::EncodeError"@))), Effect::Pure),
        ("std::encoder::write_bytes"@, seq![borrow_v("enc"@, named_v("std::encoder::Encoder"@)), borrow_v("value"@, Ty::Bytes)], Ty::Result(Box::new(named_v("std::encoder::Encoder"@)), Box::new(named_v("std::encode_error::EncodeError"@))), Effect::Pure),
        ("std::encoder::finish"@, seq![borrow_v("enc"@, named_v("std::encoder::Encoder"@))], Ty::Result(Box::new(Ty::Bytes), Box::new(named_v("std::encode_error::EncodeError"@))), Effect::Pure),
        ("std::decoder::new"@, seq![borrow_v("input"@, Ty::Bytes)], named_v("std::decoder::Decoder"@), Effect::Pure),
        ("std::decoder::read_u64"@, seq![borrow_v("dec"@, named_v("std::decoder::Decoder"@))], Ty::Result(Box::new(pair_v(named_v("std::decoder::Decoder"@), Ty::U64)), Box::new(named_v("std::decode_error::DecodeError"@))), Effect::Pure),
        ("std::decoder::read_bool"@, seq![borrow_v("dec"@, named_v("std::decoder::Decoder"@))], Ty::Result(Box::new(pair_v(named_v("std::decoder::Decoder"@), Ty::Bool)), Box::new(named_v("std::decode_error::DecodeError"@))), Effect::Pure),
        ("std::decoder::read_bytes"@, seq![borrow_v("dec"@, named_v("std::decoder::Decoder"@))], Ty::Result(Box::new(pair_v(named_v("std::decoder::Decoder"@), Ty::Bytes)), Box::new(named_v("std::decode_error::DecodeError"@))), Effect::Pure),
        ("std::decoder::read_fixed"@, seq![borrow_v("dec"@, named_v("std::decoder::Decoder"@)), borrow_v("len"@, Ty::Int)], Ty::Result(Box::new(pair_v(named_v("std::decoder::Decoder"@), Ty::Bytes)), Box::new(named_v("std::decode_error::DecodeError"@))), Effect::Pure),
        ("std::decoder::position"@, seq![borrow_v("dec"@, named_v("std::decoder::Decoder"@))], Ty::Int, Effect::Pure),
        ("std::decoder::remaining"@, seq![borrow_v("dec"@, named_v("std::decoder::Decoder"@))], Ty::Int, Effect::Pure),
        ("std::decoder::is_eof"@, seq![borrow_v("dec"@, named_v("std::decoder::Decoder"@))], Ty::Bool, Effect::Pure),
        ("std::decode_error::code"@, seq![borrow_v("err"@, named_v("std::decode_error::DecodeError"@))], named_v("std::core::ErrorCode"@), Effect::Pure),
        ("std::decode_error::offset"@, seq![borrow_v("err"@, named_v("std::decode_error::DecodeError"@))], Ty::Option(Box::new(Ty::Int)), Effect::Pure),
        ("std::decode_error::equals"@, seq![borrow_v("a"@, named_v("std::decode_error::DecodeError"@)), borrow_v("b"@, named_v("std::decode_error::DecodeError"@))], Ty::Bool, Effect::Pure),
        ("std::encode_error::code"@, seq![borrow_v("err"@, named_v("std::encode_error::EncodeError"@))], named_v("std::core::ErrorCode"@), Effect::Pure),
        ("std::encode_error::equals"@, seq![borrow_v("a"@, named_v("std::encode_error::EncodeError"@)), borrow_v("b"@, named_v("std::encode_error::EncodeError"@))], Ty::Bool, Effect::Pure),
    ]
}

fn codec_builtin_sigs() -> (v: Vec<BuiltinSig>)
    ensures
        sigs_view(v@) =~~= codec_sigs(),
{
    let v = vec![
        sig("std::encoder::new", params0(), named("std::encoder::Encoder"), Effect::Pure),
        sig("std::encoder::write_u64", params2(borrow("enc", named("std::encoder::Encoder")), borrow("value", Type::U64)), result_of(named("std::encoder::Encoder"), named("std::encode_error::EncodeError")), Effect::Pure),
        sig("std::encoder::write_bool", params2(borrow("enc", named("std::encoder::Encoder")), borrow("value", Type::Bool)), result_of(named("std::encoder::Encoder"), named("std::encode_error::EncodeError")), Effect::Pure),
        sig("std::encoder::write_bytes", params2(borrow("enc", named("std::encoder::Encoder")), borrow("value", Type::Bytes)), result_of(named("std::encoder::Encoder"), named("std::encode_error::EncodeError")), Effect::Pure),
        sig("std::encoder::finish", params1(borrow("enc", named("std::encoder::Encoder"))), result_of(Type::Bytes, named("std::encode_error::EncodeError")), Effect::Pure),
        sig("std::decoder::new", params1(borrow("input", Type::Bytes)), named("std::decoder::Decoder"), Effect::Pure),
        sig("std::decoder::read_u64", params1(borrow("dec", named("std::decoder::Decoder"))), result_of(pair(named("std::decoder::Decoder"), Type::U64), named("std::decode_error::DecodeError")), Effect::Pure),
        sig("std::decoder::read_bool", params1(borrow("dec", named("std::decoder::Decoder"))), result_of(pair(named("std::decoder::Decoder"), Type::Bool), named("std::decode_error::DecodeError")), Effect::Pure),
        sig("std::decoder::read_bytes", params1(borrow("dec", named("std::decoder::Decoder"))), result_of(pair(named("std::decoder::Decoder"), Type::Bytes), named("std::decode_error::DecodeError")), Effect::Pure),
        sig("std::decoder::read_fixed", params2(borrow("dec", named("std::decoder::Decoder")), borrow("len", Type::Int)), result_of(pair(named("std::decoder::Decoder"), Type::Bytes), named("std::decode_error::DecodeError")), Effect::Pure),
        sig("std::decoder::position", params1(borrow("dec", named("std::decoder::Decoder"))), Type::Int, Effect::Pure),
        sig("std::decoder::remaining", params1(borrow("dec", named("std::decoder::Decoder"))), Type::Int, Effect::Pure),
        sig("std::decoder::is_eof", params1(borrow("dec", named("std::decoder::Decoder"))), Type::Bool, Effect::Pure),
        sig("std::decode_error::code", params1(borrow("err", named("std::decode_error::DecodeError"))), named("std::core::ErrorCode"), Effect::Pure),
        sig("std::decode_error::offset", params1(borrow("err", named("std::decode_error::DecodeError"))), option_of(Type::Int), Effect::Pure),
        sig("std::decode_error::equals", params2(borrow("a", named("std::decode_error::DecodeError")), borrow("b", named("std::decode_error::DecodeError"))), Type::Bool, Effect::Pure),
        sig("std::encode_error::code", params1(borrow("err", named("std::encode_error::EncodeError"))), named("std::core::ErrorCode"), Effect::Pure),
        sig("std::encode_error::equals", params2(borrow("a", named("std::encode_error::EncodeError")), borrow("b", named("std::encode_error::EncodeError"))), Type::Bool, Effect::Pure),
    ];
    proof {
        assert(sigs_view(v@) =~~= codec_sigs());
    }
    v
}

/// The builtins of strings and string patterns.
pub open spec fn text_sigs() -> Seq<SigV> {
    seq![
        ("std::str::len"@, seq![borrow_v("s"@, Ty::Str)], Ty::Int, Effect::Pure),
        ("std::str::is_empty"@, seq![borrow_v("s"@, Ty::Str)], Ty::Bool, Effect::Pure),
        ("std::str::concat"@, seq![borrow_v("a"@, Ty::Str), borrow_v("b"@, Ty::Str)], Ty::Str, Effect::Pure),
        ("std::str::starts_with"@, seq![borrow_v("value"@, Ty::Str), borrow_v("prefix"@, Ty::Str)], Ty::Bool, Effect::Pure),
        ("std::str::ends_with"@, seq![borrow_v("value"@, Ty::Str), borrow_v("suffix"@, Ty::Str)], Ty::Bool, Effect::Pure),
        ("std::str::contains"@, seq![borrow_v("value"@, Ty::Str), borrow_v("needle"@, Ty::Str)], Ty::Bool, Effect::Pure),
        ("std::str_pattern::matches"@, seq![borrow_v("pattern"@, Ty::Str), borrow_v("input"@, Ty::Str)], Ty::Bool, Effect::Pure),
        ("std::str::eq"@, seq![borrow_v("a"@, Ty::Str), borrow_v("b"@, Ty::Str)], Ty::Bool, Effect::Pure),
        ("std::str::equals"@, seq![borrow_v("a"@, Ty::Str), borrow_v("b"@, Ty::Str)], Ty::Bool, Effect::Pure),
        ("std::str::to_bytes"@, seq![borrow_v("value"@, Ty::Str)], Ty::Bytes, Effect::Pure),
    ]
}

fn text_builtin_sigs() -> (v: Vec<BuiltinSig>)
    ensures
        sigs_view(v@) =~~= text_sigs(),
{
    let v = vec![
        sig("std::str::len", params1(borrow("s", Type::String)), Type::Int, Effect::Pure),
        sig("std::str::is_empty", params1(borrow("s", Type::String)), Type::Bool, Effect::Pure),
        sig("std::str::concat", params2(borrow("a", Type::String), borrow("b", Type::String)), Type::String, Effect::Pure),
        sig("std::str::starts_with", params2(borrow("value", Type::String), borrow("prefix", Type::String)), Type::Bool, Effect::Pure),
        sig("std::str::ends_with", params2(borrow("value", Type::String), borrow("suffix", Type::String)), Type::Bool, Effect::Pure),
        sig("std::str::contains", params2(borrow("value", Type::String), borrow("needle", Type::String)), Type::Bool, Effect::Pure),
        sig("std::str_pattern::matches", params2(borrow("pattern", Type::String), borrow("input", Type::String)), Type::Bool, Effect::Pure),
        sig("std::str::eq", params2(borrow("a", Type::String), borrow("b", Type::String)), Type::Bool, Effect::Pure),
        sig("std::str::equals", params2(borrow("a", Type::String), borrow("b", Type::String)), Type::Bool, Effect::Pure),
        sig("std::str::to_bytes", params1(borrow("value", Type::String)), Type::Bytes, Effect::Pure),
    ];
    proof {
        assert(sigs_view(v@) =~~= text_sigs());
    }
    v
}

/// The builtins of lists and sets.
pub open spec fn collections_sigs() -> Seq<SigV> {
    seq![
        ("std::list::new"@, seq![], Ty::List(Box::new(Ty::Int)), Effect::Pure),
        ("std::list::len"@, seq![borrow_v("list"@, Ty::List(Box::new(Ty::Int)))], Ty::Int, Effect::Pure),
        ("std::list::is_empty"@, seq![borrow_v("list"@, Ty::List(Box::new(Ty::Int)))], Ty::Bool, Effect::Pure),
        ("std::list::get"@, seq![borrow_v("list"@, Ty::List(Box::new(Ty::Int))), borrow_v("index"@, Ty::Int)], Ty::Option(Box::new(Ty::Int)), Effect::Pure),
        ("std::list::push"@, seq![borrow_v("list"@, Ty::List(Box::new(Ty::Int))), borrow_v("value"@, Ty::Int)], Ty::List(Box::new(Ty::Int)), Effect::Pure),
        ("std::list::pop"@, seq![borrow_v("list"@, Ty::List(Box::new(Ty::Int)))], Ty::Option(Box::new(Ty::Int)), Effect::Pure),
        ("std::list::insert"@, seq![borrow_v("list"@, Ty::List(Box::new(Ty::Int))), borrow_v("value"@, Ty::Int), borrow_v("index"@, Ty::Int)], Ty::List(Box::new(Ty::Int)), Effect::Pure),
        ("std::list::remove"@, seq![borrow_v("list"@, Ty::List(Box::new(Ty::Int))), borrow_v("index"@, Ty::Int)], Ty::List(Box::new(Ty::Int)), Effect::Pure),
        ("std::list::insert_checked"@, seq![borrow_v("list"@, Ty::List(Box::new(Ty::Int))), borrow_v("value"@, Ty::Int), borrow_v("index"@, Ty::Int)], Ty::Result(Box::new(Ty::List(Box::new(Ty::Int))), Box::new(named_v("std::collection_error::CollectionError"@))), Effect::Pure),
        ("std::list::remove_checked"@, seq![borrow_v("list"@, Ty::List(Box::new(Ty::Int))), borrow_v("index"@, Ty::Int)], Ty::Result(Box::new(Ty::List(Box::new(Ty::Int))), Box::new(named_v("std::collection_error::CollectionError"@))), Effect::Pure),
        ("std::list::remove_take"@, seq![borrow_v("list"@, Ty::List(Box::new(Ty::Int))), borrow_v("index"@, Ty::Int)], pair_v(Ty::List(Box::new(Ty::Int)), Ty::Option(Box::new(Ty::Int))), Effect::Pure),
        ("std::set::len"@, seq![borrow_v("set"@, Ty::SetOf(Box::new(Ty::Int)))], Ty::Int, Effect::Pure),
        ("std::set::contains"@, seq![borrow_v("set"@, Ty::SetOf(Box::new(Ty::Int))), borrow_v("value"@, Ty::Int)], Ty::Bool, Effect::Pure),
        ("std::set::subset"@, seq![borrow_v("lhs"@, Ty::SetOf(Box::new(Ty::Int))), borrow_v("rhs"@, Ty::SetOf(Box::new(Ty::Int)))], Ty::Bool, Effect::Pure),
        ("std::set::union"@, seq![borrow_v("lhs"@, Ty::SetOf(Box::new(Ty::Int))), borrow_v("rhs"@, Ty::SetOf(Box::new(Ty::Int)))], Ty::SetOf(Box::new(Ty::Int)), Effect::Pure),
        ("std::set::intersect"@, seq![borrow_v("lhs"@, Ty::SetOf(Box::new(Ty::Int))), borrow_v("rhs"@, Ty::SetOf(Box::new(Ty::Int)))], Ty::SetOf(Box::new(Ty::Int)), Effect::Pure),
        ("std::set::diff"@, seq![borrow_v("lhs"@, Ty::SetOf(Box::new(Ty::Int))), borrow_v("rhs"@, Ty::SetOf(Box::new(Ty::Int)))], Ty::SetOf(Box::new(Ty::Int)), Effect::Pure),
    ]
}

fn collections_builtin_sigs() -> (v: Vec<BuiltinSig>)
    ensures
        sigs_view(v@) =~~= collections_sigs(),
{
    let v = vec![
        sig("std::list::new", params0(), list_of(Type::Int), Effect::Pure),
        sig("std::list::len", params1(borrow("list", list_of(Type::Int))), Type::Int, Effect::Pure),
        sig("std::list::is_empty", params1(borrow("list", list_of(Type::Int))), Type::Bool, Effect::Pure),
        sig("std::list::get", params2(borrow("list", list_of(Type::Int)), borrow("index", Type::Int)), option_of(Type::Int), Effect::Pure),
        sig("std::list::push", params2(borrow("list", list_of(Type::Int)), borrow("value", Type::Int)), list_of(Type::Int), Effect::Pure),
        sig("std::list::pop", params1(borrow("list", list_of(Type::Int))), option_of(Type::Int), Effect::Pure),
        sig("std::list::insert", params3(borrow("list", list_of(Type::Int)), borrow("value", Type::Int), borrow("index", Type::Int)), list_of(Type::Int), Effect::Pure),
        sig("std::list::remove", params2(borrow("list", list_of(Type::Int)), borrow("index", Type::Int)), list_of(Type::Int), Effect::Pure),
        sig("std::list::insert_checked", params3(borrow("list", list_of(Type::Int)), borrow("value", Type::Int), borrow("index", Type::Int)), result_of(list_of(Type::Int), named("std::collection_error::CollectionError")), Effect::Pure),
        sig("std::list::remove_checked", params2(borrow("list", list_of(Type::Int)), borrow("index", Type::Int)), result_of(list_of(Type::Int), named("std::collection_error::CollectionError")), Effect::Pure),
        sig("std::list::remove_take", params2(borrow("list", list_of(Type::Int)), borrow("index", Type::Int)), pair(list_of(Type::Int), option_of(Type::Int)), Effect::Pure),
        sig("std::set::len", params1(borrow("set", set_of(Type::Int))), Type::Int, Effect::Pure),
        sig("std::set::contains", params2(borrow("set", set_of(Type::Int)), borrow("value", Type::Int)), Type::Bool, Effect::Pure),
        sig("std::set::subset", params2(borrow("lhs", set_of(Type::Int)), borrow("rhs", set_of(Type::Int))), Type::Bool, Effect::Pure),
        sig("std::set::union", params2(borrow("lhs", set_of(Type::Int)), borrow("rhs", set_of(Type::Int))), set_of(Type::Int), Effect::Pure),
        sig("std::set::intersect", params2(borrow("lhs", set_of(Type::Int)), borrow("rhs", set_of(Type::Int))), set_of(Type::Int), Effect::Pure),
        sig("std::set::diff", params2(borrow("lhs", set_of(Type::Int)), borrow("rhs", set_of(Type::Int))), set_of(Type::Int), Effect::Pure),
    ];
    proof {
        assert(sigs_view(v@) =~~= collections_sigs());
    }
    v
}

/// The builtins of the unit type and `U64` arithmetic.
pub open spec fn unit_u64_sigs() -> Seq<SigV> {
    seq![
        ("std::unit::assert_true"@, seq![borrow_v("cond"@, Ty::Bool), borrow_v("msg"@, Ty::Str)], Ty::Bool, Effect::Pure),
        ("std::unit::assert_false"@, seq![borrow_v("cond"@, Ty::Bool), borrow_v("msg"@, Ty::Str)], Ty::Bool, Effect::Pure),
        ("std::unit::assert_eq_int"@, seq![borrow_v("actual"@, Ty::Int), borrow_v("expected"@, Ty::Int), borrow_v("msg"@, Ty::Str)], Ty::Bool, Effect::Pure),
        ("std::unit::assert_eq_u64"@, seq![borrow_v("actual"@, Ty::U64), borrow_v("expected"@, Ty::U64), borrow_v("msg"@, Ty::Str)], Ty::Bool, Effect::Pure),
        ("std::unit::assert_eq_bool"@, seq![borrow_v("actual"@, Ty::Bool), borrow_v("expected"@, Ty::Bool), borrow_v("msg"@, Ty::Str)], Ty::Bool, Effect::Pure),
        ("std::unit::fail"@, seq![borrow_v("msg"@, Ty::Str)], Ty::Bool, Effect::Pure),
        ("std::u64::add_wrap"@, seq![borrow_v("a"@, Ty::U64), borrow_v("b"@, Ty::U64)], Ty::U64, Effect::Pure),
        ("std::u64::add_wrapping"@, seq![borrow_v("a"@, Ty::U64), borrow_v("b"@, Ty::U64)], Ty::U64, Effect::Pure),
        ("std::u64::sub_wrap"@, seq![borrow_v("a"@, Ty::U64), borrow_v("b"@, Ty::U64)], Ty::U64, Effect::Pure),
        ("std::u64::sub_wrapping"@, seq![borrow_v("a"@, Ty::U64), borrow_v("b"@, Ty::U64)], Ty::U64, Effect::Pure),
        ("std::u64::mul_wrap"@, seq![borrow_v("a"@, Ty::U64), borrow_v("b"@, Ty::U64)], Ty::U64, Effect::Pure),
        ("std::u64::mul_wrapping"@, seq![borrow_v("a"@, Ty::U64), borrow_v("b"@, Ty::U64)], Ty::U64, Effect::Pure),
        ("std::u64::add_sat"@, seq![borrow_v("a"@, Ty::U64), borrow_v("b"@, Ty::U64)], Ty::U64, Effect::Pure),
        ("std::u64::add_saturating"@, seq![borrow_v("a"@, Ty::U64), borrow_v("b"@, Ty::U64)], Ty::U64, Effect::Pure),
        ("std::u64::sub_sat"@, seq![borrow_v("a"@, Ty::U64), borrow_v("b"@, Ty::U64)], Ty::U64, Effect::Pure),
        ("std::u64::sub_saturating"@, seq![borrow_v("a"@, Ty::U64), borrow_v("b"@, Ty::U64)], Ty::U64, Effect::Pure),
        ("std::u64::mul_sat"@, seq![borrow_v("a"@, Ty::U64), borrow_v("b"@, Ty::U64)], Ty::U64, Effect::Pure),
        ("std::u64::mul_saturating"@, seq![borrow_v("a"@, Ty::U64), borrow_v("b"@, Ty::U64)], Ty::U64, Effect::Pure),
        ("std::u64::rotl"@, seq![borrow_v("value"@, Ty::U64), borrow_v("shift"@, Ty::U64)], Ty::U64, Effect::Pure),
        ("std::u64::rotr"@, seq![borrow_v("value"@, Ty::U64), borrow_v("shift"@, Ty::U64)], Ty::U64, Effect::Pure),
        ("std::u64::to_bytes_le"@, seq![borrow_v("value"@, Ty::U64)], Ty::Bytes, Effect::Pure),
        ("std::u64::to_bytes_be"@, seq![borrow_v("value"@, Ty::U64)], Ty::Bytes, Effect::Pure),
        ("std::u64::from_bytes_le"@, seq![borrow_v("bytes"@, Ty::Bytes)], Ty::U64, Effect::Pure),
        ("std::u64::from_bytes_be"@, seq![borrow_v("bytes"@, Ty::Bytes)], Ty::U64, Effect::Pure),
    ]
}

fn unit_u64_builtin_sigs() -> (v: Vec<BuiltinSig>)
    ensures
        sigs_view(v@) =~~= unit_u64_sigs(),
{
    let v = vec![
        sig("std::unit::assert_true", params2(borrow("cond", Type::Bool), borrow("msg", Type::String)), Type::Bool, Effect::Pure),
        sig("std::unit::assert_false", params2(borrow("cond", Type::Bool), borrow("msg", Type::String)), Type::Bool, Effect::Pure),
        sig("std::unit::assert_eq_int", params3(borrow("actual", Type::Int), borrow("expected", Type::Int), borrow("msg", Type::String)), Type::Bool, Effect::Pure),
        sig("std::unit::assert_eq_u64", params3(borrow("actual", Type::U64), borrow("expected", Type::U64), borrow("msg", Type::String)), Type::Bool, Effect::Pure),
        sig("std::unit::assert_eq_bool", params3(borrow("actual", Type::Bool), borrow("expected", Type::Bool), borrow("msg", Type::String)), Type::Bool, Effect::Pure),
        sig("std::unit::fail", params1(borrow("msg", Type::String)), Type::Bool, Effect::Pure),
        sig("std::u64::add_wrap", params2(borrow("a", Type::U64), borrow("b", Type::U64)), Type::U64, Effect::Pure),
        sig("std::u64::add_wrapping", params2(borrow("a", Type::U64), borrow("b", Type::U64)), Type::U64, Effect::Pure),
        sig("std::u64::sub_wrap", params2(borrow("a", Type::U64), borrow("b", Type::U64)), Type::U64, Effect::Pure),
        sig("std::u64::sub_wrapping", params2(borrow("a", Type::U64), borrow("b", Type::U64)), Type::U64, Effect::Pure),
        sig("std::u64::mul_wrap", params2(borrow("a", Type::U64), borrow("b", Type::U64)), Type::U64, Effect::Pure),
        sig("std::u64::mul_wrapping", params2(borrow("a", Type::U64), borrow("b", Type::U64)), Type::U64, Effect::Pure),
        sig("std::u64::add_sat", params2(borrow("a", Type::U64), borrow("b", Type::U64)), Type::U64, Effect::Pure),
        sig("std::u64::add_saturating", params2(borrow("a", Type::U64), borrow("b", Type::U64)), Type::U64, Effect::Pure),
        sig("std::u64::sub_sat", params2(borrow("a", Type::U64), borrow("b", Type::U64)), Type::U64, Effect::Pure),
        sig("std::u64::sub_saturating", params2(borrow("a", Type::U64), borrow("b", Type::U64)), Type::U64, Effect::Pure),
        sig("std::u64::mul_sat", params2(borrow("a", Type::U64), borrow("b", Type::U64)), Type::U64, Effect::Pure),
        sig("std::u64::mul_saturating", params2(borrow("a", Type::U64), borrow("b", Type::U64)), Type::U64, Effect::Pure),
        sig("std::u64::rotl", params2(borrow("value", Type::U64), borrow("shift", Type::U64)), Type::U64, Effect::Pure),
        sig("std::u64::rotr", params2(borrow("value", Type::U64), borrow("shift", Type::U64)), Type::U64, Effect::Pure),
        sig("std::u64::to_bytes_le", params1(borrow("value", Type::U64)), Type::Bytes, Effect::Pure),
        sig("std::u64::to_bytes_be", params1(borrow("value", Type::U64)), Type::Bytes, Effect::Pure),
        sig("std::u64::from_bytes_le", params1(borrow("bytes", Type::Bytes)), Type::U64, Effect::Pure),
        sig("std::u64::from_bytes_be", params1(borrow("bytes", Type::Bytes)), Type::U64, Effect::Pure),
    ];
    proof {
        assert(sigs_view(v@) =~~= unit_u64_sigs());
    }
    v
}

/// The builtins of wide integers and chain addresses.
pub open spec fn wide_ints_chains_sigs() -> Seq<SigV> {
    seq![
        ("std::u128::from_limbs"@, seq![borrow_v("lo"@, Ty::U64), borrow_v("hi"@, Ty::U64)], Ty::U128, Effect::Pure),
        ("std::u128::lo"@, seq![borrow_v("value"@, Ty::U128)], Ty::U64, Effect::Pure),
        ("std::u128::hi"@, seq![borrow_v("value"@, Ty::U128)], Ty::U64, Effect::Pure),
        ("std::u256::from_limbs"@, seq![borrow_v("limb0"@, Ty::U64), borrow_v("limb1"@, Ty::U64), borrow_v("limb2"@, Ty::U64), borrow_v("limb3"@, Ty::U64)], Ty::U256, Effect::Pure),
        ("std::u256::limb0"@, seq![borrow_v("value"@, Ty::U256)], Ty::U64, Effect::Pure),
        ("std::u256::limb1"@, seq![borrow_v("value"@, Ty::U256)], Ty::U64, Effect::Pure),
        ("std::u256::limb2"@, seq![borrow_v("value"@, Ty::U256)], Ty::U64, Effect::Pure),
        ("std::u256::limb3"@, seq![borrow_v("value"@, Ty::U256)], Ty::U64, Effect::Pure),
        ("std::eth::from_bytes"@, seq![borrow_v("bytes"@, Ty::Bytes)], named_v("std::eth::Address"@), Effect::Pure),
        ("std::eth::from_array"@, seq![borrow_v("bytes"@, Ty::Array(Box::new(Ty::U8), None))], named_v("std::eth::Address"@), Effect::Pure),
        ("std::solana::from_bytes"@, seq![borrow_v("bytes"@, Ty::Bytes)], named_v("std::solana::Pubkey"@), Effect::Pure),
        ("std::solana::from_array"@, seq![borrow_v("bytes"@, Ty::Array(Box::new(Ty::U8), None))], named_v("std::solana::Pubkey"@), Effect::Pure),
        ("std::cosmos::from_bytes"@, seq![borrow_v("bytes"@, Ty::Bytes)], named_v("std::cosmos::Addr"@), Effect::Pure),
        ("std::cosmos::from_array"@, seq![borrow_v("bytes"@, Ty::Array(Box::new(Ty::U8), None))], named_v("std::cosmos::Addr"@), Effect::Pure),
    ]
}

fn wide_ints_chains_builtin_sigs() -> (v: Vec<BuiltinSig>)
    ensures
        sigs_view(v@) =~~= wide_ints_chains_sigs(),
{
    let v = vec![
        sig("std::u128::from_limbs", params2(borrow("lo", Type::U64), borrow("hi", Type::U64)), Type::U128, Effect::Pure),
        sig("std::u128::lo", params1(borrow("value", Type::U128)), Type::U64, Effect::Pure),
        sig("std::u128::hi", params1(borrow("value", Type::U128)), Type::U64, Effect::Pure),
        sig("std::u256::from_limbs", params4(borrow("limb0", Type::U64), borrow("limb1", Type::U64), borrow("limb2", Type::U64), borrow("limb3", Type::U64)), Type::U256, Effect::Pure),
        sig("std::u256::limb0", params1(borrow("value", Type::U256)), Type::U64, Effect::Pure),
        sig("std::u256::limb1", params1(borrow("value", Type::U256)), Type::U64, Effect::Pure),
        sig("std::u256::limb2", params1(borrow("value", Type::U256)), Type::U64, Effect::Pure),
        sig("std::u256::limb3", params1(borrow("value", Type::U256)), Type::U64, Effect::Pure),
        sig("std::eth::from_bytes", params1(borrow("bytes", Type::Bytes)), named("std::eth::Address"), Effect::Pure),
        sig("std::eth::from_array", params1(borrow("bytes", array_of(Type::U8))), named("std::eth::Address"), Effect::Pure),
        sig("std::solana::from_bytes", params1(borrow("bytes", Type::Bytes)), named("std::solana::Pubkey"), Effect::Pure),
        sig("std::solana::from_array", params1(borrow("bytes", array_of(Type::U8))), named("std::solana::Pubkey"), Effect::Pure),
        sig("std::cosmos::from_bytes", params1(borrow("bytes", Type::Bytes)), named("std::cosmos::Addr"), Effect::Pure),
        sig("std::cosmos::from_array", params1(borrow("bytes", array_of(Type::U8))), named("std::cosmos::Addr"), Effect::Pure),
    ];
    proof {
        assert(sigs_view(v@) =~~= wide_ints_chains_sigs());
    }
    v
}

/// Every builtin signature, in declaration order.
pub open spec fn builtin_table() -> Seq<SigV> {
    bytes_env_sigs() + crypto_host_sigs() + contract_sigs() + codec_sigs() + text_sigs() + collections_sigs() + unit_u64_sigs() + wide_ints_chains_sigs()
}

proof fn lemma_sigs_view_append(a: Seq<BuiltinSig>, b: Seq<BuiltinSig>)
    ensures
        sigs_view(a + b) == sigs_view(a) + sigs_view(b),
{
    assert(sigs_view(a + b) =~= sigs_view(a) + sigs_view(b));
}

fn append_group(v: &mut Vec<BuiltinSig>, g: Vec<BuiltinSig>)
    ensures
        sigs_view(final(v)@) == sigs_view(old(v)@) + sigs_view(g@),
{
    let mut g = g;
    let ghost before = v@;
    let ghost gv = g@;
    v.append(&mut g);
    proof {
        lemma_sigs_view_append(before, gv);
    }
}

/// Every builtin the checker knows, whether or not the verified standard
/// ABI exports it.
pub fn all_builtin_sigs() -> (v: Vec<BuiltinSig>)
    ensures
        sigs_view(v@) == builtin_table(),
{
    let mut v = bytes_env_builtin_sigs();
    append_group(&mut v, crypto_host_builtin_sigs());
    append_group(&mut v, contract_builtin_sigs());
    append_group(&mut v, codec_builtin_sigs());
    append_group(&mut v, text_builtin_sigs());
    append_group(&mut v, collections_builtin_sigs());
    append_group(&mut v, unit_u64_builtin_sigs());
    append_group(&mut v, wide_ints_chains_builtin_sigs());
    assert(sigs_view(v@) =~= builtin_table());
    v
}

/// The table entries whose name is (or is not) in `abi`.
pub open spec fn table_entries_in(abi: Set<Seq<char>>, inside: bool) -> Seq<SigV> {
    builtin_table().filter(|s: SigV| abi.contains(s.0) == inside)
}

fn filter_by_abi(abi: &NameSet, inside: bool) -> (v: Vec<BuiltinSig>)
    ensures
        sigs_view(v@) == table_entries_in(abi@, inside),
{
    let all = all_builtin_sigs();
    let ghost table = builtin_table();
    let ghost pred = |s: SigV| abi@.contains(s.0) == inside;
    let mut out: Vec<BuiltinSig> = Vec::new();
    let mut all = all;
    let mut rest: Vec<BuiltinSig> = Vec::new();
    let ghost n = table.len();
    // move the entries over, last first, so that popping yields table order
    while all.len() > 0
        invariant
            table == builtin_table(),
            sigs_view(all@) + sigs_view(rest@).reverse() == table,
        decreases all.len(),
    {
        let ghost a0 = all@;
        let ghost r0 = rest@;
        let s = all.pop().unwrap();
        rest.push(s);
        proof {
            assert(a0 =~= all@.push(s));
            assert(sigs_view(a0) =~= sigs_view(all@).push(sig_view(s)));
            assert(sigs_view(rest@) =~= sigs_view(r0).push(sig_view(s)));
            assert(sigs_view(rest@).reverse() =~= seq![sig_view(s)] + sigs_view(r0).reverse());
            assert(sigs_view(all@) + sigs_view(rest@).reverse() =~= sigs_view(a0) + sigs_view(r0).reverse());
        }
    }
    proof {
        assert(sigs_view(all@) =~= Seq::<SigV>::empty());
        assert(sigs_view(rest@).reverse() =~= table);
        assert(sigs_view(rest@) =~= table.reverse());
        assert(table.subrange(0, n as int) =~= table);
        assert(table.subrange(0, 0) =~= Seq::<SigV>::empty());
        assert(sigs_view(out@) =~= Seq::<SigV>::empty());
        assert(Seq::<SigV>::empty().filter(pred) =~= Seq::<SigV>::empty());
    }
    while rest.len() > 0
        invariant
            n == table.len(),
            table == builtin_table(),
            pred == (|s: SigV| abi@.contains(s.0) == inside),
            rest@.len() <= n,
            sigs_view(rest@) == table.subrange(n - rest@.len(), n as int).reverse(),
            sigs_view(out@) == table.subrange(0, n - rest@.len()).filter(pred),
        decreases rest.len(),
    {
        let ghost k = n - rest@.len();
        let ghost prev_rest = rest@;
        let s = rest.pop().unwrap();
        proof {
            assert(sig_view(s) == sigs_view(prev_rest)[prev_rest.len() - 1]);
            assert(sigs_view(prev_rest)[prev_rest.len() - 1] == table[k]);
            assert(prev_rest =~= rest@.push(s));
            assert(sigs_view(prev_rest) =~= sigs_view(rest@).push(sig_view(s)));
            assert(table.subrange(k, n as int).reverse().drop_last() =~= table.subrange(k + 1, n as int).reverse());
            assert(sigs_view(rest@) =~= sigs_view(prev_rest).drop_last());
            assert(sigs_view(rest@) =~= table.subrange(k + 1, n as int).reverse());
            let pre = table.subrange(0, k);
            assert(table.subrange(0, k + 1) =~= pre.push(table[k]));
            pre.lemma_filter_push(table[k], pred);
        }
        let keep = abi.contains(s.0.as_str()) == inside;
        if keep {
            let ghost before = out@;
            out.push(s);
            proof {
                assert(sigs_view(out@) =~= sigs_view(before).push(sig_view(s)));
            }
        }
    }
    assert(table.subrange(0, n as int) =~= table);
    out
}

/// The builtins that the verified standard ABI exports as values.
pub fn builtin_sigs(abi: &NameSet) -> (v: Vec<BuiltinSig>)
    ensures
        sigs_view(v@) == table_entries_in(abi@, true),
{
    filter_by_abi(abi, true)
}

/// The builtins that the verified standard ABI does not export.
pub fn non_abi_builtin_sigs(abi: &NameSet) -> (v: Vec<BuiltinSig>)
    ensures
        sigs_view(v@) == table_entries_in(abi@, false),
{
    filter_by_abi(abi, false)
}

/// The names declared in the table.
pub open spec fn declared(name: Seq<char>) -> bool {
    exists|i: int| 0 <= i < builtin_table().len() && (#[trigger] builtin_table()[i]).0 == name
}

/// Every compatibility alias, and the builtin it stands for, is declared.
pub proof fn lemma_compat_aliases_declared(symbol: Seq<char>)
    requires
        compat_alias_of(symbol) is Some,
    ensures
        declared(symbol),
        declared(compat_alias_of(symbol)->0),
{
    if symbol == "std::bytes::equals"@ {
        assert(builtin_table()[4].0 == "std::bytes::equals"@);
        assert(builtin_table()[3].0 == "std::bytes::eq"@);
    }
    if symbol == "std::bytes::equals_ct"@ {
        assert(builtin_table()[6].0 == "std::bytes::equals_ct"@);
        assert(builtin_table()[5].0 == "std::bytes::eq_ct"@);
    }
    if symbol == "std::str::equals"@ {
        assert(builtin_table()[76].0 == "std::str::equals"@);
        assert(builtin_table()[75].0 == "std::str::eq"@);
    }
    if symbol == "std::u64::add_wrap"@ {
        assert(builtin_table()[101].0 == "std::u64::add_wrap"@);
        assert(builtin_table()[102].0 == "std::u64::add_wrapping"@);
    }
    if symbol == "std::u64::sub_wrap"@ {
        assert(builtin_table()[103].0 == "std::u64::sub_wrap"@);
        assert(builtin_table()[104].0 == "std::u64::sub_wrapping"@);
    }
    if symbol == "std::u64::mul_wrap"@ {
        assert(builtin_table()[105].0 == "std::u64::mul_wrap"@);
        assert(builtin_table()[106].0 == "std::u64::mul_wrapping"@);
    }
    if symbol == "std::u64::add_sat"@ {
        assert(builtin_table()[107].0 == "std::u64::add_sat"@);
        assert(builtin_table()[108].0 == "std::u64::add_saturating"@);
    }
    if symbol == "std::u64::sub_sat"@ {
        assert(builtin_table()[109].0 == "std::u64::sub_sat"@);
        assert(builtin_table()[110].0 == "std::u64::sub_saturating"@);
    }
    if symbol == "std::u64::mul_sat"@ {
        assert(builtin_table()[111].0 == "std::u64::mul_sat"@);
        assert(builtin_table()[112].0 == "std::u64::mul_saturating"@);
    }
    if symbol == "std::crypto::sha256"@ {
        assert(builtin_table()[15].0 == "std::crypto::sha256"@);
        assert(builtin_table()[13].0 == "std::crypto::hash"@);
    }
    if symbol == "std::crypto::hmac_sha256"@ {
        assert(builtin_table()[16].0 == "std::crypto::hmac_sha256"@);
        assert(builtin_table()[14].0 == "std::crypto::hmac"@);
    }
}

/// Two signatures take parameters passed the same way with the same types,
/// and agree on the result type and the effect.
pub open spec fn same_shape(a: SigV, b: SigV) -> bool {
    &&& a.1.len() == b.1.len()
    &&& forall|k: int| 0 <= k < a.1.len() ==> (#[trigger] a.1[k]).kind == b.1[k].kind && a.1[k].ty == b.1[k].ty
    &&& a.2 == b.2
    &&& a.3 == b.3
}

/// A legacy alias keeps the signature of the builtin it stands for, except
/// the two hashing aliases, whose signatures differ from their targets'.
#[verifier::spinoff_prover]
#[verifier::rlimit(60)]
pub proof fn lemma_compat_alias_keeps_signature(symbol: Seq<char>)
    requires
        compat_alias_of(symbol) is Some,
        symbol != "std::crypto::sha256"@,
        symbol != "std::crypto::hmac_sha256"@,
    ensures
        exists|i: int, j: int| 0 <= i < builtin_table().len() && 0 <= j < builtin_table().len()
            && (#[trigger] builtin_table()[i]).0 == symbol && (#[trigger] builtin_table()[j]).0 == compat_alias_of(symbol)->0
            && same_shape(builtin_table()[i], builtin_table()[j]),
{
    reveal_strlit("std::bytes::equals");
    reveal_strlit("std::bytes::equals_ct");
    reveal_strlit("std::str::equals");
    reveal_strlit("std::u64::add_wrap");
    reveal_strlit("std::u64::sub_wrap");
    reveal_strlit("std::u64::mul_wrap");
    reveal_strlit("std::u64::add_sat");
    reveal_strlit("std::u64::sub_sat");
    reveal_strlit("std::u64::mul_sat");
    reveal_strlit("std::crypto::sha256");
    reveal_strlit("std::crypto::hmac_sha256");
    if symbol == "std::bytes::equals"@ {
        assert(same_shape(builtin_table()[4], builtin_table()[3])) by {
            assert(builtin_table()[4].0 == symbol);
            assert(builtin_table()[3].0 == compat_alias_of(symbol)->0);
        }
        assert(builtin_table()[4].0 == symbol);
        assert(builtin_table()[3].0 == compat_alias_of(symbol)->0);
    }
    if symbol == "std::bytes::equals_ct"@ {
        assert(same_shape(builtin_table()[6], builtin_table()[5])) by {
            assert(builtin_table()[6].0 == symbol);
            assert(builtin_table()[5].0 == compat_alias_of(symbol)->0);
        }
        assert(builtin_table()[6].0 == symbol);
        assert(builtin_table()[5].0 == compat_alias_of(symbol)->0);
    }
    if symbol == "std::str::equals"@ {
        assert(same_shape(builtin_table()[76], builtin_table()[75])) by {
            assert(builtin_table()[76].0 == symbol);
            assert(builtin_table()[75].0 == compat_alias_of(symbol)->0);
        }
        assert(builtin_table()[76].0 == symbol);
        assert(builtin_table()[75].0 == compat_alias_of(symbol)->0);
    }
    if symbol == "std::u64::add_wrap"@ {
        assert(symbol != "std::bytes::equals"@) by {
            assert(symbol[5] != "std::bytes::equals"@[5]);
        }
        assert(same_shape(builtin_table()[101], builtin_table()[102])) by {
            assert(builtin_table()[101].0 == symbol);
            assert(builtin_table()[102].0 == compat_alias_of(symbol)->0);
        }
        assert(builtin_table()[101].0 == symbol);
        assert(builtin_table()[102].0 == compat_alias_of(symbol)->0);
    }
    if symbol == "std::u64::sub_wrap"@ {
        assert(symbol != "std::bytes::equals"@) by {
            assert(symbol[5] != "std::bytes::equals"@[5]);
        }
        assert(symbol != "std::u64::add_wrap"@) by {
            assert(symbol[10] != "std::u64::add_wrap"@[10]);
        }
        assert(same_shape(builtin_table()[103], builtin_table()[104])) by {
            assert(builtin_table()[103].0 == symbol);
            assert(builtin_table()[104].0 == compat_alias_of(symbol)->0);
        }
        assert(builtin_table()[103].0 == symbol);
        assert(builtin_table()[104].0 == compat_alias_of(symbol)->0);
    }
    if symbol == "std::u64::mul_wrap"@ {
        assert(symbol != "std::bytes::equals"@) by {
            assert(symbol[5] != "std::bytes::equals"@[5]);
        }
        assert(symbol != "std::u64::add_wrap"@) by {
            assert(symbol[10] != "std::u64::add_wrap"@[10]);
        }
        assert(symbol != "std::u64::sub_wrap"@) by {
            assert(symbol[10] != "std::u64::sub_wrap"@[10]);
        }
        assert(same_shape(builtin_table()[105], builtin_table()[106])) by {
            assert(builtin_table()[105].0 == symbol);
            assert(builtin_table()[106].0 == compat_alias_of(symbol)->0);
        }
        assert(builtin_table()[105].0 == symbol);
        assert(builtin_table()[106].0 == compat_alias_of(symbol)->0);
    }
    if symbol == "std::u64::add_sat"@ {
        assert(same_shape(builtin_table()[107], builtin_table()[108])) by {
            assert(builtin_table()[107].0 == symbol);
            assert(builtin_table()[108].0 == compat_alias_of(symbol)->0);
        }
        assert(builtin_table()[107].0 == symbol);
        assert(builtin_table()[108].0 == compat_alias_of(symbol)->0);
    }
    if symbol == "std::u64::sub_sat"@ {
        assert(symbol != "std::u64::add_sat"@) by {
            assert(symbol[10] != "std::u64::add_sat"@[10]);
        }
        assert(same_shape(builtin_table()[109], builtin_table()[110])) by {
            assert(builtin_table()[109].0 == symbol);
            assert(builtin_table()[110].0 == compat_alias_of(symbol)->0);
        }
        assert(builtin_table()[109].0 == symbol);
        assert(builtin_table()[110].0 == compat_alias_of(symbol)->0);
    }
    if symbol == "std::u64::mul_sat"@ {
        assert(symbol != "std::u64::add_sat"@) by {
            assert(symbol[10] != "std::u64::add_sat"@[10]);
        }
        assert(symbol != "std::u64::sub_sat"@) by {
            assert(symbol[10] != "std::u64::sub_sat"@[10]);
        }
        assert(same_shape(builtin_table()[111], builtin_table()[112])) by {
            assert(builtin_table()[111].0 == symbol);
            assert(builtin_table()[112].0 == compat_alias_of(symbol)->0);
        }
        assert(builtin_table()[111].0 == symbol);
        assert(builtin_table()[112].0 == compat_alias_of(symbol)->0);
    }
}

/// Every text compatibility builtin is declared.
pub proof fn lemma_text_compat_declared(symbol: Seq<char>)
    requires
        text_compat_of(symbol) is Some,
    ensures
        declared(symbol),
{
    if symbol == "std::bytes::equals"@ {
        assert(builtin_table()[4].0 == "std::bytes::equals"@);
    }
    if symbol == "std::bytes::equals_ct"@ {
        assert(builtin_table()[6].0 == "std::bytes::equals_ct"@);
    }
    if symbol == "std::bytes::is_empty"@ {
        assert(builtin_table()[1].0 == "std::bytes::is_empty"@);
    }
    if symbol == "std::str::equals"@ {
        assert(builtin_table()[76].0 == "std::str::equals"@);
    }
    if symbol == "std::str::is_empty"@ {
        assert(builtin_table()[69].0 == "std::str::is_empty"@);
    }
    if symbol == "std::str::to_bytes"@ {
        assert(builtin_table()[77].0 == "std::str::to_bytes"@);
    }
    if symbol == "std::str_pattern::matches"@ {
        assert(builtin_table()[74].0 == "std::str_pattern::matches"@);
    }
}

/// Whether an export of the verified standard ABI is a type or a value.
#[derive(Clone, Copy, Debug, PartialEq, Eq, Structural)]
pub enum AbiExportKind {
    Type,
    Value,
}

/// One export of a module of the verified standard ABI.
#[derive(Debug)]
pub struct AbiExport {
    pub name: String,
    pub kind: AbiExportKind,
}

/// A module of the verified standard ABI and its exports.
#[derive(Debug)]
pub struct AbiModule {
    pub path: String,
    pub exports: Vec<AbiExport>,
}

/// The manifest of the verified standard ABI.
#[derive(Debug)]
pub struct VerifiedStdAbiManifest {
    pub schema_version: u32,
    pub modules: Vec<AbiModule>,
}

/// The qualified names `module::export` of the value exports of a manifest.
pub open spec fn abi_value_symbols(modules: Seq<AbiModule>) -> Set<Seq<char>> {
    Set::new(|k: Seq<char>| exists|i: int, j: int| 0 <= i < modules.len() && 0 <= j < modules[i].exports@.len()
        && (#[trigger] modules[i].exports@[j]).kind == AbiExportKind::Value
        && k == modules[i].path@ + "::"@ + modules[i].exports@[j].name@)
}

/// The value symbols that the verified standard ABI exports (the manifest
/// must be of schema version 1).
pub fn verified_std_abi_value_symbols(manifest: &VerifiedStdAbiManifest) -> (s: NameSet)
    requires
        manifest.schema_version == 1,
    ensures
        s@ == abi_value_symbols(manifest.modules@),
{
    let ghost mods = manifest.modules@;
    let mut out = NameSet::new();
    let mut i: usize = 0;
    while i < manifest.modules.len()
        invariant
            i <= mods.len(),
            mods == manifest.modules@,
            forall|k: Seq<char>| #[trigger] out@.contains(k) <==> exists|a: int, b: int| 0 <= a < i && 0 <= b < mods[a].exports@.len()
                && (#[trigger] mods[a].exports@[b]).kind == AbiExportKind::Value
                && k == mods[a].path@ + "::"@ + mods[a].exports@[b].name@,
        decreases manifest.modules.len() - i,
    {
        let module = &manifest.modules[i];
        let mut j: usize = 0;
        while j < module.exports.len()
            invariant
                i < mods.len(),
                j <= mods[i as int].exports@.len(),
                mods == manifest.modules@,
                *module == mods[i as int],
                forall|k: Seq<char>| #[trigger] out@.contains(k) <==> (exists|a: int, b: int| 0 <= a < i && 0 <= b < mods[a].exports@.len()
                    && (#[trigger] mods[a].exports@[b]).kind == AbiExportKind::Value
                    && k == mods[a].path@ + "::"@ + mods[a].exports@[b].name@) || (exists|b: int| 0 <= b < j
                    && (#[trigger] mods[i as int].exports@[b]).kind == AbiExportKind::Value
                    && k == mods[i as int].path@ + "::"@ + mods[i as int].exports@[b].name@),
            decreases module.exports.len() - j,
        {
            let export = &module.exports[j];
            if export.kind == AbiExportKind::Value {
                let mut symbol = module.path.clone();
                symbol.append("::");
                symbol.append(export.name.as_str());
                let ghost sym = symbol@;
                assert(sym == mods[i as int].path@ + "::"@ + mods[i as int].exports@[j as int].name@);
                out.insert(symbol);
                proof {
                    assert forall|k: Seq<char>| #[trigger] out@.contains(k) <==> (exists|a: int, b: int| 0 <= a < i && 0 <= b < mods[a].exports@.len()
                        && (#[trigger] mods[a].exports@[b]).kind == AbiExportKind::Value
                        && k == mods[a].path@ + "::"@ + mods[a].exports@[b].name@) || (exists|b: int| 0 <= b < j + 1
                        && (#[trigger] mods[i as int].exports@[b]).kind == AbiExportKind::Value
                        && k == mods[i as int].path@ + "::"@ + mods[i as int].exports@[b].name@) by {
                        if k == sym {
                            assert(mods[i as int].exports@[j as int].kind == AbiExportKind::Value);
                        }
                    }
                }
            }
            j = j + 1;
        }
        proof {
            assert forall|k: Seq<char>| #[trigger] out@.contains(k) <==> exists|a: int, b: int| 0 <= a < i + 1 && 0 <= b < mods[a].exports@.len()
                && (#[trigger] mods[a].exports@[b]).kind == AbiExportKind::Value
                && k == mods[a].path@ + "::"@ + mods[a].exports@[b].name@ by {
                if exists|a: int, b: int| 0 <= a < i + 1 && 0 <= b < mods[a].exports@.len()
                    && (#[trigger] mods[a].exports@[b]).kind == AbiExportKind::Value
                    && k == mods[a].path@ + "::"@ + mods[a].exports@[b].name@ {
                    let (a, b) = choose|a: int, b: int| 0 <= a < i + 1 && 0 <= b < mods[a].exports@.len()
                        && (#[trigger] mods[a].exports@[b]).kind == AbiExportKind::Value
                        && k == mods[a].path@ + "::"@ + mods[a].exports@[b].name@;
                    if a == i {
                        assert(mods[i as int].exports@[b].kind == AbiExportKind::Value);
                    }
                }
            }
        }
        i = i + 1;
    }
    assert(out@ =~= abi_value_symbols(mods));
    out
}

} // verus!
