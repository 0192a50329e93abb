use vstd::prelude::*;
use crate::text::str_eq;

verus! {

/// Whether a builtin is served by a compiler intrinsic or imported from the
/// standard package.
#[derive(Clone, Copy, Debug, Eq, PartialEq, Structural)]
pub enum BuiltinRoute {
    Intrinsic,
    PackageImport,
}

/// Text builtins kept for compatibility with earlier standard-library names.
#[derive(Clone, Copy, Debug, Eq, PartialEq, Structural)]
pub enum StdTextCompatBuiltin {
    BytesEquals,
    BytesEqualsCt,
    BytesIsEmpty,
    StrEquals,
    StrIsEmpty,
    StrToBytes,
    StrPatternMatches,
}


/// The symbols that are lowered to compiler intrinsics.
pub open spec fn is_intrinsic_symbol(s: Seq<char>) -> bool {
    s == "std::bytes::len"@
    || s == "std::bytes::eq"@
    || s == "std::bytes::eq_ct"@
    || s == "std::bytes::concat"@
    || s == "std::bytes::from_string"@
    || s == "std::bytes::to_string"@
    || s == "std::wasi::print"@
    || s == "std::env::time"@
    || s == "std::env::chain_id"@
    || s == "std::env::random"@
    || s == "std::crypto::hash"@
    || s == "std::crypto::hmac"@
    || s == "std::crypto::verify"@
    || s == "std::host::__storage_contains_raw"@
    || s == "std::host::__storage_get_raw"@
    || s == "std::host::__storage_set_raw"@
    || s == "std::host::__storage_delete_raw"@
    || s == "std::host::__log_info_raw"@
    || s == "std::host::__log_warn_raw"@
    || s == "std::host::__log_error_raw"@
    || s == "std::host::__env_chain_id_raw"@
    || s == "std::host::__env_caller_raw"@
    || s == "std::host::__env_block_height_raw"@
    || s == "std::host::__env_timestamp_raw"@
    || s == "std::str::len"@
    || s == "std::str::eq"@
    || s == "std::str::concat"@
    || s == "std::str::starts_with"@
    || s == "std::str::ends_with"@
    || s == "std::str::contains"@
    || s == "std::u64::rotl"@
    || s == "std::u64::rotr"@
    || s == "std::u64::to_bytes_le"@
    || s == "std::u64::to_bytes_be"@
    || s == "std::u64::from_bytes_le"@
    || s == "std::u64::from_bytes_be"@
}

/// The compatibility classification of a symbol.
pub open spec fn text_compat_of(s: Seq<char>) -> Option<StdTextCompatBuiltin> {
    if s == "std::bytes::equals"@ {
        Some(StdTextCompatBuiltin::BytesEquals)
    }     else if s == "std::bytes::equals_ct"@ {
        Some(StdTextCompatBuiltin::BytesEqualsCt)
    }     else if s == "std::bytes::is_empty"@ {
        Some(StdTextCompatBuiltin::BytesIsEmpty)
    }     else if s == "std::str::equals"@ {
        Some(StdTextCompatBuiltin::StrEquals)
    }     else if s == "std::str::is_empty"@ {
        Some(StdTextCompatBuiltin::StrIsEmpty)
    }     else if s == "std::str::to_bytes"@ {
        Some(StdTextCompatBuiltin::StrToBytes)
    }     else if s == "std::str_pattern::matches"@ {
        Some(StdTextCompatBuiltin::StrPatternMatches)
    } else {
        None
    }
}

/// The current name of a legacy builtin alias.
pub open spec fn compat_alias_of(s: Seq<char>) -> Option<Seq<char>> {
    if s == "std::bytes::equals"@ {
        Some("std::bytes::eq"@)
    }     else if s == "std::bytes::equals_ct"@ {
        Some("std::bytes::eq_ct"@)
    }     else if s == "std::str::equals"@ {
        Some("std::str::eq"@)
    }     else if s == "std::u64::add_wrap"@ {
        Some("std::u64::add_wrapping"@)
    }     else if s == "std::u64::sub_wrap"@ {
        Some("std::u64::sub_wrapping"@)
    }     else if s == "std::u64::mul_wrap"@ {
        Some("std::u64::mul_wrapping"@)
    }     else if s == "std::u64::add_sat"@ {
        Some("std::u64::add_saturating"@)
    }     else if s == "std::u64::sub_sat"@ {
        Some("std::u64::sub_saturating"@)
    }     else if s == "std::u64::mul_sat"@ {
        Some("std::u64::mul_saturating"@)
    }     else if s == "std::crypto::sha256"@ {
        Some("std::crypto::hash"@)
    }     else if s == "std::crypto::hmac_sha256"@ {
        Some("std::crypto::hmac"@)
    } else {
        None
    }
}

pub fn std_text_compat_builtin(symbol: &str) -> (r: Option<StdTextCompatBuiltin>)
    ensures
        r == text_compat_of(symbol@),
{
    if str_eq(symbol, "std::bytes::equals") {
        return Some(StdTextCompatBuiltin::BytesEquals);
    }
    if str_eq(symbol, "std::bytes::equals_ct") {
        return Some(StdTextCompatBuiltin::BytesEqualsCt);
    }
    if str_eq(symbol, "std::bytes::is_empty") {
        return Some(StdTextCompatBuiltin::BytesIsEmpty);
    }
    if str_eq(symbol, "std::str::equals") {
        return Some(StdTextCompatBuiltin::StrEquals);
    }
    if str_eq(symbol, "std::str::is_empty") {
        return Some(StdTextCompatBuiltin::StrIsEmpty);
    }
    if str_eq(symbol, "std::str::to_bytes") {
        return Some(StdTextCompatBuiltin::StrToBytes);
    }
    if str_eq(symbol, "std::str_pattern::matches") {
        return Some(StdTextCompatBuiltin::StrPatternMatches);
    }
    None
}

pub fn builtin_compat_alias_target(symbol: &str) -> (r: Option<&'static str>)
    ensures
        match r {
            Some(t) => compat_alias_of(symbol@) == Some(t@),
            None => compat_alias_of(symbol@) is None,
        },
{
    if str_eq(symbol, "std::bytes::equals") {
        return Some("std::bytes::eq");
    }
    if str_eq(symbol, "std::bytes::equals_ct") {
        return Some("std::bytes::eq_ct");
    }
    if str_eq(symbol, "std::str::equals") {
        return Some("std::str::eq");
    }
    if str_eq(symbol, "std::u64::add_wrap") {
        return Some("std::u64::add_wrapping");
    }
    if str_eq(symbol, "std::u64::sub_wrap") {
        return Some("std::u64::sub_wrapping");
    }
    if str_eq(symbol, "std::u64::mul_wrap") {
        return Some("std::u64::mul_wrapping");
    }
    if str_eq(symbol, "std::u64::add_sat") {
        return Some("std::u64::add_saturating");
    }
    if str_eq(symbol, "std::u64::sub_sat") {
        return Some("std::u64::sub_saturating");
    }
    if str_eq(symbol, "std::u64::mul_sat") {
        return Some("std::u64::mul_saturating");
    }
    if str_eq(symbol, "std::crypto::sha256") {
        return Some("std::crypto::hash");
    }
    if str_eq(symbol, "std::crypto::hmac_sha256") {
        return Some("std::crypto::hmac");
    }
    None
}

pub fn builtin_route(symbol: &str) -> (r: BuiltinRoute)
    ensures
        r == (if is_intrinsic_symbol(symbol@) { BuiltinRoute::Intrinsic } else { BuiltinRoute::PackageImport }),
{
    if str_eq(symbol, "std::bytes::len")
        || str_eq(symbol, "std::bytes::eq")
        || str_eq(symbol, "std::bytes::eq_ct")
        || str_eq(symbol, "std::bytes::concat")
        || str_eq(symbol, "std::bytes::from_string")
        || str_eq(symbol, "std::bytes::to_string")
        || str_eq(symbol, "std::wasi::print")
        || str_eq(symbol, "std::env::time")
        || str_eq(symbol, "std::env::chain_id")
        || str_eq(symbol, "std::env::random")
        || str_eq(symbol, "std::crypto::hash")
        || str_eq(symbol, "std::crypto::hmac")
        || str_eq(symbol, "std::crypto::verify")
        || str_eq(symbol, "std::host::__storage_contains_raw")
        || str_eq(symbol, "std::host::__storage_get_raw")
        || str_eq(symbol, "std::host::__storage_set_raw")
        || str_eq(symbol, "std::host::__storage_delete_raw")
        || str_eq(symbol, "std::host::__log_info_raw")
        || str_eq(symbol, "std::host::__log_warn_raw")
        || str_eq(symbol, "std::host::__log_error_raw")
        || str_eq(symbol, "std::host::__env_chain_id_raw")
        || str_eq(symbol, "std::host::__env_caller_raw")
        || str_eq(symbol, "std::host::__env_block_height_raw")
        || str_eq(symbol, "std::host::__env_timestamp_raw")
        || str_eq(symbol, "std::str::len")
        || str_eq(symbol, "std::str::eq")
        || str_eq(symbol, "std::str::concat")
        || str_eq(symbol, "std::str::starts_with")
        || str_eq(symbol, "std::str::ends_with")
        || str_eq(symbol, "std::str::contains")
        || str_eq(symbol, "std::u64::rotl")
        || str_eq(symbol, "std::u64::rotr")
        || str_eq(symbol, "std::u64::to_bytes_le")
        || str_eq(symbol, "std::u64::to_bytes_be")
        || str_eq(symbol, "std::u64::from_bytes_le")
        || str_eq(symbol, "std::u64::from_bytes_be") {
        BuiltinRoute::Intrinsic
    } else {
        BuiltinRoute::PackageImport
    }
}

} // verus!
