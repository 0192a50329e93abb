use vstd::prelude::*;
use crate::builtin_table::{non_abi_builtin_sigs, sigs_view, table_entries_in, BuiltinSig, SigV};
use crate::builtins::{builtin_route, is_intrinsic_symbol, BuiltinRoute};
use crate::names::NameSet;
use crate::text::chars_of;
use crate::trait_env::copy_params;
use crate::ty::{copy_type, params_view, type_eq, Effect, Param, ParamV, Ty, Type};

verus! {

/// A builtin served outside the program: its signature and how it is reached.
#[derive(Debug)]
pub struct ExternalBuiltinSig {
    pub name: String,
    pub params: Vec<Param>,
    pub ret: Type,
    pub effect: Effect,
    pub route: BuiltinRoute,
}

pub struct ExtSigV {
    pub name: Seq<char>,
    pub params: Seq<ParamV>,
    pub ret: Ty,
    pub effect: Effect,
    pub route: BuiltinRoute,
}

impl View for ExternalBuiltinSig {
    type V = ExtSigV;

    open spec fn view(&self) -> ExtSigV {
        ExtSigV { name: self.name@, params: params_view(self.params@), ret: self.ret@, effect: self.effect, route: self.route }
    }
}

pub open spec fn ext_views(v: Seq<ExternalBuiltinSig>) -> Seq<ExtSigV> {
    v.map_values(|s: ExternalBuiltinSig| s@)
}

/// How a builtin of the given name is reached.
pub open spec fn route_of(name: Seq<char>) -> BuiltinRoute {
    if is_intrinsic_symbol(name) { BuiltinRoute::Intrinsic } else { BuiltinRoute::PackageImport }
}

/// The bundled builtins that the standard ABI does not export, with their routes.
pub open spec fn bundled_views(abi: Set<Seq<char>>) -> Seq<ExtSigV> {
    table_entries_in(abi, false).map_values(|s: SigV| ExtSigV { name: s.0, params: s.1, ret: s.2, effect: s.3, route: route_of(s.0) })
}

/// Two declarations of one external builtin agree: same name, result,
/// effect and route, and parameters passed the same way with equal types.
pub open spec fn sigs_match(a: ExtSigV, b: ExtSigV) -> bool {
    &&& a.name == b.name
    &&& a.ret == b.ret
    &&& a.effect == b.effect
    &&& a.route == b.route
    &&& a.params.len() == b.params.len()
    &&& forall|k: int| 0 <= k < a.params.len() ==> (#[trigger] a.params[k]).kind == b.params[k].kind && a.params[k].ty == b.params[k].ty
}

/// Adds one declaration to the builtins by name: a new name is added, a
/// known one must agree with the declaration kept.
pub open spec fn merge_step(m: Map<Seq<char>, ExtSigV>, s: ExtSigV) -> Result<Map<Seq<char>, ExtSigV>, Seq<char>> {
    if m.contains_key(s.name) {
        if sigs_match(m[s.name], s) { Ok(m) } else { Err(s.name) }
    } else {
        Ok(m.insert(s.name, s))
    }
}

/// The builtins of the first `n` declarations by name, the first declaration
/// of a name being kept, or the first name declared again differently.
pub open spec fn merge_fold(all: Seq<ExtSigV>, n: nat) -> Result<Map<Seq<char>, ExtSigV>, Seq<char>>
    decreases n,
{
    if n == 0 {
        Ok(Map::empty())
    } else {
        match merge_fold(all, (n - 1) as nat) {
            Err(x) => Err(x),
            Ok(m) => merge_step(m, all[n - 1]),
        }
    }
}

/// Lexicographic order of names by character.
pub open spec fn name_lt(a: Seq<char>, b: Seq<char>) -> bool
    decreases a.len(),
{
    if a.len() == 0 {
        b.len() > 0
    } else if b.len() == 0 {
        false
    } else if a[0] != b[0] {
        a[0] < b[0]
    } else {
        name_lt(a.drop_first(), b.drop_first())
    }
}

/// The signatures are in strictly increasing order of name.
pub open spec fn sorted_by_name(v: Seq<ExtSigV>) -> bool {
    forall|i: int, j: int| 0 <= i < j < v.len() ==> name_lt(#[trigger] v[i].name, #[trigger] v[j].name)
}

/// `v` lists the entries of `m`, each once.
pub open spec fn lists_map(v: Seq<ExtSigV>, m: Map<Seq<char>, ExtSigV>) -> bool {
    &&& forall|i: int| 0 <= i < v.len() ==> m.contains_key((#[trigger] v[i]).name) && m[v[i].name] == v[i]
    &&& forall|k: Seq<char>| #[trigger] m.contains_key(k) ==> exists|i: int| 0 <= i < v.len() && v[i].name == k
}

proof fn lemma_lt_irreflexive(a: Seq<char>)
    ensures
        !name_lt(a, a),
    decreases a.len(),
{
    if a.len() > 0 {
        lemma_lt_irreflexive(a.drop_first());
    }
}

proof fn lemma_lt_asym(a: Seq<char>, b: Seq<char>)
    requires
        name_lt(a, b),
    ensures
        !name_lt(b, a),
        a != b,
    decreases a.len(),
{
    if a.len() > 0 && b.len() > 0 && a[0] == b[0] {
        lemma_lt_asym(a.drop_first(), b.drop_first());
    }
    if a == b {
        lemma_lt_irreflexive(a);
    }
}

proof fn lemma_lt_total(a: Seq<char>, b: Seq<char>)
    requires
        a != b,
    ensures
        name_lt(a, b) || name_lt(b, a),
    decreases a.len(),
{
    if a.len() == 0 && b.len() == 0 {
        assert(a =~= b);
    }
    if a.len() > 0 && b.len() > 0 && a[0] == b[0] {
        if a.drop_first() == b.drop_first() {
            assert(a =~= seq![a[0]] + a.drop_first());
            assert(b =~= seq![b[0]] + b.drop_first());
        }
        lemma_lt_total(a.drop_first(), b.drop_first());
    }
    if a.len() > 0 && b.len() > 0 && a[0] != b[0] {
    }
}

proof fn lemma_lt_trans(a: Seq<char>, b: Seq<char>, c: Seq<char>)
    requires
        name_lt(a, b),
        name_lt(b, c),
    ensures
        name_lt(a, c),
    decreases a.len(),
{
    if a.len() > 0 && b.len() > 0 && c.len() > 0 && a[0] == b[0] && b[0] == c[0] {
        lemma_lt_trans(a.drop_first(), b.drop_first(), c.drop_first());
    }
}

/// Compares two names character by character.
fn str_lt(a: &str, b: &str) -> (r: bool)
    ensures
        r == name_lt(a@, b@),
{
    let x = chars_of(a);
    let y = chars_of(b);
    let mut i: usize = 0;
    assert(a@.skip(0) =~= a@);
    assert(b@.skip(0) =~= b@);
    while i < x.len() && i < y.len()
        invariant
            i <= x@.len(),
            i <= y@.len(),
            x@ == a@,
            y@ == b@,
            name_lt(a@, b@) == name_lt(a@.skip(i as int), b@.skip(i as int)),
        decreases x.len() - i,
    {
        let ghost xs = a@.skip(i as int);
        let ghost ys = b@.skip(i as int);
        assert(xs[0] == x@[i as int]);
        assert(ys[0] == y@[i as int]);
        if x[i] != y[i] {
            return x[i] < y[i];
        }
        assert(xs.drop_first() =~= a@.skip(i as int + 1));
        assert(ys.drop_first() =~= b@.skip(i as int + 1));
        i = i + 1;
    }
    i < y.len()
}

/// A name declared again with a different signature.
#[derive(Debug)]
pub struct ConflictingExternal {
    pub name: String,
}

fn copy_ext(s: &ExternalBuiltinSig) -> (r: ExternalBuiltinSig)
    ensures
        r@ == s@,
{
    ExternalBuiltinSig { name: s.name.clone(), params: copy_params(&s.params), ret: copy_type(&s.ret), effect: s.effect, route: s.route }
}

/// Whether two declarations of an external builtin agree (see `sigs_match`).
pub fn external_builtin_sigs_match(lhs: &ExternalBuiltinSig, rhs: &ExternalBuiltinSig) -> (r: bool)
    ensures
        r == sigs_match(lhs@, rhs@),
{
    if !crate::text::str_eq(lhs.name.as_str(), rhs.name.as_str()) || !type_eq(&lhs.ret, &rhs.ret) || lhs.effect != rhs.effect
        || lhs.route != rhs.route || lhs.params.len() != rhs.params.len() {
        return false;
    }
    let mut k: usize = 0;
    while k < lhs.params.len()
        invariant
            k <= lhs.params@.len(),
            lhs.params@.len() == rhs.params@.len(),
            forall|j: int| 0 <= j < k ==> (#[trigger] params_view(lhs.params@)[j]).kind == params_view(rhs.params@)[j].kind
                && params_view(lhs.params@)[j].ty == params_view(rhs.params@)[j].ty,
        decreases lhs.params.len() - k,
    {
        if lhs.params[k].kind != rhs.params[k].kind || !type_eq(&lhs.params[k].ty, &rhs.params[k].ty) {
            assert(params_view(lhs.params@)[k as int] == lhs.params@[k as int]@);
            return false;
        }
        k = k + 1;
    }
    true
}

/// The bundled builtins that the standard ABI does not export, each with
/// its route.
pub fn bundled_non_abi_external_builtin_sigs(abi: &NameSet) -> (v: Vec<ExternalBuiltinSig>)
    ensures
        ext_views(v@) == bundled_views(abi@),
{
    let sigs = non_abi_builtin_sigs(abi);
    let ghost want = bundled_views(abi@);
    let mut out: Vec<ExternalBuiltinSig> = Vec::new();
    let mut i: usize = 0;
    while i < sigs.len()
        invariant
            i <= sigs@.len(),
            sigs_view(sigs@) == table_entries_in(abi@, false),
            want == bundled_views(abi@),
            out@.len() == i,
            forall|j: int| 0 <= j < i ==> (#[trigger] out@[j])@ == want[j],
        decreases sigs.len() - i,
    {
        let s = &sigs[i];
        assert(sigs_view(sigs@)[i as int] == crate::builtin_table::sig_view(sigs@[i as int]));
        let route = builtin_route(s.0.as_str());
        out.push(ExternalBuiltinSig { name: s.0.clone(), params: copy_params(&s.1), ret: copy_type(&s.2), effect: s.3, route });
        i = i + 1;
    }
    assert(ext_views(out@) =~= want);
    out
}

proof fn lemma_sorted_insert(v: Seq<ExtSigV>, j: int, x: ExtSigV)
    requires
        0 <= j <= v.len(),
        sorted_by_name(v),
        forall|i: int| 0 <= i < j ==> name_lt(#[trigger] v[i].name, x.name),
        j < v.len() ==> name_lt(x.name, v[j].name),
    ensures
        sorted_by_name(v.insert(j, x)),
{
    let w = v.insert(j, x);
    assert forall|a: int, b: int| 0 <= a < b < w.len() implies name_lt(#[trigger] w[a].name, #[trigger] w[b].name) by {
        if a < j && b < j {
            assert(name_lt(v[a].name, v[b].name));
        } else if a < j && b == j {
        } else if a < j {
            assert(name_lt(v[a].name, v[b - 1].name));
        } else if a == j {
            if b - 1 > j {
                assert(name_lt(v[j].name, v[b - 1].name));
                lemma_lt_trans(x.name, v[j].name, v[b - 1].name);
            }
        } else {
            assert(name_lt(v[a - 1].name, v[b - 1].name));
        }
    }
}

/// Adds one declaration to the sorted list of builtins (see `merge_step`).
fn merge_one(merged: &mut Vec<ExternalBuiltinSig>, s: &ExternalBuiltinSig, Ghost(m): Ghost<Map<Seq<char>, ExtSigV>>) -> (r: Result<(), ConflictingExternal>)
    requires
        sorted_by_name(ext_views(old(merged)@)),
        lists_map(ext_views(old(merged)@), m),
    ensures
        match merge_step(m, s@) {
            Ok(m2) => r is Ok && sorted_by_name(ext_views(final(merged)@)) && lists_map(ext_views(final(merged)@), m2),
            Err(x) => r matches Err(e) && e.name@ == x,
        },
{
    let ghost mv = ext_views(merged@);
    let mut j: usize = 0;
    while j < merged.len() && str_lt(merged[j].name.as_str(), s.name.as_str())
        invariant
            j <= merged@.len(),
            mv == ext_views(merged@),
            forall|i: int| 0 <= i < j ==> name_lt(#[trigger] mv[i].name, s@.name),
        decreases merged.len() - j,
    {
        j = j + 1;
    }
    if j < merged.len() && crate::text::str_eq(merged[j].name.as_str(), s.name.as_str()) {
        assert(mv[j as int] == merged@[j as int]@);
        assert(m.contains_key(mv[j as int].name));
        if external_builtin_sigs_match(&merged[j], s) {
            return Ok(());
        } else {
            return Err(ConflictingExternal { name: s.name.clone() });
        }
    }
    proof {
        if j < merged@.len() {
            assert(mv[j as int] == merged@[j as int]@);
            assert(!name_lt(mv[j as int].name, s@.name));
            lemma_lt_total(mv[j as int].name, s@.name);
        }
        if m.contains_key(s@.name) {
            let i = choose|i: int| 0 <= i < mv.len() && mv[i].name == s@.name;
            if i < j {
                lemma_lt_irreflexive(s@.name);
            } else if i > j {
                assert(name_lt(mv[j as int].name, mv[i].name));
                lemma_lt_trans(s@.name, mv[j as int].name, mv[i].name);
                lemma_lt_irreflexive(s@.name);
            }
        }
        lemma_sorted_insert(mv, j as int, s@);
    }
    let c = copy_ext(s);
    merged.insert(j, c);
    proof {
        let m2 = m.insert(s@.name, s@);
        assert(ext_views(merged@) =~= mv.insert(j as int, s@));
        let w = ext_views(merged@);
        assert forall|i: int| 0 <= i < w.len() implies m2.contains_key((#[trigger] w[i]).name) && m2[w[i].name] == w[i] by {
            if i < j {
                assert(w[i] == mv[i]);
            } else if i > j {
                assert(w[i] == mv[i - 1]);
                assert(mv[i - 1].name != s@.name);
            }
        }
        assert forall|k: Seq<char>| #[trigger] m2.contains_key(k) implies exists|i: int| 0 <= i < w.len() && w[i].name == k by {
            if k == s@.name {
                assert(w[j as int].name == k);
            } else {
                let i = choose|i: int| 0 <= i < mv.len() && mv[i].name == k;
                if i < j {
                    assert(w[i] == mv[i]);
                } else {
                    assert(w[i + 1] == mv[i]);
                }
            }
        }
    }
    Ok(())
}

proof fn lemma_merge_err_stays(all: Seq<ExtSigV>, n: nat, k: nat)
    requires
        n <= k,
        merge_fold(all, n) is Err,
    ensures
        merge_fold(all, k) == merge_fold(all, n),
    decreases k - n,
{
    if n < k {
        lemma_merge_err_stays(all, n, (k - 1) as nat);
    }
}

/// The bundled builtins outside the standard ABI followed by `external`,
/// merged by name (see `merge_fold`): the first declaration of a name is
/// kept, a later one must agree with it, and the result lists each name
/// once, in increasing order of name.
pub fn merged_external_builtin_sigs(abi: &NameSet, external: &Vec<ExternalBuiltinSig>) -> (r: Result<Vec<ExternalBuiltinSig>, ConflictingExternal>)
    ensures
        match merge_fold(bundled_views(abi@) + ext_views(external@), (bundled_views(abi@) + ext_views(external@)).len()) {
            Ok(m) => r matches Ok(v) && sorted_by_name(ext_views(v@)) && lists_map(ext_views(v@), m),
            Err(x) => r matches Err(e) && e.name@ == x,
        },
{
    let bundled = bundled_non_abi_external_builtin_sigs(abi);
    let ghost all = bundled_views(abi@) + ext_views(external@);
    let mut merged: Vec<ExternalBuiltinSig> = Vec::new();
    proof {
        assert(ext_views(merged@) =~= Seq::<ExtSigV>::empty());
    }
    let mut i: usize = 0;
    while i < bundled.len()
        invariant
            i <= bundled@.len(),
            ext_views(bundled@) == bundled_views(abi@),
            all == bundled_views(abi@) + ext_views(external@),
            merge_fold(all, i as nat) is Ok,
            sorted_by_name(ext_views(merged@)),
            lists_map(ext_views(merged@), merge_fold(all, i as nat)->Ok_0),
        decreases bundled.len() - i,
    {
        assert(all[i as int] == bundled@[i as int]@);
        let ghost m = merge_fold(all, i as nat)->Ok_0;
        if let Err(e) = merge_one(&mut merged, &bundled[i], Ghost(m)) {
            proof {
                lemma_merge_err_stays(all, (i + 1) as nat, all.len());
            }
            return Err(e);
        }
        i = i + 1;
    }
    let mut k: usize = 0;
    while k < external.len()
        invariant
            k <= external@.len(),
            i == bundled@.len(),
            ext_views(bundled@) == bundled_views(abi@),
            all == bundled_views(abi@) + ext_views(external@),
            merge_fold(all, (i + k) as nat) is Ok,
            sorted_by_name(ext_views(merged@)),
            lists_map(ext_views(merged@), merge_fold(all, (i + k) as nat)->Ok_0),
        decreases external.len() - k,
    {
        assert(all[(i + k) as int] == external@[k as int]@);
        let ghost m = merge_fold(all, (i + k) as nat)->Ok_0;
        if let Err(e) = merge_one(&mut merged, &external[k], Ghost(m)) {
            proof {
                lemma_merge_err_stays(all, (i + k + 1) as nat, all.len());
            }
            return Err(e);
        }
        k = k + 1;
    }
    Ok(merged)
}

} // verus!
