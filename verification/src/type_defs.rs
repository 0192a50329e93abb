use vstd::prelude::*;
use crate::ast::{EnumDecl, EnumVariant, Program, RefinedAliasDecl, ResourceDecl, StructDecl, StructField, type_param_names};
use crate::env::{enum_names, struct_names, TypeDefs, TypeParam};
use crate::errors::{at_span, TyperError};
use crate::names::NameSet;
use crate::ty::{copy_type, copy_types, Span};

verus! {

fn copy_type_params(ps: &Vec<TypeParam>) -> (r: Vec<TypeParam>)
    ensures
        type_param_names(r@) == type_param_names(ps@),
{
    let mut out: Vec<TypeParam> = Vec::new();
    let mut i: usize = 0;
    while i < ps.len()
        invariant
            i <= ps@.len(),
            out@.len() == i,
            forall|j: int| 0 <= j < i ==> (#[trigger] out@[j]).name@ == ps@[j].name@,
        decreases ps.len() - i,
    {
        out.push(TypeParam { name: ps[i].name.clone(), span: ps[i].span });
        i = i + 1;
    }
    assert(type_param_names(out@) =~= type_param_names(ps@));
    out
}

fn copy_fields(fs: &Vec<StructField>) -> (r: Vec<StructField>)
    ensures
        r@.map_values(|f: StructField| f@) == fs@.map_values(|f: StructField| f@),
{
    let mut out: Vec<StructField> = Vec::new();
    let mut i: usize = 0;
    while i < fs.len()
        invariant
            i <= fs@.len(),
            out@.len() == i,
            forall|j: int| 0 <= j < i ==> (#[trigger] out@[j])@ == fs@[j]@,
        decreases fs.len() - i,
    {
        out.push(StructField { name: fs[i].name.clone(), ty: copy_type(&fs[i].ty), span: fs[i].span });
        i = i + 1;
    }
    assert(out@.map_values(|f: StructField| f@) =~= fs@.map_values(|f: StructField| f@));
    out
}

/// An independent copy of a struct declaration.
pub fn copy_struct_decl(d: &StructDecl) -> (r: StructDecl)
    ensures
        r@ == d@,
{
    StructDecl {
        name: d.name.clone(),
        name_span: d.name_span,
        type_params: copy_type_params(&d.type_params),
        fields: copy_fields(&d.fields),
        is_resource: d.is_resource,
    }
}

/// An independent copy of an enum declaration.
pub fn copy_enum_decl(d: &EnumDecl) -> (r: EnumDecl)
    ensures
        r@ == d@,
{
    let mut variants: Vec<EnumVariant> = Vec::new();
    let mut i: usize = 0;
    while i < d.variants.len()
        invariant
            i <= d.variants@.len(),
            variants@.len() == i,
            forall|j: int| 0 <= j < i ==> (#[trigger] variants@[j])@ == d.variants@[j]@,
        decreases d.variants.len() - i,
    {
        let v = &d.variants[i];
        variants.push(EnumVariant { name: v.name.clone(), fields: copy_types(&v.fields), span: v.span });
        i = i + 1;
    }
    assert(variants@.map_values(|v: EnumVariant| v@) =~= d.variants@.map_values(|v: EnumVariant| v@));
    EnumDecl {
        name: d.name.clone(),
        name_span: d.name_span,
        type_params: copy_type_params(&d.type_params),
        variants,
        is_resource: d.is_resource,
    }
}

/// The declarations' models.
pub open spec fn structs_view(s: Seq<StructDecl>) -> Seq<crate::ast::StructDeclV> {
    s.map_values(|d: StructDecl| d@)
}

pub open spec fn enums_view(s: Seq<EnumDecl>) -> Seq<crate::ast::EnumDeclV> {
    s.map_values(|d: EnumDecl| d@)
}

/// The names of the resources.
pub open spec fn resource_names(rs: Seq<ResourceDecl>) -> Set<Seq<char>> {
    Set::new(|n: Seq<char>| exists|i: int| 0 <= i < rs.len() && (#[trigger] rs[i]).name@ == n)
}

/// The names of the refined aliases.
pub open spec fn refined_alias_names(al: Seq<RefinedAliasDecl>) -> Set<Seq<char>> {
    Set::new(|n: Seq<char>| exists|i: int| 0 <= i < al.len() && (#[trigger] al[i]).name@ == n)
}

/// A reason the program's type declarations are refused.
pub enum DeclProblem {
    ConflictsWithResource(Seq<char>, Span),
    DuplicateType(Seq<char>, Span),
    DuplicateField(Seq<char>, Span),
    DuplicateVariant(Seq<char>, Span),
}

/// The field at `k` repeats the name of an earlier one.
pub open spec fn field_repeats(fs: Seq<StructField>, k: int) -> bool {
    0 <= k < fs.len() && exists|l: int| 0 <= l < k && (#[trigger] fs[l]).name@ == fs[k].name@
}

/// The variant at `k` repeats the name of an earlier one.
pub open spec fn variant_repeats(vs: Seq<EnumVariant>, k: int) -> bool {
    0 <= k < vs.len() && exists|l: int| 0 <= l < k && (#[trigger] vs[l]).name@ == vs[k].name@
}

/// What is wrong with the `i`-th struct, given those before it.
pub open spec fn struct_problem(p: Program, i: int) -> Option<DeclProblem> {
    let s = p.structs@[i];
    if resource_names(p.resources@).contains(s.name@) {
        Some(DeclProblem::ConflictsWithResource(s.name@, s.name_span))
    } else if refined_alias_names(p.refined_aliases@).contains(s.name@)
        || struct_names(p.structs@.take(i)).contains(s.name@) {
        Some(DeclProblem::DuplicateType(s.name@, s.name_span))
    } else if exists|k: int| field_repeats(s.fields@, k) {
        let k = choose|k: int| field_repeats(s.fields@, k) && forall|m: int| 0 <= m < k ==> !#[trigger] field_repeats(s.fields@, m);
        Some(DeclProblem::DuplicateField(s.fields@[k].name@, s.fields@[k].span))
    } else {
        None
    }
}

/// What is wrong with the `i`-th enum, given the structs and the enums before it.
pub open spec fn enum_problem(p: Program, i: int) -> Option<DeclProblem> {
    let e = p.enums@[i];
    if resource_names(p.resources@).contains(e.name@) {
        Some(DeclProblem::ConflictsWithResource(e.name@, e.name_span))
    } else if refined_alias_names(p.refined_aliases@).contains(e.name@) || struct_names(p.structs@).contains(e.name@)
        || enum_names(p.enums@.take(i)).contains(e.name@) {
        Some(DeclProblem::DuplicateType(e.name@, e.name_span))
    } else if exists|k: int| variant_repeats(e.variants@, k) {
        let k = choose|k: int| variant_repeats(e.variants@, k) && forall|m: int| 0 <= m < k ==> !#[trigger] variant_repeats(e.variants@, m);
        Some(DeclProblem::DuplicateVariant(e.variants@[k].name@, e.variants@[k].span))
    } else {
        None
    }
}

/// The first problem among the declarations: structs first, then enums.
pub open spec fn first_decl_problem(p: Program, pr: DeclProblem) -> bool {
    ||| exists|i: int| 0 <= i < p.structs@.len() && (forall|j: int| 0 <= j < i ==> (#[trigger] struct_problem(p, j)) is None)
        && #[trigger] struct_problem(p, i) == Some(pr)
    ||| (forall|j: int| 0 <= j < p.structs@.len() ==> (#[trigger] struct_problem(p, j)) is None)
        && exists|i: int| 0 <= i < p.enums@.len() && (forall|j: int| 0 <= j < i ==> (#[trigger] enum_problem(p, j)) is None)
        && #[trigger] enum_problem(p, i) == Some(pr)
}

/// Why the type declarations were refused.
#[derive(Debug)]
pub enum TypeDefsError {
    Typer(TyperError),
    DuplicateStructField { name: String, span: Span },
    DuplicateEnumVariant { name: String, span: Span },
}

/// `e` reports the problem `pr`.
pub open spec fn reports_problem(e: TypeDefsError, pr: DeclProblem) -> bool {
    match pr {
        DeclProblem::ConflictsWithResource(n, s) => e matches TypeDefsError::Typer(t) && t.code@ == "T702"@
            && t.message@ == at_span(s) + "type `"@ + n + "` conflicts with an existing resource name"@
            && t.start == s.start && t.end == s.end,
        DeclProblem::DuplicateType(n, s) => e matches TypeDefsError::Typer(t) && t.code@ == "T701"@
            && t.message@ == at_span(s) + "duplicate type `"@ + n + "`"@ && t.start == s.start && t.end == s.end,
        DeclProblem::DuplicateField(n, s) => e matches TypeDefsError::DuplicateStructField { name, span }
            && name@ == n && span == s,
        DeclProblem::DuplicateVariant(n, s) => e matches TypeDefsError::DuplicateEnumVariant { name, span }
            && name@ == n && span == s,
    }
}

fn first_repeated_field(fs: &Vec<StructField>) -> (r: Option<usize>)
    ensures
        match r {
            Some(k) => field_repeats(fs@, k as int) && forall|m: int| 0 <= m < k ==> !#[trigger] field_repeats(fs@, m),
            None => forall|m: int| !#[trigger] field_repeats(fs@, m),
        },
{
    let mut seen = NameSet::new();
    let mut k: usize = 0;
    while k < fs.len()
        invariant
            k <= fs@.len(),
            forall|n: Seq<char>| #[trigger] seen@.contains(n) <==> exists|l: int| 0 <= l < k && (#[trigger] fs@[l]).name@ == n,
            forall|m: int| 0 <= m < k ==> !#[trigger] field_repeats(fs@, m),
        decreases fs.len() - k,
    {
        let ghost before = seen@;
        let fresh = seen.insert(fs[k].name.clone());
        if !fresh {
            proof {
                let l = choose|l: int| 0 <= l < k && (#[trigger] fs@[l]).name@ == fs@[k as int].name@;
                assert(field_repeats(fs@, k as int));
            }
            return Some(k);
        }
        proof {
            assert(!field_repeats(fs@, k as int)) by {
                if field_repeats(fs@, k as int) {
                    let l = choose|l: int| 0 <= l < k && (#[trigger] fs@[l]).name@ == fs@[k as int].name@;
                    assert(before.contains(fs@[l].name@)) by {
                        assert(exists|l2: int| 0 <= l2 < k && (#[trigger] fs@[l2]).name@ == fs@[l].name@);
                    }
                }
            }
            assert forall|n: Seq<char>| #[trigger] seen@.contains(n) <==> exists|l: int| 0 <= l < k + 1 && (#[trigger] fs@[l]).name@ == n by {
                if seen@.contains(n) && n != fs@[k as int].name@ {
                    let l = choose|l: int| 0 <= l < k && (#[trigger] fs@[l]).name@ == n;
                }
                if exists|l: int| 0 <= l < k + 1 && (#[trigger] fs@[l]).name@ == n {
                    let l = choose|l: int| 0 <= l < k + 1 && (#[trigger] fs@[l]).name@ == n;
                    if l < k {
                        assert(exists|l2: int| 0 <= l2 < k && (#[trigger] fs@[l2]).name@ == n);
                    }
                }
            }
        }
        k = k + 1;
    }
    None
}

fn first_repeated_variant(vs: &Vec<EnumVariant>) -> (r: Option<usize>)
    ensures
        match r {
            Some(k) => variant_repeats(vs@, k as int) && forall|m: int| 0 <= m < k ==> !#[trigger] variant_repeats(vs@, m),
            None => forall|m: int| !#[trigger] variant_repeats(vs@, m),
        },
{
    let mut seen = NameSet::new();
    let mut k: usize = 0;
    while k < vs.len()
        invariant
            k <= vs@.len(),
            forall|n: Seq<char>| #[trigger] seen@.contains(n) <==> exists|l: int| 0 <= l < k && (#[trigger] vs@[l]).name@ == n,
            forall|m: int| 0 <= m < k ==> !#[trigger] variant_repeats(vs@, m),
        decreases vs.len() - k,
    {
        let ghost before = seen@;
        let fresh = seen.insert(vs[k].name.clone());
        if !fresh {
            proof {
                let l = choose|l: int| 0 <= l < k && (#[trigger] vs@[l]).name@ == vs@[k as int].name@;
                assert(variant_repeats(vs@, k as int));
            }
            return Some(k);
        }
        proof {
            assert(!variant_repeats(vs@, k as int)) by {
                if variant_repeats(vs@, k as int) {
                    let l = choose|l: int| 0 <= l < k && (#[trigger] vs@[l]).name@ == vs@[k as int].name@;
                    assert(before.contains(vs@[l].name@)) by {
                        assert(exists|l2: int| 0 <= l2 < k && (#[trigger] vs@[l2]).name@ == vs@[l].name@);
                    }
                }
            }
            assert forall|n: Seq<char>| #[trigger] seen@.contains(n) <==> exists|l: int| 0 <= l < k + 1 && (#[trigger] vs@[l]).name@ == n by {
                if seen@.contains(n) && n != vs@[k as int].name@ {
                    let l = choose|l: int| 0 <= l < k && (#[trigger] vs@[l]).name@ == n;
                }
                if exists|l: int| 0 <= l < k + 1 && (#[trigger] vs@[l]).name@ == n {
                    let l = choose|l: int| 0 <= l < k + 1 && (#[trigger] vs@[l]).name@ == n;
                    if l < k {
                        assert(exists|l2: int| 0 <= l2 < k && (#[trigger] vs@[l2]).name@ == n);
                    }
                }
            }
        }
        k = k + 1;
    }
    None
}

proof fn lemma_struct_names_push(s: Seq<StructDecl>, i: int)
    requires
        0 <= i < s.len(),
    ensures
        struct_names(s.take(i + 1)) == struct_names(s.take(i)).insert(s[i].name@),
{
    assert forall|n: Seq<char>| #[trigger] struct_names(s.take(i + 1)).contains(n) <==> struct_names(s.take(i)).insert(s[i].name@).contains(n) by {
        if struct_names(s.take(i + 1)).contains(n) {
            let j = choose|j: int| 0 <= j < s.take(i + 1).len() && (#[trigger] s.take(i + 1)[j]).name@ == n;
            if j < i {
                assert(s.take(i)[j] == s[j]);
            }
        }
        if struct_names(s.take(i)).contains(n) {
            let j = choose|j: int| 0 <= j < s.take(i).len() && (#[trigger] s.take(i)[j]).name@ == n;
            assert(s.take(i + 1)[j] == s[j]);
        }
        if n == s[i].name@ {
            assert(s.take(i + 1)[i] == s[i]);
        }
    }
    assert(struct_names(s.take(i + 1)) =~= struct_names(s.take(i)).insert(s[i].name@));
}

proof fn lemma_enum_names_push(s: Seq<EnumDecl>, i: int)
    requires
        0 <= i < s.len(),
    ensures
        enum_names(s.take(i + 1)) == enum_names(s.take(i)).insert(s[i].name@),
{
    assert forall|n: Seq<char>| #[trigger] enum_names(s.take(i + 1)).contains(n) <==> enum_names(s.take(i)).insert(s[i].name@).contains(n) by {
        if enum_names(s.take(i + 1)).contains(n) {
            let j = choose|j: int| 0 <= j < s.take(i + 1).len() && (#[trigger] s.take(i + 1)[j]).name@ == n;
            if j < i {
                assert(s.take(i)[j] == s[j]);
            }
        }
        if enum_names(s.take(i)).contains(n) {
            let j = choose|j: int| 0 <= j < s.take(i).len() && (#[trigger] s.take(i)[j]).name@ == n;
            assert(s.take(i + 1)[j] == s[j]);
        }
        if n == s[i].name@ {
            assert(s.take(i + 1)[i] == s[i]);
        }
    }
    assert(enum_names(s.take(i + 1)) =~= enum_names(s.take(i)).insert(s[i].name@));
}

fn resource_name_set(rs: &Vec<ResourceDecl>) -> (r: NameSet)
    ensures
        r@ == resource_names(rs@),
{
    let mut out = NameSet::new();
    let mut i: usize = 0;
    while i < rs.len()
        invariant
            i <= rs@.len(),
            forall|n: Seq<char>| #[trigger] out@.contains(n) <==> exists|j: int| 0 <= j < i && (#[trigger] rs@[j]).name@ == n,
        decreases rs.len() - i,
    {
        out.insert(rs[i].name.clone());
        proof {
            assert forall|n: Seq<char>| #[trigger] out@.contains(n) <==> exists|j: int| 0 <= j < i + 1 && (#[trigger] rs@[j]).name@ == n by {
                if exists|j: int| 0 <= j < i + 1 && (#[trigger] rs@[j]).name@ == n {
                    let j = choose|j: int| 0 <= j < i + 1 && (#[trigger] rs@[j]).name@ == n;
                    if j < i {
                        assert(exists|j2: int| 0 <= j2 < i && (#[trigger] rs@[j2]).name@ == n);
                    }
                }
            }
        }
        i = i + 1;
    }
    assert(out@ =~= resource_names(rs@));
    out
}

fn alias_name_set(al: &Vec<RefinedAliasDecl>) -> (r: NameSet)
    ensures
        r@ == refined_alias_names(al@),
{
    let mut out = NameSet::new();
    let mut i: usize = 0;
    while i < al.len()
        invariant
            i <= al@.len(),
            forall|n: Seq<char>| #[trigger] out@.contains(n) <==> exists|j: int| 0 <= j < i && (#[trigger] al@[j]).name@ == n,
        decreases al.len() - i,
    {
        out.insert(al[i].name.clone());
        proof {
            assert forall|n: Seq<char>| #[trigger] out@.contains(n) <==> exists|j: int| 0 <= j < i + 1 && (#[trigger] al@[j]).name@ == n by {
                if exists|j: int| 0 <= j < i + 1 && (#[trigger] al@[j]).name@ == n {
                    let j = choose|j: int| 0 <= j < i + 1 && (#[trigger] al@[j]).name@ == n;
                    if j < i {
                        assert(exists|j2: int| 0 <= j2 < i && (#[trigger] al@[j2]).name@ == n);
                    }
                }
            }
        }
        i = i + 1;
    }
    assert(out@ =~= refined_alias_names(al@));
    out
}

fn check_struct(program: &Program, i: usize, resources: &NameSet, aliases: &NameSet, struct_seen: &NameSet) -> (r: Result<(), TypeDefsError>)
    requires
        i < program.structs@.len(),
        resources@ == resource_names(program.resources@),
        aliases@ == refined_alias_names(program.refined_aliases@),
        struct_seen@ == struct_names(program.structs@.take(i as int)),
    ensures
        match struct_problem(*program, i as int) {
            None => r is Ok,
            Some(pr) => r matches Err(e) && reports_problem(e, pr),
        },
{
    let s = &program.structs[i];
    let name = s.name.as_str();
    if resources.contains(name) {
        return Err(TypeDefsError::Typer(TyperError::type_conflicts_with_resource(name, s.name_span)));
    }
    if aliases.contains(name) || struct_seen.contains(name) {
        return Err(TypeDefsError::Typer(TyperError::duplicate_type(name, s.name_span)));
    }
    match first_repeated_field(&s.fields) {
        Some(k) => {
            proof {
                let fs = s.fields@;
                let c = choose|c: int| field_repeats(fs, c) && forall|m: int| 0 <= m < c ==> !#[trigger] field_repeats(fs, m);
                assert(c == k as int) by {
                    if c < k as int {
                        assert(!field_repeats(fs, c));
                    } else if c > k as int {
                        assert(!field_repeats(fs, k as int));
                    }
                }
            }
            Err(TypeDefsError::DuplicateStructField { name: s.fields[k].name.clone(), span: s.fields[k].span })
        },
        None => Ok(()),
    }
}

fn check_enum(program: &Program, i: usize, resources: &NameSet, aliases: &NameSet, struct_seen: &NameSet, enum_seen: &NameSet) -> (r: Result<(), TypeDefsError>)
    requires
        i < program.enums@.len(),
        resources@ == resource_names(program.resources@),
        aliases@ == refined_alias_names(program.refined_aliases@),
        struct_seen@ == struct_names(program.structs@),
        enum_seen@ == enum_names(program.enums@.take(i as int)),
    ensures
        match enum_problem(*program, i as int) {
            None => r is Ok,
            Some(pr) => r matches Err(e) && reports_problem(e, pr),
        },
{
    let en = &program.enums[i];
    let name = en.name.as_str();
    if resources.contains(name) {
        return Err(TypeDefsError::Typer(TyperError::type_conflicts_with_resource(name, en.name_span)));
    }
    if aliases.contains(name) || struct_seen.contains(name) || enum_seen.contains(name) {
        return Err(TypeDefsError::Typer(TyperError::duplicate_type(name, en.name_span)));
    }
    match first_repeated_variant(&en.variants) {
        Some(k) => {
            proof {
                let vs = en.variants@;
                let c = choose|c: int| variant_repeats(vs, c) && forall|m: int| 0 <= m < c ==> !#[trigger] variant_repeats(vs, m);
                assert(c == k as int) by {
                    if c < k as int {
                        assert(!variant_repeats(vs, c));
                    } else if c > k as int {
                        assert(!variant_repeats(vs, k as int));
                    }
                }
            }
            Err(TypeDefsError::DuplicateEnumVariant { name: en.variants[k].name.clone(), span: en.variants[k].span })
        },
        None => Ok(()),
    }
}

/// Collects the program's type declarations. Refused, at the first problem
/// (structs before enums, each in source order), when a struct or enum takes
/// a resource's name, repeats an alias's or another type's name, or repeats
/// one of its own field or variant names.
pub fn build_type_defs(program: &Program) -> (r: Result<TypeDefs, TypeDefsError>)
    ensures
        match r {
            Ok(td) => {
                &&& forall|i: int| 0 <= i < program.structs@.len() ==> (#[trigger] struct_problem(*program, i)) is None
                &&& forall|i: int| 0 <= i < program.enums@.len() ==> (#[trigger] enum_problem(*program, i)) is None
                &&& td.resources@ == resource_names(program.resources@)
                &&& structs_view(td.structs@) == structs_view(program.structs@)
                &&& enums_view(td.enums@) == enums_view(program.enums@)
            },
            Err(e) => exists|pr: DeclProblem| #[trigger] first_decl_problem(*program, pr) && reports_problem(e, pr),
        },
{
    let ghost p = *program;
    let resources = resource_name_set(&program.resources);
    let aliases = alias_name_set(&program.refined_aliases);
    let mut struct_seen = NameSet::new();
    let mut structs: Vec<StructDecl> = Vec::new();
    let mut i: usize = 0;
    assert(struct_names(program.structs@.take(0)) =~= Set::<Seq<char>>::empty());
    assert(structs_view(structs@) =~= structs_view(program.structs@.take(0)));
    while i < program.structs.len()
        invariant
            i <= program.structs@.len(),
            p == *program,
            resources@ == resource_names(program.resources@),
            aliases@ == refined_alias_names(program.refined_aliases@),
            struct_seen@ == struct_names(program.structs@.take(i as int)),
            structs_view(structs@) == structs_view(program.structs@.take(i as int)),
            forall|j: int| 0 <= j < i ==> (#[trigger] struct_problem(p, j)) is None,
        decreases program.structs.len() - i,
    {
        match check_struct(program, i, &resources, &aliases, &struct_seen) {
            Err(e) => {
                proof {
                    let pr = struct_problem(p, i as int)->Some_0;
                    assert(first_decl_problem(p, pr));
                }
                return Err(e);
            },
            Ok(()) => {},
        }
        let s = &program.structs[i];
        proof {
            lemma_struct_names_push(program.structs@, i as int);
        }
        struct_seen.insert(s.name.clone());
        let ghost before = structs@;
        let c = copy_struct_decl(s);
        structs.push(c);
        proof {
            let t = program.structs@.take(i as int + 1);
            assert(t =~= program.structs@.take(i as int).push(program.structs@[i as int]));
            assert(structs_view(structs@) =~= structs_view(before).push(c@));
            assert(structs_view(t) =~= structs_view(program.structs@.take(i as int)).push(program.structs@[i as int]@));
        }
        i = i + 1;
    }
    assert(program.structs@.take(i as int) =~= program.structs@);
    let mut enum_seen = NameSet::new();
    let mut enums: Vec<EnumDecl> = Vec::new();
    let mut i: usize = 0;
    assert(enum_names(program.enums@.take(0)) =~= Set::<Seq<char>>::empty());
    assert(enums_view(enums@) =~= enums_view(program.enums@.take(0)));
    while i < program.enums.len()
        invariant
            i <= program.enums@.len(),
            p == *program,
            resources@ == resource_names(program.resources@),
            aliases@ == refined_alias_names(program.refined_aliases@),
            struct_seen@ == struct_names(program.structs@),
            enum_seen@ == enum_names(program.enums@.take(i as int)),
            enums_view(enums@) == enums_view(program.enums@.take(i as int)),
            forall|j: int| 0 <= j < program.structs@.len() ==> (#[trigger] struct_problem(p, j)) is None,
            forall|j: int| 0 <= j < i ==> (#[trigger] enum_problem(p, j)) is None,
        decreases program.enums.len() - i,
    {
        match check_enum(program, i, &resources, &aliases, &struct_seen, &enum_seen) {
            Err(e) => {
                proof {
                    let pr = enum_problem(p, i as int)->Some_0;
                    assert(first_decl_problem(p, pr));
                }
                return Err(e);
            },
            Ok(()) => {},
        }
        let en = &program.enums[i];
        proof {
            lemma_enum_names_push(program.enums@, i as int);
        }
        enum_seen.insert(en.name.clone());
        let ghost before = enums@;
        let c = copy_enum_decl(en);
        enums.push(c);
        proof {
            let t = program.enums@.take(i as int + 1);
            assert(t =~= program.enums@.take(i as int).push(program.enums@[i as int]));
            assert(enums_view(enums@) =~= enums_view(before).push(c@));
            assert(enums_view(t) =~= enums_view(program.enums@.take(i as int)).push(program.enums@[i as int]@));
        }
        i = i + 1;
    }
    assert(program.enums@.take(i as int) =~= program.enums@);
    Ok(TypeDefs { resources, structs, enums })
}

/// Declarations that `build_type_defs` accepts name every type once: no two
/// structs, no two enums and no struct and enum share a name, and none takes
/// a resource's name.
pub proof fn lemma_accepted_names_unique(p: Program)
    requires
        forall|i: int| 0 <= i < p.structs@.len() ==> (#[trigger] struct_problem(p, i)) is None,
        forall|i: int| 0 <= i < p.enums@.len() ==> (#[trigger] enum_problem(p, i)) is None,
    ensures
        forall|i: int, j: int| 0 <= i < j < p.structs@.len() ==> (#[trigger] p.structs@[i]).name@ != (#[trigger] p.structs@[j]).name@,
        forall|i: int, j: int| 0 <= i < j < p.enums@.len() ==> (#[trigger] p.enums@[i]).name@ != (#[trigger] p.enums@[j]).name@,
        forall|i: int, j: int| 0 <= i < p.structs@.len() && 0 <= j < p.enums@.len() ==> (#[trigger] p.structs@[i]).name@ != (#[trigger] p.enums@[j]).name@,
        forall|i: int| 0 <= i < p.structs@.len() ==> !resource_names(p.resources@).contains((#[trigger] p.structs@[i]).name@),
        forall|i: int| 0 <= i < p.enums@.len() ==> !resource_names(p.resources@).contains((#[trigger] p.enums@[i]).name@),
{
    assert forall|i: int, j: int| 0 <= i < j < p.structs@.len() implies (#[trigger] p.structs@[i]).name@ != (#[trigger] p.structs@[j]).name@ by {
        assert(struct_problem(p, j) is None);
        assert(p.structs@.take(j)[i] == p.structs@[i]);
        if p.structs@[i].name@ == p.structs@[j].name@ {
            assert(struct_names(p.structs@.take(j)).contains(p.structs@[j].name@));
        }
    }
    assert forall|i: int, j: int| 0 <= i < j < p.enums@.len() implies (#[trigger] p.enums@[i]).name@ != (#[trigger] p.enums@[j]).name@ by {
        assert(enum_problem(p, j) is None);
        assert(p.enums@.take(j)[i] == p.enums@[i]);
        if p.enums@[i].name@ == p.enums@[j].name@ {
            assert(enum_names(p.enums@.take(j)).contains(p.enums@[j].name@));
        }
    }
    assert forall|i: int, j: int| 0 <= i < p.structs@.len() && 0 <= j < p.enums@.len() implies (#[trigger] p.structs@[i]).name@ != (#[trigger] p.enums@[j]).name@ by {
        assert(enum_problem(p, j) is None);
        if p.structs@[i].name@ == p.enums@[j].name@ {
            assert(struct_names(p.structs@).contains(p.enums@[j].name@));
        }
    }
    assert forall|i: int| 0 <= i < p.structs@.len() implies !resource_names(p.resources@).contains((#[trigger] p.structs@[i]).name@) by {
        assert(struct_problem(p, i) is None);
    }
    assert forall|i: int| 0 <= i < p.enums@.len() implies !resource_names(p.resources@).contains((#[trigger] p.enums@[i]).name@) by {
        assert(enum_problem(p, i) is None);
    }
}

} // verus!
