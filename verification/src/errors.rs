use vstd::prelude::*;
use crate::ty::{Effect, Span, Type};
use crate::text::{dec, push_dec};
use crate::display::{push_shown, show};

verus! {

/// A diagnostic of the checker: a stable code, a message, and the source
/// range it points at (`0..0` when there is none).
#[derive(Debug, Clone)]
pub struct TyperError {
    pub code: &'static str,
    pub message: String,
    pub start: usize,
    pub end: usize,
}

/// The `at START..END: ` prefix of located diagnostics.
pub open spec fn at_span(span: Span) -> Seq<char> {
    "at "@ + dec(span.start as nat) + ".."@ + dec(span.end as nat) + ": "@
}

/// The rendering of candidate impls: each type with its span.
pub open spec fn candidates_view(v: Seq<(String, Span)>) -> Seq<(Seq<char>, Span)> {
    v.map_values(|c: (String, Span)| (c.0@, c.1))
}

pub open spec fn candidate_text(c: (Seq<char>, Span)) -> Seq<char> {
    "implementation for `"@ + c.0 + "` at "@ + dec(c.1.start as nat) + ".."@ + dec(c.1.end as nat)
}

/// The candidates, separated by commas.
pub open spec fn candidates_text(cs: Seq<(Seq<char>, Span)>) -> Seq<char>
    decreases cs.len(),
{
    if cs.len() == 0 {
        Seq::empty()
    } else if cs.len() == 1 {
        candidate_text(cs[0])
    } else {
        candidates_text(cs.drop_last()) + ", "@ + candidate_text(cs.last())
    }
}

fn push_at(m: &mut String, span: Span)
    ensures
        final(m)@ == old(m)@ + at_span(span),
{
    m.append("at ");
    push_dec(m, span.start as u128);
    m.append("..");
    push_dec(m, span.end as u128);
    m.append(": ");
    assert(final(m)@ =~= old(m)@ + at_span(span));
}

/// The keyword of an effect as it is written in source (`""` for none/pure).
pub open spec fn effect_word(effect: Effect) -> Seq<char> {
    match effect {
        Effect::Mut => "mut"@,
        Effect::Io => "io"@,
        _ => ""@,
    }
}

impl TyperError {
    /// The diagnostic as text: `CODE: message`.
    pub fn render(&self) -> (s: String)
        ensures
            s@ == self.code@ + ": "@ + self.message@,
    {
        let mut s = String::new();
        s.append(self.code);
        s.append(": ");
        s.append(self.message.as_str());
        assert(s@ =~= self.code@ + ": "@ + self.message@);
        s
    }

    pub fn new(code: &'static str, message: String, start: usize, end: usize) -> (e: Self)
        ensures
            e.code == code,
            e.message == message,
            e.start == start,
            e.end == end,
    {
        TyperError { code, message, start, end }
    }

    pub fn int_operand(what: &str, ty: Type, span: Option<Span>) -> (e: Self)
        ensures
            e.code@ == "T005"@,
            span is Some ==> e.message@ == at_span(span->0) + what@ + " must be Int, found `"@ + show(ty@) + "`"@,
            span is None ==> e.message@ == what@ + " must be Int, found `"@ + show(ty@) + "`"@,
            e.start == (match span { Some(sp) => sp.start, None => 0 }),
            e.end == (match span { Some(sp) => sp.end, None => 0 }),
    {
        let mut m = String::new();
        if let Some(sp) = span {
            push_at(&mut m, sp);
        }
        m.append(what);
        m.append(" must be Int, found `");
        push_shown(&mut m, &ty);
        m.append("`");
        match span {
            Some(sp) => {
                assert(m@ =~= at_span(sp) + what@ + " must be Int, found `"@ + show(ty@) + "`"@);
                Self::new("T005", m, sp.start, sp.end)
            },
            None => {
                assert(m@ =~= what@ + " must be Int, found `"@ + show(ty@) + "`"@);
                Self::new("T005", m, 0, 0)
            },
        }
    }

    pub fn bool_operand(what: &str, ty: Type, span: Option<Span>) -> (e: Self)
        ensures
            e.code@ == "T012"@,
            span is Some ==> e.message@ == at_span(span->0) + what@ + " must be Bool, found `"@ + show(ty@) + "`"@,
            span is None ==> e.message@ == what@ + " must be Bool, found `"@ + show(ty@) + "`"@,
            e.start == (match span { Some(sp) => sp.start, None => 0 }),
            e.end == (match span { Some(sp) => sp.end, None => 0 }),
    {
        let mut m = String::new();
        if let Some(sp) = span {
            push_at(&mut m, sp);
        }
        m.append(what);
        m.append(" must be Bool, found `");
        push_shown(&mut m, &ty);
        m.append("`");
        match span {
            Some(sp) => {
                assert(m@ =~= at_span(sp) + what@ + " must be Bool, found `"@ + show(ty@) + "`"@);
                Self::new("T012", m, sp.start, sp.end)
            },
            None => {
                assert(m@ =~= what@ + " must be Bool, found `"@ + show(ty@) + "`"@);
                Self::new("T012", m, 0, 0)
            },
        }
    }

    pub fn resource_in_collection(found: Type, span: Option<Span>) -> (e: Self)
        ensures
            e.code@ == "T806"@,
            span is Some ==> e.message@ == at_span(span->0) + "resources cannot be stored inside collections or tuples yet; found `"@ + show(found@) + "`"@,
            span is None ==> e.message@ == "resources cannot be stored inside collections or tuples yet; found `"@ + show(found@) + "`"@,
            e.start == (match span { Some(sp) => sp.start, None => 0 }),
            e.end == (match span { Some(sp) => sp.end, None => 0 }),
    {
        let mut m = String::new();
        if let Some(sp) = span {
            push_at(&mut m, sp);
        }
        m.append("resources cannot be stored inside collections or tuples yet; found `");
        push_shown(&mut m, &found);
        m.append("`");
        match span {
            Some(sp) => {
                assert(m@ =~= at_span(sp) + "resources cannot be stored inside collections or tuples yet; found `"@ + show(found@) + "`"@);
                Self::new("T806", m, sp.start, sp.end)
            },
            None => {
                assert(m@ =~= "resources cannot be stored inside collections or tuples yet; found `"@ + show(found@) + "`"@);
                Self::new("T806", m, 0, 0)
            },
        }
    }

    pub fn effect_not_supported(effect: Effect) -> (e: Self)
        ensures
            e.code@ == "T009"@,
            e.message@ == "effect `"@ + effect_word(effect) + "` not supported yet; use `pure` or omit"@,
            e.start == 0,
            e.end == 0,
    {
        let eff_str = match effect {
            Effect::Mut => "mut",
            Effect::Io => "io",
            _ => "",
        };
        let mut m = String::new();
        m.append("effect `");
        m.append(eff_str);
        m.append("` not supported yet; use `pure` or omit");
        assert(m@ =~= "effect `"@ + effect_word(effect) + "` not supported yet; use `pure` or omit"@);
        Self::new("T009", m, 0, 0)
    }

    pub fn unknown_function(callee: &str, span: Span) -> (e: Self)
        ensures
            e.code@ == "T001"@,
            e.message@ == at_span(span) + "unknown function `"@ + callee@ + "`"@,
            e.start == span.start,
            e.end == span.end,
    {
        let mut m = String::new();
        push_at(&mut m, span);
        m.append("unknown function `");
        m.append(callee);
        m.append("`");
        proof {
            assert(m@ =~= at_span(span) + "unknown function `"@ + callee@ + "`"@);
        }
        Self::new("T001", m, span.start, span.end)
    }

    pub fn arity_mismatch(callee: &str, expected: usize, found: usize, span: Span) -> (e: Self)
        ensures
            e.code@ == "T002"@,
            e.message@ == at_span(span) + "arity mismatch calling `"@ + callee@ + "`: expected "@ + dec(expected as nat) + ", found "@ + dec(found as nat),
            e.start == span.start,
            e.end == span.end,
    {
        let mut m = String::new();
        push_at(&mut m, span);
        m.append("arity mismatch calling `");
        m.append(callee);
        m.append("`: expected ");
        push_dec(&mut m, expected as u128);
        m.append(", found ");
        push_dec(&mut m, found as u128);
        proof {
            assert(m@ =~= at_span(span) + "arity mismatch calling `"@ + callee@ + "`: expected "@ + dec(expected as nat) + ", found "@ + dec(found as nat));
        }
        Self::new("T002", m, span.start, span.end)
    }

    pub fn arg_type_mismatch(i: usize, callee: &str, expected: Type, found: Type, span: Span) -> (e: Self)
        ensures
            e.code@ == "T003"@,
            e.message@ == at_span(span) + "arg "@ + dec(i as nat) + " type mismatch calling `"@ + callee@ + "`: expected `"@ + show(expected@) + "`, found `"@ + show(found@) + "`"@,
            e.start == span.start,
            e.end == span.end,
    {
        let mut m = String::new();
        push_at(&mut m, span);
        m.append("arg ");
        push_dec(&mut m, i as u128);
        m.append(" type mismatch calling `");
        m.append(callee);
        m.append("`: expected `");
        push_shown(&mut m, &expected);
        m.append("`, found `");
        push_shown(&mut m, &found);
        m.append("`");
        proof {
            assert(m@ =~= at_span(span) + "arg "@ + dec(i as nat) + " type mismatch calling `"@ + callee@ + "`: expected `"@ + show(expected@) + "`, found `"@ + show(found@) + "`"@);
        }
        Self::new("T003", m, span.start, span.end)
    }

    pub fn return_type_mismatch(declared: Type, found: Type, span: Span) -> (e: Self)
        ensures
            e.code@ == "T004"@,
            e.message@ == at_span(span) + "return type mismatch: declared `"@ + show(declared@) + "`, found `"@ + show(found@) + "`"@,
            e.start == span.start,
            e.end == span.end,
    {
        let mut m = String::new();
        push_at(&mut m, span);
        m.append("return type mismatch: declared `");
        push_shown(&mut m, &declared);
        m.append("`, found `");
        push_shown(&mut m, &found);
        m.append("`");
        proof {
            assert(m@ =~= at_span(span) + "return type mismatch: declared `"@ + show(declared@) + "`, found `"@ + show(found@) + "`"@);
        }
        Self::new("T004", m, span.start, span.end)
    }

    pub fn block_missing_tail(span: Span) -> (e: Self)
        ensures
            e.code@ == "T016"@,
            e.message@ == at_span(span) + "block expression requires a tail expression"@,
            e.start == span.start,
            e.end == span.end,
    {
        let mut m = String::new();
        push_at(&mut m, span);
        m.append("block expression requires a tail expression");
        proof {
            assert(m@ =~= at_span(span) + "block expression requires a tail expression"@);
        }
        Self::new("T016", m, span.start, span.end)
    }

    pub fn binary_operands_mismatch(op: &str, left: Type, right: Type, span: Span) -> (e: Self)
        ensures
            e.code@ == "T013"@,
            e.message@ == at_span(span) + "operands of `"@ + op@ + "` must have the same type, found `"@ + show(left@) + "` and `"@ + show(right@) + "`"@,
            e.start == span.start,
            e.end == span.end,
    {
        let mut m = String::new();
        push_at(&mut m, span);
        m.append("operands of `");
        m.append(op);
        m.append("` must have the same type, found `");
        push_shown(&mut m, &left);
        m.append("` and `");
        push_shown(&mut m, &right);
        m.append("`");
        proof {
            assert(m@ =~= at_span(span) + "operands of `"@ + op@ + "` must have the same type, found `"@ + show(left@) + "` and `"@ + show(right@) + "`"@);
        }
        Self::new("T013", m, span.start, span.end)
    }

    pub fn contract_not_bool(kind: &str, ty: Type, span: Span) -> (e: Self)
        ensures
            e.code@ == "T014"@,
            e.message@ == at_span(span) + "`"@ + kind@ + "` must be Bool, found `"@ + show(ty@) + "`"@,
            e.start == span.start,
            e.end == span.end,
    {
        let mut m = String::new();
        push_at(&mut m, span);
        m.append("`");
        m.append(kind);
        m.append("` must be Bool, found `");
        push_shown(&mut m, &ty);
        m.append("`");
        proof {
            assert(m@ =~= at_span(span) + "`"@ + kind@ + "` must be Bool, found `"@ + show(ty@) + "`"@);
        }
        Self::new("T014", m, span.start, span.end)
    }

    pub fn unknown_variable(name: &str, sp: Span) -> (e: Self)
        ensures
            e.code@ == "T006"@,
            e.message@ == at_span(sp) + "unknown variable `"@ + name@ + "`"@,
            e.start == sp.start,
            e.end == sp.end,
    {
        let mut m = String::new();
        push_at(&mut m, sp);
        m.append("unknown variable `");
        m.append(name);
        m.append("`");
        proof {
            assert(m@ =~= at_span(sp) + "unknown variable `"@ + name@ + "`"@);
        }
        Self::new("T006", m, sp.start, sp.end)
    }

    /// Two different instantiations were given the same emitted name.
    pub fn mangled_name_collision(emitted: &str, existing: &str, canonical: &str, span: Span) -> (e: Self)
        ensures
            e.code@ == "T250"@,
            e.message@ == at_span(span) + "mangled name `"@ + emitted@ + "` is produced by both `"@ + existing@
                + "` and `"@ + canonical@ + "`"@,
            e.start == span.start,
            e.end == span.end,
    {
        let mut m = String::new();
        push_at(&mut m, span);
        m.append("mangled name `");
        m.append(emitted);
        m.append("` is produced by both `");
        m.append(existing);
        m.append("` and `");
        m.append(canonical);
        m.append("`");
        proof {
            assert(m@ =~= at_span(span) + "mangled name `"@ + emitted@ + "` is produced by both `"@ + existing@
                + "` and `"@ + canonical@ + "`"@);
        }
        Self::new("T250", m, span.start, span.end)
    }

    /// A type does not meet a trait bound (no declared bound, or no impl).
    pub fn missing_trait_bound(ty: &str, trait_name: &str, span: Span) -> (e: Self)
        ensures
            e.code@ == "T237"@,
            e.message@ == at_span(span) + "type `"@ + ty@ + "` does not satisfy trait bound `"@ + trait_name@ + "`"@,
            e.start == span.start,
            e.end == span.end,
    {
        let mut m = String::new();
        push_at(&mut m, span);
        m.append("type `");
        m.append(ty);
        m.append("` does not satisfy trait bound `");
        m.append(trait_name);
        m.append("`");
        proof {
            assert(m@ =~= at_span(span) + "type `"@ + ty@ + "` does not satisfy trait bound `"@ + trait_name@ + "`"@);
        }
        Self::new("T237", m, span.start, span.end)
    }

    /// Several impls of a trait apply to one type.
    pub fn ambiguous_impl(trait_name: &str, ty: &str, span: Span, candidates: &Vec<(String, Span)>) -> (e: Self)
        ensures
            e.code@ == "T248"@,
            e.message@ == at_span(span) + "ambiguous implementations of trait `"@ + trait_name@ + "` for `"@ + ty@
                + "`; candidates: "@ + candidates_text(candidates_view(candidates@)),
            e.start == span.start,
            e.end == span.end,
    {
        let mut m = String::new();
        push_at(&mut m, span);
        m.append("ambiguous implementations of trait `");
        m.append(trait_name);
        m.append("` for `");
        m.append(ty);
        m.append("`; candidates: ");
        let ghost head = m@;
        let ghost cs = candidates_view(candidates@);
        let mut i: usize = 0;
        assert(cs.take(0) =~= Seq::<(Seq<char>, Span)>::empty());
        assert(head + candidates_text(cs.take(0)) =~= head);
        while i < candidates.len()
            invariant
                i <= candidates@.len(),
                cs == candidates_view(candidates@),
                m@ == head + candidates_text(cs.take(i as int)),
            decreases candidates.len() - i,
        {
            let ghost before = m@;
            if i > 0 {
                m.append(", ");
            }
            m.append("implementation for `");
            m.append(candidates[i].0.as_str());
            m.append("` at ");
            push_dec(&mut m, candidates[i].1.start as u128);
            m.append("..");
            push_dec(&mut m, candidates[i].1.end as u128);
            proof {
                let t = cs.take(i as int + 1);
                assert(t.drop_last() =~= cs.take(i as int));
                assert(t.last() == cs[i as int]);
                if i > 0 {
                    assert(m@ =~= head + (candidates_text(cs.take(i as int)) + ", "@ + candidate_text(cs[i as int])));
                } else {
                    assert(m@ =~= head + candidate_text(cs[i as int]));
                }
            }
            i = i + 1;
        }
        assert(cs.take(candidates@.len() as int) =~= cs);
        Self::new("T248", m, span.start, span.end)
    }

    pub fn duplicate_function(name: &str) -> (e: Self)
        ensures
            e.code@ == "T008"@,
            e.message@ == "duplicate function `"@ + name@ + "`"@,
            e.start == 0,
            e.end == 0,
    {
        let mut m = String::new();
        m.append("duplicate function `");
        m.append(name);
        m.append("`");
        proof {
            assert(m@ =~= "duplicate function `"@ + name@ + "`"@);
        }
        Self::new("T008", m, 0, 0)
    }

    pub fn duplicate_parameter(name: &str) -> (e: Self)
        ensures
            e.code@ == "T010"@,
            e.message@ == "duplicate parameter `"@ + name@ + "`"@,
            e.start == 0,
            e.end == 0,
    {
        let mut m = String::new();
        m.append("duplicate parameter `");
        m.append(name);
        m.append("`");
        proof {
            assert(m@ =~= "duplicate parameter `"@ + name@ + "`"@);
        }
        Self::new("T010", m, 0, 0)
    }

    pub fn duplicate_type(name: &str, span: Span) -> (e: Self)
        ensures
            e.code@ == "T701"@,
            e.message@ == at_span(span) + "duplicate type `"@ + name@ + "`"@,
            e.start == span.start,
            e.end == span.end,
    {
        let mut m = String::new();
        push_at(&mut m, span);
        m.append("duplicate type `");
        m.append(name);
        m.append("`");
        proof {
            assert(m@ =~= at_span(span) + "duplicate type `"@ + name@ + "`"@);
        }
        Self::new("T701", m, span.start, span.end)
    }

    pub fn type_conflicts_with_resource(name: &str, span: Span) -> (e: Self)
        ensures
            e.code@ == "T702"@,
            e.message@ == at_span(span) + "type `"@ + name@ + "` conflicts with an existing resource name"@,
            e.start == span.start,
            e.end == span.end,
    {
        let mut m = String::new();
        push_at(&mut m, span);
        m.append("type `");
        m.append(name);
        m.append("` conflicts with an existing resource name");
        proof {
            assert(m@ =~= at_span(span) + "type `"@ + name@ + "` conflicts with an existing resource name"@);
        }
        Self::new("T702", m, span.start, span.end)
    }

    pub fn cyclic_alias(name: &str, span: Span) -> (e: Self)
        ensures
            e.code@ == "T703"@,
            e.message@ == at_span(span) + "cyclic refinement alias detected involving `"@ + name@ + "`"@,
            e.start == span.start,
            e.end == span.end,
    {
        let mut m = String::new();
        push_at(&mut m, span);
        m.append("cyclic refinement alias detected involving `");
        m.append(name);
        m.append("`");
        proof {
            assert(m@ =~= at_span(span) + "cyclic refinement alias detected involving `"@ + name@ + "`"@);
        }
        Self::new("T703", m, span.start, span.end)
    }

    pub fn alias_predicate_not_bool(name: &str, span: Span) -> (e: Self)
        ensures
            e.code@ == "T704"@,
            e.message@ == at_span(span) + "refinement predicate for `"@ + name@ + "` must be Bool"@,
            e.start == span.start,
            e.end == span.end,
    {
        let mut m = String::new();
        push_at(&mut m, span);
        m.append("refinement predicate for `");
        m.append(name);
        m.append("` must be Bool");
        proof {
            assert(m@ =~= at_span(span) + "refinement predicate for `"@ + name@ + "` must be Bool"@);
        }
        Self::new("T704", m, span.start, span.end)
    }

    pub fn refinement_loss(expected: Type, found: Type, span: Span) -> (e: Self)
        ensures
            e.code@ == "T705"@,
            e.message@ == at_span(span) + "refinement would be lost: expected `"@ + show(expected@) + "`, found `"@ + show(found@) + "`"@,
            e.start == span.start,
            e.end == span.end,
    {
        let mut m = String::new();
        push_at(&mut m, span);
        m.append("refinement would be lost: expected `");
        push_shown(&mut m, &expected);
        m.append("`, found `");
        push_shown(&mut m, &found);
        m.append("`");
        proof {
            assert(m@ =~= at_span(span) + "refinement would be lost: expected `"@ + show(expected@) + "`, found `"@ + show(found@) + "`"@);
        }
        Self::new("T705", m, span.start, span.end)
    }

    pub fn refined_resource_not_supported(name: &str, span: Span) -> (e: Self)
        ensures
            e.code@ == "T706"@,
            e.message@ == at_span(span) + "refined alias `"@ + name@ + "` cannot wrap resource types yet"@,
            e.start == span.start,
            e.end == span.end,
    {
        let mut m = String::new();
        push_at(&mut m, span);
        m.append("refined alias `");
        m.append(name);
        m.append("` cannot wrap resource types yet");
        proof {
            assert(m@ =~= at_span(span) + "refined alias `"@ + name@ + "` cannot wrap resource types yet"@);
        }
        Self::new("T706", m, span.start, span.end)
    }

    pub fn alias_predicate_impure(name: &str, span: Span) -> (e: Self)
        ensures
            e.code@ == "T707"@,
            e.message@ == at_span(span) + "refinement predicate for `"@ + name@ + "` must be pure"@,
            e.start == span.start,
            e.end == span.end,
    {
        let mut m = String::new();
        push_at(&mut m, span);
        m.append("refinement predicate for `");
        m.append(name);
        m.append("` must be pure");
        proof {
            assert(m@ =~= at_span(span) + "refinement predicate for `"@ + name@ + "` must be pure"@);
        }
        Self::new("T707", m, span.start, span.end)
    }

    pub fn alias_predicate_unsat(name: &str, span: Span) -> (e: Self)
        ensures
            e.code@ == "T708"@,
            e.message@ == at_span(span) + "refinement predicate for `"@ + name@ + "` is unsatisfiable"@,
            e.start == span.start,
            e.end == span.end,
    {
        let mut m = String::new();
        push_at(&mut m, span);
        m.append("refinement predicate for `");
        m.append(name);
        m.append("` is unsatisfiable");
        proof {
            assert(m@ =~= at_span(span) + "refinement predicate for `"@ + name@ + "` is unsatisfiable"@);
        }
        Self::new("T708", m, span.start, span.end)
    }

    pub fn effect_required(callee: &str, effect: &str, span: Span) -> (e: Self)
        ensures
            e.code@ == "T401"@,
            e.message@ == at_span(span) + "calling `"@ + callee@ + "` requires `"@ + effect@ + "` effect"@,
            e.start == span.start,
            e.end == span.end,
    {
        let mut m = String::new();
        push_at(&mut m, span);
        m.append("calling `");
        m.append(callee);
        m.append("` requires `");
        m.append(effect);
        m.append("` effect");
        proof {
            assert(m@ =~= at_span(span) + "calling `"@ + callee@ + "` requires `"@ + effect@ + "` effect"@);
        }
        Self::new("T401", m, span.start, span.end)
    }

    pub fn mut_guard_missing(callee: &str, guard: &str, arg: &str, span: Span) -> (e: Self)
        ensures
            e.code@ == "T402"@,
            e.message@ == at_span(span) + "calling `"@ + callee@ + "` requires `"@ + guard@ + "` guard for `"@ + arg@ + "`"@,
            e.start == span.start,
            e.end == span.end,
    {
        let mut m = String::new();
        push_at(&mut m, span);
        m.append("calling `");
        m.append(callee);
        m.append("` requires `");
        m.append(guard);
        m.append("` guard for `");
        m.append(arg);
        m.append("`");
        proof {
            assert(m@ =~= at_span(span) + "calling `"@ + callee@ + "` requires `"@ + guard@ + "` guard for `"@ + arg@ + "`"@);
        }
        Self::new("T402", m, span.start, span.end)
    }

    pub fn mut_guard_requires_variable(callee: &str, guard: &str, span: Span) -> (e: Self)
        ensures
            e.code@ == "T403"@,
            e.message@ == at_span(span) + "calling `"@ + callee@ + "` requires its first argument to be a variable guarded by `"@ + guard@ + "`"@,
            e.start == span.start,
            e.end == span.end,
    {
        let mut m = String::new();
        push_at(&mut m, span);
        m.append("calling `");
        m.append(callee);
        m.append("` requires its first argument to be a variable guarded by `");
        m.append(guard);
        m.append("`");
        proof {
            assert(m@ =~= at_span(span) + "calling `"@ + callee@ + "` requires its first argument to be a variable guarded by `"@ + guard@ + "`"@);
        }
        Self::new("T403", m, span.start, span.end)
    }

    pub fn collections_unavailable(callee: &str, span: Span) -> (e: Self)
        ensures
            e.code@ == "T101"@,
            e.message@ == at_span(span) + "collections require generics/ADTs; `"@ + callee@ + "` is planned in later Phase 4.x slices"@,
            e.start == span.start,
            e.end == span.end,
    {
        let mut m = String::new();
        push_at(&mut m, span);
        m.append("collections require generics/ADTs; `");
        m.append(callee);
        m.append("` is planned in later Phase 4.x slices");
        proof {
            assert(m@ =~= at_span(span) + "collections require generics/ADTs; `"@ + callee@ + "` is planned in later Phase 4.x slices"@);
        }
        Self::new("T101", m, span.start, span.end)
    }

    pub fn match_non_exhaustive(span: Span) -> (e: Self)
        ensures
            e.code@ == "T201"@,
            e.message@ == at_span(span) + "non-exhaustive match (missing arm)"@,
            e.start == span.start,
            e.end == span.end,
    {
        let mut m = String::new();
        push_at(&mut m, span);
        m.append("non-exhaustive match (missing arm)");
        proof {
            assert(m@ =~= at_span(span) + "non-exhaustive match (missing arm)"@);
        }
        Self::new("T201", m, span.start, span.end)
    }

    pub fn match_duplicate_arm(arm: &str, span: Span) -> (e: Self)
        ensures
            e.code@ == "T202"@,
            e.message@ == at_span(span) + "duplicate match arm `"@ + arm@ + "`"@,
            e.start == span.start,
            e.end == span.end,
    {
        let mut m = String::new();
        push_at(&mut m, span);
        m.append("duplicate match arm `");
        m.append(arm);
        m.append("`");
        proof {
            assert(m@ =~= at_span(span) + "duplicate match arm `"@ + arm@ + "`"@);
        }
        Self::new("T202", m, span.start, span.end)
    }

    pub fn match_invalid_scrutinee(found: Type, span: Span) -> (e: Self)
        ensures
            e.code@ == "T203"@,
            e.message@ == at_span(span) + "invalid match scrutinee: expected `Option` or `Result`, found `"@ + show(found@) + "`"@,
            e.start == span.start,
            e.end == span.end,
    {
        let mut m = String::new();
        push_at(&mut m, span);
        m.append("invalid match scrutinee: expected `Option` or `Result`, found `");
        push_shown(&mut m, &found);
        m.append("`");
        proof {
            assert(m@ =~= at_span(span) + "invalid match scrutinee: expected `Option` or `Result`, found `"@ + show(found@) + "`"@);
        }
        Self::new("T203", m, span.start, span.end)
    }

    pub fn match_arm_type_mismatch(expected: Type, found: Type, span: Span) -> (e: Self)
        ensures
            e.code@ == "T204"@,
            e.message@ == at_span(span) + "match arm type mismatch: expected `"@ + show(expected@) + "`, found `"@ + show(found@) + "`"@,
            e.start == span.start,
            e.end == span.end,
    {
        let mut m = String::new();
        push_at(&mut m, span);
        m.append("match arm type mismatch: expected `");
        push_shown(&mut m, &expected);
        m.append("`, found `");
        push_shown(&mut m, &found);
        m.append("`");
        proof {
            assert(m@ =~= at_span(span) + "match arm type mismatch: expected `"@ + show(expected@) + "`, found `"@ + show(found@) + "`"@);
        }
        Self::new("T204", m, span.start, span.end)
    }

    pub fn binder_conflict(name: &str, span: Span) -> (e: Self)
        ensures
            e.code@ == "T205"@,
            e.message@ == at_span(span) + "binder `"@ + name@ + "` conflicts with an existing name"@,
            e.start == span.start,
            e.end == span.end,
    {
        let mut m = String::new();
        push_at(&mut m, span);
        m.append("binder `");
        m.append(name);
        m.append("` conflicts with an existing name");
        proof {
            assert(m@ =~= at_span(span) + "binder `"@ + name@ + "` conflicts with an existing name"@);
        }
        Self::new("T205", m, span.start, span.end)
    }

    pub fn cannot_infer_collection(span: Span, kind: &str) -> (e: Self)
        ensures
            e.code@ == "T206"@,
            e.message@ == at_span(span) + "cannot infer element type for "@ + kind@ + "::new()"@,
            e.start == span.start,
            e.end == span.end,
    {
        let mut m = String::new();
        push_at(&mut m, span);
        m.append("cannot infer element type for ");
        m.append(kind);
        m.append("::new()");
        proof {
            assert(m@ =~= at_span(span) + "cannot infer element type for "@ + kind@ + "::new()"@);
        }
        Self::new("T206", m, span.start, span.end)
    }

    pub fn expected_collection(kind: &str, found: Type, span: Span) -> (e: Self)
        ensures
            e.code@ == "T207"@,
            e.message@ == at_span(span) + "expected "@ + kind@ + " argument, found `"@ + show(found@) + "`"@,
            e.start == span.start,
            e.end == span.end,
    {
        let mut m = String::new();
        push_at(&mut m, span);
        m.append("expected ");
        m.append(kind);
        m.append(" argument, found `");
        push_shown(&mut m, &found);
        m.append("`");
        proof {
            assert(m@ =~= at_span(span) + "expected "@ + kind@ + " argument, found `"@ + show(found@) + "`"@);
        }
        Self::new("T207", m, span.start, span.end)
    }

    pub fn resource_use_after_consume(name: &str, consumed_at: Span, use_span: Span) -> (e: Self)
        ensures
            e.code@ == "T801"@,
            e.message@ == "resource `"@ + name@ + "` was consumed at "@ + dec(consumed_at.start as nat) + ".."@ + dec(consumed_at.end as nat) + " and cannot be used again"@,
            e.start == use_span.start,
            e.end == use_span.end,
    {
        let mut m = String::new();
        m.append("resource `");
        m.append(name);
        m.append("` was consumed at ");
        push_dec(&mut m, consumed_at.start as u128);
        m.append("..");
        push_dec(&mut m, consumed_at.end as u128);
        m.append(" and cannot be used again");
        proof {
            assert(m@ =~= "resource `"@ + name@ + "` was consumed at "@ + dec(consumed_at.start as nat) + ".."@ + dec(consumed_at.end as nat) + " and cannot be used again"@);
        }
        Self::new("T801", m, use_span.start, use_span.end)
    }

    pub fn resource_double_consume(name: &str, first: Span, second: Span) -> (e: Self)
        ensures
            e.code@ == "T802"@,
            e.message@ == "resource `"@ + name@ + "` already consumed at "@ + dec(first.start as nat) + ".."@ + dec(first.end as nat) + "; second consume here"@,
            e.start == second.start,
            e.end == second.end,
    {
        let mut m = String::new();
        m.append("resource `");
        m.append(name);
        m.append("` already consumed at ");
        push_dec(&mut m, first.start as u128);
        m.append("..");
        push_dec(&mut m, first.end as u128);
        m.append("; second consume here");
        proof {
            assert(m@ =~= "resource `"@ + name@ + "` already consumed at "@ + dec(first.start as nat) + ".."@ + dec(first.end as nat) + "; second consume here"@);
        }
        Self::new("T802", m, second.start, second.end)
    }

    pub fn resource_consume_borrow(name: &str, span: Span) -> (e: Self)
        ensures
            e.code@ == "T803"@,
            e.message@ == "cannot consume borrowed resource `"@ + name@ + "`"@,
            e.start == span.start,
            e.end == span.end,
    {
        let mut m = String::new();
        m.append("cannot consume borrowed resource `");
        m.append(name);
        m.append("`");
        proof {
            assert(m@ =~= "cannot consume borrowed resource `"@ + name@ + "`"@);
        }
        Self::new("T803", m, span.start, span.end)
    }

    pub fn resource_branch_mismatch(name: &str, span: Span) -> (e: Self)
        ensures
            e.code@ == "T804"@,
            e.message@ == "resource `"@ + name@ + "` has different ownership states across branches"@,
            e.start == span.start,
            e.end == span.end,
    {
        let mut m = String::new();
        m.append("resource `");
        m.append(name);
        m.append("` has different ownership states across branches");
        proof {
            assert(m@ =~= "resource `"@ + name@ + "` has different ownership states across branches"@);
        }
        Self::new("T804", m, span.start, span.end)
    }

    pub fn resource_not_consumed(name: &str) -> (e: Self)
        ensures
            e.code@ == "T805"@,
            e.message@ == "resource `"@ + name@ + "` must be consumed before returning"@,
            e.start == 0,
            e.end == 0,
    {
        let mut m = String::new();
        m.append("resource `");
        m.append(name);
        m.append("` must be consumed before returning");
        proof {
            assert(m@ =~= "resource `"@ + name@ + "` must be consumed before returning"@);
        }
        Self::new("T805", m, 0, 0)
    }

    pub fn element_type_mismatch(expected: Type, found: Type, span: Span) -> (e: Self)
        ensures
            e.code@ == "T208"@,
            e.message@ == at_span(span) + "element type mismatch: expected `"@ + show(expected@) + "`, found `"@ + show(found@) + "`"@,
            e.start == span.start,
            e.end == span.end,
    {
        let mut m = String::new();
        push_at(&mut m, span);
        m.append("element type mismatch: expected `");
        push_shown(&mut m, &expected);
        m.append("`, found `");
        push_shown(&mut m, &found);
        m.append("`");
        proof {
            assert(m@ =~= at_span(span) + "element type mismatch: expected `"@ + show(expected@) + "`, found `"@ + show(found@) + "`"@);
        }
        Self::new("T208", m, span.start, span.end)
    }

    pub fn while_variant_required(span: Span) -> (e: Self)
        ensures
            e.code@ == "T901"@,
            e.message@ == at_span(span) + "while loops in pure functions require a variant (measure) for totality"@,
            e.start == span.start,
            e.end == span.end,
    {
        let mut m = String::new();
        push_at(&mut m, span);
        m.append("while loops in pure functions require a variant (measure) for totality");
        proof {
            assert(m@ =~= at_span(span) + "while loops in pure functions require a variant (measure) for totality"@);
        }
        Self::new("T901", m, span.start, span.end)
    }

    pub fn recursion_requires_measure(callee: &str, span: Span) -> (e: Self)
        ensures
            e.code@ == "T902"@,
            e.message@ == at_span(span) + "recursive call to `"@ + callee@ + "` requires a decreasing measure for totality"@,
            e.start == span.start,
            e.end == span.end,
    {
        let mut m = String::new();
        push_at(&mut m, span);
        m.append("recursive call to `");
        m.append(callee);
        m.append("` requires a decreasing measure for totality");
        proof {
            assert(m@ =~= at_span(span) + "recursive call to `"@ + callee@ + "` requires a decreasing measure for totality"@);
        }
        Self::new("T902", m, span.start, span.end)
    }

    pub fn variant_not_decreasing(span: Span) -> (e: Self)
        ensures
            e.code@ == "T903"@,
            e.message@ == at_span(span) + "loop variant must decrease each iteration; constant measures are not allowed"@,
            e.start == span.start,
            e.end == span.end,
    {
        let mut m = String::new();
        push_at(&mut m, span);
        m.append("loop variant must decrease each iteration; constant measures are not allowed");
        proof {
            assert(m@ =~= at_span(span) + "loop variant must decrease each iteration; constant measures are not allowed"@);
        }
        Self::new("T903", m, span.start, span.end)
    }

    pub fn try_option_return_required(found: Type, span: Span) -> (e: Self)
        ensures
            e.code@ == "T601"@,
            e.message@ == at_span(span) + "? requires function return type Option<_>, found "@ + show(found@),
            e.start == span.start,
            e.end == span.end,
    {
        let mut m = String::new();
        push_at(&mut m, span);
        m.append("? requires function return type Option<_>, found ");
        push_shown(&mut m, &found);
        proof {
            assert(m@ =~= at_span(span) + "? requires function return type Option<_>, found "@ + show(found@));
        }
        Self::new("T601", m, span.start, span.end)
    }

    pub fn try_input_not_option_result(found: Type, span: Span) -> (e: Self)
        ensures
            e.code@ == "T602"@,
            e.message@ == at_span(span) + "? operand must be Option<_> or Result<_, _>, found "@ + show(found@),
            e.start == span.start,
            e.end == span.end,
    {
        let mut m = String::new();
        push_at(&mut m, span);
        m.append("? operand must be Option<_> or Result<_, _>, found ");
        push_shown(&mut m, &found);
        proof {
            assert(m@ =~= at_span(span) + "? operand must be Option<_> or Result<_, _>, found "@ + show(found@));
        }
        Self::new("T602", m, span.start, span.end)
    }

    pub fn try_option_inner_mismatch(declared: Type, found: Type, span: Span) -> (e: Self)
        ensures
            e.code@ == "T603"@,
            e.message@ == at_span(span) + "? expects Option inner type "@ + show(declared@) + " but expression yields "@ + show(found@),
            e.start == span.start,
            e.end == span.end,
    {
        let mut m = String::new();
        push_at(&mut m, span);
        m.append("? expects Option inner type ");
        push_shown(&mut m, &declared);
        m.append(" but expression yields ");
        push_shown(&mut m, &found);
        proof {
            assert(m@ =~= at_span(span) + "? expects Option inner type "@ + show(declared@) + " but expression yields "@ + show(found@));
        }
        Self::new("T603", m, span.start, span.end)
    }

    pub fn try_result_return_required(found: Type, span: Span) -> (e: Self)
        ensures
            e.code@ == "T604"@,
            e.message@ == at_span(span) + "? requires function return type Result<_, _>, found "@ + show(found@),
            e.start == span.start,
            e.end == span.end,
    {
        let mut m = String::new();
        push_at(&mut m, span);
        m.append("? requires function return type Result<_, _>, found ");
        push_shown(&mut m, &found);
        proof {
            assert(m@ =~= at_span(span) + "? requires function return type Result<_, _>, found "@ + show(found@));
        }
        Self::new("T604", m, span.start, span.end)
    }

    pub fn try_result_mismatch(ok_decl: Type, err_decl: Type, ok_found: Type, err_found: Type, span: Span) -> (e: Self)
        ensures
            e.code@ == "T605"@,
            e.message@ == at_span(span) + "? expects Result types "@ + show(ok_decl@) + "/"@ + show(err_decl@) + " but expression yields "@ + show(ok_found@) + "/"@ + show(err_found@),
            e.start == span.start,
            e.end == span.end,
    {
        let mut m = String::new();
        push_at(&mut m, span);
        m.append("? expects Result types ");
        push_shown(&mut m, &ok_decl);
        m.append("/");
        push_shown(&mut m, &err_decl);
        m.append(" but expression yields ");
        push_shown(&mut m, &ok_found);
        m.append("/");
        push_shown(&mut m, &err_found);
        proof {
            assert(m@ =~= at_span(span) + "? expects Result types "@ + show(ok_decl@) + "/"@ + show(err_decl@) + " but expression yields "@ + show(ok_found@) + "/"@ + show(err_found@));
        }
        Self::new("T605", m, span.start, span.end)
    }

    pub fn try_missing_return(span: Span) -> (e: Self)
        ensures
            e.code@ == "T606"@,
            e.message@ == at_span(span) + "internal error: missing $return binding for ?"@,
            e.start == span.start,
            e.end == span.end,
    {
        let mut m = String::new();
        push_at(&mut m, span);
        m.append("internal error: missing $return binding for ?");
        proof {
            assert(m@ =~= at_span(span) + "internal error: missing $return binding for ?"@);
        }
        Self::new("T606", m, span.start, span.end)
    }

    pub fn option_ctor_missing_return(span: Span) -> (e: Self)
        ensures
            e.code@ == "T607"@,
            e.message@ == at_span(span) + "internal error: missing  binding for Option constructor"@,
            e.start == span.start,
            e.end == span.end,
    {
        let mut m = String::new();
        push_at(&mut m, span);
        m.append("internal error: missing  binding for Option constructor");
        proof {
            assert(m@ =~= at_span(span) + "internal error: missing  binding for Option constructor"@);
        }
        Self::new("T607", m, span.start, span.end)
    }

    pub fn none_return_required(found: Type, span: Span) -> (e: Self)
        ensures
            e.code@ == "T608"@,
            e.message@ == at_span(span) + "None requires function return type Option<_>, found "@ + show(found@),
            e.start == span.start,
            e.end == span.end,
    {
        let mut m = String::new();
        push_at(&mut m, span);
        m.append("None requires function return type Option<_>, found ");
        push_shown(&mut m, &found);
        proof {
            assert(m@ =~= at_span(span) + "None requires function return type Option<_>, found "@ + show(found@));
        }
        Self::new("T608", m, span.start, span.end)
    }

    pub fn result_ctor_missing_return(span: Span) -> (e: Self)
        ensures
            e.code@ == "T609"@,
            e.message@ == at_span(span) + "internal error: missing  binding for Result constructor"@,
            e.start == span.start,
            e.end == span.end,
    {
        let mut m = String::new();
        push_at(&mut m, span);
        m.append("internal error: missing  binding for Result constructor");
        proof {
            assert(m@ =~= at_span(span) + "internal error: missing  binding for Result constructor"@);
        }
        Self::new("T609", m, span.start, span.end)
    }

    pub fn ok_return_required(found: Type, span: Span) -> (e: Self)
        ensures
            e.code@ == "T610"@,
            e.message@ == at_span(span) + "Ok requires function return type Result<_, _>, found "@ + show(found@),
            e.start == span.start,
            e.end == span.end,
    {
        let mut m = String::new();
        push_at(&mut m, span);
        m.append("Ok requires function return type Result<_, _>, found ");
        push_shown(&mut m, &found);
        proof {
            assert(m@ =~= at_span(span) + "Ok requires function return type Result<_, _>, found "@ + show(found@));
        }
        Self::new("T610", m, span.start, span.end)
    }

    pub fn ok_argument_mismatch(expected: Type, found: Type, span: Span) -> (e: Self)
        ensures
            e.code@ == "T611"@,
            e.message@ == at_span(span) + "Ok argument type mismatch: expected "@ + show(expected@) + ", found "@ + show(found@),
            e.start == span.start,
            e.end == span.end,
    {
        let mut m = String::new();
        push_at(&mut m, span);
        m.append("Ok argument type mismatch: expected ");
        push_shown(&mut m, &expected);
        m.append(", found ");
        push_shown(&mut m, &found);
        proof {
            assert(m@ =~= at_span(span) + "Ok argument type mismatch: expected "@ + show(expected@) + ", found "@ + show(found@));
        }
        Self::new("T611", m, span.start, span.end)
    }

    pub fn err_return_required(found: Type, span: Span) -> (e: Self)
        ensures
            e.code@ == "T612"@,
            e.message@ == at_span(span) + "Err requires function return type Result<_, _>, found "@ + show(found@),
            e.start == span.start,
            e.end == span.end,
    {
        let mut m = String::new();
        push_at(&mut m, span);
        m.append("Err requires function return type Result<_, _>, found ");
        push_shown(&mut m, &found);
        proof {
            assert(m@ =~= at_span(span) + "Err requires function return type Result<_, _>, found "@ + show(found@));
        }
        Self::new("T612", m, span.start, span.end)
    }

    pub fn err_argument_mismatch(expected: Type, found: Type, span: Span) -> (e: Self)
        ensures
            e.code@ == "T613"@,
            e.message@ == at_span(span) + "Err argument type mismatch: expected "@ + show(expected@) + ", found "@ + show(found@),
            e.start == span.start,
            e.end == span.end,
    {
        let mut m = String::new();
        push_at(&mut m, span);
        m.append("Err argument type mismatch: expected ");
        push_shown(&mut m, &expected);
        m.append(", found ");
        push_shown(&mut m, &found);
        proof {
            assert(m@ =~= at_span(span) + "Err argument type mismatch: expected "@ + show(expected@) + ", found "@ + show(found@));
        }
        Self::new("T613", m, span.start, span.end)
    }

    pub fn branch_type_mismatch(expected: Type, found: Type, span: Span) -> (e: Self)
        ensures
            e.code@ == "T301"@,
            e.message@ == at_span(span) + "branch type mismatch: expected `"@ + show(expected@) + "`, found `"@ + show(found@) + "`"@,
            e.start == span.start,
            e.end == span.end,
    {
        let mut m = String::new();
        push_at(&mut m, span);
        m.append("branch type mismatch: expected `");
        push_shown(&mut m, &expected);
        m.append("`, found `");
        push_shown(&mut m, &found);
        m.append("`");
        proof {
            assert(m@ =~= at_span(span) + "branch type mismatch: expected `"@ + show(expected@) + "`, found `"@ + show(found@) + "`"@);
        }
        Self::new("T301", m, span.start, span.end)
    }
}

} // verus!
