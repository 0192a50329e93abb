use vstd::prelude::*;
use crate::ty::{ParamKind, Span};
use crate::text::dec;
use crate::errors::TyperError;
use crate::names::NameMap;
use crate::ast::Expr;

verus! {

/// Ownership state of one linear resource binding.
#[derive(Clone, Copy, Debug, PartialEq, Eq, Structural)]
pub enum ResourceState {
    /// Owned by the current scope, with a count of live borrows.
    Owned { borrows: usize },
    /// A borrowed parameter: usable, never consumable.
    ActiveBorrow,
    /// Moved away at `span`.
    Consumed { span: Span },
}

/// A resource binding: its state and whether the scope must consume it.
#[derive(Clone, Copy, Debug, PartialEq, Eq, Structural)]
pub struct TrackedResource {
    pub state: ResourceState,
    pub must_consume: bool,
}

impl View for TrackedResource {
    type V = TrackedResource;

    open spec fn view(&self) -> TrackedResource {
        *self
    }
}

/// Why an ownership operation was refused.
#[derive(Clone, Copy, Debug, PartialEq, Eq, Structural)]
pub enum ResourceFault {
    UseAfterConsume { consumed_at: Span },
    DoubleConsume { first: Span },
    ConsumeBorrow,
}

/// The entry a parameter of the given passing mode starts with.
pub open spec fn param_entry(kind: ParamKind) -> TrackedResource {
    match kind {
        ParamKind::Consume => TrackedResource { state: ResourceState::Owned { borrows: 0 }, must_consume: true },
        ParamKind::Borrow => TrackedResource { state: ResourceState::ActiveBorrow, must_consume: false },
    }
}

/// The entry a local resource binding starts with.
pub open spec fn local_entry() -> TrackedResource {
    TrackedResource { state: ResourceState::Owned { borrows: 0 }, must_consume: true }
}

/// Reading `name`: refused exactly when it is entry and already consumed.
pub open spec fn use_fault(m: Map<Seq<char>, TrackedResource>, name: Seq<char>) -> Option<ResourceFault> {
    if m.contains_key(name) {
        match m[name].state {
            ResourceState::Consumed { span } => Some(ResourceFault::UseAfterConsume { consumed_at: span }),
            _ => None,
        }
    } else {
        None
    }
}

/// Moving `name` out at `span`.
pub open spec fn consume_outcome(m: Map<Seq<char>, TrackedResource>, name: Seq<char>, span: Span) -> Result<Map<Seq<char>, TrackedResource>, ResourceFault> {
    if !m.contains_key(name) {
        Ok(m)
    } else {
        match m[name].state {
            ResourceState::Owned { borrows } => if borrows > 0 {
                Err(ResourceFault::ConsumeBorrow)
            } else {
                Ok(m.insert(name, TrackedResource { state: ResourceState::Consumed { span }, must_consume: m[name].must_consume }))
            },
            ResourceState::ActiveBorrow => Err(ResourceFault::ConsumeBorrow),
            ResourceState::Consumed { span: first } => Err(ResourceFault::DoubleConsume { first }),
        }
    }
}

/// Taking a borrow of `name`.
pub open spec fn borrow_outcome(m: Map<Seq<char>, TrackedResource>, name: Seq<char>) -> Result<Map<Seq<char>, TrackedResource>, ResourceFault> {
    if !m.contains_key(name) {
        Ok(m)
    } else {
        match m[name].state {
            ResourceState::Owned { borrows } => Ok(m.insert(
                name,
                TrackedResource { state: ResourceState::Owned { borrows: (borrows + 1) as usize }, must_consume: m[name].must_consume },
            )),
            ResourceState::ActiveBorrow => Ok(m),
            ResourceState::Consumed { span } => Err(ResourceFault::UseAfterConsume { consumed_at: span }),
        }
    }
}

/// Ending a borrow of `name`; `None` when an owned binding has no live borrow.
pub open spec fn release_outcome(m: Map<Seq<char>, TrackedResource>, name: Seq<char>) -> Option<Map<Seq<char>, TrackedResource>> {
    if !m.contains_key(name) {
        Some(m)
    } else {
        match m[name].state {
            ResourceState::Owned { borrows } => if borrows == 0 {
                None
            } else {
                Some(m.insert(
                    name,
                    TrackedResource { state: ResourceState::Owned { borrows: (borrows - 1) as usize }, must_consume: m[name].must_consume },
                ))
            },
            _ => Some(m),
        }
    }
}

/// The diagnostic `e` reports fault `f` on `name` at `span`.
pub open spec fn fault_error(f: ResourceFault, name: Seq<char>, span: Span, e: TyperError) -> bool {
    match f {
        ResourceFault::UseAfterConsume { consumed_at } => e.code@ == "T801"@ && e.message@ == "resource `"@ + name
            + "` was consumed at "@ + dec(consumed_at.start as nat) + ".."@ + dec(consumed_at.end as nat)
            + " and cannot be used again"@ && e.start == span.start && e.end == span.end,
        ResourceFault::DoubleConsume { first } => e.code@ == "T802"@ && e.message@ == "resource `"@ + name
            + "` already consumed at "@ + dec(first.start as nat) + ".."@ + dec(first.end as nat)
            + "; second consume here"@ && e.start == span.start && e.end == span.end,
        ResourceFault::ConsumeBorrow => e.code@ == "T803"@ && e.message@ == "cannot consume borrowed resource `"@
            + name + "`"@ && e.start == span.start && e.end == span.end,
    }
}

/// Two branch states may be joined.
pub open spec fn states_compatible_spec(l: ResourceState, r: ResourceState) -> bool {
    match (l, r) {
        (ResourceState::Owned { borrows: a }, ResourceState::Owned { borrows: b }) => a == b,
        (ResourceState::ActiveBorrow, ResourceState::ActiveBorrow) => true,
        (ResourceState::Consumed { .. }, ResourceState::Consumed { .. }) => true,
        _ => false,
    }
}

/// Both branches track `k` and agree on it.
pub open spec fn branch_agrees(a: Map<Seq<char>, TrackedResource>, b: Map<Seq<char>, TrackedResource>, k: Seq<char>) -> bool {
    &&& a.contains_key(k)
    &&& b.contains_key(k)
    &&& states_compatible_spec(a[k].state, b[k].state)
    &&& a[k].must_consume == b[k].must_consume
}

/// Two branches end with the same resources in compatible states.
pub open spec fn branches_agree(a: Map<Seq<char>, TrackedResource>, b: Map<Seq<char>, TrackedResource>) -> bool {
    forall|k: Seq<char>| (a.contains_key(k) || b.contains_key(k)) ==> #[trigger] branch_agrees(a, b, k)
}

/// Every resource that must be consumed has been.
pub open spec fn all_consumed(m: Map<Seq<char>, TrackedResource>) -> bool {
    forall|k: Seq<char>| #[trigger] m.contains_key(k) && m[k].must_consume ==> m[k].state is Consumed
}

/// Diagnostic for a resource left unconsumed.
pub open spec fn not_consumed_error(name: Seq<char>, e: TyperError) -> bool {
    e.code@ == "T805"@ && e.message@ == "resource `"@ + name + "` must be consumed before returning"@
        && e.start == 0 && e.end == 0
}

/// Diagnostic for branches that disagree on a resource.
pub open spec fn branch_mismatch_error(name: Seq<char>, span: Span, e: TyperError) -> bool {
    e.code@ == "T804"@ && e.message@ == "resource `"@ + name + "` has different ownership states across branches"@
        && e.start == span.start && e.end == span.end
}

/// Once consumed, a resource can no longer be read; the refusal points at the consume.
pub proof fn lemma_use_after_consume_refused(m: Map<Seq<char>, TrackedResource>, name: Seq<char>, at: Span)
    requires
        m.contains_key(name),
        consume_outcome(m, name, at) is Ok,
    ensures
        use_fault(consume_outcome(m, name, at)->Ok_0, name) == Some(ResourceFault::UseAfterConsume { consumed_at: at }),
{
}

/// A second consume is refused and names the first one.
pub proof fn lemma_double_consume_refused(m: Map<Seq<char>, TrackedResource>, name: Seq<char>, first: Span, second: Span)
    requires
        m.contains_key(name),
        consume_outcome(m, name, first) is Ok,
    ensures
        consume_outcome(consume_outcome(m, name, first)->Ok_0, name, second) == Err::<Map<Seq<char>, TrackedResource>, ResourceFault>(
            ResourceFault::DoubleConsume { first },
        ),
{
}

/// Releasing a borrow undoes taking it.
pub proof fn lemma_borrow_release_roundtrip(m: Map<Seq<char>, TrackedResource>, name: Seq<char>)
    requires
        borrow_outcome(m, name) is Ok,
        m.contains_key(name) && m[name].state is Owned ==> m[name].state->borrows < usize::MAX,
    ensures
        release_outcome(borrow_outcome(m, name)->Ok_0, name) == Some(m),
{
    if m.contains_key(name) {
        if let ResourceState::Owned { borrows } = m[name].state {
            let m2 = borrow_outcome(m, name)->Ok_0;
            assert(m2[name].state == (ResourceState::Owned { borrows: (borrows + 1) as usize }));
            assert(m2.insert(name, TrackedResource { state: ResourceState::Owned { borrows }, must_consume: m[name].must_consume }) =~= m);
        }
    }
}

/// An owned resource with a live borrow cannot be consumed.
pub proof fn lemma_borrowed_cannot_be_consumed(m: Map<Seq<char>, TrackedResource>, name: Seq<char>, at: Span)
    requires
        m.contains_key(name),
        m[name].state is Owned,
        m[name].state->borrows < usize::MAX,
    ensures
        consume_outcome(borrow_outcome(m, name)->Ok_0, name, at) == Err::<Map<Seq<char>, TrackedResource>, ResourceFault>(
            ResourceFault::ConsumeBorrow,
        ),
{
}

/// Operations on a name no scope tracks change nothing and are never refused.
pub proof fn lemma_untracked_names_are_free(m: Map<Seq<char>, TrackedResource>, name: Seq<char>, at: Span)
    requires
        !m.contains_key(name),
    ensures
        use_fault(m, name) is None,
        consume_outcome(m, name, at) == Ok::<Map<Seq<char>, TrackedResource>, ResourceFault>(m),
        borrow_outcome(m, name) == Ok::<Map<Seq<char>, TrackedResource>, ResourceFault>(m),
        release_outcome(m, name) == Some(m),
{
}

/// Consuming one resource leaves every other binding as it was.
pub proof fn lemma_consume_frame(m: Map<Seq<char>, TrackedResource>, name: Seq<char>, other: Seq<char>, at: Span)
    requires
        other != name,
        consume_outcome(m, name, at) is Ok,
    ensures
        consume_outcome(m, name, at)->Ok_0.contains_key(other) == m.contains_key(other),
        m.contains_key(other) ==> consume_outcome(m, name, at)->Ok_0[other] == m[other],
{
}

/// A scope holding a fresh owned resource cannot end; consuming the last one lets it end.
pub proof fn lemma_consume_discharges(m: Map<Seq<char>, TrackedResource>, name: Seq<char>, at: Span)
    requires
        all_consumed(m.remove(name)),
    ensures
        !all_consumed(m.insert(name, local_entry())),
        consume_outcome(m.insert(name, local_entry()), name, at) is Ok,
        all_consumed(consume_outcome(m.insert(name, local_entry()), name, at)->Ok_0),
{
    let m1 = m.insert(name, local_entry());
    assert(m1.contains_key(name) && m1[name].must_consume && !(m1[name].state is Consumed));
    let m2 = consume_outcome(m1, name, at)->Ok_0;
    assert forall|k: Seq<char>| #[trigger] m2.contains_key(k) && m2[k].must_consume implies m2[k].state is Consumed by {
        if k != name {
            assert(m.remove(name).contains_key(k));
        }
    }
}

/// Identical branches always agree.
pub proof fn lemma_branches_agree_reflexive(m: Map<Seq<char>, TrackedResource>)
    ensures
        branches_agree(m, m),
{
}

/// Branch agreement does not depend on which branch comes first.
pub proof fn lemma_branches_agree_symmetric(a: Map<Seq<char>, TrackedResource>, b: Map<Seq<char>, TrackedResource>)
    requires
        branches_agree(a, b),
    ensures
        branches_agree(b, a),
{
    assert forall|k: Seq<char>| (b.contains_key(k) || a.contains_key(k)) implies #[trigger] branch_agrees(b, a, k) by {
        assert(branch_agrees(a, b, k));
    }
}

/// Ownership states of the linear resources in scope.
#[derive(Debug)]
pub struct ResourceTracker {
    states: NameMap<TrackedResource>,
}

impl View for ResourceTracker {
    type V = Map<Seq<char>, TrackedResource>;

    closed spec fn view(&self) -> Map<Seq<char>, TrackedResource> {
        self.states@
    }
}

impl ResourceTracker {
    pub fn new() -> (t: Self)
        ensures
            t@ == Map::<Seq<char>, TrackedResource>::empty(),
    {
        ResourceTracker { states: NameMap::new() }
    }

    /// An empty tracker; the capacity is only a hint.
    pub fn with_capacity(capacity: usize) -> (t: Self)
        ensures
            t@ == Map::<Seq<char>, TrackedResource>::empty(),
    {
        ResourceTracker { states: NameMap::new() }
    }

    /// An independent copy, used to check branches separately.
    pub fn duplicate(&self) -> (r: Self)
        ensures
            r@ == self@,
    {
        ResourceTracker { states: self.states.duplicate() }
    }

    /// The entry entry for `name`.
    pub fn get(&self, name: &str) -> (r: Option<TrackedResource>)
        ensures
            r == self@.get(name@),
    {
        match self.states.get(name) {
            Some(t) => Some(*t),
            None => None,
        }
    }

    /// Starts tracking a parameter whose type is a resource.
    pub fn register_param(&mut self, name: &str, kind: ParamKind, is_resource: bool)
        ensures
            final(self)@ == if is_resource { old(self)@.insert(name@, param_entry(kind)) } else { old(self)@ },
    {
        if is_resource {
            let state = match kind {
                ParamKind::Consume => ResourceState::Owned { borrows: 0 },
                ParamKind::Borrow => ResourceState::ActiveBorrow,
            };
            let must_consume = match kind {
                ParamKind::Consume => true,
                ParamKind::Borrow => false,
            };
            self.states.insert(name.to_string(), TrackedResource { state, must_consume });
        }
    }

    /// Starts tracking a local binding whose type is a resource.
    pub fn register_local(&mut self, name: &str, is_resource: bool)
        ensures
            final(self)@ == if is_resource { old(self)@.insert(name@, local_entry()) } else { old(self)@ },
    {
        if is_resource {
            self.states.insert(
                name.to_string(),
                TrackedResource { state: ResourceState::Owned { borrows: 0 }, must_consume: true },
            );
        }
    }

    /// Forgets the bindings that `baseline` does not track (those local to a scope).
    pub fn retain_keys_from(&mut self, baseline: &ResourceTracker)
        ensures
            final(self)@ == old(self)@.restrict(baseline@.dom()),
    {
        let keys = self.states.keys();
        let ghost orig = self@;
        let mut i: usize = 0;
        while i < keys.len()
            invariant
                i <= keys@.len(),
                forall|k: Seq<char>| orig.contains_key(k) <==> exists|j: int| 0 <= j < keys@.len() && (#[trigger] keys@[j])@ == k,
                forall|k: Seq<char>| #[trigger] self@.contains_key(k) <==> (orig.contains_key(k)
                    && (baseline@.contains_key(k) || !(exists|j: int| 0 <= j < i && (#[trigger] keys@[j])@ == k))),
                forall|k: Seq<char>| #[trigger] self@.contains_key(k) ==> self@[k] == orig[k],
            decreases keys.len() - i,
        {
            let name = &keys[i];
            let ghost prev = self@;
            if !baseline.states.contains_key(name.as_str()) {
                self.states.remove(name.as_str());
                proof {
                    assert(self@ == prev.remove(name@));
                }
            }
            proof {
                assert forall|k: Seq<char>| #[trigger] self@.contains_key(k) implies self@[k] == orig[k] by {
                    assert(prev.contains_key(k));
                }
                assert forall|k: Seq<char>| #[trigger] self@.contains_key(k) <==> (orig.contains_key(k)
                    && (baseline@.contains_key(k) || !(exists|j: int| 0 <= j < i + 1 && (#[trigger] keys@[j])@ == k))) by {
                    if k == keys@[i as int]@ {
                    } else {
                        if exists|j: int| 0 <= j < i + 1 && (#[trigger] keys@[j])@ == k {
                            let j = choose|j: int| 0 <= j < i + 1 && (#[trigger] keys@[j])@ == k;
                            assert(j < i);
                        }
                    }
                }
            }
            i = i + 1;
        }
        proof {
            assert forall|k: Seq<char>| #[trigger] self@.contains_key(k) <==> orig.restrict(baseline@.dom()).contains_key(k) by {
                if orig.contains_key(k) {
                    let j = choose|j: int| 0 <= j < keys@.len() && (#[trigger] keys@[j])@ == k;
                }
            }
            assert(self@ =~= orig.restrict(baseline@.dom()));
        }
    }

    /// Checks that `other` ends with the same resources in compatible states.
    pub fn merge_branch(&mut self, other: &ResourceTracker, span: Span) -> (r: Result<(), TyperError>)
        ensures
            final(self)@ == old(self)@,
            r is Ok <==> branches_agree(old(self)@, other@),
            r matches Err(e) ==> exists|k: Seq<char>| (old(self)@.contains_key(k) || other@.contains_key(k))
                && !(#[trigger] branch_agrees(old(self)@, other@, k)) && branch_mismatch_error(k, span, e),
    {
        let keys = self.states.keys();
        let mut i: usize = 0;
        while i < keys.len()
            invariant
                i <= keys@.len(),
                forall|k: Seq<char>| self@.contains_key(k) <==> exists|j: int| 0 <= j < keys@.len() && (#[trigger] keys@[j])@ == k,
                forall|j: int| 0 <= j < i ==> #[trigger] branch_agrees(self@, other@, keys@[j]@),
            decreases keys.len() - i,
        {
            let name = &keys[i];
            proof {
                assert(self@.contains_key(name@));
            }
            let left = *self.states.get(name.as_str()).unwrap();
            match other.states.get(name.as_str()) {
                None => {
                    let e = TyperError::resource_branch_mismatch(name.as_str(), span);
                    proof {
                        assert(branch_mismatch_error(name@, span, e));
                        assert(!branch_agrees(self@, other@, name@));
                        assert(self@ == old(self)@);
                        assert((old(self)@.contains_key(name@) || other@.contains_key(name@))
                            && !branch_agrees(old(self)@, other@, name@) && branch_mismatch_error(name@, span, e));
                    }
                    return Err(e);
                },
                Some(right) => {
                    if !Self::states_compatible(&left.state, &right.state) || left.must_consume != right.must_consume {
                        let e = TyperError::resource_branch_mismatch(name.as_str(), span);
                        proof {
                            assert(left == self@[name@]);
                            assert(*right == other@[name@]);
                            assert(branch_mismatch_error(name@, span, e));
                            assert(!branch_agrees(self@, other@, name@));
                        }
                        return Err(e);
                    }
                },
            }
            i = i + 1;
        }
        let other_keys = other.states.keys();
        let mut i: usize = 0;
        while i < other_keys.len()
            invariant
                i <= other_keys@.len(),
                forall|k: Seq<char>| self@.contains_key(k) <==> exists|j: int| 0 <= j < keys@.len() && (#[trigger] keys@[j])@ == k,
                forall|k: Seq<char>| other@.contains_key(k) <==> exists|j: int| 0 <= j < other_keys@.len() && (#[trigger] other_keys@[j])@ == k,
                forall|j: int| 0 <= j < keys@.len() ==> #[trigger] branch_agrees(self@, other@, keys@[j]@),
                forall|j: int| 0 <= j < i ==> #[trigger] self@.contains_key(other_keys@[j]@),
            decreases other_keys.len() - i,
        {
            let name = &other_keys[i];
            if !self.states.contains_key(name.as_str()) {
                let e = TyperError::resource_branch_mismatch(name.as_str(), span);
                proof {
                    assert(other@.contains_key(name@));
                    assert(branch_mismatch_error(name@, span, e));
                    assert(!branch_agrees(self@, other@, name@));
                    assert(self@ == old(self)@);
                    assert((old(self)@.contains_key(name@) || other@.contains_key(name@))
                        && !branch_agrees(old(self)@, other@, name@) && branch_mismatch_error(name@, span, e));
                }
                return Err(e);
            }
            i = i + 1;
        }
        proof {
            assert forall|k: Seq<char>| (self@.contains_key(k) || other@.contains_key(k)) implies #[trigger] branch_agrees(self@, other@, k) by {
                if other@.contains_key(k) && !self@.contains_key(k) {
                    let j = choose|j: int| 0 <= j < other_keys@.len() && (#[trigger] other_keys@[j])@ == k;
                    assert(self@.contains_key(other_keys@[j]@));
                }
                let j = choose|j: int| 0 <= j < keys@.len() && (#[trigger] keys@[j])@ == k;
                assert(branch_agrees(self@, other@, keys@[j]@));
            }
        }
        Ok(())
    }

    pub fn states_compatible(left: &ResourceState, right: &ResourceState) -> (r: bool)
        ensures
            r == states_compatible_spec(*left, *right),
    {
        match (left, right) {
            (ResourceState::Owned { borrows: lb }, ResourceState::Owned { borrows: rb }) => *lb == *rb,
            (ResourceState::ActiveBorrow, ResourceState::ActiveBorrow) => true,
            (ResourceState::Consumed { .. }, ResourceState::Consumed { .. }) => true,
            _ => false,
        }
    }

    /// Reads `name`; refused after it was consumed.
    pub fn use_var(&mut self, name: &str, span: Span) -> (r: Result<(), TyperError>)
        ensures
            final(self)@ == old(self)@,
            match use_fault(old(self)@, name@) {
                None => r is Ok,
                Some(f) => r matches Err(e) && fault_error(f, name@, span, e),
            },
    {
        if let Some(entry) = self.states.get(name) {
            if let ResourceState::Consumed { span: consumed_at } = entry.state {
                return Err(TyperError::resource_use_after_consume(name, consumed_at, span));
            }
        }
        Ok(())
    }

    /// Moves `name` out at `span`.
    pub fn consume_var(&mut self, name: &str, span: Span) -> (r: Result<(), TyperError>)
        ensures
            match consume_outcome(old(self)@, name@, span) {
                Ok(m) => r is Ok && final(self)@ == m,
                Err(f) => r matches Err(e) && fault_error(f, name@, span, e) && final(self)@ == old(self)@,
            },
    {
        if let Some(entry) = self.states.get(name) {
            let entry = *entry;
            match entry.state {
                ResourceState::Owned { borrows } => {
                    if borrows > 0 {
                        return Err(TyperError::resource_consume_borrow(name, span));
                    }
                },
                ResourceState::ActiveBorrow => {
                    return Err(TyperError::resource_consume_borrow(name, span));
                },
                ResourceState::Consumed { span: first } => {
                    return Err(TyperError::resource_double_consume(name, first, span));
                },
            }
            self.states.insert(
                name.to_string(),
                TrackedResource { state: ResourceState::Consumed { span }, must_consume: entry.must_consume },
            );
        }
        Ok(())
    }

    /// Takes a borrow of `name`.
    pub fn borrow_var(&mut self, name: &str, span: Span) -> (r: Result<(), TyperError>)
        requires
            old(self)@.contains_key(name@) && old(self)@[name@].state is Owned ==> old(self)@[name@].state->borrows < usize::MAX,
        ensures
            match borrow_outcome(old(self)@, name@) {
                Ok(m) => r is Ok && final(self)@ == m,
                Err(f) => r matches Err(e) && fault_error(f, name@, span, e) && final(self)@ == old(self)@,
            },
    {
        if let Some(entry) = self.states.get(name) {
            let entry = *entry;
            match entry.state {
                ResourceState::Owned { borrows } => {
                    self.states.insert(
                        name.to_string(),
                        TrackedResource { state: ResourceState::Owned { borrows: borrows + 1 }, must_consume: entry.must_consume },
                    );
                },
                ResourceState::ActiveBorrow => {},
                ResourceState::Consumed { span: consumed_at } => {
                    return Err(TyperError::resource_use_after_consume(name, consumed_at, span));
                },
            }
        }
        Ok(())
    }

    /// Ends a borrow of `name`; refused when an owned binding has no live borrow.
    pub fn release_borrow(&mut self, name: &str) -> (r: Result<(), String>)
        ensures
            match release_outcome(old(self)@, name@) {
                Some(m) => r is Ok && final(self)@ == m,
                None => r matches Err(msg) && msg@ == "release_borrow called without active borrow for "@ + name@
                    && final(self)@ == old(self)@,
            },
    {
        if let Some(entry) = self.states.get(name) {
            let entry = *entry;
            if let ResourceState::Owned { borrows } = entry.state {
                if borrows == 0 {
                    let mut msg = String::new();
                    msg.append("release_borrow called without active borrow for ");
                    msg.append(name);
                    return Err(msg);
                }
                self.states.insert(
                    name.to_string(),
                    TrackedResource { state: ResourceState::Owned { borrows: borrows - 1 }, must_consume: entry.must_consume },
                );
            }
        }
        Ok(())
    }

    /// Checks that every resource the scope owns has been consumed.
    pub fn ensure_consumed(&self) -> (r: Result<(), TyperError>)
        ensures
            r is Ok <==> all_consumed(self@),
            r matches Err(e) ==> exists|k: Seq<char>| #[trigger] self@.contains_key(k) && self@[k].must_consume
                && !(self@[k].state is Consumed) && not_consumed_error(k, e),
    {
        let keys = self.states.keys();
        let mut i: usize = 0;
        while i < keys.len()
            invariant
                i <= keys@.len(),
                forall|k: Seq<char>| self@.contains_key(k) <==> exists|j: int| 0 <= j < keys@.len() && (#[trigger] keys@[j])@ == k,
                forall|j: int| 0 <= j < i ==> (#[trigger] self@[keys@[j]@]).must_consume ==> self@[keys@[j]@].state is Consumed,
            decreases keys.len() - i,
        {
            let name = &keys[i];
            proof {
                assert(self@.contains_key(name@));
            }
            let entry = *self.states.get(name.as_str()).unwrap();
            if entry.must_consume {
                match entry.state {
                    ResourceState::Consumed { .. } => {},
                    _ => {
                        let e = TyperError::resource_not_consumed(name.as_str());
                        proof {
                            assert(not_consumed_error(name@, e));
                            assert(self@.contains_key(name@) && self@[name@].must_consume
                                && !(self@[name@].state is Consumed) && not_consumed_error(name@, e));
                        }
                        return Err(e);
                    },
                }
            }
            i = i + 1;
        }
        proof {
            assert forall|k: Seq<char>| #[trigger] self@.contains_key(k) && self@[k].must_consume implies self@[k].state is Consumed by {
                let j = choose|j: int| 0 <= j < keys@.len() && (#[trigger] keys@[j])@ == k;
                assert(self@[keys@[j]@].must_consume ==> self@[keys@[j]@].state is Consumed);
            }
        }
        Ok(())
    }
}

/// An ownership operation refused while passing `name` to `callee`.
#[derive(Debug)]
pub struct ResourceCallFault {
    pub fault: ResourceFault,
    pub name: String,
    pub span: Span,
    pub callee: String,
}

/// `c` reports fault `f` on `name` at `span`, inside a call of `callee`.
pub open spec fn call_fault(c: ResourceCallFault, f: ResourceFault, name: Seq<char>, span: Span, callee: Seq<char>) -> bool {
    c.fault == f && c.name@ == name && c.span == span && c.callee@ == callee
}

impl ResourceTracker {
    /// Reads `name` as an argument of `callee`; refused after it was consumed.
    pub fn use_var_in_call(&mut self, name: &str, span: Span, callee: &str) -> (r: Result<(), ResourceCallFault>)
        ensures
            final(self)@ == old(self)@,
            match use_fault(old(self)@, name@) {
                None => r is Ok,
                Some(f) => r matches Err(c) && call_fault(c, f, name@, span, callee@),
            },
    {
        if let Some(entry) = self.states.get(name) {
            if let ResourceState::Consumed { span: consumed_at } = entry.state {
                return Err(ResourceCallFault {
                    fault: ResourceFault::UseAfterConsume { consumed_at },
                    name: name.to_string(),
                    span,
                    callee: callee.to_string(),
                });
            }
        }
        Ok(())
    }

    /// Moves `name` into a call of `callee` at `span`.
    pub fn consume_var_in_call(&mut self, name: &str, span: Span, callee: &str) -> (r: Result<(), ResourceCallFault>)
        ensures
            match consume_outcome(old(self)@, name@, span) {
                Ok(m) => r is Ok && final(self)@ == m,
                Err(f) => r matches Err(c) && call_fault(c, f, name@, span, callee@) && final(self)@ == old(self)@,
            },
    {
        if let Some(entry) = self.states.get(name) {
            let entry = *entry;
            let fault = match entry.state {
                ResourceState::Owned { borrows } => if borrows > 0 {
                    Some(ResourceFault::ConsumeBorrow)
                } else {
                    None
                },
                ResourceState::ActiveBorrow => Some(ResourceFault::ConsumeBorrow),
                ResourceState::Consumed { span: first } => Some(ResourceFault::DoubleConsume { first }),
            };
            if let Some(fault) = fault {
                return Err(ResourceCallFault { fault, name: name.to_string(), span, callee: callee.to_string() });
            }
            self.states.insert(
                name.to_string(),
                TrackedResource { state: ResourceState::Consumed { span }, must_consume: entry.must_consume },
            );
        }
        Ok(())
    }
}

/// The trackers of a `match`'s arms, each restricted to what the baseline tracks.
pub open spec fn arm_views(arms: Seq<(ResourceTracker, Span)>, baseline: Map<Seq<char>, TrackedResource>) -> Seq<Map<Seq<char>, TrackedResource>> {
    arms.map_values(|a: (ResourceTracker, Span)| a.0@.restrict(baseline.dom()))
}

/// Joins the trackers of a `match`'s arms: every arm must agree with the first
/// on the resources that existed before the `match`, which then become the
/// state after it. With no arms the state is the baseline's.
pub fn merge_match_trackers(
    baseline: &ResourceTracker,
    branch_trackers: &Vec<(ResourceTracker, Span)>,
    tracker: &mut ResourceTracker,
) -> (r: Result<(), TyperError>)
    ensures
        ({
            let bt = branch_trackers@;
            let v = arm_views(bt, baseline@);
            if bt.len() == 0 {
                r is Ok && final(tracker)@ == baseline@
            } else {
                &&& r is Ok <==> forall|i: int| 1 <= i < bt.len() ==> #[trigger] branches_agree(v[0], v[i])
                &&& r is Ok ==> final(tracker)@ == v[0]
                &&& r matches Err(e) ==> final(tracker)@ == old(tracker)@ && exists|i: int| #![trigger v[i]]
                    1 <= i < bt.len() && (forall|j: int| 1 <= j < i ==> #[trigger] branches_agree(v[0], v[j]))
                    && exists|k: Seq<char>| (v[0].contains_key(k) || v[i].contains_key(k))
                        && !(#[trigger] branch_agrees(v[0], v[i], k)) && branch_mismatch_error(k, bt[i].1, e)
            }
        }),
{
    let ghost bt = branch_trackers@;
    let ghost v = arm_views(bt, baseline@);
    if branch_trackers.len() == 0 {
        tracker.states = baseline.states.duplicate();
        return Ok(());
    }
    let mut merged = branch_trackers[0].0.duplicate();
    merged.retain_keys_from(baseline);
    let mut i: usize = 1;
    while i < branch_trackers.len()
        invariant
            1 <= i <= bt.len(),
            bt == branch_trackers@,
            v == arm_views(bt, baseline@),
            merged@ == v[0],
            tracker@ == old(tracker)@,
            forall|j: int| 1 <= j < i ==> #[trigger] branches_agree(v[0], v[j]),
        decreases branch_trackers.len() - i,
    {
        let mut filtered = branch_trackers[i].0.duplicate();
        filtered.retain_keys_from(baseline);
        proof {
            assert(filtered@ == v[i as int]);
        }
        match merged.merge_branch(&filtered, branch_trackers[i].1) {
            Ok(()) => {},
            Err(e) => {
                proof {
                    assert(forall|j: int| 1 <= j < i ==> #[trigger] branches_agree(v[0], v[j]));
                    assert(!branches_agree(v[0], v[i as int]));
                    let k = choose|k: Seq<char>| (v[0].contains_key(k) || filtered@.contains_key(k))
                        && !(#[trigger] branch_agrees(v[0], filtered@, k)) && branch_mismatch_error(k, bt[i as int].1, e);
                    assert((v[0].contains_key(k) || v[i as int].contains_key(k))
                        && !branch_agrees(v[0], v[i as int], k) && branch_mismatch_error(k, bt[i as int].1, e));
                }
                return Err(e);
            },
        }
        i = i + 1;
    }
    tracker.states = merged.states;
    Ok(())
}

/// Consumes the variable an argument expression names; any other expression
/// consumes nothing.
pub fn consume_var_expr(tracker: &mut ResourceTracker, expr: &Expr) -> (r: Result<(), TyperError>)
    ensures
        match expr {
            Expr::Var(name, span) => match consume_outcome(old(tracker)@, name@, *span) {
                Ok(m) => r is Ok && final(tracker)@ == m,
                Err(f) => r matches Err(e) && fault_error(f, name@, *span, e) && final(tracker)@ == old(tracker)@,
            },
            _ => r is Ok && final(tracker)@ == old(tracker)@,
        },
{
    if let Expr::Var(name, span) = expr {
        tracker.consume_var(name.as_str(), *span)?;
    }
    Ok(())
}

} // verus!
