use vstd::prelude::*;
use crate::text::{has_prefix, starts_with, str_eq};

verus! {

/// The set of names held by a list of strings.
pub open spec fn name_set(names: Seq<String>) -> Set<Seq<char>> {
    Set::new(|k: Seq<char>| exists|i: int| 0 <= i < names.len() && (#[trigger] names[i])@ == k)
}

/// A finite set of names.
#[derive(Debug)]
pub struct NameSet {
    names: Vec<String>,
}

impl View for NameSet {
    type V = Set<Seq<char>>;

    closed spec fn view(&self) -> Set<Seq<char>> {
        name_set(self.names@)
    }
}

impl NameSet {
    pub fn new() -> (s: Self)
        ensures
            s@ == Set::<Seq<char>>::empty(),
    {
        let s = NameSet { names: Vec::new() };
        assert(s@ =~= Set::<Seq<char>>::empty());
        s
    }

    pub fn contains(&self, name: &str) -> (r: bool)
        ensures
            r == self@.contains(name@),
    {
        let mut i: usize = 0;
        while i < self.names.len()
            invariant
                i <= self.names.len(),
                forall|j: int| 0 <= j < i ==> (#[trigger] self.names@[j])@ != name@,
            decreases self.names.len() - i,
        {
            if str_eq(self.names[i].as_str(), name) {
                proof {
                    assert(self.names@[i as int]@ == name@);
                }
                return true;
            }
            i = i + 1;
        }
        false
    }

    /// Adds a name; says whether it was new.
    pub fn insert(&mut self, name: String) -> (added: bool)
        ensures
            final(self)@ == old(self)@.insert(name@),
            added == !old(self)@.contains(name@),
    {
        if self.contains(name.as_str()) {
            assert(old(self)@.insert(name@) =~= old(self)@);
            return false;
        }
        let ghost n = name@;
        self.names.push(name);
        assert forall|k: Seq<char>| #[trigger] self@.contains(k) <==> old(self)@.insert(n).contains(k) by {
            if k == n {
                assert(self.names@[self.names@.len() - 1]@ == k);
            }
            if old(self)@.contains(k) {
                let i = choose|i: int| 0 <= i < old(self).names@.len() && (#[trigger] old(self).names@[i])@ == k;
                assert(self.names@[i]@ == k);
            }
        }
        assert(self@ =~= old(self)@.insert(n));
        true
    }

    /// Removes a name, if present.
    pub fn remove(&mut self, name: &str)
        ensures
            final(self)@ == old(self)@.remove(name@),
    {
        let mut kept: Vec<String> = Vec::new();
        let mut i: usize = 0;
        while i < self.names.len()
            invariant
                i <= self.names@.len(),
                self.names@ == old(self).names@,
                forall|k: Seq<char>| #[trigger] name_set(kept@).contains(k) <==> (k != name@
                    && exists|j: int| 0 <= j < i && (#[trigger] self.names@[j])@ == k),
            decreases self.names.len() - i,
        {
            if !str_eq(self.names[i].as_str(), name) {
                let ghost prev = kept@;
                kept.push(self.names[i].clone());
                proof {
                    assert forall|k: Seq<char>| #[trigger] name_set(kept@).contains(k) <==> (k != name@
                        && exists|j: int| 0 <= j < i + 1 && (#[trigger] self.names@[j])@ == k) by {
                        if name_set(kept@).contains(k) {
                            let j = choose|j: int| 0 <= j < kept@.len() && (#[trigger] kept@[j])@ == k;
                            if j < prev.len() {
                                assert(prev[j] == kept@[j]);
                                assert(name_set(prev).contains(k));
                            } else {
                                assert(self.names@[i as int]@ == k);
                            }
                        }
                        if k != name@ && exists|j: int| 0 <= j < i + 1 && (#[trigger] self.names@[j])@ == k {
                            let j = choose|j: int| 0 <= j < i + 1 && (#[trigger] self.names@[j])@ == k;
                            if j < i {
                                assert(name_set(prev).contains(k));
                                let m = choose|m: int| 0 <= m < prev.len() && (#[trigger] prev[m])@ == k;
                                assert(kept@[m] == prev[m]);
                            } else {
                                assert(kept@[prev.len() as int]@ == k);
                            }
                        }
                    }
                }
            } else {
                proof {
                    assert forall|k: Seq<char>| #[trigger] name_set(kept@).contains(k) <==> (k != name@
                        && exists|j: int| 0 <= j < i + 1 && (#[trigger] self.names@[j])@ == k) by {
                        if k != name@ && exists|j: int| 0 <= j < i + 1 && (#[trigger] self.names@[j])@ == k {
                            let j = choose|j: int| 0 <= j < i + 1 && (#[trigger] self.names@[j])@ == k;
                            assert(j < i);
                        }
                    }
                }
            }
            i = i + 1;
        }
        self.names = kept;
        assert(self@ =~= old(self)@.remove(name@));
    }
}

/// The map described by a list of entries, later entries overriding earlier
/// ones.
pub open spec fn entries_map<V: View>(entries: Seq<(String, V)>) -> Map<Seq<char>, V::V>
    decreases entries.len(),
{
    if entries.len() == 0 {
        Map::empty()
    } else {
        let last = entries[entries.len() - 1];
        entries_map(entries.subrange(0, entries.len() - 1)).insert(last.0@, last.1@)
    }
}

proof fn lemma_entries_map_absent<V: View>(entries: Seq<(String, V)>, k: Seq<char>)
    requires
        forall|j: int| 0 <= j < entries.len() ==> (#[trigger] entries[j]).0@ != k,
    ensures
        !entries_map(entries).contains_key(k),
    decreases entries.len(),
{
    if entries.len() > 0 {
        let prefix = entries.subrange(0, entries.len() - 1);
        assert forall|j: int| 0 <= j < prefix.len() implies (#[trigger] prefix[j]).0@ != k by {
            assert(prefix[j] == entries[j]);
        }
        lemma_entries_map_absent(prefix, k);
    }
}

proof fn lemma_entries_map_last<V: View>(entries: Seq<(String, V)>, k: Seq<char>, i: int)
    requires
        0 <= i < entries.len(),
        entries[i].0@ == k,
        forall|j: int| i < j < entries.len() ==> (#[trigger] entries[j]).0@ != k,
    ensures
        entries_map(entries).contains_key(k),
        entries_map(entries)[k] == entries[i].1@,
    decreases entries.len(),
{
    let prefix = entries.subrange(0, entries.len() - 1);
    if i < entries.len() - 1 {
        assert forall|j: int| i < j < prefix.len() implies (#[trigger] prefix[j]).0@ != k by {
            assert(prefix[j] == entries[j]);
        }
        assert(prefix[i] == entries[i]);
        lemma_entries_map_last(prefix, k, i);
    }
}

/// The value of the last entry for `k` (arbitrary where there is none).
pub open spec fn entries_value<V>(entries: Seq<(String, V)>, k: Seq<char>) -> V
    decreases entries.len(),
{
    if entries.len() == 0 {
        arbitrary()
    } else if entries[entries.len() - 1].0@ == k {
        entries[entries.len() - 1].1
    } else {
        entries_value(entries.subrange(0, entries.len() - 1), k)
    }
}

pub proof fn lemma_entries_map_finite<V: View>(entries: Seq<(String, V)>)
    ensures
        entries_map(entries).dom().finite(),
    decreases entries.len(),
{
    if entries.len() > 0 {
        lemma_entries_map_finite(entries.subrange(0, entries.len() - 1));
    }
}

/// The names of a list of strings, in order.
pub open spec fn names_view(s: Seq<String>) -> Seq<Seq<char>> {
    s.map_values(|x: String| x@)
}

proof fn lemma_entries_map_filter<V: View>(entries: Seq<(String, V)>, kept: Seq<(String, V)>, k: Seq<char>)
    requires
        kept == entries.filter(|e: (String, V)| e.0@ != k),
    ensures
        entries_map(kept) == entries_map(entries).remove(k),
    decreases entries.len(),
{
    if entries.len() == 0 {
        assert(kept =~= Seq::<(String, V)>::empty());
        assert(entries_map(entries).remove(k) =~= Map::<Seq<char>, V::V>::empty());
    } else {
        let init = entries.subrange(0, entries.len() - 1);
        let last = entries[entries.len() - 1];
        let kept_init = init.filter(|e: (String, V)| e.0@ != k);
        assert(entries =~= init.push(last));
        init.lemma_filter_push(last, |e: (String, V)| e.0@ != k);
        lemma_entries_map_filter(init, kept_init, k);
        if last.0@ != k {
            assert(kept =~= kept_init.push(last));
            assert(kept.subrange(0, kept.len() - 1) =~= kept_init);
            assert(entries_map(kept) =~= entries_map(entries).remove(k));
        } else {
            assert(kept =~= kept_init);
            assert(entries_map(kept) =~= entries_map(entries).remove(k));
        }
    }
}

proof fn lemma_entries_map_has<V: View>(entries: Seq<(String, V)>, k: Seq<char>, i: int)
    requires
        0 <= i < entries.len(),
        entries[i].0@ == k,
    ensures
        entries_map(entries).contains_key(k),
    decreases entries.len(),
{
    let n = entries.len() - 1;
    if entries[n].0@ != k {
        let prefix = entries.subrange(0, n);
        assert(prefix[i] == entries[i]);
        lemma_entries_map_has(prefix, k, i);
    }
}

/// A finite map from names to values.
#[derive(Debug)]
pub struct NameMap<V> {
    entries: Vec<(String, V)>,
}

impl<V: View> View for NameMap<V> {
    type V = Map<Seq<char>, V::V>;

    closed spec fn view(&self) -> Map<Seq<char>, V::V> {
        entries_map(self.entries@)
    }
}

impl<V: View + Copy> NameMap<V> {
    /// An independent copy of the map.
    pub fn duplicate(&self) -> (r: Self)
        ensures
            r@ == self@,
    {
        let mut entries: Vec<(String, V)> = Vec::new();
        let mut i: usize = 0;
        while i < self.entries.len()
            invariant
                i <= self.entries@.len(),
                entries@.len() == i,
                forall|j: int| 0 <= j < i ==> (#[trigger] entries@[j]).0@ == self.entries@[j].0@ && entries@[j].1 == self.entries@[j].1,
            decreases self.entries.len() - i,
        {
            let name = self.entries[i].0.clone();
            entries.push((name, self.entries[i].1));
            i = i + 1;
        }
        proof {
            lemma_entries_map_same(entries@, self.entries@);
        }
        NameMap { entries }
    }
}

proof fn lemma_entries_map_same<V: View>(a: Seq<(String, V)>, b: Seq<(String, V)>)
    requires
        a.len() == b.len(),
        forall|j: int| 0 <= j < a.len() ==> (#[trigger] a[j]).0@ == b[j].0@ && a[j].1 == b[j].1,
    ensures
        entries_map(a) == entries_map(b),
    decreases a.len(),
{
    if a.len() > 0 {
        lemma_entries_map_same(a.subrange(0, a.len() - 1), b.subrange(0, b.len() - 1));
    }
}

impl<V: View> NameMap<V> {
    /// The value bound to `k`, in full (the view keeps only part of it).
    pub closed spec fn value_of(&self, k: Seq<char>) -> V {
        entries_value(self.entries@, k)
    }

    pub fn new() -> (m: Self)
        ensures
            m@ == Map::<Seq<char>, V::V>::empty(),
    {
        let m = NameMap { entries: Vec::new() };
        assert(m@ =~= Map::<Seq<char>, V::V>::empty());
        m
    }

    /// The value bound to `name`.
    pub fn get(&self, name: &str) -> (r: Option<&V>)
        ensures
            match r {
                Some(v) => self@.contains_key(name@) && self@[name@] == v@,
                None => !self@.contains_key(name@),
            },
    {
        let mut i: usize = self.entries.len();
        while i > 0
            invariant
                i <= self.entries.len(),
                forall|j: int| i <= j < self.entries.len() ==> (#[trigger] self.entries@[j]).0@ != name@,
            decreases i,
        {
            i = i - 1;
            if str_eq(self.entries[i].0.as_str(), name) {
                proof {
                    lemma_entries_map_last(self.entries@, name@, i as int);
                }
                return Some(&self.entries[i].1);
            }
        }
        proof {
            lemma_entries_map_absent(self.entries@, name@);
        }
        None
    }

    pub proof fn lemma_finite(&self)
        ensures
            self@.dom().finite(),
    {
        lemma_entries_map_finite(self.entries@);
    }

    /// The names bound in the map (possibly repeated).
    pub fn keys(&self) -> (v: Vec<String>)
        ensures
            forall|k: Seq<char>| self@.contains_key(k) <==> exists|i: int| 0 <= i < v@.len() && (#[trigger] v@[i])@ == k,
    {
        let mut v: Vec<String> = Vec::new();
        let mut i: usize = 0;
        while i < self.entries.len()
            invariant
                i <= self.entries@.len(),
                v@.len() == i,
                forall|j: int| 0 <= j < i ==> (#[trigger] v@[j])@ == self.entries@[j].0@,
            decreases self.entries.len() - i,
        {
            v.push(self.entries[i].0.clone());
            i = i + 1;
        }
        assert forall|k: Seq<char>| self@.contains_key(k) <==> exists|i: int| 0 <= i < v@.len() && (#[trigger] v@[i])@ == k by {
            if exists|i: int| 0 <= i < v@.len() && (#[trigger] v@[i])@ == k {
                let i = choose|i: int| 0 <= i < v@.len() && (#[trigger] v@[i])@ == k;
                lemma_entries_map_has(self.entries@, k, i);
            } else {
                assert forall|j: int| 0 <= j < self.entries@.len() implies (#[trigger] self.entries@[j]).0@ != k by {
                    assert(v@[j]@ == self.entries@[j].0@);
                }
                lemma_entries_map_absent(self.entries@, k);
            }
        }
        v
    }

    pub fn contains_key(&self, name: &str) -> (r: bool)
        ensures
            r == self@.contains_key(name@),
    {
        self.get(name).is_some()
    }

    /// Drops the binding of `name`, if any.
    pub fn remove(&mut self, name: &str)
        ensures
            final(self)@ == old(self)@.remove(name@),
    {
        let ghost k = name@;
        let ghost pred = |e: (String, V)| e.0@ != k;
        let mut old_entries: Vec<(String, V)> = Vec::new();
        std::mem::swap(&mut old_entries, &mut self.entries);
        let mut kept: Vec<(String, V)> = Vec::new();
        let mut rest = old_entries;
        let ghost all = rest@;
        // move the entries out one by one, from the back
        let mut moved: Vec<(String, V)> = Vec::new();
        while rest.len() > 0
            invariant
                all == rest@ + moved@.reverse(),
            decreases rest.len(),
        {
            let e = rest.pop().unwrap();
            let ghost before = moved@;
            moved.push(e);
            assert(rest@ + moved@.reverse() =~= all) by {
                assert(moved@.reverse() =~= seq![e] + before.reverse());
            }
        }
        assert(moved@.reverse() =~= all);
        while moved.len() > 0
            invariant
                kept@ == all.subrange(0, all.len() - moved@.len()).filter(pred),
                moved@.reverse() == all.subrange(all.len() - moved@.len(), all.len() as int),
                moved@.len() <= all.len(),
                k == name@,
                pred == (|e: (String, V)| e.0@ != k),
            decreases moved.len(),
        {
            let ghost m = moved@;
            let e = moved.pop().unwrap();
            let ghost idx = all.len() - m.len();
            proof {
                assert(m.reverse()[0] == e);
                assert(all[idx] == e);
                let pre = all.subrange(0, idx);
                assert(all.subrange(0, idx + 1) =~= pre.push(e));
                pre.lemma_filter_push(e, pred);
                assert(moved@.reverse() =~= m.reverse().subrange(1, m.len() as int));
            }
            let ghost ekey = e.0@;
            let keep = !str_eq(e.0.as_str(), name);
            if keep {
                kept.push(e);
            }
            proof {
                let pre = all.subrange(0, idx);
                assert(pred(e) == keep);
                assert(pre.push(e).filter(pred) == (if pred(e) { pre.filter(pred).push(e) } else { pre.filter(pred) }));
                assert(all.len() - moved@.len() == idx + 1);
                assert(kept@ =~= all.subrange(0, idx + 1).filter(pred));
            }
        }
        assert(all.subrange(0, all.len() as int) =~= all);
        proof {
            lemma_entries_map_filter(all, kept@, k);
        }
        self.entries = kept;
    }

    /// Binds `name` to `value`, replacing any earlier binding.
    pub fn insert(&mut self, name: String, value: V)
        ensures
            final(self)@ == old(self)@.insert(name@, value@),
            final(self).value_of(name@) == value,
            forall|k: Seq<char>| k != name@ ==> #[trigger] final(self).value_of(k) == old(self).value_of(k),
    {
        self.entries.push((name, value));
        assert(self.entries@.subrange(0, self.entries@.len() - 1) =~= old(self).entries@);
    }
}

/// Whether `name` is bound in one of the nested scopes.
pub fn name_is_bound(name: &str, scopes: &Vec<NameSet>) -> (r: bool)
    ensures
        r == exists|i: int| 0 <= i < scopes@.len() && (#[trigger] scopes@[i])@.contains(name@),
{
    let mut i: usize = scopes.len();
    while i > 0
        invariant
            i <= scopes@.len(),
            forall|j: int| i <= j < scopes@.len() ==> !(#[trigger] scopes@[j])@.contains(name@),
        decreases i,
    {
        i = i - 1;
        if scopes[i].contains(name) {
            return true;
        }
    }
    false
}

/// The callees that monomorphization leaves alone: the unsigned conversions
/// and the option/result constructors.
pub open spec fn special_callee(name: Seq<char>) -> bool {
    name == "U8"@ || name == "U64"@ || name == "U128"@ || name == "U256"@ || name == "Some"@ || name == "None"@
        || name == "Ok"@ || name == "Err"@
}

pub fn is_special_callee(name: &str) -> (r: bool)
    ensures
        r == special_callee(name@),
{
    str_eq(name, "U8") || str_eq(name, "U64") || str_eq(name, "U128") || str_eq(name, "U256") || str_eq(name, "Some")
        || str_eq(name, "None") || str_eq(name, "Ok") || str_eq(name, "Err")
}

/// A user function declared in the namespace the compiler keeps for itself.
#[derive(Debug)]
pub struct ReservedFunctionName {
    pub name: String,
}

/// User functions may not use the `__clg_` prefix.
pub fn ensure_user_function_name_allowed(name: &str) -> (r: Result<(), ReservedFunctionName>)
    ensures
        match r {
            Ok(_) => !has_prefix(name@, "__clg_"@),
            Err(e) => has_prefix(name@, "__clg_"@) && e.name@ == name@,
        },
{
    if starts_with(name, "__clg_") {
        return Err(ReservedFunctionName { name: name.to_string() });
    }
    Ok(())
}

} // verus!
