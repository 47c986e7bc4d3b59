//! Small keyed tables of the dashboard: display names by session id and the
//! tools that each session may run without asking.
use vstd::prelude::*;
use crate::text::str_eq;

verus! {

pub open spec fn keys_unique(e: Seq<(String, String)>) -> bool {
    forall|i: int, j: int| 0 <= i < j < e.len() ==> #[trigger] e[i].0@ != #[trigger] e[j].0@
}

/// Index of the entry with key `key`, if any.
fn position_of(entries: &Vec<(String, String)>, key: &str) -> (r: Option<usize>)
    ensures
        r matches Some(i) ==> i < entries.len() && entries@[i as int].0@ == key@,
        r is None ==> forall|k: int| 0 <= k < entries.len() ==> entries@[k].0@ != key@,
{
    let mut i: usize = 0;
    while i < entries.len()
        invariant
            i <= entries.len(),
            forall|k: int| 0 <= k < i ==> entries@[k].0@ != key@,
        decreases entries.len() - i,
    {
        if str_eq(entries[i].0.as_str(), key) {
            return Some(i);
        }
        i = i + 1;
    }
    None
}

/// A map from session id to a display name.
pub struct NameTable {
    entries: Vec<(String, String)>,
}

impl View for NameTable {
    type V = Map<Seq<char>, Seq<char>>;

    closed spec fn view(&self) -> Map<Seq<char>, Seq<char>> {
        Map::new(
            |k: Seq<char>| exists|i: int| 0 <= i < self.entries@.len() && self.entries@[i].0@ == k,
            |k: Seq<char>|
                self.entries@[choose|i: int|
                    0 <= i < self.entries@.len() && self.entries@[i].0@ == k].1@,
        )
    }
}

impl NameTable {
    #[verifier::type_invariant]
    spec fn inv(self) -> bool {
        keys_unique(self.entries@)
    }

    proof fn lemma_at(&self, i: int)
        requires
            keys_unique(self.entries@),
            0 <= i < self.entries@.len(),
        ensures
            self@.contains_key(self.entries@[i].0@),
            self@[self.entries@[i].0@] == self.entries@[i].1@,
    {
        let k = self.entries@[i].0@;
        let j = choose|j: int| 0 <= j < self.entries@.len() && self.entries@[j].0@ == k;
        assert(self.entries@[j].0@ == k);
        if j != i {
            if i < j {
                assert(self.entries@[i].0@ != self.entries@[j].0@);
            } else {
                assert(self.entries@[j].0@ != self.entries@[i].0@);
            }
        }
    }

    pub fn new() -> (r: NameTable)
        ensures
            r@ == Map::<Seq<char>, Seq<char>>::empty(),
    {
        let r = NameTable { entries: Vec::new() };
        assert(r@ =~= Map::<Seq<char>, Seq<char>>::empty());
        r
    }

    fn find(&self, key: &str) -> (r: Option<usize>)
        requires
            keys_unique(self.entries@),
        ensures
            r matches Some(i) ==> i < self.entries.len() && self.entries@[i as int].0@ == key@,
            r is None ==> !self@.contains_key(key@),
    {
        let mut i: usize = 0;
        while i < self.entries.len()
            invariant
                i <= self.entries.len(),
                forall|k: int| 0 <= k < i ==> self.entries@[k].0@ != key@,
            decreases self.entries.len() - i,
        {
            if str_eq(self.entries[i].0.as_str(), key) {
                return Some(i);
            }
            i = i + 1;
        }
        None
    }

    /// The name stored for `key`, if any.
    pub fn get(&self, key: &str) -> (r: Option<&String>)
        ensures
            r matches Some(v) ==> self@.contains_key(key@) && self@[key@] == v@,
            r is None ==> !self@.contains_key(key@),
    {
        proof {
            use_type_invariant(self);
        }
        match self.find(key) {
            Some(i) => {
                proof {
                    self.lemma_at(i as int);
                }
                Some(&self.entries[i].1)
            },
            None => None,
        }
    }

    /// Stores `value` under `key`, replacing what was there.
    pub fn insert(&mut self, key: String, value: String)
        ensures
            final(self)@ == old(self)@.insert(key@, value@),
    {
        proof {
            use_type_invariant(&*self);
        }
        let ghost old_t = *self;
        let mut entries: Vec<(String, String)> = Vec::new();
        std::mem::swap(&mut entries, &mut self.entries);
        let ghost e0 = entries@;
        let pos = position_of(&entries, key.as_str());
        let ghost kv = key@;
        let ghost vv = value@;
        let ghost i: int = match pos {
            Some(p) => p as int,
            None => e0.len() as int,
        };
        match pos {
            Some(p) => {
                entries.set(p, (key, value));
            },
            None => {
                entries.push((key, value));
            },
        }
        let ghost e1 = entries@;
        proof {
            assert(keys_unique(e1)) by {
                assert forall|a: int, b: int| 0 <= a < b < e1.len() implies #[trigger] e1[a].0@
                    != #[trigger] e1[b].0@ by {
                    if a != i {
                        assert(e1[a] == e0[a]);
                    }
                    if b != i {
                        assert(e1[b] == e0[b]);
                    }
                }
            }
        }
        self.entries = entries;
        proof {
            let t = *self;
            assert forall|q: Seq<char>| #[trigger] t@.contains_key(q) == old_t@.insert(
                kv,
                vv,
            ).contains_key(q) by {
                if q != kv {
                    if t@.contains_key(q) {
                        let j = choose|j: int| 0 <= j < e1.len() && e1[j].0@ == q;
                        assert(e0[j].0@ == q);
                    }
                    if old_t@.contains_key(q) {
                        let j = choose|j: int| 0 <= j < e0.len() && e0[j].0@ == q;
                        if j != i {
                            assert(e1[j] == e0[j]);
                        }
                    }
                } else {
                    assert(e1[i].0@ == kv);
                }
            }
            assert forall|q: Seq<char>| #[trigger] t@.contains_key(q) implies t@[q]
                == old_t@.insert(kv, vv)[q] by {
                let j = choose|j: int| 0 <= j < e1.len() && e1[j].0@ == q;
                t.lemma_at(j);
                if q != kv {
                    assert(e1[j] == e0[j]);
                    old_t.lemma_at(j);
                } else {
                    t.lemma_at(i);
                }
            }
            assert(t@ =~= old_t@.insert(kv, vv));
        }
    }

    /// Forgets the name stored for `key`.
    pub fn remove(&mut self, key: &str)
        ensures
            final(self)@ == old(self)@.remove(key@),
    {
        proof {
            use_type_invariant(&*self);
        }
        let ghost old_t = *self;
        let mut entries: Vec<(String, String)> = Vec::new();
        std::mem::swap(&mut entries, &mut self.entries);
        let ghost e0 = entries@;
        let pos = position_of(&entries, key);
        let ghost i: int = match pos {
            Some(p) => p as int,
            None => e0.len() as int,
        };
        if let Some(p) = pos {
            entries.remove(p);
        }
        let ghost e1 = entries@;
        proof {
            assert(keys_unique(e1)) by {
                if i < e0.len() {
                    assert forall|a: int, b: int| 0 <= a < b < e1.len() implies #[trigger] e1[a].0@
                        != #[trigger] e1[b].0@ by {
                        let a0 = if a < i { a } else { a + 1 };
                        let b0 = if b < i { b } else { b + 1 };
                        assert(e1[a] == e0[a0] && e1[b] == e0[b0]);
                    }
                }
            }
        }
        self.entries = entries;
        proof {
            let t = *self;
            assert forall|q: Seq<char>| #[trigger] t@.contains_key(q) == old_t@.remove(
                key@,
            ).contains_key(q) by {
                if t@.contains_key(q) {
                    let j = choose|j: int| 0 <= j < e1.len() && e1[j].0@ == q;
                    let j0 = if i < e0.len() && j >= i { j + 1 } else { j };
                    assert(e1[j] == e0[j0]);
                    if i < e0.len() && q == key@ {
                        if j0 < i {
                            assert(e0[j0].0@ != e0[i].0@);
                        } else {
                            assert(e0[i].0@ != e0[j0].0@);
                        }
                    }
                }
                if old_t@.contains_key(q) && q != key@ {
                    let j = choose|j: int| 0 <= j < e0.len() && e0[j].0@ == q;
                    if i < e0.len() {
                        let j1 = if j < i { j } else { j - 1 };
                        assert(j != i);
                        assert(e1[j1] == e0[j]);
                    } else {
                        assert(e1[j] == e0[j]);
                    }
                }
            }
            assert forall|q: Seq<char>| #[trigger] t@.contains_key(q) implies t@[q]
                == old_t@.remove(key@)[q] by {
                let j = choose|j: int| 0 <= j < e1.len() && e1[j].0@ == q;
                t.lemma_at(j);
                let j0 = if i < e0.len() && j >= i { j + 1 } else { j };
                assert(e1[j] == e0[j0]);
                old_t.lemma_at(j0);
            }
            assert(t@ =~= old_t@.remove(key@));
        }
    }
}


pub open spec fn grant_keys_unique(e: Seq<(String, Vec<String>)>) -> bool {
    forall|i: int, j: int| 0 <= i < j < e.len() ==> #[trigger] e[i].0@ != #[trigger] e[j].0@
}

pub open spec fn tool_set(tools: Seq<String>) -> Set<Seq<char>> {
    Set::new(|t: Seq<char>| exists|j: int| 0 <= j < tools.len() && tools[j]@ == t)
}

/// For each session id, the tool names that are approved for the rest of
/// that session.
pub struct ToolGrants {
    entries: Vec<(String, Vec<String>)>,
}

impl View for ToolGrants {
    type V = Map<Seq<char>, Set<Seq<char>>>;

    closed spec fn view(&self) -> Map<Seq<char>, Set<Seq<char>>> {
        Map::new(
            |k: Seq<char>| exists|i: int| 0 <= i < self.entries@.len() && self.entries@[i].0@ == k,
            |k: Seq<char>|
                tool_set(
                    self.entries@[choose|i: int|
                        0 <= i < self.entries@.len() && self.entries@[i].0@ == k].1@,
                ),
        )
    }
}

fn grant_position(entries: &Vec<(String, Vec<String>)>, key: &str) -> (r: Option<usize>)
    ensures
        r matches Some(i) ==> i < entries.len() && entries@[i as int].0@ == key@,
        r is None ==> forall|k: int| 0 <= k < entries.len() ==> entries@[k].0@ != key@,
{
    let mut i: usize = 0;
    while i < entries.len()
        invariant
            i <= entries.len(),
            forall|k: int| 0 <= k < i ==> entries@[k].0@ != key@,
        decreases entries.len() - i,
    {
        if str_eq(entries[i].0.as_str(), key) {
            return Some(i);
        }
        i = i + 1;
    }
    None
}

impl ToolGrants {
    #[verifier::type_invariant]
    spec fn inv(self) -> bool {
        grant_keys_unique(self.entries@)
    }

    proof fn lemma_at(&self, i: int)
        requires
            grant_keys_unique(self.entries@),
            0 <= i < self.entries@.len(),
        ensures
            self@.contains_key(self.entries@[i].0@),
            self@[self.entries@[i].0@] == tool_set(self.entries@[i].1@),
    {
        let k = self.entries@[i].0@;
        let j = choose|j: int| 0 <= j < self.entries@.len() && self.entries@[j].0@ == k;
        assert(self.entries@[j].0@ == k);
        if j != i {
            if i < j {
                assert(self.entries@[i].0@ != self.entries@[j].0@);
            } else {
                assert(self.entries@[j].0@ != self.entries@[i].0@);
            }
        }
    }

    pub fn new() -> (r: ToolGrants)
        ensures
            r@ == Map::<Seq<char>, Set<Seq<char>>>::empty(),
    {
        let r = ToolGrants { entries: Vec::new() };
        assert(r@ =~= Map::<Seq<char>, Set<Seq<char>>>::empty());
        r
    }

    /// Whether `tool` is approved for the rest of session `session`.
    pub fn allows(&self, session: &str, tool: &str) -> (r: bool)
        ensures
            r == (self@.contains_key(session@) && self@[session@].contains(tool@)),
    {
        proof {
            use_type_invariant(self);
        }
        match grant_position(&self.entries, session) {
            Some(i) => {
                proof {
                    self.lemma_at(i as int);
                }
                let tools = &self.entries[i].1;
                let mut j: usize = 0;
                while j < tools.len()
                    invariant
                        j <= tools.len(),
                        forall|k: int| 0 <= k < j ==> tools@[k]@ != tool@,
                        self@.contains_key(session@),
                        self@[session@] == tool_set(tools@),
                    decreases tools.len() - j,
                {
                    if str_eq(tools[j].as_str(), tool) {
                        assert(tool_set(tools@).contains(tool@));
                        return true;
                    }
                    j = j + 1;
                }
                assert(!tool_set(tools@).contains(tool@));
                false
            },
            None => false,
        }
    }

    /// Approves `tool` for the rest of session `session`.
    pub fn grant(&mut self, session: String, tool: String)
        ensures
            final(self)@ == old(self)@.insert(
                session@,
                (if old(self)@.contains_key(session@) {
                    old(self)@[session@]
                } else {
                    Set::empty()
                }).insert(tool@),
            ),
    {
        proof {
            use_type_invariant(&*self);
        }
        let ghost old_t = *self;
        let ghost kv = session@;
        let ghost tv = tool@;
        let ghost before = if old_t@.contains_key(kv) {
            old_t@[kv]
        } else {
            Set::empty()
        };
        let mut entries: Vec<(String, Vec<String>)> = Vec::new();
        std::mem::swap(&mut entries, &mut self.entries);
        let ghost e0 = entries@;
        let pos = grant_position(&entries, session.as_str());
        let ghost i: int = match pos {
            Some(p) => p as int,
            None => e0.len() as int,
        };
        match pos {
            Some(p) => {
                proof {
                    old_t.lemma_at(p as int);
                }
                let ghost tools0 = entries@[p as int].1@;
                let ghost tstr = tool;
                entries[p].1.push(tool);
                assert(entries@[p as int].1@ == tools0.push(tstr));
                assert(tool_set(tools0.push(tstr)) =~= tool_set(tools0).insert(tv)) by {
                    assert forall|t: Seq<char>| #[trigger] tool_set(tools0.push(tstr)).contains(t)
                        implies tool_set(tools0).insert(tv).contains(t) by {
                        let j = choose|j: int| 0 <= j < tools0.len() + 1 && tools0.push(tstr)[j]@ == t;
                        if j < tools0.len() {
                            assert(tools0[j]@ == t);
                        }
                    }
                    assert forall|t: Seq<char>| #[trigger] tool_set(tools0).insert(tv).contains(t)
                        implies tool_set(tools0.push(tstr)).contains(t) by {
                        if t == tv {
                            assert(tools0.push(tstr)[tools0.len() as int]@ == t);
                        } else {
                            let j = choose|j: int| 0 <= j < tools0.len() && tools0[j]@ == t;
                            assert(tools0.push(tstr)[j]@ == t);
                        }
                    }
                }
            },
            None => {
                let mut tools: Vec<String> = Vec::new();
                tools.push(tool);
                assert(tool_set(tools@) =~= Set::<Seq<char>>::empty().insert(tv)) by {
                    assert(tools@[0]@ == tv);
                }
                entries.push((session, tools));
            },
        }
        let ghost e1 = entries@;
        proof {
            assert(e1.len() >= e0.len());
            assert(e1[i].0@ == kv);
            assert(tool_set(e1[i].1@) == before.insert(tv));
            assert forall|k: int| 0 <= k < e1.len() && k != i implies #[trigger] e1[k] == e0[k] by {}
            assert(grant_keys_unique(e1)) by {
                assert forall|a: int, b: int| 0 <= a < b < e1.len() implies #[trigger] e1[a].0@
                    != #[trigger] e1[b].0@ by {
                    if a != i {
                        assert(e1[a] == e0[a]);
                    }
                    if b != i {
                        assert(e1[b] == e0[b]);
                    }
                }
            }
        }
        self.entries = entries;
        proof {
            let t = *self;
            let target = old_t@.insert(kv, before.insert(tv));
            assert forall|q: Seq<char>| #[trigger] t@.contains_key(q) == target.contains_key(q) by {
                if q != kv {
                    if t@.contains_key(q) {
                        let j = choose|j: int| 0 <= j < e1.len() && e1[j].0@ == q;
                        assert(e0[j].0@ == q);
                    }
                    if old_t@.contains_key(q) {
                        let j = choose|j: int| 0 <= j < e0.len() && e0[j].0@ == q;
                        assert(j != i);
                        assert(e1[j] == e0[j]);
                    }
                } else {
                    assert(e1[i].0@ == kv);
                }
            }
            assert forall|q: Seq<char>| #[trigger] t@.contains_key(q) implies t@[q] == target[q] by {
                let j = choose|j: int| 0 <= j < e1.len() && e1[j].0@ == q;
                t.lemma_at(j);
                if q != kv {
                    assert(j != i);
                    assert(e1[j] == e0[j]);
                    old_t.lemma_at(j);
                } else {
                    t.lemma_at(i);
                }
            }
            assert(t@ =~= target);
        }
    }
}

} // verus!
