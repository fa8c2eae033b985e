use vstd::prelude::*;

verus! {

/// The system prompt that opens every new chat session.
pub const SYSTEM_PROMPT: &'static str = "The assistant will act like a pirate";

/// The name of the file that holds the saved session of `username`: the
/// user name followed by `.txt`.
pub fn session_file_name(username: &String) -> (name: String)
    ensures
        name@ == username@ + ".txt"@,
{
    let mut name = username.clone();
    name.append(".txt");
    name
}

/// The messages of a chat history after its first one, the system prompt.
pub fn history_after_prompt(history: &Vec<String>) -> (out: Vec<String>)
    ensures
        out@ == (if history@.len() == 0 {
            Seq::<String>::empty()
        } else {
            history@.skip(1)
        }),
{
    let mut out: Vec<String> = Vec::new();
    let n = history.len();
    let mut i: usize = 1;
    while i < n
        invariant
            n == history@.len(),
            1 <= i,
            n > 0 ==> i <= n,
            n > 0 ==> out@ == history@.subrange(1, i as int),
            n == 0 ==> out@ == Seq::<String>::empty(),
        decreases n - i,
    {
        out.push(history[i].clone());
        assert(out@ =~= history@.subrange(1, i + 1));
        i = i + 1;
    }
    if n > 0 {
        assert(history@.skip(1) =~= history@.subrange(1, n as int));
    }
    out
}

/// The chat sessions of a chatbot, one per user name.
pub struct SessionStore<S> {
    names: Vec<String>,
    sessions: Vec<S>,
}

/// The map from each name to the session at its position.
pub open spec fn pairs_map<S>(names: Seq<Seq<char>>, sessions: Seq<S>) -> Map<Seq<char>, S> {
    Map::new(
        |k: Seq<char>| exists|i: int| 0 <= i < names.len() && names[i] == k,
        |k: Seq<char>| sessions[choose|i: int| 0 <= i < names.len() && names[i] == k],
    )
}

/// The names are pairwise distinct.
pub open spec fn distinct_names(names: Seq<Seq<char>>) -> bool {
    forall|i: int, j: int| 0 <= i < names.len() && 0 <= j < names.len() && i != j ==> names[i] != names[j]
}

/// With distinct names, the name at position `i` maps to the session at `i`.
proof fn lemma_pairs_map_at<S>(names: Seq<Seq<char>>, sessions: Seq<S>, i: int)
    requires
        distinct_names(names),
        0 <= i < names.len(),
    ensures
        pairs_map(names, sessions).contains_key(names[i]),
        pairs_map(names, sessions)[names[i]] == sessions[i],
{
    let k = names[i];
    assert(exists|j: int| 0 <= j < names.len() && names[j] == k) by {
        assert(names[i] == k);
    }
    let j = choose|j: int| 0 <= j < names.len() && names[j] == k;
    assert(j == i);
}

/// Replacing the session at position `i` replaces the session of the name at `i`.
proof fn lemma_pairs_map_update<S>(names: Seq<Seq<char>>, sessions: Seq<S>, i: int)
    requires
        distinct_names(names),
        0 <= i < names.len() == sessions.len(),
    ensures
        forall|x: S|
            #[trigger] pairs_map(names, sessions.update(i, x)) == pairs_map(names, sessions).insert(
                names[i],
                x,
            ),
{
    assert forall|x: S|
        #[trigger] pairs_map(names, sessions.update(i, x)) == pairs_map(names, sessions).insert(
            names[i],
            x,
        ) by {
        let m1 = pairs_map(names, sessions.update(i, x));
        let m2 = pairs_map(names, sessions).insert(names[i], x);
        assert forall|k: Seq<char>| m1.contains_key(k) == m2.contains_key(k) by {
            if m2.contains_key(k) && k == names[i] {
                lemma_pairs_map_at(names, sessions.update(i, x), i);
            }
        }
        assert forall|k: Seq<char>| m1.contains_key(k) implies m1[k] == m2[k] by {
            let j = choose|j: int| 0 <= j < names.len() && names[j] == k;
            lemma_pairs_map_at(names, sessions.update(i, x), j);
            lemma_pairs_map_at(names, sessions, j);
        }
        assert(m1 =~= m2);
    }
}

/// Appending a new name with its session adds that pair to the map.
proof fn lemma_pairs_map_push<S>(names: Seq<Seq<char>>, sessions: Seq<S>, k: Seq<char>, x: S)
    requires
        distinct_names(names),
        names.len() == sessions.len(),
        !names.contains(k),
    ensures
        distinct_names(names.push(k)),
        pairs_map(names.push(k), sessions.push(x)) == pairs_map(names, sessions).insert(k, x),
{
    let n2 = names.push(k);
    let s2 = sessions.push(x);
    assert(distinct_names(n2)) by {
        assert forall|i: int, j: int| 0 <= i < n2.len() && 0 <= j < n2.len() && i != j implies n2[i]
            != n2[j] by {
            if i == names.len() {
                assert(names[j] == n2[j]);
            } else if j == names.len() {
                assert(names[i] == n2[i]);
            }
        }
    }
    let m1 = pairs_map(n2, s2);
    let m2 = pairs_map(names, sessions).insert(k, x);
    assert forall|key: Seq<char>| m1.contains_key(key) == m2.contains_key(key) by {
        if m2.contains_key(key) && key != k {
            let j = choose|j: int| 0 <= j < names.len() && names[j] == key;
            assert(n2[j] == key);
        }
        if m1.contains_key(key) && key != k {
            let j = choose|j: int| 0 <= j < n2.len() && n2[j] == key;
            assert(names[j] == key);
        }
        if key == k {
            assert(n2[names.len() as int] == k);
        }
    }
    assert forall|key: Seq<char>| m1.contains_key(key) implies m1[key] == m2[key] by {
        let j = choose|j: int| 0 <= j < n2.len() && n2[j] == key;
        lemma_pairs_map_at(n2, s2, j);
        if j < names.len() {
            lemma_pairs_map_at(names, sessions, j);
        }
    }
    assert(m1 =~= m2);
}

impl<S> View for SessionStore<S> {
    type V = Map<Seq<char>, S>;

    closed spec fn view(&self) -> Map<Seq<char>, S> {
        pairs_map(self.names@.map_values(|s: String| s@), self.sessions@)
    }
}

impl<S> SessionStore<S> {
    /// The names, as character sequences.
    closed spec fn keys(&self) -> Seq<Seq<char>> {
        self.names@.map_values(|s: String| s@)
    }

    /// Each name is paired with one session, and no name occurs twice.
    pub closed spec fn wf(&self) -> bool {
        &&& self.names@.len() == self.sessions@.len()
        &&& distinct_names(self.keys())
    }

    /// A store without sessions.
    pub fn new() -> (store: Self)
        ensures
            store.wf(),
            store@ == Map::<Seq<char>, S>::empty(),
    {
        let store = SessionStore { names: Vec::new(), sessions: Vec::new() };
        assert(store@ =~= Map::<Seq<char>, S>::empty());
        store
    }

    /// The position of `name`, if it has a session.
    fn position(&self, name: &String) -> (p: Option<usize>)
        requires
            self.wf(),
        ensures
            p matches Some(i) ==> i < self.names@.len() && self.keys()[i as int] == name@,
            p is None ==> !self@.contains_key(name@),
    {
        let ghost keys = self.keys();
        let n = self.names.len();
        for i in 0..n
            invariant
                n == self.names@.len(),
                keys == self.keys(),
                forall|j: int| 0 <= j < i ==> keys[j] != name@,
        {
            if self.names[i] == *name {
                return Some(i);
            }
        }
        None
    }

    /// The number of sessions.
    pub fn len(&self) -> (n: usize)
        requires
            self.wf(),
        ensures
            n == self@.len(),
    {
        proof {
            self.lemma_len();
        }
        self.names.len()
    }

    proof fn lemma_len(&self)
        requires
            self.wf(),
        ensures
            self@.dom().finite(),
            self@.len() == self.names@.len(),
    {
        let names = self.keys();
        assert(self@.dom() =~= names.to_set());
        assert(names.no_duplicates());
        names.unique_seq_to_set();
    }

    /// Whether `name` has a session.
    pub fn contains_key(&self, name: &String) -> (b: bool)
        requires
            self.wf(),
        ensures
            b == self@.contains_key(name@),
    {
        self.position(name).is_some()
    }

    /// The session of `name`, if there is one.
    pub fn get(&self, name: &String) -> (s: Option<&S>)
        requires
            self.wf(),
        ensures
            s == (if self@.contains_key(name@) {
                Some(&self@[name@])
            } else {
                None
            }),
    {
        match self.position(name) {
            Some(i) => {
                proof {
                    lemma_pairs_map_at(self.keys(), self.sessions@, i as int);
                }
                Some(&self.sessions[i])
            },
            None => None,
        }
    }

    /// The session of `name`, which must have one, for updating in place.
    pub fn get_mut(&mut self, name: &String) -> (s: &mut S)
        requires
            old(self).wf(),
            old(self)@.contains_key(name@),
        ensures
            *s == old(self)@[name@],
            final(self).wf(),
            final(self)@ == old(self)@.insert(name@, *final(s)),
    {
        let i = match self.position(name) {
            Some(i) => i,
            None => 0,
        };
        proof {
            lemma_pairs_map_at(self.keys(), self.sessions@, i as int);
        }
        proof {
            lemma_pairs_map_update(self.keys(), self.sessions@, i as int);
        }
        &mut self.sessions[i]
    }

    /// Stores `session` as the session of `name`, replacing any earlier one.
    pub fn insert(&mut self, name: String, session: S)
        requires
            old(self).wf(),
        ensures
            final(self).wf(),
            final(self)@ == old(self)@.insert(name@, session),
    {
        match self.position(&name) {
            Some(i) => {
                proof {
                    lemma_pairs_map_update(self.keys(), self.sessions@, i as int);
                }
                self.sessions.set(i, session);
            },
            None => {
                let ghost keys = self.keys();
                proof {
                    if keys.contains(name@) {
                        let j = choose|j: int| 0 <= j < keys.len() && keys[j] == name@;
                        lemma_pairs_map_at(keys, self.sessions@, j);
                    }
                    lemma_pairs_map_push(keys, self.sessions@, name@, session);
                }
                self.names.push(name);
                self.sessions.push(session);
                assert(self.keys() =~= keys.push(name@));
            },
        }
    }
}

/// The position of the entry named `name` at or after `i`, or -1.
pub open spec fn position_from<S>(entries: Seq<(Seq<char>, S)>, name: Seq<char>, i: int) -> int
    decreases entries.len() - i,
{
    if i < 0 || i >= entries.len() {
        -1
    } else if entries[i].0 == name {
        i
    } else {
        position_from(entries, name, i + 1)
    }
}

/// The position of the entry named `name`, or -1.
pub open spec fn position_of<S>(entries: Seq<(Seq<char>, S)>, name: Seq<char>) -> int {
    position_from(entries, name, 0)
}

/// The session stored under `name`, if any.
pub open spec fn lookup<S>(entries: Seq<(Seq<char>, S)>, name: Seq<char>) -> Option<S> {
    let p = position_of(entries, name);
    if p >= 0 {
        Some(entries[p].1)
    } else {
        None
    }
}

/// The entries after a use of `name`: its entry, if any, becomes the most recent.
pub open spec fn touched<S>(entries: Seq<(Seq<char>, S)>, name: Seq<char>) -> Seq<(Seq<char>, S)> {
    let p = position_of(entries, name);
    if p >= 0 {
        entries.remove(p).push(entries[p])
    } else {
        entries
    }
}

/// The entries after storing `session` under `name` in a cache holding at
/// most `capacity` entries: an earlier entry of `name` is replaced; otherwise,
/// in a full cache, the least recently used entry (the first) is evicted.
/// The new entry is the most recent.
pub open spec fn inserted<S>(entries: Seq<(Seq<char>, S)>, capacity: nat, name: Seq<char>, session: S) -> Seq<
    (Seq<char>, S),
> {
    let p = position_of(entries, name);
    if p >= 0 {
        entries.remove(p).push((name, session))
    } else if entries.len() >= capacity {
        entries.remove(0).push((name, session))
    } else {
        entries.push((name, session))
    }
}

/// No two entries share a name.
pub open spec fn distinct_entries<S>(entries: Seq<(Seq<char>, S)>) -> bool {
    forall|i: int, j: int|
        0 <= i < entries.len() && 0 <= j < entries.len() && i != j ==> entries[i].0 != entries[j].0
}

/// A cache of chat sessions keyed by user name, holding at most `capacity`
/// sessions and evicting the least recently used one when a new user comes.
pub struct Cache<S> {
    names: Vec<String>,
    items: Vec<S>,
    capacity: usize,
}

impl<S> View for Cache<S> {
    type V = Seq<(Seq<char>, S)>;

    /// The entries, from the least to the most recently used.
    closed spec fn view(&self) -> Seq<(Seq<char>, S)> {
        Seq::new(self.names@.len(), |i: int| (self.names@[i]@, self.items@[i]))
    }
}

impl<S> Cache<S> {
    /// The capacity.
    pub closed spec fn spec_capacity(&self) -> nat {
        self.capacity as nat
    }

    /// Names and sessions pair up, names are distinct, and the cache holds at
    /// most its capacity, which is positive.
    pub closed spec fn wf(&self) -> bool {
        &&& self.names@.len() == self.items@.len()
        &&& distinct_entries(self@)
        &&& self@.len() <= self.capacity
        &&& self.capacity > 0
    }

    /// An empty cache holding at most `capacity` sessions.
    pub fn new(capacity: usize) -> (c: Self)
        requires
            capacity > 0,
        ensures
            c.wf(),
            c@ == Seq::<(Seq<char>, S)>::empty(),
            c.spec_capacity() == capacity,
    {
        let c = Cache { names: Vec::new(), items: Vec::new(), capacity };
        assert(c@ =~= Seq::<(Seq<char>, S)>::empty());
        c
    }

    /// The number of sessions held.
    pub fn len(&self) -> (n: usize)
        requires
            self.wf(),
        ensures
            n == self@.len(),
    {
        self.names.len()
    }

    /// The position of `name`, if the cache holds it.
    fn find(&self, name: &String) -> (p: Option<usize>)
        requires
            self.wf(),
        ensures
            p matches Some(i) ==> i as int == position_of(self@, name@) && i < self@.len(),
            p is None ==> position_of(self@, name@) == -1,
    {
        let n = self.names.len();
        let mut i: usize = 0;
        while i < n
            invariant
                n == self.names@.len(),
                self.wf(),
                i <= n,
                position_from(self@, name@, i as int) == position_of(self@, name@),
            decreases n - i,
        {
            if self.names[i] == *name {
                return Some(i);
            }
            i = i + 1;
        }
        None
    }

    /// Removes the entry at position `i`.
    fn remove_at(&mut self, i: usize)
        requires
            old(self).wf(),
            i < old(self)@.len(),
        ensures
            final(self).names@.len() == final(self).items@.len(),
            final(self).capacity == old(self).capacity,
            final(self)@ == old(self)@.remove(i as int),
            distinct_entries(final(self)@),
    {
        let ghost e = self@;
        self.names.remove(i);
        self.items.remove(i);
        assert(self@ =~= e.remove(i as int));
        assert(distinct_entries(self@)) by {
            let f = self@;
            assert forall|a: int, b: int| 0 <= a < f.len() && 0 <= b < f.len() && a != b implies f[a].0
                != f[b].0 by {
                let ia = if a < i { a } else { a + 1 };
                let ib = if b < i { b } else { b + 1 };
                assert(f[a].0 == e[ia].0);
                assert(f[b].0 == e[ib].0);
            }
        }
    }

    /// Appends an entry whose name the cache does not hold.
    fn push_entry(&mut self, name: String, session: S)
        requires
            old(self).names@.len() == old(self).items@.len(),
            distinct_entries(old(self)@),
            lookup(old(self)@, name@) is None,
            old(self)@.len() < old(self).capacity,
            old(self).capacity > 0,
        ensures
            final(self).wf(),
            final(self).capacity == old(self).capacity,
            final(self)@ == old(self)@.push((name@, session)),
    {
        let ghost e = self@;
        let ghost k = name@;
        proof {
            lemma_absent(e, k);
        }
        self.names.push(name);
        self.items.push(session);
        assert(self@ =~= e.push((k, session)));
        assert(distinct_entries(self@)) by {
            let f = self@;
            assert forall|a: int, b: int| 0 <= a < f.len() && 0 <= b < f.len() && a != b implies f[a].0
                != f[b].0 by {
                if a < e.len() {
                    assert(f[a] == e[a]);
                }
                if b < e.len() {
                    assert(f[b] == e[b]);
                }
            }
        }
    }

    /// The session of `name`, if the cache holds it; that entry becomes the
    /// most recently used.
    pub fn get_chat(&mut self, name: &String) -> (s: Option<&S>)
        requires
            old(self).wf(),
        ensures
            final(self).wf(),
            final(self).spec_capacity() == old(self).spec_capacity(),
            final(self)@ == touched(old(self)@, name@),
            s == (match lookup(old(self)@, name@) {
                Some(x) => Some(&x),
                None => None,
            }),
    {
        match self.find(name) {
            Some(i) => {
                let ghost e = self@;
                let n = self.names.remove(i);
                let item = self.items.remove(i);
                assert(self@ =~= e.remove(i as int));
                proof {
                    lemma_remove_distinct(e, i as int);
                }
                assert(n@ == e[i as int].0);
                assert(item == e[i as int].1);
                assert(lookup(e, name@) == Some(e[i as int].1));
                self.push_entry(n, item);
                let last = self.items.len() - 1;
                assert(self@[last as int] == self@.last());
                assert(self@.last().1 == item);
                Some(&self.items[last])
            },
            None => None,
        }
    }

    /// Stores `session` as the session of `name`, which becomes the most
    /// recently used entry; a full cache first evicts its least recently used
    /// entry when `name` is new to it.
    pub fn insert_chat(&mut self, name: String, session: S)
        requires
            old(self).wf(),
        ensures
            final(self).wf(),
            final(self).spec_capacity() == old(self).spec_capacity(),
            final(self)@ == inserted(old(self)@, old(self).spec_capacity(), name@, session),
    {
        let ghost e = self@;
        match self.find(&name) {
            Some(i) => {
                proof {
                    lemma_position_from(e, name@, 0);
                }
                self.remove_at(i);
                proof {
                    lemma_remove_distinct(e, i as int);
                    assert(e.remove(i as int).len() < self.capacity);
                }
                self.push_entry(name, session);
            },
            None => {
                if self.names.len() >= self.capacity {
                    self.remove_at(0);
                    proof {
                        lemma_remove_distinct(e, 0);
                        lemma_absent(e, name@);
                        lemma_absent_sub(e, 0, name@);
                    }
                } else {
                    proof {
                        lemma_absent(e, name@);
                    }
                }
                self.push_entry(name, session);
            },
        }
    }
}

/// `position_from` finds the first entry at or after `i` with the name, if any.
proof fn lemma_position_from<S>(entries: Seq<(Seq<char>, S)>, name: Seq<char>, i: int)
    requires
        0 <= i,
    ensures
        position_from(entries, name, i) == -1 || i <= position_from(entries, name, i) < entries.len(),
        position_from(entries, name, i) >= 0 ==> entries[position_from(entries, name, i)].0 == name,
        position_from(entries, name, i) == -1 ==> forall|j: int|
            i <= j < entries.len() ==> entries[j].0 != name,
    decreases entries.len() - i,
{
    if i < entries.len() && entries[i].0 != name {
        lemma_position_from(entries, name, i + 1);
    }
}

/// In entries with distinct names, a name at position `j` is found at `j`.
proof fn lemma_position_at<S>(entries: Seq<(Seq<char>, S)>, j: int)
    requires
        distinct_entries(entries),
        0 <= j < entries.len(),
    ensures
        position_of(entries, entries[j].0) == j,
{
    lemma_position_from(entries, entries[j].0, 0);
}

/// A name not found occurs nowhere; `lookup` agrees.
proof fn lemma_absent<S>(entries: Seq<(Seq<char>, S)>, name: Seq<char>)
    ensures
        position_of(entries, name) == -1 <==> (forall|j: int| 0 <= j < entries.len() ==> entries[j].0 != name),
        lookup(entries, name) is None <==> position_of(entries, name) == -1,
{
    lemma_position_from(entries, name, 0);
}

/// A name absent from the entries is absent once one is removed.
proof fn lemma_absent_sub<S>(entries: Seq<(Seq<char>, S)>, i: int, name: Seq<char>)
    requires
        0 <= i < entries.len(),
        position_of(entries, name) == -1,
    ensures
        position_of(entries.remove(i), name) == -1,
{
    lemma_absent(entries, name);
    lemma_absent(entries.remove(i), name);
    assert forall|j: int| 0 <= j < entries.remove(i).len() implies entries.remove(i)[j].0 != name by {
        if j < i {
            assert(entries.remove(i)[j] == entries[j]);
        } else {
            assert(entries.remove(i)[j] == entries[j + 1]);
        }
    }
}

/// Removing an entry keeps the names distinct, and drops that name.
proof fn lemma_remove_distinct<S>(entries: Seq<(Seq<char>, S)>, i: int)
    requires
        distinct_entries(entries),
        0 <= i < entries.len(),
    ensures
        distinct_entries(entries.remove(i)),
        lookup(entries.remove(i), entries[i].0) is None,
{
    let f = entries.remove(i);
    assert forall|a: int, b: int| 0 <= a < f.len() && 0 <= b < f.len() && a != b implies f[a].0
        != f[b].0 by {
        let ia = if a < i { a } else { a + 1 };
        let ib = if b < i { b } else { b + 1 };
        assert(f[a] == entries[ia]);
        assert(f[b] == entries[ib]);
    }
    assert forall|j: int| 0 <= j < f.len() implies f[j].0 != entries[i].0 by {
        let ij = if j < i { j } else { j + 1 };
        assert(f[j] == entries[ij]);
    }
    lemma_absent(f, entries[i].0);
}

/// In entries with distinct names, the entry at position `j` is what its name looks up.
proof fn lemma_lookup_at<S>(entries: Seq<(Seq<char>, S)>, j: int)
    requires
        distinct_entries(entries),
        0 <= j < entries.len(),
    ensures
        lookup(entries, entries[j].0) == Some(entries[j].1),
{
    lemma_position_at(entries, j);
}

/// Appending an entry under a new name keeps the names distinct, and the new
/// name looks up the new entry.
proof fn lemma_push_new<S>(entries: Seq<(Seq<char>, S)>, x: (Seq<char>, S))
    requires
        distinct_entries(entries),
        lookup(entries, x.0) is None,
    ensures
        distinct_entries(entries.push(x)),
        lookup(entries.push(x), x.0) == Some(x.1),
        forall|k: Seq<char>| k != x.0 ==> #[trigger] lookup(entries.push(x), k) == lookup(entries, k),
{
    lemma_absent(entries, x.0);
    let f = entries.push(x);
    assert forall|a: int, b: int| 0 <= a < f.len() && 0 <= b < f.len() && a != b implies f[a].0
        != f[b].0 by {
        if a < entries.len() {
            assert(f[a] == entries[a]);
        }
        if b < entries.len() {
            assert(f[b] == entries[b]);
        }
    }
    lemma_lookup_at(f, entries.len() as int);
    assert forall|k: Seq<char>| k != x.0 implies #[trigger] lookup(f, k) == lookup(entries, k) by {
        lemma_absent(entries, k);
        lemma_absent(f, k);
        if lookup(entries, k) is Some {
            lemma_position_from(entries, k, 0);
            let j = position_of(entries, k);
            assert(f[j] == entries[j]);
            lemma_lookup_at(f, j);
            lemma_lookup_at(entries, j);
        } else {
            assert forall|j: int| 0 <= j < f.len() implies f[j].0 != k by {
                if j < entries.len() {
                    assert(f[j] == entries[j]);
                }
            }
        }
    }
}

/// Removing the entry at `i` keeps the lookups of every other name.
proof fn lemma_remove_other<S>(entries: Seq<(Seq<char>, S)>, i: int, k: Seq<char>)
    requires
        distinct_entries(entries),
        0 <= i < entries.len(),
        k != entries[i].0,
    ensures
        lookup(entries.remove(i), k) == lookup(entries, k),
{
    let f = entries.remove(i);
    lemma_remove_distinct(entries, i);
    lemma_absent(entries, k);
    lemma_absent(f, k);
    if lookup(entries, k) is Some {
        lemma_position_from(entries, k, 0);
        let j = position_of(entries, k);
        let jf = if j < i { j } else { j - 1 };
        assert(f[jf] == entries[j]);
        lemma_lookup_at(f, jf);
        lemma_lookup_at(entries, j);
    } else {
        assert forall|j: int| 0 <= j < f.len() implies f[j].0 != k by {
            let je = if j < i { j } else { j + 1 };
            assert(f[j] == entries[je]);
        }
    }
}

/// Law: after a session is stored under a name, that name looks it up, the
/// names stay distinct and the cache holds no more than its capacity.
pub proof fn law_lookup_after_insert<S>(entries: Seq<(Seq<char>, S)>, capacity: nat, name: Seq<char>, session: S)
    requires
        distinct_entries(entries),
        entries.len() <= capacity,
        capacity > 0,
    ensures
        lookup(inserted(entries, capacity, name, session), name) == Some(session),
        distinct_entries(inserted(entries, capacity, name, session)),
        inserted(entries, capacity, name, session).len() <= capacity,
{
    let p = position_of(entries, name);
    lemma_position_from(entries, name, 0);
    lemma_absent(entries, name);
    if p >= 0 {
        lemma_remove_distinct(entries, p);
        lemma_push_new(entries.remove(p), (name, session));
    } else if entries.len() >= capacity {
        lemma_remove_distinct(entries, 0);
        lemma_absent_sub(entries, 0, name);
        lemma_absent(entries.remove(0), name);
        lemma_push_new(entries.remove(0), (name, session));
    } else {
        lemma_push_new(entries, (name, session));
    }
}

/// Law: using a name reorders the cache but changes no lookup.
pub proof fn law_touch_keeps_lookups<S>(entries: Seq<(Seq<char>, S)>, name: Seq<char>, key: Seq<char>)
    requires
        distinct_entries(entries),
    ensures
        lookup(touched(entries, name), key) == lookup(entries, key),
        distinct_entries(touched(entries, name)),
        touched(entries, name).len() == entries.len(),
{
    let p = position_of(entries, name);
    lemma_position_from(entries, name, 0);
    if p >= 0 {
        lemma_remove_distinct(entries, p);
        lemma_push_new(entries.remove(p), entries[p]);
        lemma_lookup_at(entries, p);
        if key != name {
            lemma_remove_other(entries, p, key);
        }
    }
}

/// Law: storing under a new name in a full cache evicts exactly the least
/// recently used entry; no other name loses its session.
pub proof fn law_eviction_is_least_recent<S>(
    entries: Seq<(Seq<char>, S)>,
    capacity: nat,
    name: Seq<char>,
    session: S,
    key: Seq<char>,
)
    requires
        distinct_entries(entries),
        entries.len() <= capacity,
        capacity > 0,
        key != name,
        lookup(entries, key) is Some,
        lookup(inserted(entries, capacity, name, session), key) is None,
    ensures
        entries.len() == capacity,
        lookup(entries, name) is None,
        entries[0].0 == key,
{
    let p = position_of(entries, name);
    lemma_position_from(entries, name, 0);
    lemma_absent(entries, name);
    if p >= 0 {
        lemma_remove_distinct(entries, p);
        lemma_push_new(entries.remove(p), (name, session));
        lemma_remove_other(entries, p, key);
    } else if entries.len() >= capacity {
        lemma_remove_distinct(entries, 0);
        lemma_absent_sub(entries, 0, name);
        lemma_absent(entries.remove(0), name);
        lemma_push_new(entries.remove(0), (name, session));
        if entries[0].0 != key {
            lemma_remove_other(entries, 0, key);
        }
    } else {
        lemma_push_new(entries, (name, session));
    }
}

/// Law: after a session is stored for a user, that user's session is the
/// stored one and every other user keeps theirs.
pub proof fn law_store_insert_then_get<S>(
    sessions: Map<Seq<char>, S>,
    name: Seq<char>,
    session: S,
    other: Seq<char>,
)
    requires
        other != name,
    ensures
        sessions.insert(name, session).contains_key(name),
        sessions.insert(name, session)[name] == session,
        sessions.insert(name, session).contains_key(other) == sessions.contains_key(other),
        sessions.contains_key(other) ==> sessions.insert(name, session)[other] == sessions[other],
{
}

/// Where the entry at `j` of `entries` lands once the entry at `p` moves to the end.
spec fn moved_index(j: int, p: int) -> int {
    if j < p {
        j
    } else {
        j - 1
    }
}

/// Law: using a name the cache holds makes its entry the most recently used
/// one, with its session unchanged, and keeps the other entries in their
/// order of use; using a name it does not hold changes nothing.
pub proof fn law_use_makes_most_recent<S>(
    entries: Seq<(Seq<char>, S)>,
    name: Seq<char>,
    k1: Seq<char>,
    k2: Seq<char>,
)
    requires
        distinct_entries(entries),
    ensures
        lookup(entries, name) is None ==> touched(entries, name) == entries,
        lookup(entries, name) matches Some(x) ==> {
            &&& touched(entries, name).len() == entries.len()
            &&& touched(entries, name).last() == (name, x)
            &&& (k1 != name && k2 != name && lookup(entries, k1) is Some && lookup(entries, k2) is Some)
                ==> (position_of(touched(entries, name), k1) < position_of(touched(entries, name), k2)
                <==> position_of(entries, k1) < position_of(entries, k2))
        },
{
    let p = position_of(entries, name);
    lemma_position_from(entries, name, 0);
    lemma_absent(entries, name);
    if p >= 0 {
        let t = touched(entries, name);
        lemma_remove_distinct(entries, p);
        lemma_push_new(entries.remove(p), entries[p]);
        assert(t.last() == entries[p]);
        if k1 != name && k2 != name && lookup(entries, k1) is Some && lookup(entries, k2) is Some {
            lemma_absent(entries, k1);
            lemma_absent(entries, k2);
            lemma_position_from(entries, k1, 0);
            lemma_position_from(entries, k2, 0);
            let j1 = position_of(entries, k1);
            let j2 = position_of(entries, k2);
            assert(j1 != p && j2 != p);
            let m1 = moved_index(j1, p);
            let m2 = moved_index(j2, p);
            assert(t[m1] == entries[j1]);
            assert(t[m2] == entries[j2]);
            lemma_position_at(t, m1);
            lemma_position_at(t, m2);
        }
    }
}

} // verus!
