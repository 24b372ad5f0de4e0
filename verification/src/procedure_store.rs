use vstd::prelude::*;

verus! {

/// No two entries of `s` have the same key.
pub open spec fn distinct_keys<P>(s: Seq<(String, P)>) -> bool {
    forall|i: int, j: int|
        0 <= i < s.len() && 0 <= j < s.len() && i != j ==> #[trigger] s[i].0@ != #[trigger] s[j].0@
}

/// The map from key to procedure that a list of entries describes; a later
/// entry wins over an earlier one with the same key.
pub open spec fn entries_map<P>(s: Seq<(String, P)>) -> Map<Seq<char>, P>
    decreases s.len(),
{
    if s.len() == 0 {
        Map::empty()
    } else {
        entries_map(s.drop_last()).insert(s.last().0@, s.last().1)
    }
}

/// The keys of `entries_map(s)` are exactly the keys of the entries.
pub proof fn lemma_entries_map_dom<P>(s: Seq<(String, P)>)
    ensures
        forall|k: Seq<char>|
            #![trigger entries_map(s).dom().contains(k)]
            entries_map(s).dom().contains(k) <==> exists|i: int| 0 <= i < s.len() && s[i].0@ == k,
        entries_map(s).dom().finite(),
    decreases s.len(),
{
    if s.len() > 0 {
        let t = s.drop_last();
        lemma_entries_map_dom(t);
        assert forall|k: Seq<char>|
            #![trigger entries_map(s).dom().contains(k)]
            entries_map(s).dom().contains(k) <==> exists|i: int|
                0 <= i < s.len() && s[i].0@ == k by {
            if entries_map(s).dom().contains(k) && k != s.last().0@ {
                let i = choose|i: int| 0 <= i < t.len() && t[i].0@ == k;
                assert(s[i] == t[i]);
            }
            if exists|i: int| 0 <= i < s.len() && s[i].0@ == k {
                let i = choose|i: int| 0 <= i < s.len() && s[i].0@ == k;
                if i < s.len() - 1 {
                    assert(t[i] == s[i]);
                }
            }
        }
    }
}

/// With distinct keys, every entry is found under its key, and the map has as
/// many keys as there are entries.
pub proof fn lemma_entries_map_value<P>(s: Seq<(String, P)>)
    requires
        distinct_keys(s),
    ensures
        forall|i: int| 0 <= i < s.len() ==> #[trigger] entries_map(s)[s[i].0@] == s[i].1,
        entries_map(s).len() == s.len(),
    decreases s.len(),
{
    lemma_entries_map_dom(s);
    if s.len() > 0 {
        let t = s.drop_last();
        assert(distinct_keys(t)) by {
            assert forall|i: int, j: int|
                0 <= i < t.len() && 0 <= j < t.len() && i != j implies #[trigger] t[i].0@
                != #[trigger] t[j].0@ by {
                assert(t[i] == s[i] && t[j] == s[j]);
            }
        }
        lemma_entries_map_value(t);
        lemma_entries_map_dom(t);
        assert forall|i: int| 0 <= i < s.len() implies #[trigger] entries_map(s)[s[i].0@]
            == s[i].1 by {
            if i < s.len() - 1 {
                assert(t[i] == s[i]);
                assert(s[i].0@ != s[s.len() - 1].0@);
            }
        }
        assert(!entries_map(t).dom().contains(s.last().0@)) by {
            if entries_map(t).dom().contains(s.last().0@) {
                let i = choose|i: int| 0 <= i < t.len() && t[i].0@ == s.last().0@;
                assert(t[i] == s[i]);
                assert(s[i].0@ != s[s.len() - 1].0@);
            }
        }
    }
}

/// Why a procedure could not be added to a store.
#[derive(Debug)]
pub enum StoreError {
    /// A procedure is already registered under this key.
    DuplicateKey(String),
}

/// The procedures of one kind (queries, mutations or subscriptions), each
/// under a key that no other procedure of the store has.
pub struct ProcedureStore<P> {
    kind: String,
    store: Vec<(String, P)>,
}

impl<P> View for ProcedureStore<P> {
    type V = Map<Seq<char>, P>;

    closed spec fn view(&self) -> Map<Seq<char>, P> {
        entries_map(self.store@)
    }
}

impl<P> ProcedureStore<P> {
    #[verifier::type_invariant]
    closed spec fn keys_distinct(self) -> bool {
        distinct_keys(self.store@)
    }

    /// The kind of procedure the store holds, as given to `new`.
    pub closed spec fn kind_view(&self) -> Seq<char> {
        self.kind@
    }

    /// An empty store for procedures of the given kind.
    pub fn new(kind: &str) -> (res: Self)
        ensures
            res@ == Map::<Seq<char>, P>::empty(),
            res.kind_view() == kind@,
    {
        ProcedureStore { kind: kind.to_owned(), store: Vec::new() }
    }

    /// The kind of procedure the store holds.
    pub fn kind(&self) -> (res: &str)
        ensures
            res@ == self.kind_view(),
    {
        self.kind.as_str()
    }

    /// The number of procedures in the store.
    pub fn len(&self) -> (res: usize)
        ensures
            res == self@.len(),
    {
        proof {
            use_type_invariant(self);
            lemma_entries_map_value(self.store@);
        }
        self.store.len()
    }

    /// Whether a procedure is registered under `key`.
    pub fn contains_key(&self, key: &String) -> (res: bool)
        ensures
            res == self@.dom().contains(key@),
    {
        proof {
            lemma_entries_map_dom(self.store@);
        }
        let mut i: usize = 0;
        while i < self.store.len()
            invariant
                0 <= i <= self.store@.len(),
                forall|j: int| 0 <= j < i ==> (#[trigger] self.store@[j]).0@ != key@,
            decreases self.store.len() - i,
        {
            if self.store[i].0 == *key {
                proof {
                    lemma_entries_map_dom(self.store@);
                    assert(self.store@[i as int].0@ == key@);
                }
                return true;
            }
            i = i + 1;
        }
        false
    }

    /// The procedure registered under `key`, if any.
    pub fn get(&self, key: &String) -> (res: Option<&P>)
        ensures
            res is Some <==> self@.dom().contains(key@),
            res matches Some(p) ==> *p == self@[key@],
    {
        proof {
            use_type_invariant(self);
            lemma_entries_map_dom(self.store@);
            lemma_entries_map_value(self.store@);
        }
        let mut i: usize = 0;
        while i < self.store.len()
            invariant
                0 <= i <= self.store@.len(),
                forall|j: int| 0 <= j < i ==> (#[trigger] self.store@[j]).0@ != key@,
            decreases self.store.len() - i,
        {
            if self.store[i].0 == *key {
                proof {
                    use_type_invariant(self);
                    lemma_entries_map_dom(self.store@);
                    lemma_entries_map_value(self.store@);
                    assert(self.store@[i as int].0@ == key@);
                }
                return Some(&self.store[i].1);
            }
            i = i + 1;
        }
        None
    }

    /// Registers `procedure` under `key`. A key that is already taken is
    /// refused and the store is left as it was.
    pub fn append(&mut self, key: String, procedure: P) -> (res: Result<(), StoreError>)
        ensures
            final(self).kind_view() == old(self).kind_view(),
            res is Ok <==> !old(self)@.dom().contains(key@),
            res is Ok ==> final(self)@ == old(self)@.insert(key@, procedure),
            res matches Err(StoreError::DuplicateKey(k)) ==> k@ == key@ && final(self)@ == old(
                self,
            )@,
    {
        if self.contains_key(&key) {
            return Err(StoreError::DuplicateKey(key));
        }
        proof {
            use_type_invariant(&*self);
            lemma_entries_map_dom(self.store@);
        }
        let ghost old_store = self.store@;
        let mut store: Vec<(String, P)> = Vec::new();
        std::mem::swap(&mut store, &mut self.store);
        store.push((key, procedure));
        proof {
            assert(store@.drop_last() =~= old_store);
            assert forall|i: int, j: int|
                0 <= i < store@.len() && 0 <= j < store@.len() && i != j implies #[trigger] store@[i].0@
                != #[trigger] store@[j].0@ by {
                if i < old_store.len() && j < old_store.len() {
                    assert(store@[i] == old_store[i] && store@[j] == old_store[j]);
                } else if i < old_store.len() {
                    assert(store@[i] == old_store[i]);
                } else if j < old_store.len() {
                    assert(store@[j] == old_store[j]);
                }
            }
        }
        self.store = store;
        proof {
            assert forall|i: int, j: int|
                0 <= i < self.store@.len() && 0 <= j < self.store@.len() && i != j implies #[trigger] self.store@[i].0@
                != #[trigger] self.store@[j].0@ by {
                if i < old_store.len() && j < old_store.len() {
                    assert(self.store@[i] == old_store[i] && self.store@[j] == old_store[j]);
                } else if i < old_store.len() {
                    assert(self.store@[i] == old_store[i]);
                } else if j < old_store.len() {
                    assert(self.store@[j] == old_store[j]);
                }
            }
        }
        Ok(())
    }

    /// Takes the store apart into its entries, keys distinct.
    pub fn into_entries(self) -> (res: Vec<(String, P)>)
        ensures
            distinct_keys(res@),
            entries_map(res@) == self@,
    {
        proof {
            use_type_invariant(&self);
        }
        self.store
    }
}

} // verus!
