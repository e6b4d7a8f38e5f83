//! The string interner: every string gets one small key, and the key gives
//! the string back.

use vstd::prelude::*;
use vstd::hash_map::StringHashMap;

verus! {

/// The handle of an interned string: its index in the order of first
/// interning, from zero.
#[derive(Clone, Copy, PartialEq, Eq, Hash, Debug, Structural)]
pub struct InternedKey(pub u32);

/// Whether `s` is one of the strings of `table`.
pub open spec fn holds(table: Seq<Seq<char>>, s: Seq<char>) -> bool {
    exists|i: int| 0 <= i < table.len() && #[trigger] table[i] == s
}

/// The place of `s` in `table`, where `table` holds it.
pub open spec fn index_of(table: Seq<Seq<char>>, s: Seq<char>) -> int {
    choose|i: int| 0 <= i < table.len() && #[trigger] table[i] == s
}

/// No string stands at two places of `table`.
pub open spec fn distinct(table: Seq<Seq<char>>) -> bool {
    forall|i: int, j: int|
        0 <= i < table.len() && 0 <= j < table.len() && #[trigger] table[i] == #[trigger] table[j]
            ==> i == j
}

/// The table after `s` was interned: unchanged where it held `s`, else with
/// `s` at its end.
pub open spec fn interned_table(table: Seq<Seq<char>>, s: Seq<char>) -> Seq<Seq<char>> {
    if holds(table, s) {
        table
    } else {
        table.push(s)
    }
}

/// The key that interning `s` in `table` gives.
pub open spec fn interned_key(table: Seq<Seq<char>>, s: Seq<char>) -> int {
    if holds(table, s) {
        index_of(table, s)
    } else {
        table.len() as int
    }
}

/// Whether the table `after` holds all of the table `before` where it was:
/// every key of `before` stands for the same string in `after`.
pub open spec fn extends(after: Seq<Seq<char>>, before: Seq<Seq<char>>) -> bool {
    &&& before.len() <= after.len()
    &&& forall|i: int|
        #![trigger after[i]]
        #![trigger before[i]]
        0 <= i < before.len() ==> after[i] == before[i]
}

/// Whether `s` can be interned in `table`: it is there already, or a 32-bit
/// key is left for it.
pub open spec fn has_room(table: Seq<Seq<char>>, s: Seq<char>) -> bool {
    holds(table, s) || table.len() < u32::MAX
}

/// In a table without repetition, the key of the string at place `k` is `k`.
pub proof fn lemma_index_of_unique(table: Seq<Seq<char>>, k: int)
    requires
        distinct(table),
        0 <= k < table.len(),
    ensures
        holds(table, table[k]),
        index_of(table, table[k]) == k,
        interned_key(table, table[k]) == k,
        interned_table(table, table[k]) == table,
{
    assert(table[k] == table[k]);
}

/// Interning keeps a table free of repetition, keeps what it held where it
/// was, and the key it gives leads back to the string.
pub proof fn lemma_interned(table: Seq<Seq<char>>, s: Seq<char>)
    requires
        distinct(table),
    ensures
        distinct(interned_table(table, s)),
        table.len() <= interned_table(table, s).len() <= table.len() + 1,
        forall|i: int| 0 <= i < table.len() ==> interned_table(table, s)[i] == table[i],
        0 <= interned_key(table, s) < interned_table(table, s).len(),
        interned_table(table, s)[interned_key(table, s)] == s,
        holds(interned_table(table, s), s),
{
    let t = interned_table(table, s);
    if holds(table, s) {
        let k = index_of(table, s);
        assert(t[k] == s);
    } else {
        assert(t[table.len() as int] == s);
        assert forall|i: int, j: int|
            0 <= i < t.len() && 0 <= j < t.len() && #[trigger] t[i] == #[trigger] t[j] implies i
            == j by {
            if i < table.len() && j < table.len() {
                assert(table[i] == table[j]);
            } else if i < table.len() {
                assert(table[i] == s);
            } else if j < table.len() {
                assert(table[j] == s);
            }
        }
    }
}

/// Canonicalizes strings to keys. It never forgets a string: a key, once
/// given, resolves to the same string for as long as the interner lives.
pub struct Interner {
    map: StringHashMap<u32>,
    strings: Vec<String>,
}

impl View for Interner {
    type V = Seq<Seq<char>>;

    /// The interned strings, by key.
    closed spec fn view(&self) -> Seq<Seq<char>> {
        Seq::new(self.strings@.len(), |i: int| self.strings@[i]@)
    }
}

impl Interner {
    /// The invariant of the interner: its lookup map and its storage agree,
    /// no string is stored twice, and every key fits in 32 bits.
    pub closed spec fn wf(&self) -> bool {
        &&& self.strings@.len() <= u32::MAX
        &&& distinct(self@)
        &&& forall|s: Seq<char>| #[trigger] self.map@.contains_key(s) <==> holds(self@, s)
        &&& forall|s: Seq<char>| #[trigger]
            self.map@.contains_key(s) ==> 0 <= self.map@[s] < self@.len() && self@[self.map@[s] as int]
                == s
    }

    /// What the invariant says of the view.
    pub proof fn lemma_wf(&self)
        requires
            self.wf(),
        ensures
            self@.len() <= u32::MAX,
            distinct(self@),
    {
    }

    /// An empty interner.
    pub fn new() -> (r: Interner)
        ensures
            r.wf(),
            r@ == Seq::<Seq<char>>::empty(),
    {
        let r = Interner { map: StringHashMap::new(), strings: Vec::new() };
        assert(r@ =~= Seq::<Seq<char>>::empty());
        r
    }

    /// An empty interner with room set aside for `n` strings.
    pub fn with_capacity(n: usize) -> (r: Interner)
        ensures
            r.wf(),
            r@ == Seq::<Seq<char>>::empty(),
    {
        let r = Interner { map: StringHashMap::with_capacity(n), strings: Vec::with_capacity(n) };
        assert(r@ =~= Seq::<Seq<char>>::empty());
        r
    }

    /// The number of strings interned so far.
    pub fn len(&self) -> (n: usize)
        ensures
            n == self@.len(),
    {
        self.strings.len()
    }

    /// The key of `s` where it was interned before.
    pub fn lookup(&self, s: &str) -> (r: Option<InternedKey>)
        requires
            self.wf(),
        ensures
            r is Some <==> holds(self@, s@),
            r is Some ==> r.unwrap().0 == index_of(self@, s@),
    {
        match self.map.get(s) {
            Some(k) => {
                let key = InternedKey(*k);
                proof {
                    assert(self.map@.contains_key(s@));
                    lemma_index_of_unique(self@, key.0 as int);
                }
                Some(key)
            },
            None => {
                assert(!self.map@.contains_key(s@));
                None
            },
        }
    }

    /// Interns `s` where a key is left for it: `None` only where `s` is new
    /// and all 32-bit keys are taken.
    pub fn try_intern(&mut self, s: &str) -> (r: Option<InternedKey>)
        requires
            old(self).wf(),
        ensures
            final(self).wf(),
            r is Some <==> has_room(old(self)@, s@),
            r is Some ==> final(self)@ == interned_table(old(self)@, s@) && r.unwrap().0
                == interned_key(old(self)@, s@),
            r is None ==> final(self)@ == old(self)@,
            extends(final(self)@, old(self)@),
    {
        proof {
            old(self).lemma_wf();
            lemma_interned(old(self)@, s@);
        }
        match self.lookup(s) {
            Some(key) => Some(key),
            None => {
                let n = self.strings.len();
                if n >= 0xffff_ffff {
                    return None;
                }
                let key: u32 = n as u32;
                self.strings.push(String::from_str(s));
                self.map.insert(String::from_str(s), key);
                proof {
                    let before = old(self)@;
                    let after = self@;
                    assert(after =~= before.push(s@));
                    lemma_interned(before, s@);
                    assert forall|t: Seq<char>| #[trigger]
                        self.map@.contains_key(t) <==> holds(after, t) by {
                        if t == s@ {
                            assert(after[n as int] == t);
                        } else if old(self).map@.contains_key(t) {
                            let k = index_of(before, t);
                            assert(after[k] == t);
                        } else if holds(after, t) {
                            let k = index_of(after, t);
                            assert(before[k] == t);
                        }
                    }
                    assert forall|t: Seq<char>| #[trigger] self.map@.contains_key(t) implies 0
                        <= self.map@[t] < after.len() && after[self.map@[t] as int] == t by {
                        if t != s@ {
                            assert(old(self).map@.contains_key(t));
                        }
                    }
                }
                Some(InternedKey(key))
            },
        }
    }

    /// Interns `s`: equal strings get equal keys, and the key resolves to
    /// `s` from now on.
    pub fn intern(&mut self, s: &str) -> (key: InternedKey)
        requires
            old(self).wf(),
            has_room(old(self)@, s@),
        ensures
            final(self).wf(),
            final(self)@ == interned_table(old(self)@, s@),
            key.0 == interned_key(old(self)@, s@),
            key.0 < final(self)@.len(),
            final(self)@[key.0 as int] == s@,
            extends(final(self)@, old(self)@),
    {
        proof {
            old(self).lemma_wf();
            lemma_interned(old(self)@, s@);
        }
        match self.try_intern(s) {
            Some(key) => key,
            None => InternedKey(0),
        }
    }

    /// An interner of its own with the same strings under the same keys.
    pub fn copy(&self) -> (r: Interner)
        requires
            self.wf(),
        ensures
            r.wf(),
            r@ == self@,
    {
        let mut r = Interner::new();
        let mut i: usize = 0;
        proof {
            self.lemma_wf();
        }
        while i < self.strings.len()
            invariant
                self.wf(),
                r.wf(),
                i <= self.strings.len(),
                self.strings@.len() == self@.len(),
                self@.len() <= u32::MAX,
                distinct(self@),
                r@ == self@.take(i as int),
            decreases self.strings.len() - i,
        {
            proof {
                if holds(r@, self@[i as int]) {
                    let k = index_of(r@, self@[i as int]);
                    assert(self@[k] == self@[i as int]);
                }
                assert(self@.take(i as int).push(self@[i as int]) =~= self@.take(i + 1));
            }
            let _ = r.intern(self.strings[i].as_str());
            i += 1;
        }
        assert(self@.take(i as int) =~= self@);
        r
    }

    /// The string of a key that this interner gave.
    pub fn resolve(&self, key: InternedKey) -> (s: &str)
        requires
            key.0 < self@.len(),
        ensures
            s@ == self@[key.0 as int],
    {
        self.strings[key.0 as usize].as_str()
    }

    /// The string of `key`, or `None` for a key that this interner did not
    /// give.
    pub fn get(&self, key: InternedKey) -> (r: Option<&str>)
        ensures
            r is Some <==> key.0 < self@.len(),
            r is Some ==> r.unwrap()@ == self@[key.0 as int],
    {
        if (key.0 as usize) < self.strings.len() {
            Some(self.strings[key.0 as usize].as_str())
        } else {
            None
        }
    }
}

/// Interning a string twice gives the same key both times, and the key
/// resolves to the string.
pub proof fn law_intern_is_idempotent(table: Seq<Seq<char>>, s: Seq<char>)
    requires
        distinct(table),
    ensures
        interned_key(interned_table(table, s), s) == interned_key(table, s),
        interned_table(interned_table(table, s), s) == interned_table(table, s),
        interned_table(table, s)[interned_key(table, s)] == s,
{
    lemma_interned(table, s);
    lemma_index_of_unique(interned_table(table, s), interned_key(table, s));
}

/// A string that has a key keeps it while the table grows: interning the
/// string again gives the same key and adds nothing, and the key stands for
/// the same string as before.
pub proof fn law_known_string_keeps_its_key(
    before: Seq<Seq<char>>,
    after: Seq<Seq<char>>,
    k: int,
)
    requires
        distinct(after),
        extends(after, before),
        0 <= k < before.len(),
    ensures
        after[k] == before[k],
        interned_key(after, before[k]) == k,
        interned_table(after, before[k]) == after,
{
    lemma_index_of_unique(after, k);
}

/// A table that grew from a table that grew holds all of the first.
pub proof fn law_extends_is_transitive(
    a: Seq<Seq<char>>,
    b: Seq<Seq<char>>,
    c: Seq<Seq<char>>,
)
    requires
        extends(b, a),
        extends(c, b),
    ensures
        extends(c, a),
{
}

/// Equal strings have equal keys and different strings different keys,
/// also where the keys were given at different times: in a table that grew
/// from another, a key of the old table and a key of the new one are equal
/// exactly where their strings are.
pub proof fn law_equal_strings_equal_keys(
    before: Seq<Seq<char>>,
    after: Seq<Seq<char>>,
    k1: int,
    k2: int,
)
    requires
        distinct(after),
        extends(after, before),
        0 <= k1 < before.len(),
        0 <= k2 < after.len(),
    ensures
        before[k1] == after[k2] <==> k1 == k2,
{
    assert(after[k1] == before[k1]);
}

} // verus!
