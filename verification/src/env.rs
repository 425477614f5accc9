//! The environment of a command: variable names mapped to values.
//!
//! An `EnvMap` keeps its entries ordered by the bytes of their names, each
//! name once, so that walking it gives the same order on every run.

use vstd::prelude::*;
use vstd::string::*;
use vstd::utf8::*;

verus! {

/// Lexicographic order on byte strings: `a` sorts strictly before `b`.
pub open spec fn bytes_lt(a: Seq<u8>, b: Seq<u8>) -> bool
    decreases a.len(),
{
    if b.len() == 0 {
        false
    } else if a.len() == 0 {
        true
    } else if a[0] != b[0] {
        a[0] < b[0]
    } else {
        bytes_lt(a.drop_first(), b.drop_first())
    }
}

/// Order on names: by the bytes of their UTF-8 encoding.
pub open spec fn name_lt(a: Seq<char>, b: Seq<char>) -> bool {
    bytes_lt(encode_utf8(a), encode_utf8(b))
}

/// Entries stand in strictly ascending order of their names.
pub open spec fn sorted_by_name(entries: Seq<(Seq<char>, Seq<char>)>) -> bool {
    forall|i: int, j: int|
        0 <= i < j < entries.len() ==> name_lt(#[trigger] entries[i].0, #[trigger] entries[j].0)
}

/// The value that `entries` holds for `name`, if any.
pub open spec fn lookup(entries: Seq<(Seq<char>, Seq<char>)>, name: Seq<char>) -> Option<
    Seq<char>,
> {
    if exists|i: int| 0 <= i < entries.len() && entries[i].0 == name {
        let i: int = choose|i: int| 0 <= i < entries.len() && entries[i].0 == name;
        Some(entries[i].1)
    } else {
        None
    }
}

pub proof fn lemma_bytes_lt_irreflexive(a: Seq<u8>)
    ensures
        !bytes_lt(a, a),
    decreases a.len(),
{
    if a.len() > 0 {
        lemma_bytes_lt_irreflexive(a.drop_first());
    }
}

pub proof fn lemma_bytes_lt_transitive(a: Seq<u8>, b: Seq<u8>, c: Seq<u8>)
    requires
        bytes_lt(a, b),
        bytes_lt(b, c),
    ensures
        bytes_lt(a, c),
    decreases a.len(),
{
    if a.len() > 0 && a[0] == b[0] && b[0] == c[0] {
        lemma_bytes_lt_transitive(a.drop_first(), b.drop_first(), c.drop_first());
    }
}

/// Two byte strings are equal, or one sorts before the other.
pub proof fn lemma_bytes_lt_total(a: Seq<u8>, b: Seq<u8>)
    ensures
        bytes_lt(a, b) || bytes_lt(b, a) || a == b,
    decreases a.len(),
{
    if a.len() > 0 && b.len() > 0 && a[0] == b[0] {
        lemma_bytes_lt_total(a.drop_first(), b.drop_first());
        if a.drop_first() == b.drop_first() {
            assert(a =~= seq![a[0]] + a.drop_first());
            assert(b =~= seq![b[0]] + b.drop_first());
        }
    } else if a.len() == 0 && b.len() == 0 {
        assert(a =~= b);
    }
}

/// Names are told apart by their bytes.
pub proof fn lemma_names_by_bytes(a: Seq<char>, b: Seq<char>)
    ensures
        (encode_utf8(a) == encode_utf8(b)) <==> a == b,
{
    encode_utf8_decode_utf8(a);
    encode_utf8_decode_utf8(b);
}

/// In a sorted sequence no name occurs twice.
pub proof fn lemma_sorted_names_distinct(entries: Seq<(Seq<char>, Seq<char>)>)
    requires
        sorted_by_name(entries),
    ensures
        forall|i: int, j: int|
            0 <= i < entries.len() && 0 <= j < entries.len() && i != j ==> #[trigger] entries[i].0
                != #[trigger] entries[j].0,
{
    assert forall|i: int, j: int|
        0 <= i < entries.len() && 0 <= j < entries.len() && i != j implies #[trigger] entries[i].0
        != #[trigger] entries[j].0 by {
        lemma_bytes_lt_irreflexive(encode_utf8(entries[i].0));
        if i < j {
            assert(name_lt(entries[i].0, entries[j].0));
        } else {
            assert(name_lt(entries[j].0, entries[i].0));
        }
    }
}

/// What a three-way comparison of two byte strings can say.
#[derive(Clone, Copy, Debug, PartialEq, Eq, Structural)]
pub enum Precedence {
    Before,
    Same,
    After,
}

/// Compares two byte strings lexicographically.
pub fn precedence(a: &[u8], b: &[u8]) -> (p: Precedence)
    ensures
        p == if bytes_lt(a@, b@) {
            Precedence::Before
        } else if a@ == b@ {
            Precedence::Same
        } else {
            Precedence::After
        },
{
    let mut i: usize = 0;
    proof {
        assert(a@.skip(0) =~= a@);
        assert(b@.skip(0) =~= b@);
    }
    while i < a.len() && i < b.len()
        invariant
            i <= a.len(),
            i <= b.len(),
            a@.take(i as int) == b@.take(i as int),
            bytes_lt(a@, b@) == bytes_lt(a@.skip(i as int), b@.skip(i as int)),
        decreases a.len() - i,
    {
        let x: u8 = a[i];
        let y: u8 = b[i];
        proof {
            assert(a@.skip(i as int)[0] == x);
            assert(b@.skip(i as int)[0] == y);
            assert(a@.skip(i as int).drop_first() =~= a@.skip(i + 1));
            assert(b@.skip(i as int).drop_first() =~= b@.skip(i + 1));
        }
        if x < y {
            return Precedence::Before;
        }
        if x > y {
            proof {
                assert(a@[i as int] != b@[i as int]);
            }
            return Precedence::After;
        }
        proof {
            assert(a@.take(i + 1) =~= a@.take(i as int).push(x));
            assert(b@.take(i + 1) =~= b@.take(i as int).push(y));
        }
        i += 1;
    }
    proof {
        if i == a.len() {
            assert(a@.take(i as int) =~= a@);
        }
        if i == b.len() {
            assert(b@.take(i as int) =~= b@);
        }
    }
    if i < b.len() {
        proof {
            assert(a@.len() < b@.len());
        }
        Precedence::Before
    } else if i < a.len() {
        proof {
            assert(b@.len() < a@.len());
        }
        Precedence::After
    } else {
        Precedence::Same
    }
}

/// Environment variables, each name once, in ascending order of name.
#[derive(Debug, PartialEq, Eq, Hash)]
pub struct EnvMap {
    entries: Vec<(String, String)>,
}

impl View for EnvMap {
    type V = Seq<(Seq<char>, Seq<char>)>;

    closed spec fn view(&self) -> Seq<(Seq<char>, Seq<char>)> {
        self.entries.deep_view()
    }
}

impl Clone for EnvMap {
    fn clone(&self) -> (copy: EnvMap)
        ensures
            copy@ == self@,
    {
        proof {
            use_type_invariant(self);
        }
        let mut entries: Vec<(String, String)> = Vec::new();
        let mut i: usize = 0;
        while i < self.entries.len()
            invariant
                i <= self.entries.len(),
                entries@ =~= self.entries@.take(i as int),
            decreases self.entries.len() - i,
        {
            entries.push((self.entries[i].0.clone(), self.entries[i].1.clone()));
            i += 1;
        }
        assert(entries@ =~= self.entries@);
        assert(entries.deep_view() =~= self.entries.deep_view());
        EnvMap { entries }
    }
}

impl EnvMap {
    #[verifier::type_invariant]
    spec fn ordered(self) -> bool {
        sorted_by_name(self@)
    }

    /// An environment without variables.
    pub fn new() -> (env: EnvMap)
        ensures
            env@ == Seq::<(Seq<char>, Seq<char>)>::empty(),
    {
        let env = EnvMap { entries: Vec::new() };
        assert(env@ =~= Seq::<(Seq<char>, Seq<char>)>::empty());
        env
    }

    /// The number of variables. They stand sorted by name, as in every
    /// environment.
    pub fn len(&self) -> (n: usize)
        ensures
            n == self@.len(),
            sorted_by_name(self@),
    {
        proof {
            use_type_invariant(self);
        }
        self.entries.len()
    }

    /// The name of the `i`-th variable.
    pub fn name_at(&self, i: usize) -> (name: &String)
        requires
            i < self@.len(),
        ensures
            name@ == self@[i as int].0,
    {
        &self.entries[i].0
    }

    /// The value of the `i`-th variable.
    pub fn value_at(&self, i: usize) -> (value: &String)
        requires
            i < self@.len(),
        ensures
            value@ == self@[i as int].1,
    {
        &self.entries[i].1
    }

    /// The position of `name`, or else the position where it would stand.
    fn position(&self, name: &str) -> (r: (usize, bool))
        ensures
            r.0 <= self@.len(),
            r.1 ==> r.0 < self@.len() && self@[r.0 as int].0 == name@,
            !r.1 ==> forall|k: int| 0 <= k < self@.len() ==> (#[trigger] self@[k]).0 != name@,
            forall|k: int| 0 <= k < r.0 ==> name_lt((#[trigger] self@[k]).0, name@),
            forall|k: int|
                r.0 <= k < self@.len() && !(r.1 && k == r.0) ==> name_lt(
                    name@,
                    (#[trigger] self@[k]).0,
                ),
    {
        proof {
            use_type_invariant(self);
        }
        let key: &[u8] = name.as_bytes();
        let mut i: usize = 0;
        while i < self.entries.len()
            invariant
                i <= self.entries.len(),
                self@ == self.entries.deep_view(),
                sorted_by_name(self@),
                key@ == encode_utf8(name@),
                forall|k: int| 0 <= k < i ==> name_lt((#[trigger] self@[k]).0, name@),
            decreases self.entries.len() - i,
        {
            let there: &[u8] = self.entries[i].0.as_str().as_bytes();
            assert(there@ == encode_utf8(self@[i as int].0));
            match precedence(there, key) {
                Precedence::Before => {},
                Precedence::Same => {
                    proof {
                        lemma_names_by_bytes(self@[i as int].0, name@);
                        assert forall|k: int|
                            i <= k < self@.len() && k != i implies name_lt(
                            name@,
                            (#[trigger] self@[k]).0,
                        ) by {
                            assert(name_lt(self@[i as int].0, self@[k].0));
                        }
                    }
                    return (i, true);
                },
                Precedence::After => {
                    proof {
                        lemma_bytes_lt_total(there@, key@);
                        assert(name_lt(name@, self@[i as int].0));
                        assert forall|k: int| i <= k < self@.len() implies name_lt(
                            name@,
                            (#[trigger] self@[k]).0,
                        ) by {
                            if k > i {
                                assert(name_lt(self@[i as int].0, self@[k].0));
                                lemma_bytes_lt_transitive(
                                    encode_utf8(name@),
                                    encode_utf8(self@[i as int].0),
                                    encode_utf8(self@[k].0),
                                );
                            }
                        }
                        assert forall|k: int| 0 <= k < self@.len() implies (#[trigger] self@[k]).0
                            != name@ by {
                            lemma_bytes_lt_irreflexive(encode_utf8(name@));
                        }
                    }
                    return (i, false);
                },
            }
            i += 1;
        }
        proof {
            assert forall|k: int| 0 <= k < self@.len() implies (#[trigger] self@[k]).0
                != name@ by {
                lemma_bytes_lt_irreflexive(encode_utf8(name@));
            }
        }
        (i, false)
    }

    /// The value of the variable `name`.
    pub fn get(&self, name: &str) -> (value: Option<&String>)
        ensures
            match value {
                Some(v) => lookup(self@, name@) == Some(v@),
                None => lookup(self@, name@) is None,
            },
    {
        let (at, found) = self.position(name);
        if found {
            proof {
                use_type_invariant(self);
                lemma_sorted_names_distinct(self@);
            }
            Some(&self.entries[at].1)
        } else {
            None
        }
    }

    /// Sets the variable `name` to `value` and gives back the value it had
    /// before, if it had one.
    pub fn insert(&mut self, name: String, value: String) -> (previous: Option<String>)
        ensures
            match previous {
                Some(p) => lookup(old(self)@, name@) == Some(p@),
                None => lookup(old(self)@, name@) is None,
            },
            sorted_by_name(final(self)@),
            lookup(final(self)@, name@) == Some(value@),
            forall|other: Seq<char>|
                other != name@ ==> lookup(final(self)@, other) == lookup(old(self)@, other),
            final(self)@.len() == old(self)@.len() + if previous is Some {
                0int
            } else {
                1int
            },
    {
        proof {
            use_type_invariant(&*self);
            lemma_sorted_names_distinct(self@);
        }
        let (at, found) = self.position(name.as_str());
        let ghost before: Seq<(Seq<char>, Seq<char>)> = self@;
        let mut entries: Vec<(String, String)> = Vec::new();
        core::mem::swap(&mut self.entries, &mut entries);
        assert(entries.deep_view() == before);
        let previous: Option<String> = if found {
            let previous: String = entries[at].1.clone();
            entries.set(at, (name, value));
            Some(previous)
        } else {
            entries.insert(at, (name, value));
            None
        };
        let ghost after: Seq<(Seq<char>, Seq<char>)> = entries.deep_view();
        proof {
            if found {
                assert(after =~= before.update(at as int, (name@, value@)));
                assert(sorted_by_name(after)) by {
                    assert forall|i: int, j: int| 0 <= i < j < after.len() implies name_lt(
                        #[trigger] after[i].0,
                        #[trigger] after[j].0,
                    ) by {
                        assert(name_lt(before[i].0, before[j].0));
                    }
                }
                lemma_sorted_names_distinct(after);
                lemma_lookup_at(after, at as int);
                assert forall|other: Seq<char>| other != name@ implies lookup(after, other)
                    == lookup(before, other) by {
                    lemma_lookup_same_elsewhere(before, after, at as int, other);
                }
                lemma_lookup_at(before, at as int);
            } else {
                assert(after =~= before.insert(at as int, (name@, value@)));
                assert(sorted_by_name(after)) by {
                    assert forall|i: int, j: int| 0 <= i < j < after.len() implies name_lt(
                        #[trigger] after[i].0,
                        #[trigger] after[j].0,
                    ) by {
                        let bi: int = if i < at { i } else { i - 1 };
                        let bj: int = if j < at { j } else { j - 1 };
                        if i != at && j != at {
                            assert(name_lt(before[bi].0, before[bj].0));
                        } else if i == at {
                            assert(name_lt(name@, before[bj].0));
                        } else {
                            assert(name_lt(before[bi].0, name@));
                        }
                    }
                }
                lemma_sorted_names_distinct(after);
                lemma_lookup_at(after, at as int);
                assert forall|other: Seq<char>| other != name@ implies lookup(after, other)
                    == lookup(before, other) by {
                    lemma_lookup_after_insert(before, after, at as int, other);
                }
            }
        }
        core::mem::swap(&mut self.entries, &mut entries);
        previous
    }
}

/// With distinct names, the entry at `at` is the one found under its name.
pub proof fn lemma_lookup_at(entries: Seq<(Seq<char>, Seq<char>)>, at: int)
    requires
        0 <= at < entries.len(),
        forall|i: int, j: int|
            0 <= i < entries.len() && 0 <= j < entries.len() && i != j ==> #[trigger] entries[i].0
                != #[trigger] entries[j].0,
    ensures
        lookup(entries, entries[at].0) == Some(entries[at].1),
{
    let name: Seq<char> = entries[at].0;
    let i: int = choose|i: int| 0 <= i < entries.len() && entries[i].0 == name;
    assert(i == at);
}

proof fn lemma_lookup_same_elsewhere(
    before: Seq<(Seq<char>, Seq<char>)>,
    after: Seq<(Seq<char>, Seq<char>)>,
    at: int,
    other: Seq<char>,
)
    requires
        0 <= at < before.len(),
        after == before.update(at, after[at]),
        after[at].0 == before[at].0,
        other != before[at].0,
        sorted_by_name(before),
        sorted_by_name(after),
    ensures
        lookup(after, other) == lookup(before, other),
{
    lemma_sorted_names_distinct(before);
    lemma_sorted_names_distinct(after);
    if exists|i: int| 0 <= i < before.len() && before[i].0 == other {
        let i: int = choose|i: int| 0 <= i < before.len() && before[i].0 == other;
        assert(after[i] == before[i]);
        lemma_lookup_at(before, i);
        lemma_lookup_at(after, i);
    } else {
        assert forall|i: int| 0 <= i < after.len() implies after[i].0 != other by {
            assert(after[i].0 == before[i].0);
        }
    }
}

proof fn lemma_lookup_after_insert(
    before: Seq<(Seq<char>, Seq<char>)>,
    after: Seq<(Seq<char>, Seq<char>)>,
    at: int,
    other: Seq<char>,
)
    requires
        0 <= at <= before.len(),
        after == before.insert(at, after[at]),
        after.len() == before.len() + 1,
        other != after[at].0,
        sorted_by_name(before),
        sorted_by_name(after),
    ensures
        lookup(after, other) == lookup(before, other),
{
    lemma_sorted_names_distinct(before);
    lemma_sorted_names_distinct(after);
    if exists|i: int| 0 <= i < before.len() && before[i].0 == other {
        let i: int = choose|i: int| 0 <= i < before.len() && before[i].0 == other;
        let j: int = if i < at { i } else { i + 1 };
        assert(after[j] == before[i]);
        lemma_lookup_at(before, i);
        lemma_lookup_at(after, j);
    } else {
        assert forall|j: int| 0 <= j < after.len() implies after[j].0 != other by {
            if j != at {
                let i: int = if j < at { j } else { j - 1 };
                assert(after[j] == before[i]);
            }
        }
    }
}

} // verus!
