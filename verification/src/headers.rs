//! The header fields of a response: a map from field name to value that
//! keeps the order in which names first arrived.
use vstd::prelude::*;
use vstd::std_specs::cmp::PartialEqSpecImpl;

verus! {

/// The map that a list of distinct `(name, value)` pairs stands for.
pub open spec fn map_of(es: Seq<(Seq<char>, Seq<char>)>) -> Map<Seq<char>, Seq<char>>
    decreases es.len(),
{
    if es.len() == 0 {
        Map::empty()
    } else {
        map_of(es.drop_last()).insert(es.last().0, es.last().1)
    }
}

/// No two pairs of `es` have the same name.
pub open spec fn names_distinct(es: Seq<(Seq<char>, Seq<char>)>) -> bool {
    forall|i: int, j: int| 0 <= i < j < es.len() ==> #[trigger] es[i].0 != #[trigger] es[j].0
}

/// A name is a key of the map exactly when some pair carries it.
pub proof fn lemma_map_of_dom(es: Seq<(Seq<char>, Seq<char>)>, x: Seq<char>)
    ensures
        map_of(es).contains_key(x) <==> exists|i: int| 0 <= i < es.len() && #[trigger] es[i].0 == x,
    decreases es.len(),
{
    if es.len() > 0 {
        lemma_map_of_dom(es.drop_last(), x);
        if map_of(es.drop_last()).contains_key(x) {
            let i = choose|i: int| 0 <= i < es.drop_last().len() && #[trigger] es.drop_last()[i].0 == x;
            assert(es[i].0 == x);
        }
        if exists|i: int| 0 <= i < es.len() && #[trigger] es[i].0 == x {
            let i = choose|i: int| 0 <= i < es.len() && #[trigger] es[i].0 == x;
            if i < es.len() - 1 {
                assert(es.drop_last()[i].0 == x);
            }
        }
    }
}

/// In a list of distinct pairs, each pair's name maps to that pair's value.
pub proof fn lemma_map_of_index(es: Seq<(Seq<char>, Seq<char>)>, i: int)
    requires
        names_distinct(es),
        0 <= i < es.len(),
    ensures
        map_of(es).contains_key(es[i].0),
        map_of(es)[es[i].0] == es[i].1,
    decreases es.len(),
{
    if i < es.len() - 1 {
        let d = es.drop_last();
        assert(d[i] == es[i]);
        assert(names_distinct(d)) by {
            assert forall|a: int, b: int| 0 <= a < b < d.len() implies #[trigger] d[a].0
                != #[trigger] d[b].0 by {
                assert(d[a] == es[a] && d[b] == es[b]);
            }
        }
        lemma_map_of_index(d, i);
        assert(es[i].0 != es[es.len() - 1].0);
    }
}

/// In a list of distinct pairs, the map gives each name the value it is paired with.
pub proof fn lemma_map_of_value(es: Seq<(Seq<char>, Seq<char>)>, x: Seq<char>)
    requires
        names_distinct(es),
        map_of(es).contains_key(x),
    ensures
        exists|i: int| 0 <= i < es.len() && es[i].0 == x && #[trigger] map_of(es)[x] == es[i].1,
{
    lemma_map_of_dom(es, x);
    let i = choose|i: int| 0 <= i < es.len() && #[trigger] es[i].0 == x;
    lemma_map_of_index(es, i);
}

proof fn lemma_map_of_update(es: Seq<(Seq<char>, Seq<char>)>, i: int, v: Seq<char>)
    requires
        names_distinct(es),
        0 <= i < es.len(),
    ensures
        names_distinct(es.update(i, (es[i].0, v))),
        map_of(es.update(i, (es[i].0, v))) =~= map_of(es).insert(es[i].0, v),
{
    let k = es[i].0;
    let es2 = es.update(i, (k, v));
    assert forall|a: int, b: int| 0 <= a < b < es2.len() implies #[trigger] es2[a].0
        != #[trigger] es2[b].0 by {
        assert(es2[a].0 == es[a].0 && es2[b].0 == es[b].0);
    }
    assert forall|x: Seq<char>| #[trigger]
        map_of(es2).contains_key(x) == map_of(es).insert(k, v).contains_key(x) by {
        lemma_map_of_dom(es2, x);
        lemma_map_of_dom(es, x);
        if exists|j: int| 0 <= j < es.len() && #[trigger] es[j].0 == x {
            let j = choose|j: int| 0 <= j < es.len() && #[trigger] es[j].0 == x;
            assert(es2[j].0 == x);
        }
        if exists|j: int| 0 <= j < es2.len() && #[trigger] es2[j].0 == x {
            let j = choose|j: int| 0 <= j < es2.len() && #[trigger] es2[j].0 == x;
            assert(es[j].0 == x);
        }
    }
    assert forall|x: Seq<char>| #[trigger] map_of(es2).contains_key(x) implies map_of(es2)[x]
        == map_of(es).insert(k, v)[x] by {
        lemma_map_of_value(es2, x);
        let j = choose|j: int| 0 <= j < es2.len() && es2[j].0 == x && #[trigger] map_of(es2)[x]
            == es2[j].1;
        if j != i {
            lemma_map_of_index(es, j);
        }
    }
}

proof fn lemma_map_of_remove(es: Seq<(Seq<char>, Seq<char>)>, i: int)
    requires
        names_distinct(es),
        0 <= i < es.len(),
    ensures
        names_distinct(es.remove(i)),
        map_of(es.remove(i)) =~= map_of(es).remove(es[i].0),
{
    let k = es[i].0;
    let es2 = es.remove(i);
    assert forall|a: int, b: int| 0 <= a < b < es2.len() implies #[trigger] es2[a].0
        != #[trigger] es2[b].0 by {
        let a0 = if a < i {
            a
        } else {
            a + 1
        };
        let b0 = if b < i {
            b
        } else {
            b + 1
        };
        assert(es2[a] == es[a0] && es2[b] == es[b0]);
    }
    assert forall|x: Seq<char>| #[trigger]
        map_of(es2).contains_key(x) == map_of(es).remove(k).contains_key(x) by {
        lemma_map_of_dom(es2, x);
        lemma_map_of_dom(es, x);
        if exists|j: int| 0 <= j < es.len() && #[trigger] es[j].0 == x {
            let j = choose|j: int| 0 <= j < es.len() && #[trigger] es[j].0 == x;
            if x != k {
                assert(j != i);
                if j < i {
                    assert(es2[j].0 == x);
                } else {
                    assert(es2[j - 1].0 == x);
                }
            }
        }
        if exists|j: int| 0 <= j < es2.len() && #[trigger] es2[j].0 == x {
            let j = choose|j: int| 0 <= j < es2.len() && #[trigger] es2[j].0 == x;
            let j0 = if j < i {
                j
            } else {
                j + 1
            };
            assert(es[j0].0 == x);
            assert(x != k);
        }
    }
    assert forall|x: Seq<char>| #[trigger] map_of(es2).contains_key(x) implies map_of(es2)[x]
        == map_of(es).remove(k)[x] by {
        lemma_map_of_value(es2, x);
        let j = choose|j: int| 0 <= j < es2.len() && es2[j].0 == x && #[trigger] map_of(es2)[x]
            == es2[j].1;
        let j0 = if j < i {
            j
        } else {
            j + 1
        };
        assert(es2[j] == es[j0]);
        lemma_map_of_index(es, j0);
    }
}

/// A list of distinct pairs stands for a finite map with one key per pair.
pub proof fn lemma_map_of_len(es: Seq<(Seq<char>, Seq<char>)>)
    requires
        names_distinct(es),
    ensures
        map_of(es).dom().finite(),
        map_of(es).dom().len() == es.len(),
    decreases es.len(),
{
    if es.len() > 0 {
        let d = es.drop_last();
        assert(names_distinct(d)) by {
            assert forall|a: int, b: int| 0 <= a < b < d.len() implies #[trigger] d[a].0
                != #[trigger] d[b].0 by {
                assert(d[a] == es[a] && d[b] == es[b]);
            }
        }
        lemma_map_of_len(d);
        lemma_map_of_dom(d, es.last().0);
        if map_of(d).contains_key(es.last().0) {
            let i = choose|i: int| 0 <= i < d.len() && #[trigger] d[i].0 == es.last().0;
            assert(es[i].0 == es[es.len() - 1].0);
        }
        assert(map_of(es).dom() == map_of(d).dom().insert(es.last().0));
    }
}

/// Two finite maps with as many keys, where every key of the first maps to
/// the same value in the second, are equal.
proof fn lemma_map_included_equal(m1: Map<Seq<char>, Seq<char>>, m2: Map<Seq<char>, Seq<char>>)
    requires
        m1.dom().finite(),
        m2.dom().finite(),
        m1.dom().len() == m2.dom().len(),
        forall|k: Seq<char>| #[trigger] m1.contains_key(k) ==> m2.contains_key(k) && m2[k] == m1[k],
    ensures
        m1 == m2,
{
    assert(m1.dom() =~= m2.dom()) by {
        if exists|k: Seq<char>| m2.contains_key(k) && !m1.contains_key(k) {
            let k = choose|k: Seq<char>| m2.contains_key(k) && !m1.contains_key(k);
            vstd::set_lib::lemma_len_subset(m1.dom(), m2.dom().remove(k));
        }
    }
    assert(m1 =~= m2);
}

/// The names and values of a list of string pairs.
pub open spec fn pairs_of(es: Seq<(String, String)>) -> Seq<(Seq<char>, Seq<char>)> {
    es.map_values(|e: (String, String)| (e.0@, e.1@))
}

/// The header fields of a response.
///
/// Field names are kept as they were given (the response reader gives them
/// in lower case); each name occurs at most once, and a name keeps the
/// place where it was first inserted.
#[derive(Debug, Eq)]
pub struct Headers {
    entries: Vec<(String, String)>,
}

impl Headers {
    /// The `(name, value)` pairs, in order.
    pub closed spec fn pairs(&self) -> Seq<(Seq<char>, Seq<char>)> {
        pairs_of(self.entries@)
    }

    #[verifier::type_invariant]
    spec fn inv(&self) -> bool {
        names_distinct(self.pairs())
    }

    /// An empty set of headers.
    pub fn new() -> (h: Headers)
        ensures
            h.pairs() == Seq::<(Seq<char>, Seq<char>)>::empty(),
            h@ == Map::<Seq<char>, Seq<char>>::empty(),
    {
        let h = Headers { entries: Vec::new() };
        assert(h.pairs() =~= Seq::<(Seq<char>, Seq<char>)>::empty());
        h
    }

    /// The number of header fields.
    pub fn len(&self) -> (n: usize)
        ensures
            n == self.pairs().len(),
    {
        self.entries.len()
    }

    /// The name of the `i`-th field.
    pub fn name_at(&self, i: usize) -> (r: &String)
        requires
            i < self.pairs().len(),
        ensures
            r@ == self.pairs()[i as int].0,
    {
        &self.entries[i].0
    }

    /// The value of the `i`-th field.
    pub fn value_at(&self, i: usize) -> (r: &String)
        requires
            i < self.pairs().len(),
        ensures
            r@ == self.pairs()[i as int].1,
    {
        &self.entries[i].1
    }

    fn position(&self, name: &String) -> (r: Option<usize>)
        ensures
            match r {
                Some(i) => i < self.pairs().len() && self.pairs()[i as int].0 == name@,
                None => forall|j: int| 0 <= j < self.pairs().len() ==> self.pairs()[j].0 != name@,
            },
    {
        let mut i: usize = 0;
        while i < self.entries.len()
            invariant
                i <= self.entries.len(),
                self.pairs().len() == self.entries@.len(),
                forall|j: int| 0 <= j < i ==> self.pairs()[j].0 != name@,
            decreases self.entries.len() - i,
        {
            if self.entries[i].0 == *name {
                return Some(i);
            }
            i += 1;
        }
        None
    }

    /// The value of the field `name`, if there is one.
    pub fn get(&self, name: &String) -> (r: Option<&String>)
        ensures
            match r {
                Some(v) => self@.contains_key(name@) && self@[name@] == v@,
                None => !self@.contains_key(name@),
            },
    {
        proof {
            use_type_invariant(self);
            lemma_map_of_dom(self.pairs(), name@);
        }
        match self.position(name) {
            Some(i) => {
                proof {
                    lemma_map_of_index(self.pairs(), i as int);
                }
                Some(&self.entries[i].1)
            },
            None => None,
        }
    }

    /// Sets the field `name` to `value`: a name already present keeps its
    /// place, a new one goes last.
    pub fn insert(&mut self, name: String, value: String)
        ensures
            final(self)@ == old(self)@.insert(name@, value@),
            old(self)@.contains_key(name@) ==> final(self).pairs().len() == old(self).pairs().len(),
            !old(self)@.contains_key(name@) ==> final(self).pairs() == old(self).pairs().push(
                (name@, value@),
            ),
    {
        proof {
            use_type_invariant(&*self);
            lemma_map_of_dom(self.pairs(), name@);
        }
        match self.position(&name) {
            Some(i) => {
                let ghost es = self.pairs();
                proof {
                    lemma_map_of_update(es, i as int, value@);
                }
                let mut entries = Vec::new();
                std::mem::swap(&mut entries, &mut self.entries);
                let nm = entries[i].0.clone();
                entries.set(i, (nm, value));
                assert(pairs_of(entries@) =~= es.update(
                    i as int,
                    (es[i as int].0, value@),
                ));
                self.entries = entries;
            },
            None => {
                let ghost es = self.pairs();
                let ghost k = name@;
                let ghost v = value@;
                let mut entries = Vec::new();
                std::mem::swap(&mut entries, &mut self.entries);
                entries.push((name, value));
                let ghost es2 = pairs_of(entries@);
                assert(es2 =~= es.push((k, v)));
                assert(es2.drop_last() =~= es);
                assert forall|a: int, b: int| 0 <= a < b < es2.len() implies #[trigger] es2[a].0
                    != #[trigger] es2[b].0 by {
                    if b < es.len() {
                        assert(es2[a] == es[a] && es2[b] == es[b]);
                    }
                }
                self.entries = entries;
            },
        }
    }

    /// Removes the field `name`, giving back its value if it was there.
    pub fn remove(&mut self, name: &String) -> (r: Option<String>)
        ensures
            final(self)@ == old(self)@.remove(name@),
            match r {
                Some(v) => old(self)@.contains_key(name@) && old(self)@[name@] == v@,
                None => !old(self)@.contains_key(name@),
            },
    {
        proof {
            use_type_invariant(&*self);
            lemma_map_of_dom(self.pairs(), name@);
        }
        match self.position(name) {
            Some(i) => {
                let ghost es = self.pairs();
                proof {
                    lemma_map_of_remove(es, i as int);
                    lemma_map_of_index(es, i as int);
                }
                let mut entries = Vec::new();
                std::mem::swap(&mut entries, &mut self.entries);
                let e = entries.remove(i);
                assert(pairs_of(entries@) =~= es.remove(
                    i as int,
                ));
                self.entries = entries;
                Some(e.1)
            },
            None => {
                assert(old(self)@.remove(name@) =~= old(self)@);
                None
            },
        }
    }
}

impl Clone for Headers {
    /// A copy with the same pairs in the same order.
    fn clone(&self) -> (r: Headers)
        ensures
            r.pairs() == self.pairs(),
            r@ == self@,
    {
        proof {
            use_type_invariant(self);
        }
        let mut entries: Vec<(String, String)> = Vec::new();
        let mut i: usize = 0;
        while i < self.entries.len()
            invariant
                i <= self.entries.len(),
                self.pairs().len() == self.entries@.len(),
                entries@.len() == i,
                forall|j: int| 0 <= j < i ==> #[trigger] pairs_of(entries@)[j] == self.pairs()[j],
            decreases self.entries.len() - i,
        {
            let k = self.entries[i].0.clone();
            let v = self.entries[i].1.clone();
            assert(self.pairs()[i as int] == (k@, v@));
            let ghost prev = entries@;
            entries.push((k, v));
            assert forall|j: int| 0 <= j <= i implies #[trigger] pairs_of(entries@)[j]
                == self.pairs()[j] by {
                if j < i {
                    assert(entries@[j] == prev[j]);
                    assert(pairs_of(prev)[j] == self.pairs()[j]);
                }
            }
            i += 1;
        }
        assert(pairs_of(entries@) =~= self.pairs());
        Headers { entries }
    }
}

impl PartialEq for Headers {
    /// Whether both hold the same fields, in whatever order.
    fn eq(&self, other: &Headers) -> (r: bool) {
        proof {
            use_type_invariant(self);
            use_type_invariant(other);
            lemma_map_of_len(self.pairs());
            lemma_map_of_len(other.pairs());
        }
        if self.entries.len() != other.entries.len() {
            return false;
        }
        let mut i: usize = 0;
        while i < self.entries.len()
            invariant
                i <= self.entries.len(),
                self.pairs().len() == self.entries@.len(),
                names_distinct(self.pairs()),
                forall|j: int| #![trigger self.pairs()[j]]
                    0 <= j < i ==> other@.contains_key(self.pairs()[j].0) && other@[self.pairs()[j].0]
                        == self.pairs()[j].1,
            decreases self.entries.len() - i,
        {
            proof {
                lemma_map_of_index(self.pairs(), i as int);
            }
            match other.get(&self.entries[i].0) {
                Some(v) => {
                    if *v != self.entries[i].1 {
                        return false;
                    }
                },
                None => {
                    return false;
                },
            }
            i += 1;
        }
        proof {
            assert forall|k: Seq<char>| #[trigger] self@.contains_key(k) implies other@.contains_key(k)
                && other@[k] == self@[k] by {
                lemma_map_of_value(self.pairs(), k);
                let j = choose|j: int| 0 <= j < self.pairs().len() && self.pairs()[j].0 == k
                    && #[trigger] map_of(self.pairs())[k] == self.pairs()[j].1;
                assert(self.pairs()[j].0 == k);
            }
            lemma_map_included_equal(self@, other@);
        }
        true
    }
}

impl PartialEqSpecImpl for Headers {
    open spec fn obeys_eq_spec() -> bool {
        true
    }

    open spec fn eq_spec(&self, other: &Headers) -> bool {
        self@ == other@
    }
}

impl View for Headers {
    type V = Map<Seq<char>, Seq<char>>;

    /// Each field name with its value.
    closed spec fn view(&self) -> Map<Seq<char>, Seq<char>> {
        map_of(self.pairs())
    }
}

} // verus!
