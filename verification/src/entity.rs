//! The scored entity: named integer factors, kept in ascending name order.

use vstd::prelude::*;

verus! {

/// Strict lexicographic order on names, character by character
/// (by code point; for UTF-8 text this is also the byte order that
/// `String`'s own ordering uses).
pub open spec fn name_lt(a: Seq<char>, b: Seq<char>) -> bool
    decreases a.len(),
{
    if b.len() == 0 {
        false
    } else if a.len() == 0 {
        true
    } else if a[0] != b[0] {
        (a[0] as int) < (b[0] as int)
    } else {
        name_lt(a.drop_first(), b.drop_first())
    }
}

/// `name_lt` is irreflexive.
pub proof fn lemma_name_lt_irreflexive(a: Seq<char>)
    ensures
        !name_lt(a, a),
    decreases a.len(),
{
    if a.len() > 0 {
        lemma_name_lt_irreflexive(a.drop_first());
    }
}

/// `name_lt` is transitive.
pub proof fn lemma_name_lt_transitive(a: Seq<char>, b: Seq<char>, c: Seq<char>)
    requires
        name_lt(a, b),
        name_lt(b, c),
    ensures
        name_lt(a, c),
    decreases a.len(),
{
    if a.len() > 0 && b.len() > 0 && c.len() > 0 && a[0] == b[0] && b[0] == c[0] {
        lemma_name_lt_transitive(a.drop_first(), b.drop_first(), c.drop_first());
    }
}

/// Two different names are ordered one way or the other.
pub proof fn lemma_name_lt_total(a: Seq<char>, b: Seq<char>)
    ensures
        a == b || name_lt(a, b) || name_lt(b, a),
    decreases a.len(),
{
    if a.len() > 0 && b.len() > 0 {
        if a[0] == b[0] {
            lemma_name_lt_total(a.drop_first(), b.drop_first());
            if a.drop_first() == b.drop_first() {
                assert(a =~= seq![a[0]] + a.drop_first());
                assert(b =~= seq![b[0]] + b.drop_first());
            }
        }
    } else if a.len() == 0 && b.len() == 0 {
        assert(a =~= b);
    }
}

/// The characters of a string.
fn chars_of(s: &String) -> (r: Vec<char>)
    ensures
        r@ == s@,
{
    let mut r: Vec<char> = Vec::new();
    let ghost whole = s@;
    for c in it: s.as_str().chars()
        invariant
            it.seq() == whole,
            r@ == it.seq().take(it.index() as int),
    {
        r.push(c);
        proof {
            assert(r@ =~= it.seq().take(it.index() as int + 1));
        }
    }
    proof {
        assert(r@ =~= whole);
    }
    r
}

/// Whether `a` comes strictly before `b` in name order.
pub fn name_less(a: &String, b: &String) -> (r: bool)
    ensures
        r == name_lt(a@, b@),
{
    let x = chars_of(a);
    let y = chars_of(b);
    let mut i: usize = 0;
    proof {
        assert(x@.skip(0) =~= x@);
        assert(y@.skip(0) =~= y@);
    }
    while i < x.len() && i < y.len() && x[i] == y[i]
        invariant
            0 <= i <= x@.len(),
            i <= y@.len(),
            name_lt(a@, b@) == name_lt(x@.skip(i as int), y@.skip(i as int)),
        decreases x@.len() - i,
    {
        proof {
            assert(x@.skip(i as int).drop_first() =~= x@.skip(i + 1));
            assert(y@.skip(i as int).drop_first() =~= y@.skip(i + 1));
        }
        i = i + 1;
    }
    if i == y.len() {
        false
    } else if i == x.len() {
        true
    } else {
        let p: char = x[i];
        let q: char = y[i];
        proof {
            assert(x@.skip(i as int)[0] == p);
            assert(y@.skip(i as int)[0] == q);
        }
        p < q
    }
}

/// Names in strictly ascending order (hence all distinct).
pub open spec fn names_ascending(s: Seq<(Seq<char>, i64)>) -> bool {
    forall|i: int, j: int| 0 <= i < j < s.len() ==> name_lt(#[trigger] s[i].0, #[trigger] s[j].0)
}

/// The value stored under `name`, if any (the first entry with that name).
pub open spec fn lookup(s: Seq<(Seq<char>, i64)>, name: Seq<char>) -> Option<i64>
    decreases s.len(),
{
    if s.len() == 0 {
        None
    } else if s[0].0 == name {
        Some(s[0].1)
    } else {
        lookup(s.drop_first(), name)
    }
}

/// Index of the first entry named `name`, if any.
pub open spec fn position(s: Seq<(Seq<char>, i64)>, name: Seq<char>) -> Option<int>
    decreases s.len(),
{
    if s.len() == 0 {
        None
    } else if s[0].0 == name {
        Some(0)
    } else {
        match position(s.drop_first(), name) {
            Some(p) => Some(p + 1),
            None => None,
        }
    }
}

/// Ordered-map insertion: replaces the value of an existing name, or adds
/// the entry in its place in name order.
pub open spec fn insert_entry(s: Seq<(Seq<char>, i64)>, name: Seq<char>, value: i64) -> Seq<
    (Seq<char>, i64),
>
    decreases s.len(),
{
    if s.len() == 0 {
        seq![(name, value)]
    } else if s[0].0 == name {
        seq![(name, value)] + s.drop_first()
    } else if name_lt(name, s[0].0) {
        seq![(name, value)] + s
    } else {
        seq![s[0]] + insert_entry(s.drop_first(), name, value)
    }
}

/// Where `insert_entry` puts a name: at the first index whose name is not
/// below it, replacing an equal name, and the result stays ascending.
pub proof fn lemma_insert_entry_at(s: Seq<(Seq<char>, i64)>, k: Seq<char>, v: i64, i: int)
    requires
        names_ascending(s),
        0 <= i <= s.len(),
        forall|j: int| 0 <= j < i ==> name_lt(#[trigger] s[j].0, k),
        i < s.len() ==> !name_lt(s[i].0, k),
    ensures
        i < s.len() && s[i].0 == k ==> insert_entry(s, k, v) == s.update(i, (k, v)),
        !(i < s.len() && s[i].0 == k) ==> insert_entry(s, k, v) == s.insert(i, (k, v)),
        names_ascending(insert_entry(s, k, v)),
    decreases s.len(),
{
    let r = insert_entry(s, k, v);
    if s.len() == 0 {
        assert(r =~= s.insert(i, (k, v)));
    } else if i == 0 {
        if s[0].0 == k {
            assert(r =~= s.update(0, (k, v)));
            assert forall|a: int, b: int| 0 <= a < b < r.len() implies name_lt(
                #[trigger] r[a].0,
                #[trigger] r[b].0,
            ) by {
                assert(s[a].0 == r[a].0);
                assert(s[b].0 == r[b].0);
            }
        } else {
            lemma_name_lt_total(k, s[0].0);
            assert(name_lt(k, s[0].0));
            assert(r =~= s.insert(0, (k, v)));
            assert forall|a: int, b: int| 0 <= a < b < r.len() implies name_lt(
                #[trigger] r[a].0,
                #[trigger] r[b].0,
            ) by {
                if a == 0 {
                    if b > 1 {
                        lemma_name_lt_transitive(k, s[0].0, s[b - 1].0);
                    }
                } else {
                    assert(r[a] == s[a - 1] && r[b] == s[b - 1]);
                }
            }
        }
    } else {
        let t = s.drop_first();
        assert(name_lt(s[0].0, k));
        lemma_name_lt_irreflexive(k);
        if name_lt(k, s[0].0) {
            lemma_name_lt_transitive(k, s[0].0, k);
        }
        assert forall|a: int, b: int| 0 <= a < b < t.len() implies name_lt(
            #[trigger] t[a].0,
            #[trigger] t[b].0,
        ) by {
            assert(t[a] == s[a + 1] && t[b] == s[b + 1]);
        }
        assert forall|j: int| 0 <= j < i - 1 implies name_lt(#[trigger] t[j].0, k) by {
            assert(t[j] == s[j + 1]);
        }
        lemma_insert_entry_at(t, k, v, i - 1);
        let rt = insert_entry(t, k, v);
        assert(r == seq![s[0]] + rt);
        if i < s.len() && s[i].0 == k {
            assert(r =~= s.update(i, (k, v)));
        } else {
            assert(r =~= s.insert(i, (k, v)));
        }
        assert forall|b: int| 0 <= b < rt.len() implies name_lt(s[0].0, #[trigger] rt[b].0) by {
            if i < s.len() && s[i].0 == k {
                assert(rt[b] == r[b + 1]);
                if b + 1 != i {
                    assert(r[b + 1] == s[b + 1]);
                }
            } else {
                if b + 1 < i {
                    assert(rt[b] == s[b + 1]);
                } else if b + 1 == i {
                    assert(rt[b].0 == k);
                } else {
                    assert(rt[b] == s[b]);
                }
            }
        }
        assert forall|a: int, b: int| 0 <= a < b < r.len() implies name_lt(
            #[trigger] r[a].0,
            #[trigger] r[b].0,
        ) by {
            if a == 0 {
                assert(r[b] == rt[b - 1]);
            } else {
                assert(r[a] == rt[a - 1] && r[b] == rt[b - 1]);
            }
        }
    }
}

/// Reading after writing: after inserting `value` under `name`, the name
/// reads back `value` and every other name reads what it read before.
pub proof fn lemma_insert_then_lookup(s: Seq<(Seq<char>, i64)>, name: Seq<char>, value: i64, other: Seq<char>)
    ensures
        lookup(insert_entry(s, name, value), name) == Some(value),
        other != name ==> lookup(insert_entry(s, name, value), other) == lookup(s, other),
    decreases s.len(),
{
    let r = insert_entry(s, name, value);
    if s.len() == 0 {
        assert(r[0] == (name, value));
        assert(r.drop_first() =~= Seq::<(Seq<char>, i64)>::empty());
    } else if s[0].0 == name {
        assert(r[0] == (name, value));
        assert(r.drop_first() =~= s.drop_first());
    } else if name_lt(name, s[0].0) {
        assert(r[0] == (name, value));
        assert(r.drop_first() =~= s);
    } else {
        lemma_insert_then_lookup(s.drop_first(), name, value, other);
        assert(r[0] == s[0]);
        assert(r.drop_first() =~= insert_entry(s.drop_first(), name, value));
    }
    assert(r.len() > 0);
    if other != name {
        assert(lookup(r, other) == if r[0].0 == other {
            Some(r[0].1)
        } else {
            lookup(r.drop_first(), other)
        });
    }
}

/// The first entry named `name` sits at its position, and has the value
/// that `lookup` gives; a name without a position has no value.
pub proof fn lemma_position_lookup(entity: Seq<(Seq<char>, i64)>, name: Seq<char>)
    ensures
        match position(entity, name) {
            Some(p) => 0 <= p < entity.len() && entity[p].0 == name && lookup(entity, name) == Some(
                entity[p].1,
            ),
            None => lookup(entity, name) is None,
        },
    decreases entity.len(),
{
    if entity.len() > 0 && entity[0].0 != name {
        lemma_position_lookup(entity.drop_first(), name);
    }
}

/// The entity whose factors are scored: each factor has a distinct name and
/// an integer value; factors are kept in ascending name order, as in an
/// ordered map.
pub struct Entity {
    factors: Vec<(String, i64)>,
}

/// Name and value of each factor, as plain sequences.
pub open spec fn entries_of(v: Seq<(String, i64)>) -> Seq<(Seq<char>, i64)> {
    v.map_values(|e: (String, i64)| (e.0@, e.1))
}

impl View for Entity {
    type V = Seq<(Seq<char>, i64)>;

    closed spec fn view(&self) -> Seq<(Seq<char>, i64)> {
        entries_of(self.factors@)
    }
}

impl Entity {
    #[verifier::type_invariant]
    spec fn ascending(&self) -> bool {
        names_ascending(entries_of(self.factors@))
    }

    /// An entity with no factors.
    pub fn new() -> (r: Entity)
        ensures
            r@ == Seq::<(Seq<char>, i64)>::empty(),
            names_ascending(r@),
    {
        let r = Entity { factors: Vec::new() };
        proof {
            assert(entries_of(r.factors@) =~= Seq::<(Seq<char>, i64)>::empty());
        }
        r
    }

    /// The number of factors.
    pub fn len(&self) -> (r: usize)
        ensures
            r == self@.len(),
            names_ascending(self@),
    {
        proof {
            use_type_invariant(self);
        }
        self.factors.len()
    }

    /// The name of the factor at `index` in name order.
    pub fn name_at(&self, index: usize) -> (r: &String)
        requires
            index < self@.len(),
        ensures
            r@ == self@[index as int].0,
            names_ascending(self@),
    {
        proof {
            use_type_invariant(self);
        }
        &self.factors[index].0
    }

    /// The value of the factor at `index` in name order.
    pub fn value_at(&self, index: usize) -> (r: i64)
        requires
            index < self@.len(),
        ensures
            r == self@[index as int].1,
            names_ascending(self@),
    {
        proof {
            use_type_invariant(self);
        }
        self.factors[index].1
    }

    /// Sets the factor `name` to `value`, replacing its value if the name is
    /// already present, as an ordered map's `insert` does.
    pub fn insert(&mut self, name: String, value: i64)
        ensures
            final(self)@ == insert_entry(old(self)@, name@, value),
            names_ascending(final(self)@),
    {
        proof {
            use_type_invariant(&*self);
        }
        let mut v: Vec<(String, i64)> = Vec::new();
        std::mem::swap(&mut v, &mut self.factors);
        let ghost s = entries_of(v@);
        let mut i: usize = 0;
        while i < v.len() && name_less(&v[i].0, &name)
            invariant
                s == entries_of(v@),
                0 <= i <= v@.len(),
                forall|j: int| 0 <= j < i ==> name_lt(#[trigger] s[j].0, name@),
            decreases v@.len() - i,
        {
            i = i + 1;
        }
        proof {
            lemma_insert_entry_at(s, name@, value, i as int);
        }
        if i < v.len() && v[i].0 == name {
            let ghost nm = name@;
            v.set(i, (name, value));
            proof {
                assert(entries_of(v@) =~= s.update(i as int, (nm, value)));
            }
        } else {
            let ghost nm = name@;
            v.insert(i, (name, value));
            proof {
                assert(entries_of(v@) =~= s.insert(i as int, (nm, value)));
            }
        }
        self.factors = v;
    }

    /// The value of the factor named `name`, if there is one.
    pub fn get(&self, name: &String) -> (r: Option<i64>)
        ensures
            r == lookup(self@, name@),
            names_ascending(self@),
    {
        proof {
            use_type_invariant(self);
        }
        let n = self.factors.len();
        let ghost s = self@;
        let mut i: usize = 0;
        proof {
            assert(s.skip(0) =~= s);
        }
        while i < n
            invariant
                n == self.factors@.len(),
                s == self@,
                s == entries_of(self.factors@),
                names_ascending(s),
                0 <= i <= n,
                lookup(s, name@) == lookup(s.skip(i as int), name@),
            decreases n - i,
        {
            let ghost rest = s.skip(i as int);
            if self.factors[i].0 == *name {
                return Some(self.factors[i].1);
            }
            proof {
                assert(rest.drop_first() =~= s.skip(i + 1));
            }
            i = i + 1;
        }
        None
    }
}

} // verus!
