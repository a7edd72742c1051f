use crate::rational::{lowest_terms, Rational};
use crate::token::{chars_of, copy_chars, decimal, lower_of, lowercase, same_chars, Number, Value};
use crate::integer::Integer;
use crate::parser::parsed;
use crate::rpn_resolver::{postfix_of, registered, RpnResolver};
use vstd::prelude::*;

verus! {

/// The names and values of a list of entries.
pub open spec fn entry_views(s: Seq<(Vec<char>, Number)>) -> Seq<(Seq<char>, Value)> {
    s.map_values(|e: (Vec<char>, Number)| (e.0@, e.1@))
}

/// The map that a list of entries describes; a later entry wins.
pub open spec fn pairs_map(p: Seq<(Seq<char>, Value)>) -> Map<Seq<char>, Value>
    decreases p.len(),
{
    if p.len() == 0 {
        Map::empty()
    } else {
        pairs_map(p.drop_last()).insert(p.last().0, p.last().1)
    }
}

pub open spec fn keys_unique(p: Seq<(Seq<char>, Value)>) -> bool {
    forall|i: int, j: int| 0 <= i < p.len() && 0 <= j < p.len() && i != j ==> p[i].0 != p[j].0
}

proof fn lemma_pairs_map_index(p: Seq<(Seq<char>, Value)>, i: int)
    requires
        keys_unique(p),
        0 <= i < p.len(),
    ensures
        pairs_map(p).contains_key(p[i].0),
        pairs_map(p)[p[i].0] == p[i].1,
    decreases p.len(),
{
    if i < p.len() - 1 {
        let q = p.drop_last();
        assert(keys_unique(q));
        assert(q[i] == p[i]);
        lemma_pairs_map_index(q, i);
        assert(p.last() == p[p.len() - 1]);
    }
}

proof fn lemma_pairs_map_absent(p: Seq<(Seq<char>, Value)>, k: Seq<char>)
    requires
        forall|i: int| 0 <= i < p.len() ==> p[i].0 != k,
    ensures
        !pairs_map(p).contains_key(k),
    decreases p.len(),
{
    if p.len() > 0 {
        let q = p.drop_last();
        assert forall|i: int| 0 <= i < q.len() implies q[i].0 != k by {
            assert(q[i] == p[i]);
        }
        lemma_pairs_map_absent(q, k);
        assert(p.last() == p[p.len() - 1]);
    }
}

proof fn lemma_pairs_map_update(p: Seq<(Seq<char>, Value)>, i: int, v: Value)
    requires
        keys_unique(p),
        0 <= i < p.len(),
    ensures
        pairs_map(p.update(i, (p[i].0, v))) == pairs_map(p).insert(p[i].0, v),
    decreases p.len(),
{
    let k = p[i].0;
    let p2 = p.update(i, (k, v));
    if i == p.len() - 1 {
        assert(p2.drop_last() =~= p.drop_last());
        assert(pairs_map(p2) =~= pairs_map(p).insert(k, v));
    } else {
        let q = p.drop_last();
        assert(keys_unique(q));
        assert(q[i] == p[i]);
        assert(p2.drop_last() =~= q.update(i, (k, v)));
        lemma_pairs_map_update(q, i, v);
        assert(p.last() == p[p.len() - 1]);
        assert(p.last().0 != k);
        assert(pairs_map(p2) =~= pairs_map(p).insert(k, v));
    }
}

/// The variables of a calculation: each lower-case name with its last assigned value.
pub struct Session {
    variable_heap: Vec<(Vec<char>, Number)>,
}

impl View for Session {
    type V = Map<Seq<char>, Value>;

    closed spec fn view(&self) -> Map<Seq<char>, Value> {
        pairs_map(entry_views(self.variable_heap@))
    }
}

pub const PI_NUMER: i64 = 884279719003555;
pub const PI_DENOM: i64 = 281474976710656;
pub const E_NUMER: i64 = 6121026514868073;
pub const E_DENOM: i64 = 2251799813685248;
pub const TAU_NUMER: i64 = 884279719003555;
pub const TAU_DENOM: i64 = 140737488355328;
pub const PHI_NUMER: i64 = 910872158600853;
pub const PHI_DENOM: i64 = 562949953421312;
pub const GAMMA_NUMER: i64 = 5199096506725913;
pub const GAMMA_DENOM: i64 = 9007199254740992;

/// The constants every session starts with: the double-precision values of
/// pi, e, tau, the golden ratio and the Euler-Mascheroni constant, as exact fractions.
pub open spec fn constants() -> Map<Seq<char>, Value> {
    Map::empty().insert(seq!['p', 'i'], decimal(lowest_terms(PI_NUMER as int, PI_DENOM as int))).insert(
        seq!['e'],
        decimal(lowest_terms(E_NUMER as int, E_DENOM as int)),
    ).insert(seq!['t', 'a', 'u'], decimal(lowest_terms(TAU_NUMER as int, TAU_DENOM as int))).insert(
        seq!['p', 'h', 'i'],
        decimal(lowest_terms(PHI_NUMER as int, PHI_DENOM as int)),
    ).insert(
        seq!['g', 'a', 'm', 'm', 'a'],
        decimal(lowest_terms(GAMMA_NUMER as int, GAMMA_DENOM as int)),
    )
}

fn fraction(n: i64, d: i64) -> (r: Number)
    requires
        d != 0,
    ensures
        r@ == decimal(lowest_terms(n as int, d as int)),
{
    Number::DecimalNumber(Rational::new(&Integer::from_i64(n), &Integer::from_i64(d)))
}

impl Session {
    pub closed spec fn wf(&self) -> bool {
        keys_unique(entry_views(self.variable_heap@))
    }

    /// A session without any variable.
    pub fn new() -> (r: Session)
        ensures
            r.wf(),
            r@ == Map::<Seq<char>, Value>::empty(),
    {
        let r = Session { variable_heap: Vec::new() };
        assert(entry_views(r.variable_heap@) =~= Seq::empty());
        r
    }

    /// A session that holds the constants `pi`, `e`, `tau`, `phi` and `gamma`.
    pub fn init() -> (r: Session)
        ensures
            r.wf(),
            r@ == constants(),
    {
        let mut r = Session::new();
        let pi = vec!['p', 'i'];
        let e = vec!['e'];
        let tau = vec!['t', 'a', 'u'];
        let phi = vec!['p', 'h', 'i'];
        let gamma = vec!['g', 'a', 'm', 'm', 'a'];
        assert(pi@ =~= seq!['p', 'i']);
        assert(e@ =~= seq!['e']);
        assert(tau@ =~= seq!['t', 'a', 'u']);
        assert(phi@ =~= seq!['p', 'h', 'i']);
        assert(gamma@ =~= seq!['g', 'a', 'm', 'm', 'a']);
        r.insert(pi, fraction(PI_NUMER, PI_DENOM));
        r.insert(e, fraction(E_NUMER, E_DENOM));
        r.insert(tau, fraction(TAU_NUMER, TAU_DENOM));
        r.insert(phi, fraction(PHI_NUMER, PHI_DENOM));
        r.insert(gamma, fraction(GAMMA_NUMER, GAMMA_DENOM));
        r
    }

    /// The position of `name` among the entries.
    fn find(&self, name: &Vec<char>) -> (r: Option<usize>)
        ensures
            r matches Some(i) ==> i < self.variable_heap@.len() && self.variable_heap@[i as int].0@
                == name@,
            r is None ==> forall|i: int|
                0 <= i < self.variable_heap@.len() ==> self.variable_heap@[i].0@ != name@,
    {
        let mut i: usize = 0;
        while i < self.variable_heap.len()
            invariant
                i <= self.variable_heap@.len(),
                forall|j: int| 0 <= j < i ==> self.variable_heap@[j].0@ != name@,
            decreases self.variable_heap@.len() - i,
        {
            if same_chars(&self.variable_heap[i].0, name) {
                return Some(i);
            }
            i = i + 1;
        }
        None
    }

    /// The value of `name`, if it has one.
    pub fn lookup(&self, name: &Vec<char>) -> (r: Option<Number>)
        requires
            self.wf(),
        ensures
            r matches Some(n) ==> self@.contains_key(name@) && n@ == self@[name@],
            r is None <==> !self@.contains_key(name@),
    {
        let ghost p = entry_views(self.variable_heap@);
        match self.find(name) {
            Some(i) => {
                proof {
                    assert(p[i as int] == (self.variable_heap@[i as int].0@, self.variable_heap@[i as int].1@));
                    lemma_pairs_map_index(p, i as int);
                }
                Some(self.variable_heap[i].1.copy())
            },
            None => {
                proof {
                    assert forall|j: int| 0 <= j < p.len() implies p[j].0 != name@ by {
                        assert(p[j].0 == self.variable_heap@[j].0@);
                    }
                    lemma_pairs_map_absent(p, name@);
                }
                None
            },
        }
    }

    /// Gives `name` the value `v`, replacing any earlier value.
    pub fn insert(&mut self, name: Vec<char>, v: Number)
        requires
            old(self).wf(),
        ensures
            final(self).wf(),
            final(self)@ == old(self)@.insert(name@, v@),
    {
        let ghost p = entry_views(self.variable_heap@);
        let ghost k = name@;
        let ghost val = v@;
        match self.find(&name) {
            Some(i) => {
                proof {
                    assert(p[i as int].0 == k);
                    lemma_pairs_map_update(p, i as int, val);
                }
                self.variable_heap.set(i, (name, v));
                proof {
                    assert(entry_views(self.variable_heap@) =~= p.update(i as int, (k, val)));
                }
            },
            None => {
                self.variable_heap.push((name, v));
                proof {
                    let p2 = entry_views(self.variable_heap@);
                    assert(p2 =~= p.push((k, val)));
                    assert(p2.drop_last() =~= p);
                    assert forall|a: int, b: int|
                        0 <= a < p2.len() && 0 <= b < p2.len() && a != b implies p2[a].0
                        != p2[b].0 by {
                        if a < p.len() {
                            assert(p2[a].0 == self.variable_heap@[a].0@);
                        }
                        if b < p.len() {
                            assert(p2[b].0 == self.variable_heap@[b].0@);
                        }
                    }
                }
            },
        }
    }

    /// Gives `name` the value integer zero unless it already has a value.
    pub fn register(&mut self, name: &Vec<char>)
        requires
            old(self).wf(),
        ensures
            final(self).wf(),
            final(self)@ == if old(self)@.contains_key(name@) {
                old(self)@
            } else {
                old(self)@.insert(name@, Value::Natural(0))
            },
    {
        if self.lookup(name).is_none() {
            self.insert(copy_chars(name), Number::integer(0));
        }
    }

    /// Declares and saves an integer variable; the name is folded to lower case.
    pub fn set(&mut self, key: &str, value: i64)
        requires
            old(self).wf(),
        ensures
            final(self).wf(),
            final(self)@ == old(self)@.insert(lower_of(key@), Value::Natural(value as int)),
    {
        let name = lowercase(&chars_of(key));
        self.insert(name, Number::integer(value));
    }

    /// Declares and saves a rational variable; the name is folded to lower case.
    pub fn setf(&mut self, key: &str, value: Rational)
        requires
            old(self).wf(),
        ensures
            final(self).wf(),
            final(self)@ == old(self)@.insert(lower_of(key@), Value::Decimal(value@.0, value@.1)),
    {
        let name = lowercase(&chars_of(key));
        self.insert(name, Number::DecimalNumber(value));
    }

    /// A copy of this session.
    pub fn copy(&self) -> (r: Session)
        requires
            self.wf(),
        ensures
            r.wf(),
            r@ == self@,
    {
        let mut heap: Vec<(Vec<char>, Number)> = Vec::new();
        let mut i: usize = 0;
        while i < self.variable_heap.len()
            invariant
                i <= self.variable_heap@.len(),
                entry_views(heap@) =~= entry_views(self.variable_heap@).take(i as int),
            decreases self.variable_heap@.len() - i,
        {
            let e = &self.variable_heap[i];
            let ghost before = heap@;
            heap.push((copy_chars(&e.0), e.1.copy()));
            proof {
                assert(heap@ =~= before.push(heap@.last()));
                assert(entry_views(heap@) =~= entry_views(before).push(entry_views(self.variable_heap@)[i as int]));
                assert(entry_views(self.variable_heap@).take(i + 1) =~= entry_views(self.variable_heap@).take(i as int).push(entry_views(self.variable_heap@)[i as int]));
            }
            i = i + 1;
        }
        assert(entry_views(self.variable_heap@).take(i as int) =~= entry_views(self.variable_heap@));
        Session { variable_heap: heap }
    }
}

impl Session {
    /// Compiles an expression against this session; its variables are registered here.
    pub fn process(&mut self, line: &str) -> (r: RpnResolver)
        requires
            old(self).wf(),
        ensures
            final(self).wf(),
            r.postfix() == postfix_of(parsed(line@)),
            final(self)@ == registered(old(self)@, parsed(line@), parsed(line@).len() as int),
    {
        RpnResolver::parse_with_borrowed_heap(line, self)
    }
}

} // verus!
