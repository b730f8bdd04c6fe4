//! A model of the process environment: a mapping from names to values into
//! which entries are installed one after another, each overwriting any earlier
//! value under its key.

use vstd::prelude::*;
use crate::parse::{entries_view, EnvEntry};

verus! {

/// The mapping `m` after installing `es` in order: a later entry overwrites an
/// earlier value under the same key.
pub open spec fn apply_entries(
    m: Map<Seq<char>, Seq<char>>,
    es: Seq<(Seq<char>, Seq<char>)>,
) -> Map<Seq<char>, Seq<char>>
    decreases es.len(),
{
    if es.len() == 0 {
        m
    } else {
        apply_entries(m, es.drop_last()).insert(es.last().0, es.last().1)
    }
}

/// The value of the last entry of `es` under key `k`, if any.
pub open spec fn last_value(es: Seq<(Seq<char>, Seq<char>)>, k: Seq<char>) -> Option<Seq<char>>
    decreases es.len(),
{
    if es.len() == 0 {
        None
    } else if es.last().0 == k {
        Some(es.last().1)
    } else {
        last_value(es.drop_last(), k)
    }
}

/// After installing `es` into `m`, a key is present where `es` or `m` has it,
/// and its value is the last one `es` gives it, else the one of `m`.
pub proof fn lemma_apply_entries_at(
    m: Map<Seq<char>, Seq<char>>,
    es: Seq<(Seq<char>, Seq<char>)>,
    k: Seq<char>,
)
    ensures
        apply_entries(m, es).contains_key(k) == (last_value(es, k) is Some || m.contains_key(k)),
        last_value(es, k) is Some ==> apply_entries(m, es)[k] == last_value(es, k)->0,
        last_value(es, k) is None ==> apply_entries(m, es)[k] == m[k],
    decreases es.len(),
{
    if es.len() > 0 {
        lemma_apply_entries_at(m, es.drop_last(), k);
    }
}

/// The last entry under `k` is the one at `i` where no later entry has key `k`.
proof fn lemma_last_value_at(es: Seq<(Seq<char>, Seq<char>)>, k: Seq<char>, i: int)
    requires
        -1 <= i < es.len(),
        forall|j: int| i < j < es.len() ==> es[j].0 != k,
        i >= 0 ==> es[i].0 == k,
    ensures
        last_value(es, k) == (if i >= 0 {
            Some(es[i].1)
        } else {
            None::<Seq<char>>
        }),
    decreases es.len(),
{
    if es.len() > 0 && i < es.len() - 1 {
        lemma_last_value_at(es.drop_last(), k, i);
    }
}

/// Installing the same entries a second time changes nothing.
pub proof fn lemma_apply_entries_twice(
    m: Map<Seq<char>, Seq<char>>,
    es: Seq<(Seq<char>, Seq<char>)>,
)
    ensures
        apply_entries(apply_entries(m, es), es) == apply_entries(m, es),
{
    let once = apply_entries(m, es);
    let twice = apply_entries(once, es);
    assert forall|k: Seq<char>| #[trigger] twice.contains_key(k) == once.contains_key(k) by {
        lemma_apply_entries_at(m, es, k);
        lemma_apply_entries_at(once, es, k);
    }
    assert forall|k: Seq<char>| once.contains_key(k) implies #[trigger] twice[k] == once[k] by {
        lemma_apply_entries_at(m, es, k);
        lemma_apply_entries_at(once, es, k);
    }
    assert(twice =~= once);
}

/// Names and their values, as the process environment holds them.
pub struct Environment {
    /// Every entry installed so far, oldest first; a later one shadows an
    /// earlier one under the same key.
    vars: Vec<EnvEntry>,
}

impl View for Environment {
    type V = Map<Seq<char>, Seq<char>>;

    closed spec fn view(&self) -> Map<Seq<char>, Seq<char>> {
        apply_entries(Map::empty(), entries_view(self.vars@))
    }
}

impl Environment {
    /// An environment with no names in it.
    pub fn new() -> (r: Environment)
        ensures
            r@ == Map::<Seq<char>, Seq<char>>::empty(),
    {
        let r = Environment { vars: Vec::new() };
        assert(entries_view(r.vars@) =~= Seq::<(Seq<char>, Seq<char>)>::empty());
        r
    }

    /// Sets `key` to `value`, overwriting any value it had.
    pub fn set(&mut self, key: String, value: String)
        ensures
            final(self)@ == old(self)@.insert(key@, value@),
    {
        let ghost before = entries_view(self.vars@);
        self.vars.push(EnvEntry { key, value });
        assert(entries_view(self.vars@).drop_last() =~= before);
    }

    /// Installs `entries` in order, each overwriting any earlier value under its key.
    pub fn install(&mut self, entries: &Vec<EnvEntry>)
        ensures
            final(self)@ == apply_entries(old(self)@, entries_view(entries@)),
    {
        let ghost start = self@;
        let n = entries.len();
        for i in 0..n
            invariant
                n == entries@.len(),
                self@ == apply_entries(start, entries_view(entries@).take(i as int)),
        {
            let ghost es = entries_view(entries@);
            assert(es.take(i + 1).drop_last() =~= es.take(i as int));
            self.set(entries[i].key.clone(), entries[i].value.clone());
        }
        assert(entries_view(entries@).take(n as int) =~= entries_view(entries@));
    }

    /// The value of `key`, if it is set.
    pub fn get(&self, key: &str) -> (r: Option<String>)
        ensures
            r is Some == self@.contains_key(key@),
            r is Some ==> r->0@ == self@[key@],
    {
        let k = String::from_str(key);
        let ghost es = entries_view(self.vars@);
        let mut i = self.vars.len();
        while i > 0
            invariant
                i <= self.vars@.len(),
                k@ == key@,
                es == entries_view(self.vars@),
                forall|j: int| i <= j < es.len() ==> es[j].0 != key@,
            decreases i,
        {
            i = i - 1;
            if self.vars[i].key == k {
                proof {
                    lemma_last_value_at(es, key@, i as int);
                    lemma_apply_entries_at(Map::empty(), es, key@);
                }
                return Some(self.vars[i].value.clone());
            }
        }
        proof {
            lemma_last_value_at(es, key@, -1);
            lemma_apply_entries_at(Map::empty(), es, key@);
        }
        None
    }

    /// Whether `key` is set.
    pub fn contains(&self, key: &str) -> (r: bool)
        ensures
            r == self@.contains_key(key@),
    {
        self.get(key).is_some()
    }
}

} // verus!
