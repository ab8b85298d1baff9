//! A map from text keys to values, where a later insertion under a key
//! replaces the earlier one (the behaviour of `HashMap::insert`).

use crate::text::same_text;
use vstd::prelude::*;

verus! {

/// The map that a sequence of insertions, made in order, leaves behind.
pub open spec fn map_of<W>(s: Seq<(Seq<char>, W)>) -> Map<Seq<char>, W>
    decreases s.len(),
{
    if s.len() == 0 {
        Map::empty()
    } else {
        map_of(s.drop_last()).insert(s.last().0, s.last().1)
    }
}

/// Insertions after index `i` under other keys do not change what `k` maps to.
proof fn lemma_map_of_suffix<W>(s: Seq<(Seq<char>, W)>, i: int, k: Seq<char>)
    requires
        0 <= i <= s.len(),
        forall|j: int| i <= j < s.len() ==> (#[trigger] s[j]).0 != k,
    ensures
        map_of(s).contains_key(k) == map_of(s.take(i)).contains_key(k),
        map_of(s).contains_key(k) ==> map_of(s)[k] == map_of(s.take(i))[k],
    decreases s.len(),
{
    if i == s.len() {
        assert(s.take(i) =~= s);
    } else {
        let t = s.drop_last();
        assert forall|j: int| i <= j < t.len() implies (#[trigger] t[j]).0 != k by {
            assert(t[j] == s[j]);
        }
        lemma_map_of_suffix(t, i, k);
        assert(t.take(i) =~= s.take(i));
    }
}

/// Text keys mapped to values; `view` is the map that the insertions built.
pub struct FormMap<V> {
    entries: Vec<(String, V)>,
}

impl<V: View> FormMap<V> {
    /// The insertions made, in order, as views.
    pub closed spec fn pairs(&self) -> Seq<(Seq<char>, V::V)> {
        self.entries@.map_values(|e: (String, V)| (e.0@, e.1@))
    }
}

impl<V: View> View for FormMap<V> {
    type V = Map<Seq<char>, V::V>;

    closed spec fn view(&self) -> Map<Seq<char>, V::V> {
        map_of(self.pairs())
    }
}

impl<V: View> FormMap<V> {
    pub fn new() -> (m: Self)
        ensures
            m@ == Map::<Seq<char>, V::V>::empty(),
    {
        let m = FormMap { entries: Vec::new() };
        assert(m.pairs() =~= Seq::<(Seq<char>, V::V)>::empty());
        m
    }

    /// Maps `key` to `value`, replacing what it mapped to before.
    pub fn insert(&mut self, key: String, value: V)
        ensures
            final(self)@ == old(self)@.insert(key@, value@),
    {
        let ghost old_pairs = self.pairs();
        let ghost kv = (key@, value@);
        self.entries.push((key, value));
        assert(self.pairs() =~= old_pairs.push(kv));
        assert(self.pairs().drop_last() =~= old_pairs);
    }

    /// The value that `key` maps to.
    pub fn get(&self, key: &str) -> (r: Option<&V>)
        ensures
            match r {
                Some(v) => self@.contains_key(key@) && v@ == self@[key@],
                None => !self@.contains_key(key@),
            },
    {
        let ghost ps = self.pairs();
        let mut i: usize = self.entries.len();
        while i > 0
            invariant
                i <= self.entries@.len(),
                ps == self.pairs(),
                ps.len() == self.entries@.len(),
                forall|j: int| i <= j < ps.len() ==> (#[trigger] ps[j]).0 != key@,
            decreases i,
        {
            let e = &self.entries[i - 1];
            assert(ps[i - 1] == (e.0@, e.1@));
            if same_text(e.0.as_str(), key) {
                proof {
                    lemma_map_of_suffix(ps, i as int, key@);
                    assert(ps.take(i as int).drop_last() =~= ps.take(i - 1));
                    assert(ps.take(i as int).last() == ps[i - 1]);
                }
                return Some(&e.1);
            }
            i = i - 1;
        }
        proof {
            lemma_map_of_suffix(ps, 0, key@);
            assert(ps.take(0) =~= Seq::<(Seq<char>, V::V)>::empty());
        }
        None
    }
}

} // verus!
