//! A string-keyed table with unique keys, the backing shape of the variable
//! store and of the vault's scene and character collections. Its view is the
//! finite map from key characters to value views.
use vstd::prelude::*;
use crate::text::matches_at;

verus! {

/// The map described by a sequence of key/value entries; a later entry for
/// the same key overrides an earlier one.
pub open spec fn table_map<V: View>(es: Seq<(String, V)>) -> Map<Seq<char>, V::V>
    decreases es.len(),
{
    if es.len() == 0 {
        Map::empty()
    } else {
        table_map(es.drop_last()).insert(es.last().0@, es.last().1@)
    }
}

/// No two entries share a key.
pub open spec fn unique_keys<V>(es: Seq<(String, V)>) -> bool {
    forall|i: int, j: int| 0 <= i < j < es.len() ==> es[i].0@ != es[j].0@
}

pub proof fn lemma_table_map_lookup<V: View>(es: Seq<(String, V)>, k: int)
    requires
        unique_keys(es),
        0 <= k < es.len(),
    ensures
        table_map(es).contains_key(es[k].0@),
        table_map(es)[es[k].0@] == es[k].1@,
    decreases es.len(),
{
    if k < es.len() - 1 {
        assert(unique_keys(es.drop_last()));
        lemma_table_map_lookup(es.drop_last(), k);
    }
}

pub proof fn lemma_table_map_absent<V: View>(es: Seq<(String, V)>, key: Seq<char>)
    requires
        forall|i: int| 0 <= i < es.len() ==> es[i].0@ != key,
    ensures
        !table_map(es).contains_key(key),
    decreases es.len(),
{
    if es.len() > 0 {
        lemma_table_map_absent(es.drop_last(), key);
    }
}

pub proof fn lemma_table_map_update<V: View>(es: Seq<(String, V)>, k: int, p: (String, V))
    requires
        unique_keys(es),
        0 <= k < es.len(),
        p.0@ == es[k].0@,
    ensures
        table_map(es.update(k, p)) == table_map(es).insert(p.0@, p.1@),
    decreases es.len(),
{
    let upd = es.update(k, p);
    if k == es.len() - 1 {
        assert(upd.drop_last() =~= es.drop_last());
        assert(table_map(upd) =~= table_map(es).insert(p.0@, p.1@));
    } else {
        assert(unique_keys(es.drop_last()));
        assert(upd.drop_last() =~= es.drop_last().update(k, p));
        lemma_table_map_update(es.drop_last(), k, p);
        assert(es[k].0@ != es.last().0@);
        assert(upd.last() == es.last());
        assert(table_map(upd) =~= table_map(es).insert(p.0@, p.1@));
    }
}

/// Whether two string slices hold the same characters.
pub fn str_eq(a: &str, b: &str) -> (r: bool)
    ensures
        r == (a@ == b@),
{
    let n = a.unicode_len();
    if n != b.unicode_len() {
        return false;
    }
    proof {
        assert(a@.subrange(0, a@.len() as int) =~= a@);
    }
    crate::text::starts_at(a, 0, b)
}

/// A collection of values keyed by unique strings.
#[derive(Debug)]
pub struct StrTable<V> {
    pub entries: Vec<(String, V)>,
}

impl<V: View> View for StrTable<V> {
    type V = Map<Seq<char>, V::V>;

    open spec fn view(&self) -> Map<Seq<char>, V::V> {
        table_map(self.entries@)
    }
}

impl<V: View> StrTable<V> {
    pub open spec fn wf(&self) -> bool {
        unique_keys(self.entries@)
    }

    pub fn new() -> (r: Self)
        ensures
            r@ == Map::<Seq<char>, V::V>::empty(),
            r.wf(),
            r.entries@.len() == 0,
    {
        StrTable { entries: Vec::new() }
    }

    /// The position of the entry for `key`, if one exists.
    fn position(&self, key: &str) -> (r: Option<usize>)
        ensures
            match r {
                Some(i) => i < self.entries@.len() && self.entries@[i as int].0@ == key@,
                None => forall|i: int| 0 <= i < self.entries@.len()
                    ==> self.entries@[i].0@ != key@,
            },
    {
        let n = self.entries.len();
        let mut i: usize = 0;
        while i < n
            invariant
                0 <= i <= n,
                n == self.entries@.len(),
                forall|j: int| 0 <= j < i ==> self.entries@[j].0@ != key@,
            decreases n - i,
        {
            if str_eq(self.entries[i].0.as_str(), key) {
                return Some(i);
            }
            i += 1;
        }
        None
    }

    /// The value stored under `key`, if any.
    pub fn get(&self, key: &str) -> (r: Option<&V>)
        requires
            self.wf(),
        ensures
            match r {
                Some(v) => self@.contains_key(key@) && v@ == self@[key@],
                None => !self@.contains_key(key@),
            },
    {
        match self.position(key) {
            Some(i) => {
                proof {
                    lemma_table_map_lookup(self.entries@, i as int);
                }
                Some(&self.entries[i].1)
            },
            None => {
                proof {
                    lemma_table_map_absent(self.entries@, key@);
                }
                None
            },
        }
    }

    /// Stores `value` under `key`, replacing any earlier binding.
    pub fn insert(&mut self, key: String, value: V)
        requires
            old(self).wf(),
        ensures
            final(self).wf(),
            final(self)@ == old(self)@.insert(key@, value@),
            final(self).entries@.len() >= 1,
    {
        match self.position(key.as_str()) {
            Some(i) => {
                proof {
                    lemma_table_map_update(self.entries@, i as int, (key, value));
                }
                self.entries.set(i, (key, value));
            },
            None => {
                proof {
                    let es = self.entries@.push((key, value));
                    assert(es.drop_last() =~= self.entries@);
                }
                self.entries.push((key, value));
            },
        }
    }

    /// How many entries the table holds.
    pub fn len(&self) -> (r: usize)
        ensures
            r == self.entries@.len(),
    {
        self.entries.len()
    }

    /// The table's keys, sorted lexicographically by code point.
    pub fn sorted_keys(&self) -> (r: Vec<String>)
        ensures
            r@.len() == self.entries@.len(),
            sorted_strings(r@),
            r@.map_values(|s: String| s@).to_multiset() == self.entries@.map_values(
                |p: (String, V)| p.0@,
            ).to_multiset(),
    {
        broadcast use vstd::seq_lib::group_to_multiset_ensures;

        let ghost keys = self.entries@.map_values(|p: (String, V)| p.0@);
        let mut r: Vec<String> = Vec::new();
        let n = self.entries.len();
        let mut k: usize = 0;
        while k < n
            invariant
                0 <= k <= n,
                n == self.entries@.len(),
                keys == self.entries@.map_values(|p: (String, V)| p.0@),
                r@.len() == k,
                sorted_strings(r@),
                r@.map_values(|s: String| s@).to_multiset() == keys.take(
                    k as int,
                ).to_multiset(),
            decreases n - k,
        {
            let ghost prevms = r@.map_values(|s: String| s@).to_multiset();
            insert_sorted(&mut r, self.entries[k].0.clone());
            proof {
                assert(keys.take(k + 1) =~= keys.take(k as int).push(keys[k as int]));
                keys.take(k as int).to_multiset_ensures();
            }
            k += 1;
        }
        proof {
            assert(keys.take(n as int) =~= keys);
        }
        r
    }
}

/// Lexicographic order on character sequences, by code point.
pub open spec fn lex_le(a: Seq<char>, b: Seq<char>) -> bool
    decreases a.len(),
{
    if a.len() == 0 {
        true
    } else if b.len() == 0 {
        false
    } else if (a[0] as u32) < (b[0] as u32) {
        true
    } else if (a[0] as u32) == (b[0] as u32) {
        lex_le(a.drop_first(), b.drop_first())
    } else {
        false
    }
}

/// The lexicographic order is total.
pub proof fn lemma_lex_le_total(a: Seq<char>, b: Seq<char>)
    ensures
        lex_le(a, b) || lex_le(b, a),
    decreases a.len(),
{
    if a.len() > 0 && b.len() > 0 && (a[0] as u32) == (b[0] as u32) {
        lemma_lex_le_total(a.drop_first(), b.drop_first());
    }
}

/// The lexicographic order is transitive.
pub proof fn lemma_lex_le_trans(a: Seq<char>, b: Seq<char>, c: Seq<char>)
    requires
        lex_le(a, b),
        lex_le(b, c),
    ensures
        lex_le(a, c),
    decreases a.len(),
{
    if a.len() > 0 && b.len() > 0 && c.len() > 0 {
        if (a[0] as u32) == (b[0] as u32) && (b[0] as u32) == (c[0] as u32) {
            lemma_lex_le_trans(a.drop_first(), b.drop_first(), c.drop_first());
        }
    }
}

/// A sequence of strings in lexicographic order.
pub open spec fn sorted_strings(ss: Seq<String>) -> bool {
    forall|i: int, j: int| #![trigger ss[i], ss[j]] 0 <= i < j < ss.len() ==> lex_le(
        ss[i]@,
        ss[j]@,
    )
}

/// Whether `a` orders at or before `b` lexicographically.
pub fn str_le(a: &str, b: &str) -> (r: bool)
    ensures
        r == lex_le(a@, b@),
{
    proof {
        assert(a@.skip(0) =~= a@);
        assert(b@.skip(0) =~= b@);
    }
    str_le_from(a, b, 0)
}

fn str_le_from(a: &str, b: &str, i: usize) -> (r: bool)
    requires
        i <= a@.len(),
        i <= b@.len(),
    ensures
        r == lex_le(a@.skip(i as int), b@.skip(i as int)),
    decreases a@.len() - i,
{
    let ghost sa = a@.skip(i as int);
    let ghost sb = b@.skip(i as int);
    proof {
        if sa.len() > 0 {
            assert(sa[0] == a@[i as int]);
            assert(sa.drop_first() =~= a@.skip(i + 1));
        }
        if sb.len() > 0 {
            assert(sb[0] == b@[i as int]);
            assert(sb.drop_first() =~= b@.skip(i + 1));
        }
    }
    if i == a.unicode_len() {
        true
    } else if i == b.unicode_len() {
        false
    } else {
        let ca = a.get_char(i) as u32;
        let cb = b.get_char(i) as u32;
        if ca < cb {
            true
        } else if ca == cb {
            str_le_from(a, b, i + 1)
        } else {
            false
        }
    }
}

/// The first position whose element does not order at or before `x`.
fn lower_bound(v: &Vec<String>, x: &str, i: usize) -> (j: usize)
    requires
        i <= v@.len(),
        forall|k: int| 0 <= k < i ==> lex_le(v@[k]@, x@),
    ensures
        i <= j <= v@.len(),
        forall|k: int| 0 <= k < j ==> lex_le(v@[k]@, x@),
        j < v@.len() ==> !lex_le(v@[j as int]@, x@),
    decreases v@.len() - i,
{
    if i == v.len() {
        i
    } else if str_le(v[i].as_str(), x) {
        lower_bound(v, x, i + 1)
    } else {
        i
    }
}

/// Inserts `x` into a sorted vector, keeping it sorted.
fn insert_sorted(v: &mut Vec<String>, x: String)
    requires
        sorted_strings(old(v)@),
    ensures
        final(v)@.len() == old(v)@.len() + 1,
        sorted_strings(final(v)@),
        final(v)@.map_values(|s: String| s@).to_multiset() == old(v)@.map_values(
            |s: String| s@,
        ).to_multiset().insert(x@),
{
    broadcast use vstd::seq_lib::group_to_multiset_ensures;

    let j = lower_bound(v, x.as_str(), 0);
    proof {
        if j < v@.len() {
            lemma_lex_le_total(v@[j as int]@, x@);
        }
    }
    let ghost prev = v@;
    v.insert(j, x);
    proof {
        assert forall|p: int, q: int| 0 <= p < q < v@.len() implies lex_le(
            #[trigger] v@[p]@,
            #[trigger] v@[q]@,
        ) by {
            if q < j {
                assert(v@[p] == prev[p] && v@[q] == prev[q]);
            } else if p > j {
                assert(v@[p] == prev[p - 1] && v@[q] == prev[q - 1]);
            } else if p < j && q == j {
                assert(v@[p] == prev[p] && v@[q] == x);
            } else if p < j && q > j {
                assert(v@[p] == prev[p] && v@[q] == prev[q - 1]);
                assert(lex_le(prev[p]@, prev[q - 1]@));
            } else if p == j && q > j {
                assert(v@[p] == x && v@[q] == prev[q - 1]);
                assert(lex_le(x@, prev[j as int]@));
                if q - 1 > j {
                    assert(lex_le(prev[j as int]@, prev[q - 1]@));
                    lemma_lex_le_trans(x@, prev[j as int]@, prev[q - 1]@);
                }
            }
        }
        assert(v@.remove(j as int) =~= prev);
        let oldms = prev.map_values(|s: String| s@).to_multiset();
        let newseq = v@.map_values(|s: String| s@);
        assert(newseq.remove(j as int) =~= prev.map_values(|s: String| s@));
        assert(newseq[j as int] == x@);
        assert(newseq.to_multiset().remove(x@) == oldms);
        assert(newseq.to_multiset().contains(x@)) by {
            assert(newseq.contains(x@)) by {
                assert(newseq[j as int] == x@);
            };
        };
        assert(newseq.to_multiset() =~= oldms.insert(x@));
    }
}

} // verus!
