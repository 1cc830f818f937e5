//! String-keyed tables: the scratch maps of the per-request context and the
//! two session tables, each with a time-to-live so that entries can be
//! evicted once the token they back has expired.

use vstd::prelude::*;
use vstd::map::*;
use vstd::utf8::encode_utf8_decode_utf8;
use vstd::string::StringSliceAdditionalSpecFns;

verus! {

pub fn bytes_eq(a: &[u8], b: &[u8]) -> (r: bool)
    ensures
        r == (a@ == b@),
{
    if a.len() != b.len() {
        return false;
    }
    let mut i: usize = 0;
    while i < a.len()
        invariant
            i <= a@.len(),
            a@.len() == b@.len(),
            forall|j: int| 0 <= j < i ==> a@[j] == b@[j],
        decreases a@.len() - i,
    {
        if a[i] != b[i] {
            return false;
        }
        i = i + 1;
    }
    proof {
        assert(a@ =~= b@);
    }
    true
}

pub fn str_eq(a: &str, b: &str) -> (r: bool)
    ensures
        r == (a@ == b@),
{
    let r = bytes_eq(a.as_bytes(), b.as_bytes());
    proof {
        if a.spec_bytes() == b.spec_bytes() {
            encode_utf8_decode_utf8(a@);
            encode_utf8_decode_utf8(b@);
        }
    }
    r
}

/// A string-keyed table whose entries carry an expiry time.  Keys are unique;
/// the view is the map from key text to `(value, expiry)`.
pub struct ExpiringTable<V> {
    keys: Vec<String>,
    vals: Vec<V>,
    exps: Vec<u64>,
}

impl<V> View for ExpiringTable<V> {
    type V = Map<Seq<char>, (V, u64)>;

    closed spec fn view(&self) -> Map<Seq<char>, (V, u64)> {
        Map::new(
            |k: Seq<char>| exists|i: int| 0 <= i < self.keys@.len() && self.keys@[i]@ == k,
            |k: Seq<char>|
                {
                    let i = choose|i: int| 0 <= i < self.keys@.len() && self.keys@[i]@ == k;
                    (self.vals@[i], self.exps@[i])
                },
        )
    }
}

impl<V> ExpiringTable<V> {
    pub closed spec fn wf(&self) -> bool {
        &&& self.keys@.len() == self.vals@.len()
        &&& self.keys@.len() == self.exps@.len()
        &&& forall|i: int, j: int|
            0 <= i < j < self.keys@.len() ==> self.keys@[i]@ != self.keys@[j]@
    }

    pub fn new() -> (r: ExpiringTable<V>)
        ensures
            r.wf(),
            r@ =~= Map::<Seq<char>, (V, u64)>::empty(),
    {
        let r = ExpiringTable { keys: Vec::new(), vals: Vec::new(), exps: Vec::new() };
        proof {
            assert forall|k: Seq<char>| !r@.contains_key(k) by {}
        }
        r
    }

    pub fn len(&self) -> (r: usize)
        requires
            self.wf(),
        ensures
            r == self@.dom().len(),
    {
        proof {
            self.lemma_dom_len();
        }
        self.keys.len()
    }

    proof fn lemma_dom_len(&self)
        requires
            self.wf(),
        ensures
            self@.dom().len() == self.keys@.len(),
        decreases self.keys@.len(),
    {
        if self.keys@.len() == 0 {
            assert(self@.dom() =~= Set::<Seq<char>>::empty());
        } else {
            let sub = ExpiringTable::<V> {
                keys: self.keys,
                vals: self.vals,
                exps: self.exps,
            };
            // remove the last entry and recurse over the view of the prefix
            let last = (self.keys@.len() - 1) as int;
            let k_last = self.keys@[last]@;
            let prefix_dom = Set::new(
                |k: Seq<char>| exists|i: int| 0 <= i < last && self.keys@[i]@ == k,
            );
            assert(self@.dom() =~= prefix_dom.insert(k_last));
            assert(!prefix_dom.contains(k_last));
            lemma_prefix_dom_len(self.keys@, last);
            assert(prefix_dom.finite() && prefix_dom.len() == last);
            assert(self@.dom().len() == last + 1);
        }
    }

    pub fn get(&self, key: &str) -> (r: Option<&V>)
        requires
            self.wf(),
        ensures
            match r {
                Some(v) => self@.contains_key(key@) && self@[key@].0 == *v,
                None => !self@.contains_key(key@),
            },
    {
        let mut i: usize = 0;
        while i < self.keys.len()
            invariant
                self.wf(),
                i <= self.keys@.len(),
                forall|j: int| 0 <= j < i ==> self.keys@[j]@ != key@,
            decreases self.keys@.len() - i,
        {
            if str_eq(self.keys[i].as_str(), key) {
                proof {
                    assert(self.keys@[i as int]@ == key@);
                    assert(self@.contains_key(key@));
                    let w = choose|w: int|
                        0 <= w < self.keys@.len() && self.keys@[w]@ == key@;
                    assert(w == i as int);
                }
                return Some(&self.vals[i]);
            }
            i = i + 1;
        }
        proof {
            if self@.contains_key(key@) {
                let w = choose|w: int| 0 <= w < self.keys@.len() && self.keys@[w]@ == key@;
                assert(false);
            }
        }
        None
    }

    /// The expiry recorded for a key.
    pub fn get_expiry(&self, key: &str) -> (r: Option<u64>)
        requires
            self.wf(),
        ensures
            match r {
                Some(e) => self@.contains_key(key@) && self@[key@].1 == e,
                None => !self@.contains_key(key@),
            },
    {
        let mut i: usize = 0;
        while i < self.keys.len()
            invariant
                self.wf(),
                i <= self.keys@.len(),
                forall|j: int| 0 <= j < i ==> self.keys@[j]@ != key@,
            decreases self.keys@.len() - i,
        {
            if str_eq(self.keys[i].as_str(), key) {
                proof {
                    assert(self.keys@[i as int]@ == key@);
                    assert(self@.contains_key(key@));
                    let w = choose|w: int|
                        0 <= w < self.keys@.len() && self.keys@[w]@ == key@;
                    assert(w == i as int);
                }
                return Some(self.exps[i]);
            }
            i = i + 1;
        }
        proof {
            if self@.contains_key(key@) {
                let w = choose|w: int| 0 <= w < self.keys@.len() && self.keys@[w]@ == key@;
                assert(false);
            }
        }
        None
    }

    pub fn insert(&mut self, key: String, val: V, exp: u64)
        requires
            old(self).wf(),
        ensures
            final(self).wf(),
            final(self)@ == old(self)@.insert(key@, (val, exp)),
    {
        let ghost key_view = key@;
        let mut i: usize = 0;
        while i < self.keys.len()
            invariant
                self.wf(),
                *self == *old(self),
                i <= self.keys@.len(),
                forall|j: int| 0 <= j < i ==> self.keys@[j]@ != key_view,
                key@ == key_view,
            decreases self.keys@.len() - i,
        {
            if str_eq(self.keys[i].as_str(), key.as_str()) {
                self.vals[i] = val;
                self.exps[i] = exp;
                proof {
                    lemma_table_update::<V>(old(self), self, i as int, key_view);
                }
                return ;
            }
            i = i + 1;
        }
        self.keys.push(key);
        self.vals.push(val);
        self.exps.push(exp);
        proof {
            lemma_table_push::<V>(old(self), self, key_view);
        }
    }

    /// Drop one key.
    pub fn remove(&mut self, key: &str)
        requires
            old(self).wf(),
        ensures
            final(self).wf(),
            final(self)@ == old(self)@.remove(key@),
    {
        let mut i: usize = 0;
        while i < self.keys.len()
            invariant
                self.wf(),
                *self == *old(self),
                i <= self.keys@.len(),
                forall|j: int| 0 <= j < i ==> self.keys@[j]@ != key@,
            decreases self.keys@.len() - i,
        {
            if str_eq(self.keys[i].as_str(), key) {
                let ghost before = *self;
                let _k = self.keys.remove(i);
                let _v = self.vals.remove(i);
                let _e = self.exps.remove(i);
                proof {
                    lemma_table_remove::<V>(&before, self, i as int);
                }
                return ;
            }
            i = i + 1;
        }
        proof {
            if self@.contains_key(key@) {
                let w = choose|w: int| 0 <= w < self.keys@.len() && self.keys@[w]@ == key@;
                assert(false);
            }
            assert(self@ =~= old(self)@.remove(key@));
        }
    }

    /// Drop every entry whose expiry is at or before `now`: the time-to-live
    /// policy that keeps both session tables bounded.
    pub fn evict_expired(&mut self, now: u64)
        requires
            old(self).wf(),
        ensures
            final(self).wf(),
            forall|k: Seq<char>|
                #[trigger] final(self)@.contains_key(k) <==> (old(self)@.contains_key(k) && old(
                    self,
                )@[k].1 > now),
            forall|k: Seq<char>|
                #[trigger] final(self)@.contains_key(k) ==> final(self)@[k] == old(self)@[k],
    {
        let mut i: usize = 0;
        while i < self.keys.len()
            invariant
                self.wf(),
                i <= self.keys@.len(),
                self.keys@.len() == self.vals@.len() && self.keys@.len() == self.exps@.len(),
                forall|j: int| 0 <= j < i ==> self.exps@[j] > now,
                forall|k: Seq<char>|
                    #[trigger] self@.contains_key(k) ==> old(self)@.contains_key(k) && self@[k]
                        == old(self)@[k],
                forall|k: Seq<char>|
                    old(self)@.contains_key(k) && old(self)@[k].1 > now
                        ==> #[trigger] self@.contains_key(k),
            decreases self.keys@.len() - i,
        {
            if self.exps[i] <= now {
                let ghost before = *self;
                let ghost gone = self.keys@[i as int]@;
                let _k = self.keys.remove(i);
                let _v = self.vals.remove(i);
                let _e = self.exps.remove(i);
                proof {
                    lemma_table_remove::<V>(&before, self, i as int);
                    assert(before@[gone].1 <= now);
                    assert forall|k: Seq<char>|
                        old(self)@.contains_key(k) && old(self)@[k].1 > now
                            implies #[trigger] self@.contains_key(k) by {
                        assert(before@.contains_key(k));
                        assert(before@[k] == old(self)@[k]);
                        assert(k != gone);
                    }
                }
            } else {
                i = i + 1;
            }
        }
        proof {
            assert forall|k: Seq<char>| #[trigger] self@.contains_key(k) implies self@[k].1
                > now by {
                let w = choose|w: int| 0 <= w < self.keys@.len() && self.keys@[w]@ == k;
                assert(self@[k] == (self.vals@[w], self.exps@[w]));
            }
        }
    }
}

proof fn lemma_table_remove<V>(before: &ExpiringTable<V>, after: &ExpiringTable<V>, m: int)
    requires
        before.wf(),
        0 <= m < before.keys@.len(),
        after.keys@ == before.keys@.remove(m),
        after.vals@ == before.vals@.remove(m),
        after.exps@ == before.exps@.remove(m),
    ensures
        after.wf(),
        after@ == before@.remove(before.keys@[m]@),
{
    let gone = before.keys@[m]@;
    assert forall|a: int, b: int|
        0 <= a < b < after.keys@.len() implies after.keys@[a]@ != after.keys@[b]@ by {
        let a0: int = if a < m {
            a
        } else {
            a + 1
        };
        let b0: int = if b < m {
            b
        } else {
            b + 1
        };
        assert(after.keys@[a] == before.keys@[a0]);
        assert(after.keys@[b] == before.keys@[b0]);
    }
    assert forall|k: Seq<char>|
        after@.contains_key(k) <==> before@.remove(gone).contains_key(k) by {
        if after@.contains_key(k) {
            let w = choose|w: int| 0 <= w < after.keys@.len() && after.keys@[w]@ == k;
            let w0: int = if w < m {
                w
            } else {
                w + 1
            };
            assert(before.keys@[w0]@ == k);
            assert(k != gone);
        }
        if before@.remove(gone).contains_key(k) {
            let w = choose|w: int| 0 <= w < before.keys@.len() && before.keys@[w]@ == k;
            assert(w != m);
            let w1: int = if w < m {
                w
            } else {
                w - 1
            };
            assert(after.keys@[w1]@ == k);
        }
    }
    assert forall|k: Seq<char>| #[trigger] after@.contains_key(k) implies after@[k]
        == before@.remove(gone)[k] by {
        let w = choose|w: int| 0 <= w < after.keys@.len() && after.keys@[w]@ == k;
        let w0: int = if w < m {
            w
        } else {
            w + 1
        };
        assert(before.keys@[w0]@ == k);
        let wb = choose|wb: int| 0 <= wb < before.keys@.len() && before.keys@[wb]@ == k;
        assert(wb == w0);
        assert(after@[k] == (after.vals@[w], after.exps@[w]));
        assert(after.vals@[w] == before.vals@[w0]);
        assert(after.exps@[w] == before.exps@[w0]);
    }
    assert(after@ =~= before@.remove(gone));
}

proof fn lemma_prefix_dom_len(keys: Seq<String>, n: int)
    requires
        0 <= n <= keys.len(),
        forall|i: int, j: int| 0 <= i < j < keys.len() ==> keys[i]@ != keys[j]@,
    ensures
        Set::new(|k: Seq<char>| exists|i: int| 0 <= i < n && keys[i]@ == k).finite(),
        Set::new(|k: Seq<char>| exists|i: int| 0 <= i < n && keys[i]@ == k).len() == n,
    decreases n,
{
    let s = Set::new(|k: Seq<char>| exists|i: int| 0 <= i < n && keys[i]@ == k);
    if n == 0 {
        assert(s =~= Set::<Seq<char>>::empty());
    } else {
        lemma_prefix_dom_len(keys, n - 1);
        let s0 = Set::new(|k: Seq<char>| exists|i: int| 0 <= i < n - 1 && keys[i]@ == k);
        assert(s =~= s0.insert(keys[n - 1]@));
        assert(!s0.contains(keys[n - 1]@));
    }
}

proof fn lemma_table_update<V>(
    before: &ExpiringTable<V>,
    after: &ExpiringTable<V>,
    i: int,
    key_view: Seq<char>,
)
    requires
        before.wf(),
        0 <= i < before.keys@.len(),
        before.keys@[i]@ == key_view,
        after.keys@ == before.keys@,
        after.exps@.len() == before.exps@.len(),
        after.vals@.len() == before.vals@.len(),
        forall|j: int| 0 <= j < before.vals@.len() && j != i ==> after.vals@[j] == before.vals@[j],
        forall|j: int| 0 <= j < before.exps@.len() && j != i ==> after.exps@[j] == before.exps@[j],
    ensures
        after.wf(),
        after@ == before@.insert(key_view, (after.vals@[i], after.exps@[i])),
{
    assert forall|k: Seq<char>|
        after@.contains_key(k) <==> before@.insert(
            key_view,
            (after.vals@[i], after.exps@[i]),
        ).contains_key(k) by {}
    assert forall|k: Seq<char>| #[trigger] after@.contains_key(k) implies after@[k]
        == before@.insert(key_view, (after.vals@[i], after.exps@[i]))[k] by {
        let w = choose|w: int| 0 <= w < after.keys@.len() && after.keys@[w]@ == k;
        if k == key_view {
            assert(w == i);
        } else {
            assert(w != i);
            let wb = choose|wb: int| 0 <= wb < before.keys@.len() && before.keys@[wb]@ == k;
            assert(wb == w);
        }
    }
    assert(after@ =~= before@.insert(key_view, (after.vals@[i], after.exps@[i])));
}

proof fn lemma_table_push<V>(
    before: &ExpiringTable<V>,
    after: &ExpiringTable<V>,
    key_view: Seq<char>,
)
    requires
        before.wf(),
        forall|j: int| 0 <= j < before.keys@.len() ==> before.keys@[j]@ != key_view,
        after.keys@.len() == before.keys@.len() + 1,
        after.keys@.last()@ == key_view,
        forall|j: int| 0 <= j < before.keys@.len() ==> after.keys@[j] == before.keys@[j],
        after.vals@.len() == before.vals@.len() + 1,
        forall|j: int| 0 <= j < before.vals@.len() ==> after.vals@[j] == before.vals@[j],
        after.exps@.len() == before.exps@.len() + 1,
        forall|j: int| 0 <= j < before.exps@.len() ==> after.exps@[j] == before.exps@[j],
    ensures
        after.wf(),
        after@ == before@.insert(key_view, (after.vals@.last(), after.exps@.last())),
{
    let n = before.keys@.len() as int;
    assert forall|a: int, b: int|
        0 <= a < b < after.keys@.len() implies after.keys@[a]@ != after.keys@[b]@ by {
        if b < n {
        } else {
            assert(after.keys@[b]@ == key_view);
            assert(after.keys@[a]@ == before.keys@[a]@);
        }
    }
    assert forall|k: Seq<char>| #[trigger] after@.contains_key(k) implies after@[k]
        == before@.insert(key_view, (after.vals@[n], after.exps@[n]))[k] by {
        let w = choose|w: int| 0 <= w < after.keys@.len() && after.keys@[w]@ == k;
        if k == key_view {
            assert(w == n);
        } else {
            assert(w < n);
            let wb = choose|wb: int| 0 <= wb < before.keys@.len() && before.keys@[wb]@ == k;
            assert(wb == w);
        }
    }
    assert forall|k: Seq<char>|
        after@.contains_key(k) <==> before@.insert(
            key_view,
            (after.vals@[n], after.exps@[n]),
        ).contains_key(k) by {}
    assert(after@ =~= before@.insert(key_view, (after.vals@[n], after.exps@[n])));
}

} // verus!
