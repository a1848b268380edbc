//! Small association containers over strings: an insertion-ordered map with
//! unique keys and a set with unique members, both specified against
//! `Map<Seq<char>, Seq<char>>` and `Set<Seq<char>>` views.

use vstd::prelude::*;

use crate::strutil::str_eq;

verus! {

/// Whether `k` occurs in `keys`.
pub open spec fn keys_contain(keys: Seq<Seq<char>>, k: Seq<char>) -> bool {
    exists|i: int| 0 <= i < keys.len() && keys[i] == k
}

/// An index of `k` in `keys` (the only one, when keys are unique).
pub open spec fn key_index(keys: Seq<Seq<char>>, k: Seq<char>) -> int {
    choose|i: int| 0 <= i < keys.len() && keys[i] == k
}

/// All keys distinct.
pub open spec fn keys_unique(keys: Seq<Seq<char>>) -> bool {
    forall|i: int, j: int| 0 <= i < j < keys.len() ==> keys[i] != keys[j]
}

/// A map from strings to strings that remembers insertion order.
pub struct StrMap {
    keys: Vec<String>,
    vals: Vec<String>,
}

impl View for StrMap {
    type V = Map<Seq<char>, Seq<char>>;

    closed spec fn view(&self) -> Map<Seq<char>, Seq<char>> {
        Map::new(
            |k: Seq<char>| keys_contain(self.keys.deep_view(), k),
            |k: Seq<char>| self.vals.deep_view()[key_index(self.keys.deep_view(), k)],
        )
    }
}

impl StrMap {
    /// The keys, in insertion order.
    pub closed spec fn spec_keys(&self) -> Seq<Seq<char>> {
        self.keys.deep_view()
    }

    pub closed spec fn wf(&self) -> bool {
        self.keys.len() == self.vals.len() && keys_unique(self.keys.deep_view())
    }

    pub proof fn lemma_view(&self)
        requires
            self.wf(),
        ensures
            forall|k: Seq<char>| self@.contains_key(k) <==> keys_contain(self.spec_keys(), k),
            forall|i: int| 0 <= i < self.spec_keys().len() ==> self@.contains_key(
                #[trigger] self.spec_keys()[i],
            ),
    {
        assert forall|i: int| 0 <= i < self.spec_keys().len() implies self@.contains_key(
            self.spec_keys()[i],
        ) by {
            assert(keys_contain(self.keys.deep_view(), self.keys.deep_view()[i]));
        }
    }

    pub proof fn lemma_keys_unique(&self)
        requires
            self.wf(),
        ensures
            keys_unique(self.spec_keys()),
    {
    }

    pub fn new() -> (r: StrMap)
        ensures
            r.wf(),
            r@ == Map::<Seq<char>, Seq<char>>::empty(),
            r.spec_keys() == Seq::<Seq<char>>::empty(),
    {
        let r = StrMap { keys: Vec::new(), vals: Vec::new() };
        proof {
            assert(r.keys.deep_view() =~= Seq::<Seq<char>>::empty());
            assert(r@ =~= Map::<Seq<char>, Seq<char>>::empty());
        }
        r
    }

    pub fn len(&self) -> (r: usize)
        requires
            self.wf(),
        ensures
            r == self.spec_keys().len(),
    {
        proof {
            assert(self.keys.deep_view().len() == self.keys@.len());
        }
        self.keys.len()
    }

    fn index_of(&self, k: &str) -> (r: Option<usize>)
        requires
            self.wf(),
        ensures
            match r {
                Some(i) => i < self.spec_keys().len() && self.spec_keys()[i as int] == k@,
                None => !keys_contain(self.spec_keys(), k@),
            },
    {
        let n = self.keys.len();
        proof {
            assert(self.keys.deep_view().len() == self.keys@.len());
        }
        let mut i: usize = 0;
        while i < n
            invariant
                n == self.keys@.len(),
                n == self.spec_keys().len(),
                0 <= i <= n,
                forall|j: int| 0 <= j < i ==> self.spec_keys()[j] != k@,
            decreases n - i,
        {
            proof {
                assert(self.spec_keys()[i as int] == self.keys@[i as int]@);
            }
            if str_eq(self.keys[i].as_str(), k) {
                return Some(i);
            }
            i += 1;
        }
        None
    }

    pub fn contains_key(&self, k: &str) -> (r: bool)
        requires
            self.wf(),
        ensures
            r == self@.contains_key(k@),
    {
        let r = self.index_of(k);
        proof {
            self.lemma_view();
        }
        match r {
            Some(_) => true,
            None => false,
        }
    }

    pub fn get<'a>(&'a self, k: &str) -> (r: Option<&'a String>)
        requires
            self.wf(),
        ensures
            match r {
                Some(v) => self@.contains_key(k@) && v@ == self@[k@],
                None => !self@.contains_key(k@),
            },
    {
        proof {
            self.lemma_view();
        }
        match self.index_of(k) {
            Some(i) => {
                proof {
                    let keys = self.keys.deep_view();
                    let j = key_index(keys, k@);
                    assert(keys[i as int] == k@);
                    assert(0 <= j < keys.len() && keys[j] == k@);
                    assert(j == i);
                    assert(self.vals.deep_view()[i as int] == self.vals@[i as int]@);
                }
                Some(&self.vals[i])
            },
            None => None,
        }
    }

    pub fn insert(&mut self, k: String, v: String)
        requires
            old(self).wf(),
        ensures
            final(self).wf(),
            final(self)@ == old(self)@.insert(k@, v@),
            old(self)@.contains_key(k@) ==> final(self).spec_keys() == old(self).spec_keys(),
            !old(self)@.contains_key(k@) ==> final(self).spec_keys() == old(
                self,
            ).spec_keys().push(k@),
    {
        proof {
            old(self).lemma_view();
        }
        match self.index_of(k.as_str()) {
            Some(i) => {
                self.vals[i] = v;
                proof {
                    let keys = self.keys.deep_view();
                    assert(self.vals.deep_view() =~= old(self).vals.deep_view().update(
                        i as int,
                        v@,
                    ));
                    assert forall|q: Seq<char>| true implies #[trigger] self@.contains_key(q)
                        == old(self)@.insert(k@, v@).contains_key(q) by {}
                    assert(self@ =~= old(self)@.insert(k@, v@)) by {
                        assert forall|q: Seq<char>| self@.contains_key(q) implies self@[q]
                            == old(self)@.insert(k@, v@)[q] by {
                            let j = key_index(keys, q);
                            assert(0 <= j < keys.len() && keys[j] == q);
                            if q == k@ {
                                assert(j == i);
                            } else {
                                assert(j != i);
                                assert(self.vals.deep_view()[j] == old(
                                    self,
                                ).vals.deep_view()[j]);
                            }
                        }
                    }
                }
            },
            None => {
                self.keys.push(k);
                self.vals.push(v);
                proof {
                    let okeys = old(self).keys.deep_view();
                    let ovals = old(self).vals.deep_view();
                    assert(self.keys.deep_view() =~= okeys.push(k@));
                    assert(self.vals.deep_view() =~= ovals.push(v@));
                    let keys = self.keys.deep_view();
                    assert forall|q: Seq<char>| true implies #[trigger] keys_contain(keys, q)
                        == (keys_contain(okeys, q) || q == k@) by {
                        if keys_contain(keys, q) {
                            let i = choose|i: int| 0 <= i < keys.len() && keys[i] == q;
                            if i < okeys.len() {
                                assert(okeys[i] == q);
                                assert(keys_contain(okeys, q));
                            } else {
                                assert(q == k@);
                            }
                        }
                        if q == k@ {
                            assert(keys[okeys.len() as int] == k@);
                            assert(keys_contain(keys, q));
                        }
                        if keys_contain(okeys, q) {
                            let i = choose|i: int| 0 <= i < okeys.len() && okeys[i] == q;
                            assert(keys[i] == q);
                            assert(keys_contain(keys, q));
                        }
                    }
                    assert(keys_unique(self.keys.deep_view())) by {
                        assert forall|i: int, j: int|
                            0 <= i < j < self.keys.deep_view().len() implies self.keys.deep_view()[i]
                            != self.keys.deep_view()[j] by {
                            if j == okeys.len() {
                                assert(self.keys.deep_view()[j] == k@);
                                assert(!keys_contain(okeys, k@));
                            }
                        }
                    }
                    assert(self@ =~= old(self)@.insert(k@, v@)) by {
                        assert forall|q: Seq<char>| self@.contains_key(q) implies self@[q]
                            == old(self)@.insert(k@, v@)[q] by {
                            let j = key_index(keys, q);
                            assert(0 <= j < keys.len() && keys[j] == q);
                            if q == k@ {
                                assert(keys[okeys.len() as int] == k@);
                                assert(j == okeys.len());
                            } else {
                                assert(j < okeys.len());
                                assert(okeys[j] == q);
                                assert(self.vals.deep_view()[j] == ovals[j]);
                            }
                        }
                    }
                }
            },
        }
    }

    pub fn key_at<'a>(&'a self, i: usize) -> (r: &'a String)
        requires
            self.wf(),
            i < self.spec_keys().len(),
        ensures
            r@ == self.spec_keys()[i as int],
            self@.contains_key(r@),
    {
        proof {
            self.lemma_view();
            assert(self.spec_keys()[i as int] == self.keys@[i as int]@);
        }
        &self.keys[i]
    }

    pub fn val_at<'a>(&'a self, i: usize) -> (r: &'a String)
        requires
            self.wf(),
            i < self.spec_keys().len(),
        ensures
            r@ == self@[self.spec_keys()[i as int]],
    {
        proof {
            self.lemma_view();
            let keys = self.keys.deep_view();
            let q = keys[i as int];
            let j = key_index(keys, q);
            assert(keys_contain(keys, q));
            assert(0 <= j < keys.len() && keys[j] == q);
            assert(j == i);
            assert(self.vals.deep_view()[i as int] == self.vals@[i as int]@);
        }
        &self.vals[i]
    }
}

/// A set of strings kept in insertion order.
pub struct StrSet {
    items: Vec<String>,
}

impl View for StrSet {
    type V = Set<Seq<char>>;

    closed spec fn view(&self) -> Set<Seq<char>> {
        Set::new(|s: Seq<char>| keys_contain(self.items.deep_view(), s))
    }
}

impl StrSet {
    /// The members, in insertion order.
    pub closed spec fn spec_items(&self) -> Seq<Seq<char>> {
        self.items.deep_view()
    }

    pub closed spec fn wf(&self) -> bool {
        keys_unique(self.items.deep_view())
    }

    pub proof fn lemma_view(&self)
        ensures
            forall|s: Seq<char>| self@.contains(s) <==> keys_contain(self.spec_items(), s),
    {
    }

    pub fn new() -> (r: StrSet)
        ensures
            r.wf(),
            r@ == Set::<Seq<char>>::empty(),
            r.spec_items() == Seq::<Seq<char>>::empty(),
    {
        let r = StrSet { items: Vec::new() };
        proof {
            assert(r.items.deep_view() =~= Seq::<Seq<char>>::empty());
            assert(r@ =~= Set::<Seq<char>>::empty());
        }
        r
    }

    pub fn len(&self) -> (r: usize)
        ensures
            r == self.spec_items().len(),
    {
        proof {
            assert(self.items.deep_view().len() == self.items@.len());
        }
        self.items.len()
    }

    pub fn contains(&self, s: &str) -> (r: bool)
        ensures
            r == self@.contains(s@),
    {
        let n = self.items.len();
        proof {
            assert(self.items.deep_view().len() == self.items@.len());
        }
        let mut i: usize = 0;
        while i < n
            invariant
                n == self.items@.len(),
                n == self.spec_items().len(),
                0 <= i <= n,
                forall|j: int| 0 <= j < i ==> self.spec_items()[j] != s@,
            decreases n - i,
        {
            proof {
                assert(self.spec_items()[i as int] == self.items@[i as int]@);
            }
            if str_eq(self.items[i].as_str(), s) {
                return true;
            }
            i += 1;
        }
        false
    }

    pub fn insert(&mut self, s: String)
        requires
            old(self).wf(),
        ensures
            final(self).wf(),
            final(self)@ == old(self)@.insert(s@),
            old(self)@.contains(s@) ==> final(self).spec_items() == old(self).spec_items(),
            !old(self)@.contains(s@) ==> final(self).spec_items() == old(
                self,
            ).spec_items().push(s@),
    {
        if !self.contains(s.as_str()) {
            let ghost oitems = self.items.deep_view();
            self.items.push(s);
            proof {
                assert(self.items.deep_view() =~= oitems.push(s@));
                let items = self.items.deep_view();
                assert forall|q: Seq<char>| true implies #[trigger] keys_contain(items, q)
                    == (keys_contain(oitems, q) || q == s@) by {
                    if keys_contain(items, q) {
                        let i = choose|i: int| 0 <= i < items.len() && items[i] == q;
                        if i < oitems.len() {
                            assert(oitems[i] == q);
                            assert(keys_contain(oitems, q));
                        } else {
                            assert(q == s@);
                        }
                    }
                    if q == s@ {
                        assert(items[oitems.len() as int] == s@);
                        assert(keys_contain(items, q));
                    }
                    if keys_contain(oitems, q) {
                        let i = choose|i: int| 0 <= i < oitems.len() && oitems[i] == q;
                        assert(items[i] == q);
                        assert(keys_contain(items, q));
                    }
                }
                assert(keys_unique(self.items.deep_view())) by {
                    assert forall|i: int, j: int|
                        0 <= i < j < self.items.deep_view().len() implies self.items.deep_view()[i]
                        != self.items.deep_view()[j] by {
                        if j == oitems.len() {
                            assert(self.items.deep_view()[j] == s@);
                            assert(!keys_contain(oitems, s@));
                        }
                    }
                }
                assert(self@ =~= old(self)@.insert(s@)) by {
                    assert forall|q: Seq<char>| true implies self@.contains(q) == old(
                        self,
                    )@.insert(s@).contains(q) by {
                        if q == s@ {
                            assert(self.items.deep_view()[oitems.len() as int] == s@);
                        }
                    }
                }
            }
        } else {
            proof {
                assert(self@ =~= old(self)@.insert(s@));
            }
        }
    }

    pub fn item_at<'a>(&'a self, i: usize) -> (r: &'a String)
        requires
            i < self.spec_items().len(),
        ensures
            r@ == self.spec_items()[i as int],
            self@.contains(r@),
    {
        proof {
            assert(self.spec_items()[i as int] == self.items@[i as int]@);
            assert(keys_contain(self.items.deep_view(), self.items.deep_view()[i as int]));
        }
        &self.items[i]
    }
}

} // verus!

verus! {

/// The set of strings a vector holds.
pub open spec fn spec_str_set(items: Seq<Seq<char>>) -> Set<Seq<char>> {
    Set::new(|s: Seq<char>| keys_contain(items, s))
}

/// Collect a vector of strings into a set.
pub fn strset_from_vec(v: &Vec<String>) -> (r: StrSet)
    ensures
        r.wf(),
        r@ == spec_str_set(v.deep_view()),
{
    let mut r = StrSet::new();
    let n = v.len();
    proof {
        assert(v.deep_view().len() == v@.len());
        assert(r@ =~= spec_str_set(v.deep_view().take(0)));
    }
    let mut i: usize = 0;
    while i < n
        invariant
            n == v@.len(),
            n == v.deep_view().len(),
            0 <= i <= n,
            r.wf(),
            r@ == spec_str_set(v.deep_view().take(i as int)),
        decreases n - i,
    {
        proof {
            assert(v.deep_view()[i as int] == v@[i as int]@);
        }
        r.insert(v[i].clone());
        proof {
            let pre = v.deep_view().take(i as int);
            let cur = v.deep_view().take(i + 1);
            assert forall|q: Seq<char>| true implies #[trigger] keys_contain(cur, q)
                == (keys_contain(pre, q) || q == v.deep_view()[i as int]) by {
                if keys_contain(cur, q) {
                    let a = choose|a: int| 0 <= a < cur.len() && cur[a] == q;
                    if a < i {
                        assert(pre[a] == q);
                        assert(keys_contain(pre, q));
                    } else {
                        assert(q == v.deep_view()[i as int]);
                    }
                }
                if q == v.deep_view()[i as int] {
                    assert(cur[i as int] == q);
                    assert(keys_contain(cur, q));
                }
                if keys_contain(pre, q) {
                    let a = choose|a: int| 0 <= a < pre.len() && pre[a] == q;
                    assert(cur[a] == q);
                    assert(keys_contain(cur, q));
                }
            }
            assert(r@ =~= spec_str_set(cur));
        }
        i += 1;
    }
    proof {
        assert(v.deep_view().take(n as int) =~= v.deep_view());
    }
    r
}

/// A set holding one given string.
pub fn strset_single(s: String) -> (r: StrSet)
    ensures
        r.wf(),
        r@ == Set::<Seq<char>>::empty().insert(s@),
{
    let mut r = StrSet::new();
    r.insert(s);
    r
}

} // verus!
