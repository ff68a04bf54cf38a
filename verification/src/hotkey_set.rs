//! Ordered sets of hotkeys: duplicate-free lists that keep insertion order.

use vstd::prelude::*;
use crate::account::AccountId;

verus! {

/// `s` with `h` appended, unless `s` holds `h` already.
pub open spec fn ordered_insert(s: Seq<AccountId>, h: AccountId) -> Seq<AccountId> {
    if s.contains(h) {
        s
    } else {
        s.push(h)
    }
}

/// `a` followed by the members of `b` that `a` lacks, each once, in the order
/// of their first occurrence in `b`.
pub open spec fn ordered_union(a: Seq<AccountId>, b: Seq<AccountId>) -> Seq<AccountId>
    decreases b.len(),
{
    if b.len() == 0 {
        a
    } else {
        ordered_insert(ordered_union(a, b.drop_last()), b.last())
    }
}

/// The union holds exactly the members of both lists, starts with `a`, and
/// is free of duplicates where `a` is.
pub proof fn lemma_ordered_union(a: Seq<AccountId>, b: Seq<AccountId>)
    ensures
        forall|h: AccountId| #[trigger]
            ordered_union(a, b).contains(h) <==> (a.contains(h) || b.contains(h)),
        a.no_duplicates() ==> ordered_union(a, b).no_duplicates(),
        a.len() <= ordered_union(a, b).len() <= a.len() + b.len(),
        ordered_union(a, b).subrange(0, a.len() as int) == a,
    decreases b.len(),
{
    let u = ordered_union(a, b);
    if b.len() == 0 {
        assert(u.subrange(0, a.len() as int) =~= a);
        assert forall|h: AccountId| #[trigger]
            u.contains(h) <==> (a.contains(h) || b.contains(h)) by {
            if b.contains(h) {
                let i = choose|i: int| 0 <= i < b.len() && b[i] == h;
            }
        }
    } else {
        let front = b.drop_last();
        let last = b.last();
        let v = ordered_union(a, front);
        lemma_ordered_union(a, front);
        assert(u == ordered_insert(v, last));
        assert(u.subrange(0, a.len() as int) =~= v.subrange(0, a.len() as int));
        assert forall|h: AccountId| #[trigger]
            u.contains(h) <==> (a.contains(h) || b.contains(h)) by {
            assert(v.contains(h) <==> (a.contains(h) || front.contains(h)));
            if u.contains(h) {
                let i = choose|i: int| 0 <= i < u.len() && u[i] == h;
                if i < v.len() {
                    assert(v[i] == h);
                    assert(v.contains(h));
                    if front.contains(h) {
                        let j = choose|j: int| 0 <= j < front.len() && front[j] == h;
                        assert(b[j] == h);
                    }
                } else {
                    assert(h == last);
                    assert(b[b.len() - 1] == h);
                }
            }
            if a.contains(h) {
                assert(v.contains(h));
                let i = choose|i: int| 0 <= i < v.len() && v[i] == h;
                assert(u[i] == h);
            }
            if b.contains(h) {
                let j = choose|j: int| 0 <= j < b.len() && b[j] == h;
                if j < front.len() {
                    assert(front[j] == h);
                    assert(v.contains(h));
                    let i = choose|i: int| 0 <= i < v.len() && v[i] == h;
                    assert(u[i] == h);
                } else {
                    assert(h == last);
                    if v.contains(last) {
                    } else {
                        assert(u[v.len() as int] == h);
                    }
                }
            }
        }
        if a.no_duplicates() {
            if !v.contains(last) {
                assert forall|i: int, j: int|
                    0 <= i < u.len() && 0 <= j < u.len() && i != j implies u[i] != u[j] by {
                    if i < v.len() {
                        assert(v[i] == u[i]);
                    }
                    if j < v.len() {
                        assert(v[j] == u[j]);
                    }
                }
            }
        }
    }
}

/// Adding nothing changes nothing.
pub proof fn lemma_ordered_union_empty(a: Seq<AccountId>)
    ensures
        ordered_union(a, Seq::<AccountId>::empty()) == a,
{
}

/// The union of nothing with a duplicate-free list is that list.
pub proof fn lemma_ordered_union_of_distinct(b: Seq<AccountId>)
    requires
        b.no_duplicates(),
    ensures
        ordered_union(Seq::<AccountId>::empty(), b) == b,
    decreases b.len(),
{
    let none = Seq::<AccountId>::empty();
    if b.len() == 0 {
        assert(b =~= none);
    } else {
        let front = b.drop_last();
        lemma_ordered_union_of_distinct(front);
        if front.contains(b.last()) {
            let j = choose|j: int| 0 <= j < front.len() && front[j] == b.last();
            assert(b[j] == b[b.len() - 1]);
        }
        assert(front.push(b.last()) =~= b);
    }
}

/// What is left of a duplicate-free list holds no duplicates either, and holds
/// exactly the members that are kept.
pub proof fn lemma_filter_no_duplicates(s: Seq<AccountId>, keep: spec_fn(AccountId) -> bool)
    requires
        s.no_duplicates(),
    ensures
        s.filter(keep).no_duplicates(),
        forall|h: AccountId| #[trigger]
            s.filter(keep).contains(h) <==> (s.contains(h) && keep(h)),
    decreases s.len(),
{
    reveal(Seq::filter);
    if s.len() > 0 {
        let front = s.drop_last();
        lemma_filter_no_duplicates(front, keep);
        let f = front.filter(keep);
        let out = s.filter(keep);
        assert forall|h: AccountId| #[trigger]
            out.contains(h) <==> (s.contains(h) && keep(h)) by {
            assert(f.contains(h) <==> (front.contains(h) && keep(h)));
            if out.contains(h) {
                let i = choose|i: int| 0 <= i < out.len() && out[i] == h;
                if i < f.len() {
                    assert(f[i] == h);
                    assert(f.contains(h));
                    let j = choose|j: int| 0 <= j < front.len() && front[j] == h;
                    assert(s[j] == h);
                } else {
                    assert(h == s.last());
                    assert(s[s.len() - 1] == h);
                }
            }
            if s.contains(h) && keep(h) {
                let j = choose|j: int| 0 <= j < s.len() && s[j] == h;
                if j < front.len() {
                    assert(front[j] == h);
                    assert(front.contains(h));
                    let i = choose|i: int| 0 <= i < f.len() && f[i] == h;
                    assert(out[i] == h);
                } else {
                    assert(out[f.len() as int] == h);
                }
            }
        }
        if keep(s.last()) {
            assert forall|i: int, j: int|
                0 <= i < out.len() && 0 <= j < out.len() && i != j implies out[i] != out[j] by {
                if i < f.len() {
                    assert(f[i] == out[i]);
                    assert(f.contains(out[i]));
                    let a = choose|a: int| 0 <= a < front.len() && front[a] == out[i];
                    assert(s[a] == out[i]);
                }
                if j < f.len() {
                    assert(f[j] == out[j]);
                    assert(f.contains(out[j]));
                    let b = choose|b: int| 0 <= b < front.len() && front[b] == out[j];
                    assert(s[b] == out[j]);
                }
            }
        }
    }
}

/// The members of a list after an insertion.
pub proof fn lemma_members_after_insert(s: Seq<AccountId>, h: AccountId)
    ensures
        ordered_insert(s, h).to_set() == s.to_set().insert(h),
{
    let after = ordered_insert(s, h);
    assert forall|x: AccountId| after.contains(x) <==> (s.contains(x) || x == h) by {
        if after.contains(x) {
            let i = choose|i: int| 0 <= i < after.len() && after[i] == x;
            if i < s.len() {
                assert(s[i] == x);
            }
        }
        if s.contains(x) {
            let i = choose|i: int| 0 <= i < s.len() && s[i] == x;
            assert(after[i] == x);
        }
        if x == h && !s.contains(h) {
            assert(after[s.len() as int] == x);
        }
    }
    assert(after.to_set() =~= s.to_set().insert(h));
}

/// The members of a duplicate-free list after a removal.
pub proof fn lemma_members_after_remove(s: Seq<AccountId>, h: AccountId)
    requires
        s.no_duplicates(),
    ensures
        s.filter(|x: AccountId| x != h).to_set() == s.to_set().remove(h),
{
    let keep = |x: AccountId| x != h;
    lemma_filter_no_duplicates(s, keep);
    assert(s.filter(keep).to_set() =~= s.to_set().remove(h));
}

/// A duplicate-free list of hotkeys in insertion order.
pub struct HotkeySet {
    items: Vec<AccountId>,
}

impl View for HotkeySet {
    type V = Seq<AccountId>;

    closed spec fn view(&self) -> Seq<AccountId> {
        self.items@
    }
}

impl HotkeySet {
    #[verifier::type_invariant]
    spec fn duplicate_free(self) -> bool {
        self.items@.no_duplicates()
    }

    /// The empty set.
    pub fn new() -> (set: Self)
        ensures
            set@ == Seq::<AccountId>::empty(),
    {
        HotkeySet { items: Vec::new() }
    }

    /// The distinct members of `list`, in the order of their first occurrence.
    pub fn from_vec(list: &Vec<AccountId>) -> (set: Self)
        ensures
            set@ == ordered_union(Seq::<AccountId>::empty(), list@),
            set@.no_duplicates(),
    {
        let mut set = HotkeySet::new();
        set.extend(list);
        proof {
            use_type_invariant(&set);
        }
        set
    }

    /// A second set with the same members in the same order.
    pub fn duplicate(&self) -> (set: Self)
        ensures
            set@ == self@,
    {
        HotkeySet { items: self.to_vec() }
    }

    /// The number of members.
    pub fn len(&self) -> (n: usize)
        ensures
            n == self@.len(),
    {
        self.items.len()
    }

    /// Whether the set has no member.
    pub fn is_empty(&self) -> (empty: bool)
        ensures
            empty == (self@.len() == 0),
    {
        self.items.len() == 0
    }

    /// The member at position `i` in insertion order.
    pub fn get(&self, i: usize) -> (h: AccountId)
        requires
            i < self@.len(),
        ensures
            h == self@[i as int],
    {
        self.items[i]
    }

    /// Whether `h` is a member.
    pub fn contains(&self, h: &AccountId) -> (found: bool)
        ensures
            found == self@.contains(*h),
    {
        let mut i: usize = 0;
        while i < self.items.len()
            invariant
                i <= self.items@.len(),
                forall|j: int| 0 <= j < i ==> self.items@[j] != *h,
            decreases self.items@.len() - i,
        {
            if self.items[i] == *h {
                return true;
            }
            i += 1;
        }
        false
    }

    /// Appends `h` unless it is a member already.
    pub fn insert(&mut self, h: AccountId)
        ensures
            final(self)@ == ordered_insert(old(self)@, h),
            final(self)@.to_set() == old(self)@.to_set().insert(h),
    {
        proof {
            use_type_invariant(&*self);
            lemma_members_after_insert(self@, h);
        }
        if !self.contains(&h) {
            let mut items: Vec<AccountId> = Vec::new();
            std::mem::swap(&mut items, &mut self.items);
            items.push(h);
            self.items = items;
        }
    }

    /// Appends the members of `list` that the set lacks, each once, in the
    /// order of their first occurrence.
    pub fn extend(&mut self, list: &Vec<AccountId>)
        ensures
            final(self)@ == ordered_union(old(self)@, list@),
    {
        let mut i: usize = 0;
        while i < list.len()
            invariant
                i <= list@.len(),
                self@ == ordered_union(old(self)@, list@.take(i as int)),
            decreases list@.len() - i,
        {
            proof {
                assert(list@.take(i + 1).drop_last() =~= list@.take(i as int));
            }
            self.insert(list[i]);
            i += 1;
        }
        proof {
            assert(list@.take(i as int) =~= list@);
        }
    }

    /// Takes `h` out of the set, if it is a member.
    pub fn remove(&mut self, h: &AccountId)
        ensures
            final(self)@ == old(self)@.filter(|x: AccountId| x != *h),
            final(self)@.to_set() == old(self)@.to_set().remove(*h),
    {
        let ghost keep = |x: AccountId| x != *h;
        let mut kept: Vec<AccountId> = Vec::new();
        let mut i: usize = 0;
        proof {
            reveal(Seq::filter);
            use_type_invariant(&*self);
        }
        while i < self.items.len()
            invariant
                i <= self.items@.len(),
                self.items@ == old(self).items@,
                keep == |x: AccountId| x != *h,
                kept@ == self.items@.take(i as int).filter(keep),
            decreases self.items@.len() - i,
        {
            proof {
                reveal(Seq::filter);
                assert(self.items@.take(i + 1).drop_last() =~= self.items@.take(i as int));
            }
            if self.items[i] != *h {
                kept.push(self.items[i]);
            }
            i += 1;
        }
        proof {
            assert(self.items@.take(i as int) =~= self.items@);
            lemma_filter_no_duplicates(self.items@, keep);
            lemma_members_after_remove(self.items@, *h);
        }
        self.items = kept;
    }

    /// The members as a list, in insertion order and without duplicates.
    pub fn to_vec(&self) -> (list: Vec<AccountId>)
        ensures
            list@ == self@,
            list@.no_duplicates(),
    {
        proof {
            use_type_invariant(self);
        }
        let mut list: Vec<AccountId> = Vec::new();
        let mut i: usize = 0;
        while i < self.items.len()
            invariant
                i <= self.items@.len(),
                list@ == self.items@.take(i as int),
            decreases self.items@.len() - i,
        {
            list.push(self.items[i]);
            proof {
                assert(self.items@.take(i + 1) =~= self.items@.take(i as int).push(
                    self.items@[i as int],
                ));
            }
            i += 1;
        }
        proof {
            assert(self.items@.take(i as int) =~= self.items@);
        }
        list
    }
}

} // verus!
