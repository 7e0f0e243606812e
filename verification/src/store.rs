use vstd::prelude::*;

verus! {

/// One member of a scored collection: its sort key and its payload.
pub struct Entry {
    pub score: i64,
    pub payload: String,
}

/// Distinct keys in an association list.
pub open spec fn uniq_keys<V>(s: Seq<(String, V)>) -> bool {
    forall|i: int, j: int| 0 <= i < j < s.len() ==> s[i].0@ != s[j].0@
}

/// The value stored under `k`, if any.
pub open spec fn assoc_find<V>(s: Seq<(String, V)>, k: Seq<char>) -> Option<V>
    decreases s.len(),
{
    if s.len() == 0 {
        None
    } else if s[0].0@ == k {
        Some(s[0].1)
    } else {
        assoc_find(s.drop_first(), k)
    }
}

proof fn lemma_assoc_find_at<V>(s: Seq<(String, V)>, i: int)
    requires
        0 <= i < s.len(),
        forall|j: int| 0 <= j < i ==> s[j].0@ != s[i].0@,
    ensures
        assoc_find(s, s[i].0@) == Some(s[i].1),
    decreases i,
{
    if i > 0 {
        assert(s[0].0@ != s[i].0@);
        lemma_assoc_find_at(s.drop_first(), i - 1);
        assert(s.drop_first()[i - 1] == s[i]);
    }
}

proof fn lemma_assoc_find_absent<V>(s: Seq<(String, V)>, k: Seq<char>)
    requires
        forall|j: int| 0 <= j < s.len() ==> s[j].0@ != k,
    ensures
        assoc_find(s, k) is None,
    decreases s.len(),
{
    if s.len() > 0 {
        lemma_assoc_find_absent(s.drop_first(), k);
    }
}

proof fn lemma_assoc_update_other<V>(s: Seq<(String, V)>, i: int, p: (String, V), k: Seq<char>)
    requires
        0 <= i < s.len(),
        p.0@ == s[i].0@,
        k != p.0@,
    ensures
        assoc_find(s.update(i, p), k) == assoc_find(s, k),
    decreases s.len(),
{
    let s2 = s.update(i, p);
    if i == 0 {
        assert(s2.drop_first() =~= s.drop_first());
    } else {
        assert(s2[0] == s[0]);
        if s[0].0@ != k {
            assert(s2.drop_first() =~= s.drop_first().update(i - 1, p));
            lemma_assoc_update_other(s.drop_first(), i - 1, p, k);
        }
    }
}

proof fn lemma_assoc_push_other<V>(s: Seq<(String, V)>, p: (String, V), k: Seq<char>)
    requires
        k != p.0@,
    ensures
        assoc_find(s.push(p), k) == assoc_find(s, k),
    decreases s.len(),
{
    if s.len() == 0 {
        assert(s.push(p)[0] == p);
        assert(s.push(p).drop_first() =~= Seq::<(String, V)>::empty());
        assert(assoc_find(s.push(p).drop_first(), k) is None);
        assert(assoc_find(s.push(p), k) is None);
        assert(assoc_find(s, k) is None);
    } else {
        assert(s.push(p)[0] == s[0]);
        assert(s.push(p).drop_first() =~= s.drop_first().push(p));
        lemma_assoc_push_other(s.drop_first(), p, k);
        if s[0].0@ == k {
            assert(assoc_find(s.push(p), k) == Some(s[0].1));
            assert(assoc_find(s, k) == Some(s[0].1));
        } else {
            assert(assoc_find(s.push(p), k) == assoc_find(s.drop_first().push(p), k));
            assert(assoc_find(s, k) == assoc_find(s.drop_first(), k));
        }
    }
}

/// The first position of a lowest score: the member that an atomic pop
/// removes.
pub open spec fn min_idx(s: Seq<(int, Seq<char>)>) -> int
    decreases s.len(),
{
    if s.len() <= 1 {
        0
    } else {
        let m = min_idx(s.drop_first());
        if s[0].0 <= s[m + 1].0 {
            0
        } else {
            m + 1
        }
    }
}

/// What an atomic pop of the lowest-scored member returns and leaves behind:
/// the first member with a lowest score, and the collection without it.
pub open spec fn spec_pop_min(s: Seq<(int, Seq<char>)>) -> Option<
    ((int, Seq<char>), Seq<(int, Seq<char>)>),
> {
    if s.len() == 0 {
        None
    } else {
        Some((s[min_idx(s)], s.remove(min_idx(s))))
    }
}

pub proof fn lemma_min_idx_props(s: Seq<(int, Seq<char>)>)
    requires
        s.len() > 0,
    ensures
        0 <= min_idx(s) < s.len(),
        forall|j: int| 0 <= j < s.len() ==> (#[trigger] s[j]).0 >= s[min_idx(s)].0,
        forall|j: int| 0 <= j < min_idx(s) ==> (#[trigger] s[j]).0 > s[min_idx(s)].0,
    decreases s.len(),
{
    if s.len() > 1 {
        lemma_min_idx_props(s.drop_first());
        let m = min_idx(s.drop_first());
        assert(forall|j: int| 1 <= j < s.len() ==> s[j] == s.drop_first()[j - 1]);
    }
}

pub proof fn lemma_min_idx_eq(s: Seq<(int, Seq<char>)>, i: int)
    requires
        0 <= i < s.len(),
        forall|j: int| 0 <= j < s.len() ==> s[j].0 >= s[i].0,
        forall|j: int| 0 <= j < i ==> s[j].0 > s[i].0,
    ensures
        min_idx(s) == i,
{
    lemma_min_idx_props(s);
    let m = min_idx(s);
    if m < i {
        assert(s[m].0 > s[i].0);
        assert(s[m].0 >= s[i].0);
    } else if m > i {
        assert(s[i].0 > s[m].0);
        assert(s[i].0 >= s[m].0);
    }
}

/// The mathematical members of a scored collection, in insertion order.
pub open spec fn entries_view(es: Seq<Entry>) -> Seq<(int, Seq<char>)> {
    es.map_values(|e: Entry| (e.score as int, e.payload@))
}

fn assoc_index<V>(v: &Vec<(String, V)>, key: &String) -> (r: Option<usize>)
    ensures
        match r {
            Some(i) => i < v@.len() && v@[i as int].0@ == key@ && (forall|j: int|
                0 <= j < i ==> v@[j].0@ != key@),
            None => forall|j: int| 0 <= j < v@.len() ==> v@[j].0@ != key@,
        },
{
    let mut i: usize = 0;
    while i < v.len()
        invariant
            i <= v@.len(),
            forall|j: int| 0 <= j < i ==> v@[j].0@ != key@,
        decreases v@.len() - i,
    {
        if v[i].0 == *key {
            return Some(i);
        }
        i = i + 1;
    }
    None
}

fn min_index(es: &Vec<Entry>) -> (m: usize)
    requires
        es@.len() > 0,
    ensures
        m < es@.len(),
        m as int == min_idx(entries_view(es@)),
{
    let ev = Ghost(entries_view(es@));
    let mut best: usize = 0;
    let mut j: usize = 1;
    while j < es.len()
        invariant
            best < j <= es@.len(),
            ev@ == entries_view(es@),
            forall|t: int| 0 <= t < j ==> ev@[t].0 >= ev@[best as int].0,
            forall|t: int| 0 <= t < best ==> ev@[t].0 > ev@[best as int].0,
        decreases es@.len() - j,
    {
        if es[j].score < es[best].score {
            best = j;
        }
        j = j + 1;
    }
    proof {
        lemma_min_idx_eq(ev@, best as int);
    }
    best
}

/// An in-memory model of the remote store: named scored collections (the
/// pending and failed queues), named numeric fields (per-job progress), and
/// named lists (the audit logs). Every operation of the store contract is an
/// atomic step on this one value.
pub struct Store {
    sets: Vec<(String, Vec<Entry>)>,
    fields: Vec<(String, u32)>,
    lists: Vec<(String, Vec<String>)>,
}

impl Store {
    pub closed spec fn wf(self) -> bool {
        uniq_keys(self.sets@) && uniq_keys(self.fields@) && uniq_keys(self.lists@)
    }

    /// The scored members under `k`, in insertion order.
    pub closed spec fn entries(self, k: Seq<char>) -> Seq<(int, Seq<char>)> {
        match assoc_find(self.sets@, k) {
            Some(es) => entries_view(es@),
            None => Seq::empty(),
        }
    }

    /// The numeric field under `k`, if ever written.
    pub closed spec fn field(self, k: Seq<char>) -> Option<u32> {
        assoc_find(self.fields@, k)
    }

    /// The list under `k`, head first.
    pub closed spec fn list(self, k: Seq<char>) -> Seq<Seq<char>> {
        match assoc_find(self.lists@, k) {
            Some(ls) => ls@.map_values(|l: String| l@),
            None => Seq::empty(),
        }
    }

    /// A store with nothing in it.
    pub fn new() -> (r: Store)
        ensures
            r.wf(),
            forall|k: Seq<char>| r.entries(k) == Seq::<(int, Seq<char>)>::empty(),
            forall|k: Seq<char>| r.field(k) is None,
            forall|k: Seq<char>| r.list(k) == Seq::<Seq<char>>::empty(),
    {
        Store { sets: Vec::new(), fields: Vec::new(), lists: Vec::new() }
    }

    /// Inserts one member with its score into the collection under `key`.
    pub fn insert_scored(&mut self, key: &str, score: i64, payload: String)
        requires
            old(self).wf(),
        ensures
            final(self).wf(),
            final(self).entries(key@) == old(self).entries(key@).push(
                (score as int, payload@),
            ),
            forall|k: Seq<char>| k != key@ ==> final(self).entries(k) == old(self).entries(k),
            forall|k: Seq<char>| final(self).field(k) == old(self).field(k),
            forall|k: Seq<char>| final(self).list(k) == old(self).list(k),
    {
        let owned = String::from_str(key);
        let e = Entry { score, payload };
        let ghost s0 = self.sets@;
        let ghost eview = (e.score as int, e.payload@);
        match assoc_index(&self.sets, &owned) {
            Some(i) => {
                let (k0, mut es) = self.sets.remove(i);
                let ghost es0 = es@;
                es.push(e);
                proof {
                    assert(entries_view(es@) =~= entries_view(es0).push(eview));
                }
                self.sets.insert(i, (k0, es));
                proof {
                    let p = self.sets@[i as int];
                    assert(self.sets@ =~= s0.update(i as int, p));
                    assert(p.0@ == s0[i as int].0@);
                    lemma_assoc_find_at(s0, i as int);
                    lemma_assoc_find_at(self.sets@, i as int);
                    assert forall|ii: int, jj: int|
                        0 <= ii < jj < self.sets@.len() implies self.sets@[ii].0@
                        != self.sets@[jj].0@ by {
                        assert(self.sets@[ii].0@ == s0[ii].0@ && self.sets@[jj].0@ == s0[jj].0@);
                    }
                    assert forall|k: Seq<char>| k != key@ implies self.entries(k) == old(
                        self,
                    ).entries(k) by {
                        lemma_assoc_update_other(s0, i as int, p, k);
                    }
                }
            },
            None => {
                let mut es: Vec<Entry> = Vec::new();
                es.push(e);
                proof {
                    assert(entries_view(es@) =~= Seq::<(int, Seq<char>)>::empty().push(eview));
                }
                self.sets.push((owned, es));
                proof {
                    let p = self.sets@[s0.len() as int];
                    assert(self.sets@ =~= s0.push(p));
                    lemma_assoc_find_absent(s0, key@);
                    lemma_assoc_find_at(self.sets@, s0.len() as int);
                    assert forall|ii: int, jj: int|
                        0 <= ii < jj < self.sets@.len() implies self.sets@[ii].0@
                        != self.sets@[jj].0@ by {
                        if jj < s0.len() {
                            assert(self.sets@[ii].0@ == s0[ii].0@ && self.sets@[jj].0@
                                == s0[jj].0@);
                        } else {
                            assert(self.sets@[ii].0@ == s0[ii].0@ && self.sets@[jj].0@ == key@);
                        }
                    }
                    assert forall|k: Seq<char>| k != key@ implies self.entries(k) == old(
                        self,
                    ).entries(k) by {
                        lemma_assoc_push_other(s0, p, k);
                    }
                }
            },
        }
    }

    /// Atomically removes and returns the first lowest-scored member under
    /// `key`; `None` exactly when the collection is empty, which is not an
    /// error.
    pub fn pop_min(&mut self, key: &str) -> (r: Option<(i64, String)>)
        requires
            old(self).wf(),
        ensures
            final(self).wf(),
            forall|k: Seq<char>| k != key@ ==> final(self).entries(k) == old(self).entries(k),
            forall|k: Seq<char>| final(self).field(k) == old(self).field(k),
            forall|k: Seq<char>| final(self).list(k) == old(self).list(k),
            match r {
                None => old(self).entries(key@).len() == 0 && final(self).entries(key@) == old(
                    self,
                ).entries(key@),
                Some(sp) => spec_pop_min(old(self).entries(key@)) == Some(
                    ((sp.0 as int, sp.1@), final(self).entries(key@)),
                ),
            },
    {
        let owned = String::from_str(key);
        let ghost s0 = self.sets@;
        match assoc_index(&self.sets, &owned) {
            Some(i) => {
                proof {
                    lemma_assoc_find_at(s0, i as int);
                }
                if self.sets[i].1.len() == 0 {
                    return None;
                }
                let m = min_index(&self.sets[i].1);
                let (k0, mut es) = self.sets.remove(i);
                let ghost es0 = es@;
                let e = es.remove(m);
                proof {
                    assert(entries_view(es@) =~= entries_view(es0).remove(m as int));
                    assert((e.score as int, e.payload@) == entries_view(es0)[m as int]);
                }
                self.sets.insert(i, (k0, es));
                proof {
                    let p = self.sets@[i as int];
                    assert(self.sets@ =~= s0.update(i as int, p));
                    assert(p.0@ == s0[i as int].0@);
                    lemma_assoc_find_at(self.sets@, i as int);
                    assert forall|ii: int, jj: int|
                        0 <= ii < jj < self.sets@.len() implies self.sets@[ii].0@
                        != self.sets@[jj].0@ by {
                        assert(self.sets@[ii].0@ == s0[ii].0@ && self.sets@[jj].0@ == s0[jj].0@);
                    }
                    assert forall|k: Seq<char>| k != key@ implies self.entries(k) == old(
                        self,
                    ).entries(k) by {
                        lemma_assoc_update_other(s0, i as int, p, k);
                    }
                }
                Some((e.score, e.payload))
            },
            None => {
                proof {
                    lemma_assoc_find_absent(s0, key@);
                }
                None
            },
        }
    }

    /// The number of members under `key`.
    pub fn count(&self, key: &str) -> (r: u64)
        ensures
            r as int == self.entries(key@).len(),
    {
        let owned = String::from_str(key);
        match assoc_index(&self.sets, &owned) {
            Some(i) => {
                proof {
                    lemma_assoc_find_at(self.sets@, i as int);
                }
                self.sets[i].1.len() as u64
            },
            None => {
                proof {
                    lemma_assoc_find_absent(self.sets@, key@);
                }
                0
            },
        }
    }

    /// Writes the numeric field under `key`, creating or overwriting it.
    pub fn set_field(&mut self, key: &str, val: u32)
        requires
            old(self).wf(),
        ensures
            final(self).wf(),
            final(self).field(key@) == Some(val),
            forall|k: Seq<char>| k != key@ ==> final(self).field(k) == old(self).field(k),
            forall|k: Seq<char>| final(self).entries(k) == old(self).entries(k),
            forall|k: Seq<char>| final(self).list(k) == old(self).list(k),
    {
        let owned = String::from_str(key);
        let ghost s0 = self.fields@;
        match assoc_index(&self.fields, &owned) {
            Some(i) => {
                let (k0, _) = self.fields.remove(i);
                self.fields.insert(i, (k0, val));
                proof {
                    let p = self.fields@[i as int];
                    assert(self.fields@ =~= s0.update(i as int, p));
                    assert(p.0@ == s0[i as int].0@);
                    lemma_assoc_find_at(self.fields@, i as int);
                    assert forall|ii: int, jj: int|
                        0 <= ii < jj < self.fields@.len() implies self.fields@[ii].0@
                        != self.fields@[jj].0@ by {
                        assert(self.fields@[ii].0@ == s0[ii].0@ && self.fields@[jj].0@
                            == s0[jj].0@);
                    }
                    assert forall|k: Seq<char>| k != key@ implies self.field(k) == old(
                        self,
                    ).field(k) by {
                        lemma_assoc_update_other(s0, i as int, p, k);
                    }
                }
            },
            None => {
                self.fields.push((owned, val));
                proof {
                    let p = self.fields@[s0.len() as int];
                    assert(self.fields@ =~= s0.push(p));
                    lemma_assoc_find_at(self.fields@, s0.len() as int);
                    assert forall|ii: int, jj: int|
                        0 <= ii < jj < self.fields@.len() implies self.fields@[ii].0@
                        != self.fields@[jj].0@ by {
                        if jj < s0.len() {
                            assert(self.fields@[ii].0@ == s0[ii].0@ && self.fields@[jj].0@
                                == s0[jj].0@);
                        } else {
                            assert(self.fields@[ii].0@ == s0[ii].0@ && self.fields@[jj].0@
                                == key@);
                        }
                    }
                    assert forall|k: Seq<char>| k != key@ implies self.field(k) == old(
                        self,
                    ).field(k) by {
                        lemma_assoc_push_other(s0, p, k);
                    }
                }
            },
        }
    }

    /// Reads the numeric field under `key`; `None` when it was never written.
    pub fn get_field(&self, key: &str) -> (r: Option<u32>)
        ensures
            r == self.field(key@),
    {
        let owned = String::from_str(key);
        match assoc_index(&self.fields, &owned) {
            Some(i) => {
                proof {
                    lemma_assoc_find_at(self.fields@, i as int);
                }
                Some(self.fields[i].1)
            },
            None => {
                proof {
                    lemma_assoc_find_absent(self.fields@, key@);
                }
                None
            },
        }
    }

    /// Reads the list under `key`, head first.
    pub fn get_list(&self, key: &str) -> (r: Vec<String>)
        ensures
            r@.map_values(|l: String| l@) == self.list(key@),
    {
        let owned = String::from_str(key);
        match assoc_index(&self.lists, &owned) {
            Some(i) => {
                proof {
                    lemma_assoc_find_at(self.lists@, i as int);
                }
                let src = &self.lists[i].1;
                let mut out: Vec<String> = Vec::new();
                let mut j: usize = 0;
                while j < src.len()
                    invariant
                        j <= src@.len(),
                        out@.len() == j,
                        forall|k: int| 0 <= k < j ==> out@[k] == src@[k],
                    decreases src@.len() - j,
                {
                    out.push(src[j].clone());
                    j = j + 1;
                }
                proof {
                    assert(out@.map_values(|l: String| l@) =~= src@.map_values(|l: String| l@));
                }
                out
            },
            None => {
                proof {
                    lemma_assoc_find_absent(self.lists@, key@);
                    assert(Seq::<String>::empty().map_values(|l: String| l@) =~= Seq::<
                        Seq<char>,
                    >::empty());
                }
                Vec::new()
            },
        }
    }

    /// Prepends one line to the list under `key`.
    pub fn push_front(&mut self, key: &str, line: String)
        requires
            old(self).wf(),
        ensures
            final(self).wf(),
            final(self).list(key@) == seq![line@] + old(self).list(key@),
            forall|k: Seq<char>| k != key@ ==> final(self).list(k) == old(self).list(k),
            forall|k: Seq<char>| final(self).entries(k) == old(self).entries(k),
            forall|k: Seq<char>| final(self).field(k) == old(self).field(k),
    {
        let owned = String::from_str(key);
        let ghost s0 = self.lists@;
        let ghost lview = line@;
        match assoc_index(&self.lists, &owned) {
            Some(i) => {
                let (k0, mut ls) = self.lists.remove(i);
                let ghost ls0 = ls@;
                ls.insert(0, line);
                proof {
                    assert(ls@.map_values(|l: String| l@) =~= seq![lview] + ls0.map_values(
                        |l: String| l@,
                    ));
                }
                self.lists.insert(i, (k0, ls));
                proof {
                    let p = self.lists@[i as int];
                    assert(self.lists@ =~= s0.update(i as int, p));
                    assert(p.0@ == s0[i as int].0@);
                    lemma_assoc_find_at(s0, i as int);
                    lemma_assoc_find_at(self.lists@, i as int);
                    assert forall|ii: int, jj: int|
                        0 <= ii < jj < self.lists@.len() implies self.lists@[ii].0@
                        != self.lists@[jj].0@ by {
                        assert(self.lists@[ii].0@ == s0[ii].0@ && self.lists@[jj].0@ == s0[jj].0@);
                    }
                    assert forall|k: Seq<char>| k != key@ implies self.list(k) == old(
                        self,
                    ).list(k) by {
                        lemma_assoc_update_other(s0, i as int, p, k);
                    }
                }
            },
            None => {
                let mut ls: Vec<String> = Vec::new();
                ls.push(line);
                proof {
                    assert(ls@.map_values(|l: String| l@) =~= seq![lview]);
                }
                self.lists.push((owned, ls));
                proof {
                    let p = self.lists@[s0.len() as int];
                    assert(self.lists@ =~= s0.push(p));
                    lemma_assoc_find_absent(s0, key@);
                    lemma_assoc_find_at(self.lists@, s0.len() as int);
                    assert forall|ii: int, jj: int|
                        0 <= ii < jj < self.lists@.len() implies self.lists@[ii].0@
                        != self.lists@[jj].0@ by {
                        if jj < s0.len() {
                            assert(self.lists@[ii].0@ == s0[ii].0@ && self.lists@[jj].0@
                                == s0[jj].0@);
                        } else {
                            assert(self.lists@[ii].0@ == s0[ii].0@ && self.lists@[jj].0@
                                == key@);
                        }
                    }
                    assert(self.list(key@) =~= seq![lview] + old(self).list(key@));
                    assert forall|k: Seq<char>| k != key@ implies self.list(k) == old(
                        self,
                    ).list(k) by {
                        lemma_assoc_push_other(s0, p, k);
                    }
                }
            },
        }
    }
}

} // verus!
