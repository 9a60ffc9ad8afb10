use vstd::prelude::*;

verus! {

/// Does `s` hold an entry whose client id is `w`?
pub open spec fn has_client(s: Seq<(u32, u32)>, w: u32) -> bool {
    exists|i: int| 0 <= i < s.len() && s[i].0 == w
}

/// Does `s` hold an entry whose frame id is `f`?
pub open spec fn has_frame(s: Seq<(u32, u32)>, f: u32) -> bool {
    exists|i: int| 0 <= i < s.len() && s[i].1 == f
}

/// The frame recorded for client `w`: the first entry whose client id is `w`.
pub open spec fn lookup(s: Seq<(u32, u32)>, w: u32) -> Option<u32>
    decreases s.len(),
{
    if s.len() == 0 {
        None
    } else if s[0].0 == w {
        Some(s[0].1)
    } else {
        lookup(s.subrange(1, s.len() as int), w)
    }
}

/// A well-formed registry: client ids appear at most once, frame ids appear
/// at most once, and no id is both a client and a frame (no self-framing,
/// no re-framing a frame) — a partial injective mapping.
pub open spec fn wf_entries(s: Seq<(u32, u32)>) -> bool {
    &&& forall|i: int, j: int|
        0 <= i < j < s.len() ==> #[trigger] s[i].0 != #[trigger] s[j].0
    &&& forall|i: int, j: int|
        0 <= i < j < s.len() ==> #[trigger] s[i].1 != #[trigger] s[j].1
    &&& forall|i: int, j: int|
        0 <= i < s.len() && 0 <= j < s.len() ==> #[trigger] s[i].0 != #[trigger] s[j].1
}

/// The position of client `w`'s entry (meaningful when `has_client(s, w)`).
pub open spec fn client_index(s: Seq<(u32, u32)>, w: u32) -> int {
    choose|i: int| 0 <= i < s.len() && s[i].0 == w
}

/// `s` with the entry for client `w` removed; `s` itself when `w` is untracked.
pub open spec fn remove_client(s: Seq<(u32, u32)>, w: u32) -> Seq<(u32, u32)> {
    if has_client(s, w) {
        s.remove(client_index(s, w))
    } else {
        s
    }
}

pub proof fn lemma_lookup_present(s: Seq<(u32, u32)>, w: u32, i: int)
    requires
        0 <= i < s.len(),
        s[i].0 == w,
        forall|j: int| 0 <= j < i ==> s[j].0 != w,
    ensures
        lookup(s, w) == Some(s[i].1),
    decreases i,
{
    if i == 0 {
    } else {
        let t = s.subrange(1, s.len() as int);
        assert(t[i - 1] == s[i]);
        assert forall|j: int| 0 <= j < i - 1 implies t[j].0 != w by {
            assert(t[j] == s[j + 1]);
        }
        lemma_lookup_present(t, w, i - 1);
    }
}

pub proof fn lemma_lookup_absent(s: Seq<(u32, u32)>, w: u32)
    requires
        forall|j: int| 0 <= j < s.len() ==> s[j].0 != w,
    ensures
        lookup(s, w) is None,
    decreases s.len(),
{
    if s.len() == 0 {
    } else {
        let t = s.subrange(1, s.len() as int);
        assert forall|j: int| 0 <= j < t.len() implies t[j].0 != w by {
            assert(t[j] == s[j + 1]);
        }
        lemma_lookup_absent(t, w);
    }
}

pub proof fn lemma_lookup_has_client(s: Seq<(u32, u32)>, w: u32)
    ensures
        (lookup(s, w) is Some) <==> has_client(s, w),
    decreases s.len(),
{
    if s.len() == 0 {
    } else if s[0].0 == w {
    } else {
        let t = s.subrange(1, s.len() as int);
        lemma_lookup_has_client(t, w);
        if has_client(t, w) {
            let i = choose|i: int| 0 <= i < t.len() && t[i].0 == w;
            assert(s[i + 1].0 == w);
        }
        if has_client(s, w) {
            let i = choose|i: int| 0 <= i < s.len() && s[i].0 == w;
            assert(t[i - 1].0 == w);
        }
    }
}

/// In a well-formed registry the entry found by `lookup` is the one entry
/// for that client.
pub proof fn lemma_lookup_entry(s: Seq<(u32, u32)>, w: u32, i: int)
    requires
        wf_entries(s),
        0 <= i < s.len(),
        s[i].0 == w,
    ensures
        lookup(s, w) == Some(s[i].1),
{
    assert forall|j: int| 0 <= j < i implies s[j].0 != w by {
        assert(s[j].0 != s[i].0);
    }
    lemma_lookup_present(s, w, i);
}

/// Inserting a wholly fresh pair keeps the registry well formed.
pub proof fn lemma_wf_push(s: Seq<(u32, u32)>, w: u32, f: u32)
    requires
        wf_entries(s),
        !has_client(s, w),
        !has_frame(s, w),
        !has_client(s, f),
        !has_frame(s, f),
        w != f,
    ensures
        wf_entries(s.push((w, f))),
        lookup(s.push((w, f)), w) == Some(f),
        forall|x: u32| x != w ==> lookup(s.push((w, f)), x) == lookup(s, x),
        forall|x: u32| #[trigger] has_client(s.push((w, f)), x) <==> has_client(s, x) || x == w,
        forall|x: u32| #[trigger] has_frame(s.push((w, f)), x) <==> has_frame(s, x) || x == f,
{
    let r = s.push((w, f));
    let n = s.len() as int;
    assert forall|i: int, j: int| 0 <= i < j < r.len() implies #[trigger] r[i].0 != #[trigger] r[j].0 by {
        if j < n {
            assert(r[i] == s[i] && r[j] == s[j]);
        } else {
            assert(r[i] == s[i] && r[j] == (w, f));
            assert(!(s[i].0 == w));
        }
    }
    assert forall|i: int, j: int| 0 <= i < j < r.len() implies #[trigger] r[i].1 != #[trigger] r[j].1 by {
        if j < n {
            assert(r[i] == s[i] && r[j] == s[j]);
        } else {
            assert(r[i] == s[i] && r[j] == (w, f));
            assert(!(s[i].1 == f));
        }
    }
    assert forall|i: int, j: int| 0 <= i < r.len() && 0 <= j < r.len() implies #[trigger] r[i].0
        != #[trigger] r[j].1 by {
        if i < n && j < n {
            assert(r[i] == s[i] && r[j] == s[j]);
        } else if i < n {
            assert(r[i] == s[i] && r[j] == (w, f));
            assert(!(s[i].0 == f));
        } else if j < n {
            assert(r[i] == (w, f) && r[j] == s[j]);
            assert(!(s[j].1 == w));
        }
    }
    lemma_lookup_entry(r, w, n);
    assert forall|x: u32| x != w implies lookup(r, x) == lookup(s, x) by {
        lemma_lookup_has_client(s, x);
        if has_client(s, x) {
            let i = choose|i: int| 0 <= i < s.len() && s[i].0 == x;
            lemma_lookup_entry(s, x, i);
            lemma_lookup_entry(r, x, i);
        } else {
            assert forall|j: int| 0 <= j < r.len() implies r[j].0 != x by {
                if j < n {
                    assert(r[j] == s[j]);
                    assert(!(s[j].0 == x));
                }
            }
            lemma_lookup_absent(r, x);
        }
    }
    assert forall|x: u32| #[trigger] has_client(r, x) <==> has_client(s, x) || x == w by {
        if has_client(s, x) {
            let i = choose|i: int| 0 <= i < s.len() && s[i].0 == x;
            assert(r[i].0 == x);
        }
        if x == w {
            assert(r[n].0 == x);
        }
        if has_client(r, x) && x != w {
            let i = choose|i: int| 0 <= i < r.len() && r[i].0 == x;
            assert(i < n && s[i].0 == x);
        }
    }
    assert forall|x: u32| #[trigger] has_frame(r, x) <==> has_frame(s, x) || x == f by {
        if has_frame(s, x) {
            let i = choose|i: int| 0 <= i < s.len() && s[i].1 == x;
            assert(r[i].1 == x);
        }
        if x == f {
            assert(r[n].1 == x);
        }
        if has_frame(r, x) && x != f {
            let i = choose|i: int| 0 <= i < r.len() && r[i].1 == x;
            assert(i < n && s[i].1 == x);
        }
    }
}

/// Removing a client's entry keeps the registry well formed, removes exactly
/// that client, and leaves every other entry in place.
pub proof fn lemma_wf_remove(s: Seq<(u32, u32)>, w: u32)
    requires
        wf_entries(s),
    ensures
        wf_entries(remove_client(s, w)),
        !has_client(remove_client(s, w), w),
        forall|x: u32| x != w ==> lookup(remove_client(s, w), x) == lookup(s, x),
        forall|x: u32|
            #[trigger] has_client(remove_client(s, w), x) <==> has_client(s, x) && x != w,
        has_client(s, w) ==> remove_client(s, w).len() == s.len() - 1
            && !has_frame(remove_client(s, w), lookup(s, w)->Some_0),
        !has_client(s, w) ==> remove_client(s, w) == s,
{
    if !has_client(s, w) {
        lemma_lookup_absent2(s, w);
    } else {
        let k = client_index(s, w);
        assert(0 <= k < s.len() && s[k].0 == w);
        let r = s.remove(k);
        assert(r.len() == s.len() - 1);
        // Index map: r[i] == s[i] for i < k, r[i] == s[i + 1] for i >= k.
        assert forall|i: int| 0 <= i < r.len() implies #[trigger] r[i] == s[if i < k {
            i
        } else {
            i + 1
        }] by {}
        assert(wf_entries(r)) by {
            assert forall|i: int, j: int| 0 <= i < j < r.len() implies #[trigger] r[i].0
                != #[trigger] r[j].0 by {
                let i2 = if i < k { i } else { i + 1 };
                let j2 = if j < k { j } else { j + 1 };
                assert(r[i] == s[i2] && r[j] == s[j2]);
            }
            assert forall|i: int, j: int| 0 <= i < j < r.len() implies #[trigger] r[i].1
                != #[trigger] r[j].1 by {
                let i2 = if i < k { i } else { i + 1 };
                let j2 = if j < k { j } else { j + 1 };
                assert(r[i] == s[i2] && r[j] == s[j2]);
            }
            assert forall|i: int, j: int| 0 <= i < r.len() && 0 <= j < r.len() implies #[trigger] r[i].0
                != #[trigger] r[j].1 by {
                let i2 = if i < k { i } else { i + 1 };
                let j2 = if j < k { j } else { j + 1 };
                assert(r[i] == s[i2] && r[j] == s[j2]);
            }
        }
        assert(!has_client(r, w)) by {
            assert forall|i: int| 0 <= i < r.len() implies #[trigger] r[i].0 != w by {
                let i2 = if i < k { i } else { i + 1 };
                assert(r[i] == s[i2]);
                if i2 != k {
                    assert(s[i2].0 != s[k].0);
                }
            }
        }
        lemma_lookup_entry(s, w, k);
        assert(lookup(s, w) == Some(s[k].1));
        assert(!has_frame(r, s[k].1)) by {
            assert forall|i: int| 0 <= i < r.len() implies #[trigger] r[i].1 != s[k].1 by {
                let i2 = if i < k { i } else { i + 1 };
                assert(r[i] == s[i2]);
            }
        }
        assert forall|x: u32| x != w implies lookup(r, x) == lookup(s, x) by {
            lemma_lookup_has_client(s, x);
            if has_client(s, x) {
                let i = choose|i: int| 0 <= i < s.len() && s[i].0 == x;
                lemma_lookup_entry(s, x, i);
                let i2 = if i < k { i } else { i - 1 };
                assert(r[i2] == s[i]);
                lemma_lookup_entry(r, x, i2);
            } else {
                assert forall|i: int| 0 <= i < r.len() implies #[trigger] r[i].0 != x by {
                    let i2 = if i < k { i } else { i + 1 };
                    assert(r[i] == s[i2]);
                    assert(!(s[i2].0 == x));
                }
                lemma_lookup_absent(r, x);
            }
        }
        assert forall|x: u32| #[trigger] has_client(r, x) <==> has_client(s, x) && x != w by {
            if has_client(r, x) {
                let i = choose|i: int| 0 <= i < r.len() && r[i].0 == x;
                let i2 = if i < k { i } else { i + 1 };
                assert(s[i2].0 == x);
                if x == w {
                    assert(s[i2].0 != s[k].0 || i2 == k);
                }
            }
            if has_client(s, x) && x != w {
                let i = choose|i: int| 0 <= i < s.len() && s[i].0 == x;
                assert(i != k);
                let i2 = if i < k { i } else { i - 1 };
                assert(r[i2] == s[i]);
            }
        }
    }
}

proof fn lemma_lookup_absent2(s: Seq<(u32, u32)>, w: u32)
    requires
        !has_client(s, w),
    ensures
        lookup(s, w) is None,
{
    assert forall|j: int| 0 <= j < s.len() implies s[j].0 != w by {
        if s[j].0 == w {
            assert(has_client(s, w));
        }
    }
    lemma_lookup_absent(s, w);
}

/// The mapping from managed client windows to the frames they were
/// reparented into: the authoritative record of what is currently managed.
pub struct ClientRegistry {
    entries: Vec<(u32, u32)>,
}

impl View for ClientRegistry {
    type V = Seq<(u32, u32)>;

    closed spec fn view(&self) -> Seq<(u32, u32)> {
        self.entries@
    }
}

impl ClientRegistry {
    pub fn new() -> (r: Self)
        ensures
            r@ == Seq::<(u32, u32)>::empty(),
    {
        ClientRegistry { entries: Vec::new() }
    }

    pub fn len(&self) -> (r: usize)
        ensures
            r == self@.len(),
    {
        self.entries.len()
    }

    pub fn contains_client(&self, w: u32) -> (r: bool)
        ensures
            r == has_client(self@, w),
    {
        let n = self.entries.len();
        let mut i: usize = 0;
        while i < n
            invariant
                n == self@.len(),
                i <= n,
                forall|j: int| 0 <= j < i ==> self@[j].0 != w,
            decreases n - i,
        {
            if self.entries[i].0 == w {
                assert(self@[i as int].0 == w);
                return true;
            }
            i = i + 1;
        }
        false
    }

    pub fn contains_frame(&self, f: u32) -> (r: bool)
        ensures
            r == has_frame(self@, f),
    {
        let n = self.entries.len();
        let mut i: usize = 0;
        while i < n
            invariant
                n == self@.len(),
                i <= n,
                forall|j: int| 0 <= j < i ==> self@[j].1 != f,
            decreases n - i,
        {
            if self.entries[i].1 == f {
                assert(self@[i as int].1 == f);
                return true;
            }
            i = i + 1;
        }
        false
    }

    pub fn get(&self, w: u32) -> (r: Option<u32>)
        ensures
            r == lookup(self@, w),
    {
        let n = self.entries.len();
        let mut i: usize = 0;
        while i < n
            invariant
                n == self@.len(),
                i <= n,
                forall|j: int| 0 <= j < i ==> self@[j].0 != w,
            decreases n - i,
        {
            if self.entries[i].0 == w {
                proof {
                    lemma_lookup_present(self@, w, i as int);
                }
                return Some(self.entries[i].1);
            }
            i = i + 1;
        }
        proof {
            lemma_lookup_absent(self@, w);
        }
        None
    }

    pub fn insert(&mut self, w: u32, f: u32)
        ensures
            final(self)@ == old(self)@.push((w, f)),
    {
        self.entries.push((w, f));
    }

    pub fn remove(&mut self, w: u32)
        requires
            wf_entries(old(self)@),
        ensures
            final(self)@ == remove_client(old(self)@, w),
    {
        let ghost s = self@;
        let n = self.entries.len();
        let mut i: usize = 0;
        while i < n
            invariant
                self@ == s,
                s == old(self)@,
                n == s.len(),
                i <= n,
                forall|j: int| 0 <= j < i ==> s[j].0 != w,
                wf_entries(s),
            decreases n - i,
        {
            if self.entries[i].0 == w {
                proof {
                    assert(s[i as int].0 == w);
                    let k = client_index(s, w);
                    assert(0 <= k < s.len() && s[k].0 == w);
                    if k != i {
                        assert(s[k].0 != s[i as int].0 || k == i);
                    }
                    assert(k == i);
                }
                self.entries.remove(i);
                return ;
            }
            i = i + 1;
        }
        proof {
            if has_client(s, w) {
                let j = choose|j: int| 0 <= j < s.len() && s[j].0 == w;
                assert(s[j].0 != w);
            }
        }
    }
}

} // verus!
