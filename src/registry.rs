//! The table of templates the lexer makes tokens from, keyed by class name
//! (`"literal"`, `"string"`, `"num"`, `"end"`) or by exact spelling.
use vstd::prelude::*;

verus! {

/// Keys are compared character by character, so the table is a vector of
/// pairs whose keys are unique, rather than a hash map keyed by strings,
/// whose lookups the verifier could not follow.
pub struct Registry<S> {
    entries: Vec<(Vec<char>, S)>,
}

/// The characters of a string, in order.
pub(crate) fn chars_of(text: &str) -> (r: Vec<char>)
    ensures
        r@ == text@,
{
    let n = text.unicode_len();
    let mut r: Vec<char> = Vec::new();
    let mut i: usize = 0;
    while i < n
        invariant
            i <= n,
            n == text@.len(),
            r@ == text@.subrange(0, i as int),
        decreases n - i,
    {
        r.push(text.get_char(i));
        i = i + 1;
        assert(r@ =~= text@.subrange(0, i as int));
    }
    assert(text@.subrange(0, n as int) =~= text@);
    r
}

/// Whether `a` holds the characters `s[lo..hi]`.
pub(crate) fn same_text(a: &Vec<char>, s: &Vec<char>, lo: usize, hi: usize) -> (r: bool)
    requires
        lo <= hi <= s@.len(),
    ensures
        r == (a@ == s@.subrange(lo as int, hi as int)),
{
    if a.len() != hi - lo {
        return false;
    }
    let mut i: usize = 0;
    while i < a.len()
        invariant
            lo <= hi <= s@.len(),
            a@.len() == hi - lo,
            i <= a@.len(),
            forall|q: int| 0 <= q < i ==> a@[q] == s@[lo + q],
        decreases a@.len() - i,
    {
        if a[i] != s[lo + i] {
            assert(a@[i as int] != s@.subrange(lo as int, hi as int)[i as int]);
            return false;
        }
        i = i + 1;
    }
    assert(a@ =~= s@.subrange(lo as int, hi as int));
    true
}

impl<S> Registry<S> {
    pub closed spec fn wf(&self) -> bool {
        forall|a: int, b: int|
            0 <= a < b < self.entries@.len() ==> (#[trigger] self.entries@[a]).0@
                != (#[trigger] self.entries@[b]).0@
    }

    pub closed spec fn size(&self) -> nat {
        self.entries@.len()
    }

    pub closed spec fn key_at(&self, x: int) -> Seq<char> {
        self.entries@[x].0@
    }

    pub closed spec fn template_at(&self, x: int) -> S {
        self.entries@[x].1
    }

    pub closed spec fn has_key_at(&self, k: Seq<char>, x: int) -> bool {
        0 <= x < self.entries@.len() && self.entries@[x].0@ == k
    }

    /// The table as a map from key to template.
    pub closed spec fn view(&self) -> Map<Seq<char>, S> {
        Map::new(
            |k: Seq<char>| exists|x: int| self.has_key_at(k, x),
            |k: Seq<char>| self.entries@[choose|x: int| self.has_key_at(k, x)].1,
        )
    }

    proof fn lemma_at(&self, k: Seq<char>, x: int)
        requires
            self.wf(),
            self.has_key_at(k, x),
        ensures
            self.view().contains_key(k),
            self.view()[k] == self.entries@[x].1,
    {
        let y = choose|y: int| self.has_key_at(k, y);
        assert(self.has_key_at(k, y));
        if y < x {
            assert(self.entries@[y].0@ != self.entries@[x].0@);
        } else if x < y {
            assert(self.entries@[x].0@ != self.entries@[y].0@);
        }
    }

    /// `after` is `before` with the entry at `x` set to `key` and
    /// `template`, the entry at `x` being new or held under `key` already.
    proof fn lemma_insert_view(before: &Self, after: &Self, key: Seq<char>, template: S, x: int)
        requires
            before.wf(),
            after.wf(),
            after.has_key_at(key, x),
            after.entries@[x].1 == template,
            forall|y: int|
                0 <= y < after.entries@.len() && y != x ==> y < before.entries@.len()
                    && #[trigger] after.entries@[y] == before.entries@[y],
            forall|y: int|
                0 <= y < before.entries@.len() ==> y < after.entries@.len() && (y == x || before.entries@[y]
                    == after.entries@[y]),
            x < before.entries@.len() ==> before.entries@[x].0@ == key,
        ensures
            after.view() == before.view().insert(key, template),
    {
        after.lemma_at(key, x);
        assert forall|kk: Seq<char>| #[trigger]
            after.view().contains_key(kk) == before.view().insert(key, template).contains_key(kk) by {
            if exists|y: int| before.has_key_at(kk, y) {
                let y = choose|y: int| before.has_key_at(kk, y);
                if y != x {
                    assert(after.has_key_at(kk, y));
                }
            }
            if exists|y: int| after.has_key_at(kk, y) {
                let y = choose|y: int| after.has_key_at(kk, y);
                if kk != key {
                    assert(before.has_key_at(kk, y));
                }
            }
        }
        assert forall|kk: Seq<char>|
            after.view().contains_key(kk) && kk != key implies #[trigger] after.view()[kk]
            == before.view()[kk] by {
            let y = choose|y: int| after.has_key_at(kk, y);
            assert(y != x);
            after.lemma_at(kk, y);
            assert(before.has_key_at(kk, y));
            before.lemma_at(kk, y);
        }
        assert(after.view() =~= before.view().insert(key, template));
    }

    pub fn new() -> (r: Self)
        ensures
            r.wf(),
            r.view() == Map::<Seq<char>, S>::empty(),
    {
        let r = Registry { entries: Vec::new() };
        assert(r.view() =~= Map::<Seq<char>, S>::empty());
        r
    }

    /// Index of the entry whose key is `s[lo..hi]`.
    pub(crate) fn find(&self, s: &Vec<char>, lo: usize, hi: usize) -> (r: Option<usize>)
        requires
            self.wf(),
            lo <= hi <= s@.len(),
        ensures
            match r {
                Some(x) => {
                    &&& x < self.size()
                    &&& self.key_at(x as int) == s@.subrange(lo as int, hi as int)
                    &&& self.view().contains_key(s@.subrange(lo as int, hi as int))
                    &&& self.view()[s@.subrange(lo as int, hi as int)] == self.template_at(x as int)
                },
                None => !self.view().contains_key(s@.subrange(lo as int, hi as int)),
            },
    {
        let ghost k = s@.subrange(lo as int, hi as int);
        let mut x: usize = 0;
        while x < self.entries.len()
            invariant
                self.wf(),
                lo <= hi <= s@.len(),
                k == s@.subrange(lo as int, hi as int),
                x <= self.entries@.len(),
                forall|y: int| 0 <= y < x ==> !self.has_key_at(k, y),
            decreases self.entries@.len() - x,
        {
            if same_text(&self.entries[x].0, s, lo, hi) {
                proof {
                    self.lemma_at(k, x as int);
                }
                return Some(x);
            }
            x = x + 1;
        }
        assert(!(exists|y: int| self.has_key_at(k, y)));
        None
    }

    /// Index of the entry whose key is `key`.
    pub(crate) fn find_key(&self, key: &Vec<char>) -> (r: Option<usize>)
        requires
            self.wf(),
        ensures
            match r {
                Some(x) => {
                    &&& x < self.size()
                    &&& self.key_at(x as int) == key@
                    &&& self.view().contains_key(key@)
                    &&& self.view()[key@] == self.template_at(x as int)
                },
                None => !self.view().contains_key(key@),
            },
    {
        let r = self.find(key, 0, key.len());
        assert(key@.subrange(0, key@.len() as int) =~= key@);
        r
    }

    /// The template of the entry at index `x`.
    pub(crate) fn template(&self, x: usize) -> (r: &S)
        requires
            x < self.size(),
        ensures
            *r == self.template_at(x as int),
    {
        &self.entries[x].1
    }

    /// Adds a template under `key`, replacing any earlier one.
    pub fn register(&mut self, key: &str, template: S)
        requires
            old(self).wf(),
        ensures
            final(self).wf(),
            final(self).view() == old(self).view().insert(key@, template),
    {
        let k = chars_of(key);
        match self.find_key(&k) {
            Some(x) => {
                let ghost before = self.entries@;
                let _replaced = self.entries.set(x, (k, template));
                proof {
                    assert forall|a: int, b: int|
                        0 <= a < b < self.entries@.len() implies (#[trigger] self.entries@[a]).0@
                        != (#[trigger] self.entries@[b]).0@ by {
                        assert(before[a].0@ != before[b].0@);
                    }
                    Self::lemma_insert_view(&*old(self), &*self, key@, template, x as int);
                }
            },
            None => {
                self.entries.push((k, template));
                proof {
                    let n = old(self).entries@.len() as int;
                    assert forall|a: int, b: int|
                        0 <= a < b < self.entries@.len() implies (#[trigger] self.entries@[a]).0@
                        != (#[trigger] self.entries@[b]).0@ by {
                        if b == n {
                            assert(old(self).has_key_at(old(self).entries@[a].0@, a));
                            old(self).lemma_at(old(self).entries@[a].0@, a);
                        } else {
                            assert(old(self).entries@[a].0@ != old(self).entries@[b].0@);
                        }
                    }
                    Self::lemma_insert_view(&*old(self), &*self, key@, template, n);
                }
            },
        }
    }
}

} // verus!
