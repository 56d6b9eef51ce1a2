//! String interning: every distinct string owned by the runtime is stored
//! once and addressed by a small integer identity.

use vstd::prelude::*;
use vstd::string::StringExecFns;

verus! {

/// The identity of an interned string: an index into the interner's store.
#[derive(Debug, Clone, Copy, PartialEq, Eq, Structural)]
pub struct IString(pub usize);

/// Owns a dense sequence of strings and hands out a stable [`IString`] for
/// each distinct one. Strings are never removed, so identities stay valid
/// for the interner's whole life.
#[derive(Debug)]
pub struct StringInterner {
    vals: Vec<String>,
}

impl View for StringInterner {
    type V = Seq<Seq<char>>;

    closed spec fn view(&self) -> Seq<Seq<char>> {
        Seq::new(self.vals@.len(), |i: int| self.vals@[i]@)
    }
}

impl StringInterner {
    /// No two stored strings are equal, so identities and contents
    /// determine each other.
    pub open spec fn wf(&self) -> bool {
        forall|i: int, j: int| 0 <= i < j < self@.len() ==> self@[i] != self@[j]
    }

    /// The identity under which `s` is stored, if it is.
    pub open spec fn spec_find(&self, s: Seq<char>) -> Option<int> {
        if exists|i: int| 0 <= i < self@.len() && self@[i] == s {
            Some(choose|i: int| 0 <= i < self@.len() && self@[i] == s)
        } else {
            None
        }
    }

    pub fn new() -> (r: Self)
        ensures
            r.wf(),
            r@.len() == 0,
    {
        StringInterner { vals: Vec::new() }
    }

    /// Returns the identity of `s`, storing it first if it is new.
    /// Interning is idempotent and only ever appends.
    pub fn intern(&mut self, s: &str) -> (r: IString)
        requires
            old(self).wf(),
        ensures
            final(self).wf(),
            r.0 < final(self)@.len(),
            final(self)@[r.0 as int] == s@,
            old(self)@.len() <= final(self)@.len(),
            forall|i: int| 0 <= i < old(self)@.len() ==> final(self)@[i] == old(self)@[i],
            old(self).spec_find(s@) is Some ==> final(self)@ == old(self)@,
            old(self).spec_find(s@) is None ==> final(self)@ == old(self)@.push(s@) && r.0 == old(self)@.len(),
    {
        let needle: String = String::from_str(s);
        let n = self.vals.len();
        for i in 0..n
            invariant
                n == self.vals@.len(),
                needle@ == s@,
                forall|j: int| 0 <= j < i ==> self@[j] != s@,
                self.wf(),
        {
            assert(self@[i as int] == self.vals@[i as int]@);
            if needle == self.vals[i] {
                assert(self.spec_find(s@) is Some);
                return IString(i);
            }
        }
        assert(self.spec_find(s@) is None);
        let r = IString(self.vals.len());
        self.vals.push(needle);
        proof {
            assert(self@ =~= old(self)@.push(s@));
        }
        r
    }

    /// The string that `istr` denotes. Valid for every identity this
    /// interner has produced.
    pub fn get(&self, istr: IString) -> (r: &str)
        requires
            istr.0 < self@.len(),
        ensures
            r@ == self@[istr.0 as int],
    {
        self.vals[istr.0].as_str()
    }
}

/// The interner has only grown: every identity of `b` still denotes the
/// same string in `a`.
pub open spec fn interner_extends(a: Seq<Seq<char>>, b: Seq<Seq<char>>) -> bool {
    &&& b.len() <= a.len()
    &&& forall|i: int| 0 <= i < b.len() ==> a[i] == b[i]
}

/// Interning at the specification level: the identity of `s`, with `s`
/// appended first where it is new.
pub open spec fn spec_intern(strings: Seq<Seq<char>>, s: Seq<char>) -> (Seq<Seq<char>>, int) {
    if exists|i: int| 0 <= i < strings.len() && strings[i] == s {
        (strings, choose|i: int| 0 <= i < strings.len() && strings[i] == s)
    } else {
        (strings.push(s), strings.len() as int)
    }
}

/// What `intern` returns is exactly what `spec_intern` says: for a well
/// formed interner the store and the returned identity are determined.
pub proof fn lemma_intern_matches_spec(
    pre: Seq<Seq<char>>,
    post: StringInterner,
    r: IString,
    s: Seq<char>,
)
    requires
        post.wf(),
        r.0 < post@.len(),
        post@[r.0 as int] == s,
        (exists|i: int| 0 <= i < pre.len() && pre[i] == s) ==> post@ == pre,
        !(exists|i: int| 0 <= i < pre.len() && pre[i] == s) ==> post@ == pre.push(s) && r.0
            == pre.len(),
    ensures
        post@ == spec_intern(pre, s).0,
        r.0 as int == spec_intern(pre, s).1,
{
    if exists|i: int| 0 <= i < pre.len() && pre[i] == s {
        let k = choose|i: int| 0 <= i < pre.len() && pre[i] == s;
        lemma_intern_injective(post, r, IString(k as usize));
    }
}

/// Interned identities are equal exactly when the strings they denote are
/// equal: `intern(s) == intern(t)` if and only if `s == t`.
pub proof fn lemma_intern_injective(interner: StringInterner, a: IString, b: IString)
    requires
        interner.wf(),
        a.0 < interner@.len(),
        b.0 < interner@.len(),
    ensures
        a == b <==> interner@[a.0 as int] == interner@[b.0 as int],
{
    if a.0 != b.0 {
        if a.0 < b.0 {
            assert(interner@[a.0 as int] != interner@[b.0 as int]);
        } else {
            assert(interner@[b.0 as int] != interner@[a.0 as int]);
        }
    }
}

} // verus!
