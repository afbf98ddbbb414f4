//! The login directory: the single-writer registry that maps each
//! case-folded login name to one session slot, created on first login and
//! shared by every later login under any casing of the name.
//!
//! The directory stores the folded names in creation order; the slot index
//! a login returns is the caller's handle to the session it owns.

use vstd::prelude::*;

use crate::text::{fold_seq, fold_string, lemma_fold_idempotent};

verus! {

/// The slot a folded name stands at, or a negative answer.
pub open spec fn find_name(names: Seq<Seq<char>>, key: Seq<char>) -> int
    decreases names.len(),
{
    if names.len() == 0 {
        -1
    } else if names[0] == key {
        0
    } else {
        let r = find_name(names.drop_first(), key);
        if r < 0 {
            -1
        } else {
            r + 1
        }
    }
}

/// `find_name` answers within bounds, points at the key, and is negative
/// exactly when the key is absent.
pub proof fn lemma_find_name(names: Seq<Seq<char>>, key: Seq<char>)
    ensures
        -1 <= find_name(names, key) < names.len(),
        find_name(names, key) >= 0 ==> names[find_name(names, key)] == key,
        find_name(names, key) < 0 ==> forall|i: int| 0 <= i < names.len() ==> names[i] != key,
    decreases names.len(),
{
    if names.len() > 0 && names[0] != key {
        lemma_find_name(names.drop_first(), key);
        if find_name(names.drop_first(), key) < 0 {
            assert forall|i: int| 0 <= i < names.len() implies names[i] != key by {
                if i > 0 {
                    assert(names.drop_first()[i - 1] == names[i]);
                }
            }
        }
    }
}

/// A key appended to names that lack it is found at the old end.
pub proof fn lemma_find_name_push(names: Seq<Seq<char>>, key: Seq<char>)
    requires
        find_name(names, key) < 0,
    ensures
        find_name(names.push(key), key) == names.len(),
    decreases names.len(),
{
    if names.len() == 0 {
        assert(names.push(key)[0] == key);
    } else {
        assert(names.push(key).drop_first() =~= names.drop_first().push(key));
        lemma_find_name_push(names.drop_first(), key);
    }
}

/// What one login does to the registry: the name is case-folded; a known
/// name answers with its slot; a new one takes the next slot.  The triple
/// is the new registry, the slot, and whether a session was created.
pub open spec fn login_next(names: Seq<Seq<char>>, raw: Seq<char>) -> (Seq<Seq<char>>, int, bool) {
    let key = fold_seq(raw);
    let i = find_name(names, key);
    if i >= 0 {
        (names, i, false)
    } else {
        (names.push(key), names.len() as int, true)
    }
}

/// The registry of login names, one slot per case-folded name.
pub struct SessionDirectory {
    names: Vec<String>,
}

impl SessionDirectory {
    /// The folded names in slot order.
    pub closed spec fn names_spec(&self) -> Seq<Seq<char>> {
        self.names.deep_view()
    }

    /// The registry invariant: every stored name is folded.
    pub open spec fn wf(&self) -> bool {
        forall|i: int|
            0 <= i < self.names_spec().len() ==> fold_seq(#[trigger] self.names_spec()[i])
                == self.names_spec()[i]
    }

    /// An empty registry.
    pub fn new() -> (d: SessionDirectory)
        ensures
            d.wf(),
            d.names_spec().len() == 0,
    {
        let d = SessionDirectory { names: Vec::new() };
        proof {
            assert(d.names_spec() =~= Seq::<Seq<char>>::empty());
        }
        d
    }

    /// How many sessions exist.
    pub fn session_count(&self) -> (n: usize)
        ensures
            n == self.names_spec().len(),
    {
        self.names.len()
    }

    /// Looks the name up under case folding, creating its slot on first
    /// sight, exactly as `login_next` describes: the slot index and
    /// whether this login created the session.
    #[verifier::loop_isolation(false)]
    pub fn login_lookup_or_create(&mut self, name: &str) -> (r: (usize, bool))
        requires
            old(self).wf(),
        ensures
            final(self).wf(),
            final(self).names_spec() == login_next(old(self).names_spec(), name@).0,
            r.0 as int == login_next(old(self).names_spec(), name@).1,
            r.1 == login_next(old(self).names_spec(), name@).2,
    {
        let folded = fold_string(name);
        let ghost key = fold_seq(name@);
        let n = self.names.len();
        let mut i: usize = 0;
        while i < n
            invariant
                i <= n == self.names_spec().len(),
                folded@ == key,
                forall|m: int| 0 <= m < i as int ==> self.names_spec()[m] != key,
            decreases n - i,
        {
            if self.names[i] == folded {
                proof {
                    assert(self.names_spec()[i as int] == key);
                    lemma_find_name(self.names_spec(), key);
                    assert(find_name(self.names_spec(), key) == i as int) by {
                        lemma_find_name_unique(self.names_spec(), key, i as int);
                    }
                }
                return (i, false);
            }
            proof {
                assert(self.names_spec()[i as int] == self.names@[i as int]@);
            }
            i = i + 1;
        }
        proof {
            lemma_find_name(self.names_spec(), key);
            assert(find_name(self.names_spec(), key) < 0) by {
                if find_name(self.names_spec(), key) >= 0 {
                    assert(self.names_spec()[find_name(self.names_spec(), key)] == key);
                }
            }
            lemma_find_name_push(self.names_spec(), key);
            lemma_fold_idempotent(name@);
        }
        let ghost before = self.names_spec();
        self.names.push(folded);
        proof {
            assert forall|k: int| 0 <= k < self.names_spec().len() implies self.names_spec()[k]
                == before.push(key)[k] by {
                if k < before.len() {
                    assert(self.names@[k] == self.names@.subrange(0, before.len() as int)[k]);
                }
            }
            assert(self.names_spec() =~= before.push(key));
        }
        (self.names.len() - 1, true)
    }
}

/// Where the search's first hit lies, `find_name` answers.
proof fn lemma_find_name_unique(names: Seq<Seq<char>>, key: Seq<char>, i: int)
    requires
        0 <= i < names.len(),
        names[i] == key,
        forall|m: int| 0 <= m < i ==> names[m] != key,
    ensures
        find_name(names, key) == i,
    decreases i,
{
    if i > 0 {
        assert forall|m: int| 0 <= m < i - 1 implies names.drop_first()[m] != key by {
            assert(names.drop_first()[m] == names[m + 1]);
        }
        assert(names.drop_first()[i - 1] == names[i]);
        lemma_find_name_unique(names.drop_first(), key, i - 1);
    }
}

/// One session per name: two logins for the same case-folded name, served
/// one after the other, end at the same slot; the second never creates a
/// session, and leaves the registry as the first left it.
pub proof fn lemma_login_single_session(names: Seq<Seq<char>>, n1: Seq<char>, n2: Seq<char>)
    requires
        fold_seq(n1) == fold_seq(n2),
    ensures
        login_next(login_next(names, n1).0, n2).1 == login_next(names, n1).1,
        !login_next(login_next(names, n1).0, n2).2,
        login_next(login_next(names, n1).0, n2).0 == login_next(names, n1).0,
{
    let key = fold_seq(n1);
    lemma_find_name(names, key);
    if find_name(names, key) < 0 {
        lemma_find_name_push(names, key);
    }
}

/// Logins bind by the folded name alone: any two casings of a name are
/// served from the same slot of the same registry.
pub proof fn lemma_login_case_insensitive(names: Seq<Seq<char>>, n1: Seq<char>, n2: Seq<char>)
    requires
        fold_seq(n1) == fold_seq(n2),
    ensures
        login_next(names, n1) == login_next(names, n2),
{
}

} // verus!
