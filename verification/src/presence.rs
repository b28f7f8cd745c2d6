//! The per-session presence set.
//!
//! A session's presence set holds the display names currently claimed by an
//! open connection of that session. Names are compared exactly, with no
//! normalization; a name can be held by at most one connection at a time.

use vstd::prelude::*;

use crate::events::clone_string_vec;
use crate::seqs::{lemma_distinct_len, lemma_empty_to_set, lemma_push_to_set, lemma_remove_to_set};

verus! {

/// One claim or release of a display name, as the presence set sees it.
pub enum PresenceOp {
    /// A connection asks to hold the name.
    Claim(Seq<char>),
    /// A connection gives the name back.
    Release(Seq<char>),
}

/// The name an operation speaks of.
pub open spec fn op_name(op: PresenceOp) -> Seq<char> {
    match op {
        PresenceOp::Claim(n) => n,
        PresenceOp::Release(n) => n,
    }
}

/// A claim of `name` is granted exactly when no connection holds `name`.
pub open spec fn claim_granted(s: Set<Seq<char>>, name: Seq<char>) -> bool {
    !s.contains(name)
}

/// How one operation changes the presence set: a granted claim inserts the
/// name, a refused claim changes nothing, a release removes the name
/// unconditionally.
pub open spec fn presence_step(s: Set<Seq<char>>, op: PresenceOp) -> Set<Seq<char>> {
    match op {
        PresenceOp::Claim(n) => if claim_granted(s, n) {
            s.insert(n)
        } else {
            s
        },
        PresenceOp::Release(n) => s.remove(n),
    }
}

/// The presence set after a whole run of operations.
pub open spec fn presence_after(s: Set<Seq<char>>, ops: Seq<PresenceOp>) -> Set<Seq<char>>
    decreases ops.len(),
{
    if ops.len() == 0 {
        s
    } else {
        presence_step(presence_after(s, ops.drop_last()), ops.last())
    }
}

/// The set of per-session display names currently held by a connection.
pub struct UserSet {
    names: Vec<String>,
}

impl View for UserSet {
    type V = Set<Seq<char>>;

    /// The mathematical set of names held.
    closed spec fn view(&self) -> Set<Seq<char>> {
        self.names.deep_view().to_set()
    }
}

impl UserSet {
    /// No name occurs twice in the backing vector.
    pub closed spec fn wf(&self) -> bool {
        self.names.deep_view().no_duplicates()
    }

    /// Creates an empty presence set.
    pub fn new() -> (s: UserSet)
        ensures
            s.wf(),
            s@ == Set::<Seq<char>>::empty(),
    {
        let s = UserSet { names: Vec::new() };
        proof {
            assert(s.names.deep_view() =~= Seq::<Seq<char>>::empty());
            lemma_empty_to_set::<Seq<char>>();
        }
        s
    }

    /// Whether `name` is currently held.
    pub fn contains(&self, name: &String) -> (r: bool)
        ensures
            r == self@.contains(name@),
    {
        let mut i: usize = 0;
        while i < self.names.len()
            invariant
                i <= self.names.len(),
                forall|j: int| 0 <= j < i ==> self.names.deep_view()[j] != name@,
            decreases self.names.len() - i,
        {
            if self.names[i].eq(name) {
                proof {
                    assert(self.names.deep_view()[i as int] == name@);
                    assert(self.names.deep_view().contains(name@));
                }
                return true;
            }
            i += 1;
        }
        proof {
            if self@.contains(name@) {
                let j = choose|j: int|
                    0 <= j < self.names.deep_view().len() && self.names.deep_view()[j] == name@;
                assert(false);
            }
        }
        false
    }

    /// Tries to claim `name`: refuses and leaves the set unchanged if the
    /// name is already held, otherwise inserts it.
    pub fn try_claim(&mut self, name: &String) -> (claimed: bool)
        requires
            old(self).wf(),
        ensures
            final(self).wf(),
            claimed == claim_granted(old(self)@, name@),
            final(self)@ == presence_step(old(self)@, PresenceOp::Claim(name@)),
    {
        if self.contains(name) {
            false
        } else {
            let ghost before = self.names.deep_view();
            self.names.push(name.clone());
            proof {
                assert(self.names.deep_view() =~= before.push(name@));
                lemma_push_to_set(before, name@);
            }
            true
        }
    }

    /// Releases `name` unconditionally; a release of a name nobody holds
    /// changes nothing.
    pub fn release(&mut self, name: &String)
        requires
            old(self).wf(),
        ensures
            final(self).wf(),
            final(self)@ == presence_step(old(self)@, PresenceOp::Release(name@)),
    {
        let ghost before = self.names.deep_view();
        let mut i: usize = 0;
        while i < self.names.len()
            invariant
                i <= self.names.len(),
                self.names.deep_view() == before,
                before == old(self).names.deep_view(),
                before.no_duplicates(),
                forall|j: int| 0 <= j < i ==> before[j] != name@,
            decreases self.names.len() - i,
        {
            if self.names[i].eq(name) {
                proof {
                    assert(before[i as int] == name@);
                }
                self.names.remove(i);
                proof {
                    assert(self.names.deep_view() =~= before.remove(i as int));
                    lemma_remove_to_set(before, i as int);
                }
                return ;
            }
            i += 1;
        }
        proof {
            if before.to_set().contains(name@) {
                let j = choose|j: int| 0 <= j < before.len() && before[j] == name@;
                assert(false);
            }
            assert(before.to_set().remove(name@) =~= before.to_set());
        }
    }

    /// The current names, in some order, each exactly once.
    pub fn snapshot(&self) -> (r: Vec<String>)
        requires
            self.wf(),
        ensures
            r.deep_view().to_set() == self@,
            r.deep_view().no_duplicates(),
    {
        clone_string_vec(&self.names)
    }

    /// How many names are held.
    pub fn len(&self) -> (n: usize)
        requires
            self.wf(),
        ensures
            n == self@.len(),
            self@.finite(),
    {
        proof {
            lemma_distinct_len(self.names.deep_view());
        }
        self.names.len()
    }

    /// Whether nobody holds a name.
    pub fn is_empty(&self) -> (r: bool)
        requires
            self.wf(),
        ensures
            r == (self@ == Set::<Seq<char>>::empty()),
    {
        proof {
            lemma_distinct_len(self.names.deep_view());
            if self.names.deep_view().len() == 0 {
                assert(self.names.deep_view() =~= Seq::<Seq<char>>::empty());
                lemma_empty_to_set::<Seq<char>>();
            } else {
                assert(self@.contains(self.names.deep_view()[0]));
                assert(self@ != Set::<Seq<char>>::empty());
            }
        }
        self.names.len() == 0
    }
}

/// At most one connection holds a given name at any instant: while `name` is
/// held, and no operation releases it, every further claim of `name` is
/// refused and leaves the presence set unchanged.
pub proof fn lemma_exclusive_claim(s: Set<Seq<char>>, ops: Seq<PresenceOp>, name: Seq<char>)
    requires
        s.contains(name),
        forall|i: int| 0 <= i < ops.len() ==> ops[i] != PresenceOp::Release(name),
    ensures
        presence_after(s, ops).contains(name),
        !claim_granted(presence_after(s, ops), name),
        presence_step(presence_after(s, ops), PresenceOp::Claim(name)) == presence_after(s, ops),
    decreases ops.len(),
{
    if ops.len() > 0 {
        lemma_exclusive_claim(s, ops.drop_last(), name);
        let held = presence_after(s, ops.drop_last());
        match ops.last() {
            PresenceOp::Claim(n) => {
                assert(presence_after(s, ops).contains(name));
            },
            PresenceOp::Release(n) => {
                assert(n != name);
                assert(held.remove(n).contains(name));
            },
        }
    }
}

/// No two claims in `ops` claim the same name.
pub open spec fn claims_distinct(ops: Seq<PresenceOp>) -> bool {
    forall|i: int, j: int|
        #![trigger ops[i], ops[j]]
        0 <= i < j < ops.len() && ops[i] is Claim && ops[j] is Claim ==> op_name(ops[i])
            != op_name(ops[j])
}

/// Every release in `ops` is of a name some earlier operation claimed.
pub open spec fn releases_follow_claims(ops: Seq<PresenceOp>) -> bool {
    forall|j: int|
        0 <= j < ops.len() && (#[trigger] ops[j]) is Release ==> exists|i: int|
            0 <= i < j && #[trigger] ops[i] == PresenceOp::Claim(op_name(ops[j]))
}

/// The names claimed anywhere in `ops`.
pub open spec fn claimed_names(ops: Seq<PresenceOp>) -> Set<Seq<char>>
    decreases ops.len(),
{
    if ops.len() == 0 {
        Set::empty()
    } else {
        match ops.last() {
            PresenceOp::Claim(n) => claimed_names(ops.drop_last()).insert(n),
            PresenceOp::Release(_) => claimed_names(ops.drop_last()),
        }
    }
}

/// The names released anywhere in `ops`.
pub open spec fn released_names(ops: Seq<PresenceOp>) -> Set<Seq<char>>
    decreases ops.len(),
{
    if ops.len() == 0 {
        Set::empty()
    } else {
        match ops.last() {
            PresenceOp::Claim(_) => released_names(ops.drop_last()),
            PresenceOp::Release(n) => released_names(ops.drop_last()).insert(n),
        }
    }
}

/// A name is among the claimed names exactly when some operation claims it.
proof fn lemma_claimed_names_iff(ops: Seq<PresenceOp>, name: Seq<char>)
    ensures
        claimed_names(ops).contains(name) <==> exists|i: int|
            0 <= i < ops.len() && ops[i] == PresenceOp::Claim(name),
    decreases ops.len(),
{
    if ops.len() > 0 {
        lemma_claimed_names_iff(ops.drop_last(), name);
        if claimed_names(ops).contains(name) {
            if ops.last() == PresenceOp::Claim(name) {
                assert(ops[ops.len() - 1] == PresenceOp::Claim(name));
            } else {
                let i = choose|i: int|
                    0 <= i < ops.drop_last().len() && ops.drop_last()[i] == PresenceOp::Claim(name);
                assert(ops[i] == PresenceOp::Claim(name));
            }
        }
        if exists|i: int| 0 <= i < ops.len() && ops[i] == PresenceOp::Claim(name) {
            let i = choose|i: int| 0 <= i < ops.len() && ops[i] == PresenceOp::Claim(name);
            if i < ops.len() - 1 {
                assert(ops.drop_last()[i] == PresenceOp::Claim(name));
            }
        }
    }
}

/// A name is among the released names exactly when some operation releases it.
proof fn lemma_released_names_iff(ops: Seq<PresenceOp>, name: Seq<char>)
    ensures
        released_names(ops).contains(name) <==> exists|i: int|
            0 <= i < ops.len() && ops[i] == PresenceOp::Release(name),
    decreases ops.len(),
{
    if ops.len() > 0 {
        lemma_released_names_iff(ops.drop_last(), name);
        if released_names(ops).contains(name) {
            if ops.last() == PresenceOp::Release(name) {
                assert(ops[ops.len() - 1] == PresenceOp::Release(name));
            } else {
                let i = choose|i: int|
                    0 <= i < ops.drop_last().len() && ops.drop_last()[i] == PresenceOp::Release(
                        name,
                    );
                assert(ops[i] == PresenceOp::Release(name));
            }
        }
        if exists|i: int| 0 <= i < ops.len() && ops[i] == PresenceOp::Release(name) {
            let i = choose|i: int| 0 <= i < ops.len() && ops[i] == PresenceOp::Release(name);
            if i < ops.len() - 1 {
                assert(ops.drop_last()[i] == PresenceOp::Release(name));
            }
        }
    }
}

/// Starting from an empty session, the presence set after a run of claims
/// and releases equals the claimed names minus the released ones,
/// order-irrelevant — provided no name is claimed twice and every release is
/// of a name claimed earlier. Under these conditions every claim in the run
/// is granted.
pub proof fn lemma_presence_after_joins_and_leaves(ops: Seq<PresenceOp>)
    requires
        claims_distinct(ops),
        releases_follow_claims(ops),
    ensures
        presence_after(Set::empty(), ops) == claimed_names(ops).difference(released_names(ops)),
    decreases ops.len(),
{
    if ops.len() == 0 {
        assert(presence_after(Set::empty(), ops) =~= claimed_names(ops).difference(
            released_names(ops),
        ));
    } else {
        let prefix = ops.drop_last();
        assert forall|i: int, j: int| 0 <= i < j < prefix.len() implies !(prefix[i] is Claim
            && prefix[j] is Claim && op_name(prefix[i]) == op_name(prefix[j])) by {
            assert(ops[i] == prefix[i]);
            assert(ops[j] == prefix[j]);
        }
        assert forall|j: int| 0 <= j < prefix.len() && (#[trigger] prefix[j]) is Release
            implies exists|i: int|
            0 <= i < j && #[trigger] prefix[i] == PresenceOp::Claim(op_name(prefix[j])) by {
            assert(ops[j] == prefix[j]);
            let i = choose|i: int| 0 <= i < j && ops[i] == PresenceOp::Claim(op_name(ops[j]));
            assert(prefix[i] == PresenceOp::Claim(op_name(prefix[j])));
        }
        lemma_presence_after_joins_and_leaves(prefix);
        let held = presence_after(Set::empty(), prefix);
        match ops.last() {
            PresenceOp::Claim(n) => {
                assert(ops[ops.len() - 1] == PresenceOp::Claim(n));
                // No earlier operation claims `n`, so `n` is neither held nor
                // among the released names of the prefix.
                assert forall|i: int| 0 <= i < prefix.len() implies prefix[i]
                    != PresenceOp::Claim(n) by {
                    assert(ops[i] == prefix[i]);
                }
                lemma_claimed_names_iff(prefix, n);
                assert(!claimed_names(prefix).contains(n));
                lemma_released_names_iff(prefix, n);
                if released_names(prefix).contains(n) {
                    let j = choose|j: int|
                        0 <= j < prefix.len() && prefix[j] == PresenceOp::Release(n);
                    assert(ops[j] == PresenceOp::Release(n));
                    let i = choose|i: int|
                        0 <= i < j && ops[i] == PresenceOp::Claim(op_name(ops[j]));
                    assert(prefix[i] == PresenceOp::Claim(n));
                    assert(false);
                }
                assert(claim_granted(held, n));
                assert(held.insert(n) =~= claimed_names(ops).difference(released_names(ops)));
            },
            PresenceOp::Release(n) => {
                assert(held.remove(n) =~= claimed_names(ops).difference(released_names(ops)));
            },
        }
    }
}

} // verus!
