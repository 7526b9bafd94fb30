//! Which chunks have a body in the physics world.
//!
//! The world holds one static body for every chunk that is drawn, and for no
//! other. The registry keeps the uids of the chunks that have a body and
//! says, for each frame, which bodies to add and which to remove.
use vstd::prelude::*;
use std::collections::HashSet;

verus! {

broadcast use vstd::std_specs::hash::group_hash_axioms;

/// The uids of the chunks that have a body in the physics world.
pub struct PhysicsRegistry {
    registered: HashSet<usize>,
    order: Vec<usize>,
}

/// What a frame changes in the physics world.
#[derive(Debug)]
pub struct PhysicsChanges {
    /// The uids of the chunks that get a body.
    pub added: Vec<usize>,
    /// The uids of the chunks whose body is removed.
    pub removed: Vec<usize>,
}

/// The values of a sequence in the order in which they first occur, each
/// once.
pub open spec fn firsts(s: Seq<usize>) -> Seq<usize>
    decreases s.len(),
{
    if s.len() == 0 {
        Seq::empty()
    } else if firsts(s.drop_last()).contains(s.last()) {
        firsts(s.drop_last())
    } else {
        firsts(s.drop_last()).push(s.last())
    }
}

/// The values of a sequence that are not in a set, in their order.
pub open spec fn without(s: Seq<usize>, excluded: Set<usize>) -> Seq<usize>
    decreases s.len(),
{
    if s.len() == 0 {
        Seq::empty()
    } else if excluded.contains(s.last()) {
        without(s.drop_last(), excluded)
    } else {
        without(s.drop_last(), excluded).push(s.last())
    }
}

/// The first occurrences in a sequence are its values, each once.
pub proof fn lemma_firsts(s: Seq<usize>)
    ensures
        firsts(s).no_duplicates(),
        firsts(s).to_set() == s.to_set(),
    decreases s.len(),
{
    if s.len() > 0 {
        let before = s.drop_last();
        lemma_firsts(before);
        assert forall|u: usize| s.contains(u) <==> before.contains(u) || u == s.last() by {
            if before.contains(u) {
                let k = before.index_of(u);
                assert(s[k] == u);
            }
            if s.contains(u) {
                let k = s.index_of(u);
                if k < before.len() {
                    assert(before[k] == u);
                }
            }
            if u == s.last() {
                assert(s[s.len() - 1] == u);
            }
        }
        assert forall|u: usize| firsts(before).contains(u) <==> before.contains(u) by {
            assert(firsts(before).to_set().contains(u) <==> before.to_set().contains(u));
        }
        if !firsts(before).contains(s.last()) {
            lemma_push_new(firsts(before), s.last());
        }
        assert forall|u: usize| firsts(s).to_set().contains(u) <==> s.to_set().contains(u) by {
            assert(firsts(s).contains(u) <==> s.contains(u));
        }
        assert(firsts(s).to_set() =~= s.to_set());
    } else {
        assert(firsts(s).to_set() =~= s.to_set());
    }
}

/// What is left of a sequence without duplicates has none, and holds the
/// values of the sequence that are not excluded.
pub proof fn lemma_without(s: Seq<usize>, excluded: Set<usize>)
    requires
        s.no_duplicates(),
    ensures
        without(s, excluded).no_duplicates(),
        without(s, excluded).to_set() == s.to_set().difference(excluded),
    decreases s.len(),
{
    if s.len() > 0 {
        let before = s.drop_last();
        assert forall|a: int, b: int|
            0 <= a < before.len() && 0 <= b < before.len() && a != b implies before[a]
            != before[b] by {
            assert(s[a] != s[b]);
        }
        lemma_without(before, excluded);
        assert forall|u: usize| s.contains(u) <==> before.contains(u) || u == s.last() by {
            if before.contains(u) {
                let k = before.index_of(u);
                assert(s[k] == u);
            }
            if s.contains(u) {
                let k = s.index_of(u);
                if k < before.len() {
                    assert(before[k] == u);
                }
            }
            if u == s.last() {
                assert(s[s.len() - 1] == u);
            }
        }
        if before.contains(s.last()) {
            let k = before.index_of(s.last());
            assert(s[k] == s[s.len() - 1]);
        }
        assert forall|u: usize|
            without(before, excluded).contains(u) <==> before.contains(u) && !excluded.contains(
                u,
            ) by {
            assert(without(before, excluded).to_set().contains(u) <==> before.to_set().difference(
                excluded,
            ).contains(u));
        }
        if !excluded.contains(s.last()) {
            lemma_push_new(without(before, excluded), s.last());
        }
        assert forall|u: usize|
            without(s, excluded).to_set().contains(u) <==> s.to_set().difference(
                excluded,
            ).contains(u) by {
            assert(without(s, excluded).contains(u) <==> s.contains(u) && !excluded.contains(u));
        }
        assert(without(s, excluded).to_set() =~= s.to_set().difference(excluded));
    } else {
        assert(without(s, excluded).to_set() =~= s.to_set().difference(excluded));
    }
}

/// A chunk that is not drawn is not registered after the frame, and if it
/// was registered before, it is listed for removal, once.
pub proof fn lemma_not_drawn_not_registered(registered: Seq<usize>, drawn: Seq<usize>, uid: usize)
    requires
        registered.no_duplicates(),
        !drawn.contains(uid),
    ensures
        !firsts(drawn).contains(uid),
        !without(firsts(drawn), registered.to_set()).contains(uid),
        without(registered, drawn.to_set()).contains(uid) == registered.contains(uid),
        without(registered, drawn.to_set()).no_duplicates(),
{
    lemma_firsts(drawn);
    lemma_without(firsts(drawn), registered.to_set());
    lemma_without(registered, drawn.to_set());
    assert(firsts(drawn).to_set().contains(uid) == drawn.to_set().contains(uid));
    assert(without(firsts(drawn), registered.to_set()).to_set().contains(uid) == firsts(
        drawn,
    ).to_set().difference(registered.to_set()).contains(uid));
    assert(without(registered, drawn.to_set()).to_set().contains(uid) == registered.to_set().difference(
        drawn.to_set(),
    ).contains(uid));
}

impl View for PhysicsRegistry {
    type V = Seq<usize>;

    /// The registered uids, in the order in which the last frame drew them.
    closed spec fn view(&self) -> Seq<usize> {
        self.order@
    }
}

impl PhysicsRegistry {
    /// The registry lists every registered uid once.
    pub closed spec fn wf(&self) -> bool {
        &&& self.order@.no_duplicates()
        &&& forall|uid: usize| self.order@.contains(uid) <==> self.registered@.contains(uid)
    }

    /// No uid is registered twice.
    pub proof fn lemma_wf(&self)
        requires
            self.wf(),
        ensures
            self@.no_duplicates(),
    {
    }

    /// A registry without bodies.
    pub fn new() -> (registry: Self)
        ensures
            registry.wf(),
            registry@ == Seq::<usize>::empty(),
    {
        PhysicsRegistry { registered: HashSet::new(), order: Vec::new() }
    }

    /// Whether the chunk with this uid has a body.
    pub fn is_registered(&self, uid: usize) -> (yes: bool)
        requires
            self.wf(),
        ensures
            yes == self@.contains(uid),
    {
        self.registered.contains(&uid)
    }

    /// Brings the registry in line with the chunks drawn in a frame.
    ///
    /// Afterwards exactly the drawn chunks are registered, in the order in
    /// which they were first drawn. `added` lists those of them that were
    /// not registered before; `removed` lists the chunks that were
    /// registered and are not drawn, in the order of their registration.
    pub fn sync(&mut self, drawn: &Vec<usize>) -> (changes: PhysicsChanges)
        requires
            old(self).wf(),
        ensures
            final(self).wf(),
            final(self)@ == firsts(drawn@),
            final(self)@.to_set() == drawn@.to_set(),
            changes.added@ == without(firsts(drawn@), old(self)@.to_set()),
            changes.removed@ == without(old(self)@, drawn@.to_set()),
    {
        let mut current: HashSet<usize> = HashSet::new();
        let mut order: Vec<usize> = Vec::new();
        let mut added: Vec<usize> = Vec::new();
        let ghost registered = self@.to_set();
        let mut i: usize = 0;
        while i < drawn.len()
            invariant
                i <= drawn@.len(),
                self.wf(),
                self@ == old(self)@,
                registered == self@.to_set(),
                order@ == firsts(drawn@.take(i as int)),
                added@ == without(order@, registered),
                forall|uid: usize| current@.contains(uid) <==> order@.contains(uid),
            decreases drawn@.len() - i,
        {
            let uid = drawn[i];
            proof {
                assert(drawn@.take(i as int + 1).drop_last() =~= drawn@.take(i as int));
                assert(drawn@.take(i as int + 1).last() == uid);
            }
            if current.insert(uid) {
                proof {
                    assert(order@.push(uid).drop_last() =~= order@);
                    lemma_firsts(drawn@.take(i as int));
                    lemma_push_new(order@, uid);
                }
                order.push(uid);
                if !self.registered.contains(&uid) {
                    added.push(uid);
                }
            }
            i += 1;
        }
        proof {
            assert(drawn@.take(drawn@.len() as int) =~= drawn@);
            lemma_firsts(drawn@);
            assert(current@ =~= drawn@.to_set());
        }
        let mut removed: Vec<usize> = Vec::new();
        let mut j: usize = 0;
        while j < self.order.len()
            invariant
                j <= self.order@.len(),
                self@ == old(self)@,
                removed@ == without(self.order@.take(j as int), current@),
            decreases self.order@.len() - j,
        {
            let uid = self.order[j];
            proof {
                assert(self.order@.take(j as int + 1).drop_last() =~= self.order@.take(j as int));
                assert(self.order@.take(j as int + 1).last() == uid);
            }
            if !current.contains(&uid) {
                removed.push(uid);
            }
            j += 1;
        }
        proof {
            assert(self.order@.take(self.order@.len() as int) =~= self.order@);
        }
        self.registered = current;
        self.order = order;
        PhysicsChanges { added, removed }
    }
}

/// A sequence without duplicates stays so when a value that it does not
/// hold is put at its end, and holds that value besides its own.
proof fn lemma_push_new(s: Seq<usize>, value: usize)
    requires
        s.no_duplicates(),
        !s.contains(value),
    ensures
        s.push(value).no_duplicates(),
        forall|u: usize| s.push(value).contains(u) <==> s.contains(u) || u == value,
{
    let t = s.push(value);
    assert forall|u: usize| t.contains(u) <==> s.contains(u) || u == value by {
        if s.contains(u) {
            let k = s.index_of(u);
            assert(t[k] == u);
        }
        if u == value {
            assert(t[s.len() as int] == u);
        }
        if t.contains(u) {
            let k = t.index_of(u);
            if k < s.len() {
                assert(s[k] == u);
            }
        }
    }
    assert forall|a: int, b: int| 0 <= a < t.len() && 0 <= b < t.len() && a != b implies t[a]
        != t[b] by {
        if a < s.len() && b < s.len() {
            assert(s[a] != s[b]);
        } else if a < s.len() {
            assert(s.contains(s[a]));
        } else if b < s.len() {
            assert(s.contains(s[b]));
        }
    }
}

} // verus!
