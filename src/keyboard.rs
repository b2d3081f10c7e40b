use vstd::prelude::*;
use crate::combo::InputNode;
use crate::keys::KeyInput;

verus! {

/// Maps combos, sequences of [`KeyInput`] symbols, to payloads of type `T`.
///
/// A combo resolves only where a payload was bound to exactly that sequence:
/// a strict prefix of a longer combo is no match. Removing a combo detaches
/// every node of its path that is left with neither payload nor children.
#[derive(Debug)]
pub struct KeyboardWatcher<T> {
    input_tree: InputNode<T>,
}

impl<T> View for KeyboardWatcher<T> {
    type V = Map<Seq<KeyInput>, T>;

    /// The combos that are bound, each with its payload.
    closed spec fn view(&self) -> Map<Seq<KeyInput>, T> {
        Map::new(
            |s: Seq<KeyInput>| self.input_tree.lookup(s) is Some,
            |s: Seq<KeyInput>| self.input_tree.lookup(s)->0,
        )
    }
}

/// Two different combos bound one after the other each resolve to their own
/// payload, whichever was bound first.
pub proof fn lemma_distinct_combos<T>(
    m: Map<Seq<KeyInput>, T>,
    s1: Seq<KeyInput>,
    t1: T,
    s2: Seq<KeyInput>,
    t2: T,
)
    requires
        s1 != s2,
    ensures
        m.insert(s1, t1).insert(s2, t2).contains_key(s1),
        m.insert(s1, t1).insert(s2, t2)[s1] == t1,
        m.insert(s1, t1).insert(s2, t2).contains_key(s2),
        m.insert(s1, t1).insert(s2, t2)[s2] == t2,
        m.insert(s1, t1).insert(s2, t2) == m.insert(s2, t2).insert(s1, t1),
{
    assert(m.insert(s1, t1).insert(s2, t2) =~= m.insert(s2, t2).insert(s1, t1));
}

/// Binding a combo binds none of its strict prefixes: a prefix resolves
/// afterwards only where it was bound in its own right.
pub proof fn lemma_prefix_not_bound<T>(
    m: Map<Seq<KeyInput>, T>,
    s: Seq<KeyInput>,
    p: T,
    prefix: Seq<KeyInput>,
)
    requires
        prefix.len() < s.len(),
        prefix == s.take(prefix.len() as int),
    ensures
        m.insert(s, p).contains_key(prefix) == m.contains_key(prefix),
        m.contains_key(prefix) ==> m.insert(s, p)[prefix] == m[prefix],
{
    assert(prefix != s);
}

/// A combo resolves to the payload just bound to it, and to nothing once it
/// is removed again.
pub proof fn lemma_round_trip<T>(m: Map<Seq<KeyInput>, T>, s: Seq<KeyInput>, p: T)
    ensures
        m.insert(s, p).contains_key(s),
        m.insert(s, p)[s] == p,
        !m.insert(s, p).remove(s).contains_key(s),
{
}

/// Removing a combo collapses its path: the root stays, and below it a node
/// survives exactly where some other combo still runs through it or ends at
/// it. Every node off the path is kept as it was.
pub proof fn lemma_remove_collapses<T>(
    before: KeyboardWatcher<T>,
    after: KeyboardWatcher<T>,
    s: Seq<KeyInput>,
)
    requires
        before.wf(),
        after.wf(),
        after@ == before@.remove(s),
    ensures
        after.has_node(Seq::empty()),
        forall|p: Seq<KeyInput>|
            p.len() > 0 ==> (#[trigger] after.has_node(p) <==> exists|q: Seq<KeyInput>|
                p + q != s && (#[trigger] before@.contains_key(p + q))),
        forall|p: Seq<KeyInput>|
            p.len() > 0 && !(p.len() <= s.len() && p == s.take(p.len() as int)) ==> (
            #[trigger] after.has_node(p) == before.has_node(p)),
{
    assert forall|p: Seq<KeyInput>|
        p.len() > 0 implies (#[trigger] after.has_node(p) <==> exists|q: Seq<KeyInput>|
            p + q != s && (#[trigger] before@.contains_key(p + q))) by {
        after.lemma_node_iff_combo_below(p);
        if after.has_node(p) {
            let q = choose|q: Seq<KeyInput>| (#[trigger] after@.contains_key(p + q));
            assert(p + q != s && before@.contains_key(p + q));
        }
        if exists|q: Seq<KeyInput>| p + q != s && (#[trigger] before@.contains_key(p + q)) {
            let q = choose|q: Seq<KeyInput>|
                p + q != s && (#[trigger] before@.contains_key(p + q));
            assert(after@.contains_key(p + q));
        }
    }
    assert forall|p: Seq<KeyInput>|
        p.len() > 0 && !(p.len() <= s.len() && p == s.take(p.len() as int)) implies (
        #[trigger] after.has_node(p) == before.has_node(p)) by {
        after.lemma_node_iff_combo_below(p);
        before.lemma_node_iff_combo_below(p);
        assert forall|q: Seq<KeyInput>| p + q != s by {
            if p + q == s {
                assert(s.take(p.len() as int) =~= p);
            }
        }
        if before.has_node(p) {
            let q = choose|q: Seq<KeyInput>| (#[trigger] before@.contains_key(p + q));
            assert(after@.contains_key(p + q));
        }
    }
}

impl<T> KeyboardWatcher<T> {
    /// Below the root, a node is reached by `p` exactly where some bound
    /// combo starts with `p`.
    pub proof fn lemma_node_iff_combo_below(&self, p: Seq<KeyInput>)
        requires
            self.wf(),
            p.len() > 0,
        ensures
            self.has_node(p) <==> exists|q: Seq<KeyInput>| (#[trigger] self@.contains_key(p + q)),
    {
        self.input_tree.lemma_node_iff_payload_below(p);
        if self.has_node(p) {
            let q = choose|q: Seq<KeyInput>| (#[trigger] self.input_tree.lookup(p + q)) is Some;
            assert(self@.contains_key(p + q));
        }
        if exists|q: Seq<KeyInput>| (#[trigger] self@.contains_key(p + q)) {
            let q = choose|q: Seq<KeyInput>| (#[trigger] self@.contains_key(p + q));
            assert(self.input_tree.lookup(p + q) is Some);
        }
    }

    /// No node of the tree but the root is left without a payload beneath
    /// it.
    pub closed spec fn wf(&self) -> bool {
        self.input_tree.wf()
    }

    /// A node of the tree is reached by following `p` from the root.
    pub closed spec fn has_node(&self, p: Seq<KeyInput>) -> bool {
        self.input_tree.node_at(p) is Some
    }

    /// A watcher with no combo bound.
    pub fn new() -> (r: Self)
        ensures
            r.wf(),
            r@ == Map::<Seq<KeyInput>, T>::empty(),
    {
        let r = KeyboardWatcher { input_tree: InputNode::new() };
        proof {
            r.input_tree.lemma_bare_holds_nothing();
            assert(r@ =~= Map::<Seq<KeyInput>, T>::empty());
        }
        r
    }

    /// Binds `t` to `sequence`, replacing any payload bound to it before.
    /// The empty sequence is a combo too.
    pub fn insert(&mut self, t: T, sequence: &[KeyInput])
        requires
            old(self).wf(),
        ensures
            final(self).wf(),
            final(self)@ == old(self)@.insert(sequence@, t),
    {
        proof {
            assert(sequence@.skip(0) == sequence@);
        }
        self.input_tree.insert(t, sequence, 0);
        proof {
            assert(self@ =~= old(self)@.insert(sequence@, t));
        }
    }

    /// Unbinds `sequence`; nothing changes where it is not bound.
    pub fn remove(&mut self, sequence: &[KeyInput])
        requires
            old(self).wf(),
        ensures
            final(self).wf(),
            final(self)@ == old(self)@.remove(sequence@),
    {
        proof {
            assert(sequence@.skip(0) == sequence@);
        }
        self.input_tree.remove(sequence, 0);
        proof {
            assert(self@ =~= old(self)@.remove(sequence@));
        }
    }

    /// The payload bound to exactly `sequence`, if any.
    pub fn get(&self, sequence: &[KeyInput]) -> (r: Option<&T>)
        ensures
            r is Some <==> self@.contains_key(sequence@),
            r is Some ==> *r->0 == self@[sequence@],
    {
        proof {
            assert(sequence@.skip(0) == sequence@);
        }
        self.input_tree.get(sequence, 0)
    }

    /// The payload bound to exactly `sequence`, if any, for update in place.
    pub fn get_mut(&mut self, sequence: &[KeyInput]) -> (r: Option<&mut T>)
        requires
            old(self).wf(),
        ensures
            final(self).wf(),
            r is Some <==> old(self)@.contains_key(sequence@),
            r is Some ==> *r->0 == old(self)@[sequence@]
                && final(self)@ == old(self)@.insert(sequence@, *final(r->0)),
            r is None ==> final(self)@ == old(self)@,
    {
        proof {
            assert(sequence@.skip(0) == sequence@);
            if self.input_tree.lookup(sequence@) is Some {
                self.input_tree.lemma_set_at_any(sequence@);
            }
        }
        self.input_tree.get_mut(sequence, 0)
    }
}

} // verus!
