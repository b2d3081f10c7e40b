use vstd::prelude::*;
use crate::keys::KeyInput;

verus! {

/// A node of the prefix tree: an optional payload and one optional child per
/// symbol of the alphabet.
#[derive(Debug)]
pub(crate) struct InputNode<T> {
    pub(crate) item: Option<T>,
    pub(crate) mark: Option<Box<InputNode<T>>>,
    pub(crate) up: Option<Box<InputNode<T>>>,
    pub(crate) down: Option<Box<InputNode<T>>>,
    pub(crate) left: Option<Box<InputNode<T>>>,
    pub(crate) right: Option<Box<InputNode<T>>>,
}


/// A sequence that starts with `seq[pos]` and continues with `seq[pos + 1..]`.
pub(crate) proof fn lemma_skip_step(seq: Seq<KeyInput>, pos: int)
    requires
        0 <= pos < seq.len(),
    ensures
        seq.skip(pos).len() > 0,
        seq.skip(pos)[0] == seq[pos],
        seq.skip(pos).drop_first() == seq.skip(pos + 1),
{
    assert(seq.skip(pos).drop_first() =~= seq.skip(pos + 1));
}

/// Two non-empty sequences with the same first symbol are equal exactly when
/// their tails are.
pub(crate) proof fn lemma_eq_by_tail(a: Seq<KeyInput>, b: Seq<KeyInput>)
    requires
        a.len() > 0,
        b.len() > 0,
        a[0] == b[0],
    ensures
        (a == b) <==> (a.drop_first() == b.drop_first()),
{
    if a.drop_first() == b.drop_first() {
        assert(a.len() == a.drop_first().len() + 1);
        assert(b.len() == b.drop_first().len() + 1);
        assert(a =~= b) by {
            assert forall|i: int| 0 <= i < a.len() implies a[i] == b[i] by {
                if i > 0 {
                    assert(a[i] == a.drop_first()[i - 1]);
                    assert(b[i] == b.drop_first()[i - 1]);
                }
            }
        }
    }
}

impl<T> InputNode<T> {
    /// The child slot of symbol `k`.
    pub(crate) open spec fn link(self, k: KeyInput) -> Option<Box<InputNode<T>>> {
        match k {
            KeyInput::Mark => self.mark,
            KeyInput::Up => self.up,
            KeyInput::Down => self.down,
            KeyInput::Left => self.left,
            KeyInput::Right => self.right,
        }
    }

    /// This node with the child slot of symbol `k` replaced by `l`.
    pub(crate) open spec fn with_link(self, k: KeyInput, l: Option<Box<InputNode<T>>>) -> InputNode<T> {
        match k {
            KeyInput::Mark => InputNode { mark: l, ..self },
            KeyInput::Up => InputNode { up: l, ..self },
            KeyInput::Down => InputNode { down: l, ..self },
            KeyInput::Left => InputNode { left: l, ..self },
            KeyInput::Right => InputNode { right: l, ..self },
        }
    }

    /// The payload reached from this node by following `s`, if any.
    pub(crate) open spec fn lookup(self, s: Seq<KeyInput>) -> Option<T>
        decreases s.len(),
    {
        if s.len() == 0 {
            self.item
        } else {
            match self.link(s[0]) {
                Some(c) => c.lookup(s.drop_first()),
                None => None,
            }
        }
    }

    /// The node reached from this node by following `s`, if any.
    pub(crate) open spec fn node_at(self, s: Seq<KeyInput>) -> Option<InputNode<T>>
        decreases s.len(),
    {
        if s.len() == 0 {
            Some(self)
        } else {
            match self.link(s[0]) {
                Some(c) => c.node_at(s.drop_first()),
                None => None,
            }
        }
    }

    /// This node with the payload at the end of `s` replaced by `v`, where
    /// `s` leads to an existing node.
    pub(crate) open spec fn set_at(self, s: Seq<KeyInput>, v: T) -> InputNode<T>
        decreases s.len(),
    {
        if s.len() == 0 {
            InputNode { item: Some(v), ..self }
        } else {
            match self.link(s[0]) {
                Some(c) => self.with_link(s[0], Some(Box::new(c.set_at(s.drop_first(), v)))),
                None => self,
            }
        }
    }

    /// Replacing a payload that is there changes only that payload.
    pub(crate) proof fn lemma_set_at(self, s: Seq<KeyInput>, v: T)
        requires
            self.wf(),
            self.lookup(s) is Some,
        ensures
            self.set_at(s, v).wf(),
            forall|q: Seq<KeyInput>|
                #[trigger] self.set_at(s, v).lookup(q) == if q == s {
                    Some(v)
                } else {
                    self.lookup(q)
                },
        decreases s.len(),
    {
        let n = self.set_at(s, v);
        if s.len() == 0 {
            assert forall|q: Seq<KeyInput>|
                #[trigger] n.lookup(q) == if q == s {
                    Some(v)
                } else {
                    self.lookup(q)
                } by {
                if q.len() == 0 {
                    assert(q =~= s);
                }
            }
        } else {
            let k = s[0];
            let c = self.link(k)->0;
            c.lemma_set_at(s.drop_first(), v);
            let c2 = c.set_at(s.drop_first(), v);
            assert(c2.lookup(s.drop_first()) is Some);
            assert(n == self.with_link(k, Some(Box::new(c2))));
            assert forall|q: Seq<KeyInput>|
                #[trigger] n.lookup(q) == if q == s {
                    Some(v)
                } else {
                    self.lookup(q)
                } by {
                if q.len() > 0 {
                    if q[0] == k {
                        lemma_eq_by_tail(q, s);
                        assert(n.lookup(q) == c2.lookup(q.drop_first()));
                    } else {
                        assert(n.link(q[0]) == self.link(q[0]));
                    }
                }
            }
        }
    }

    /// `lemma_set_at` for every replacement payload at once.
    pub(crate) proof fn lemma_set_at_any(self, s: Seq<KeyInput>)
        requires
            self.wf(),
            self.lookup(s) is Some,
        ensures
            forall|v: T| (#[trigger] self.set_at(s, v)).wf(),
            forall|v: T, q: Seq<KeyInput>|
                #[trigger] self.set_at(s, v).lookup(q) == if q == s {
                    Some(v)
                } else {
                    self.lookup(q)
                },
    {
        assert forall|v: T| (#[trigger] self.set_at(s, v)).wf() by {
            self.lemma_set_at(s, v);
        }
        assert forall|v: T, q: Seq<KeyInput>|
            #[trigger] self.set_at(s, v).lookup(q) == if q == s {
                Some(v)
            } else {
                self.lookup(q)
            } by {
            self.lemma_set_at(s, v);
        }
    }

    /// Below the root, a node is reached by `p` exactly where some payload
    /// lies at or beyond the end of `p`.
    pub(crate) proof fn lemma_node_iff_payload_below(self, p: Seq<KeyInput>)
        requires
            self.wf(),
            p.len() > 0,
        ensures
            self.node_at(p) is Some <==> exists|q: Seq<KeyInput>|
                (#[trigger] self.lookup(p + q)) is Some,
        decreases p.len(),
    {
        let k = p[0];
        let tail = p.drop_first();
        assert forall|q: Seq<KeyInput>| (#[trigger] (p + q)).drop_first() == tail + q by {
            assert((p + q).drop_first() =~= tail + q);
        }
        if self.node_at(p) is Some {
            let c = self.link(k)->0;
            if tail.len() == 0 {
                let q = choose|q: Seq<KeyInput>| (#[trigger] c.lookup(q)) is Some;
                assert(tail + q =~= q);
                assert((p + q)[0] == k);
                assert(self.lookup(p + q) is Some);
            } else {
                c.lemma_node_iff_payload_below(tail);
                let q = choose|q: Seq<KeyInput>| (#[trigger] c.lookup(tail + q)) is Some;
                assert((p + q)[0] == k);
                assert(self.lookup(p + q) is Some);
            }
        }
        if exists|q: Seq<KeyInput>| (#[trigger] self.lookup(p + q)) is Some {
            let q = choose|q: Seq<KeyInput>| (#[trigger] self.lookup(p + q)) is Some;
            assert((p + q)[0] == k);
            assert(self.link(k) is Some);
            let c = self.link(k)->0;
            assert(c.lookup(tail + q) is Some);
            if tail.len() > 0 {
                c.lemma_node_iff_payload_below(tail);
            }
        }
    }

    /// Some sequence from this node reaches a payload.
    pub(crate) open spec fn holds_any(self) -> bool {
        exists|q: Seq<KeyInput>| (#[trigger] self.lookup(q)) is Some
    }

    /// Neither a payload nor any child.
    pub(crate) open spec fn is_bare(self) -> bool {
        &&& self.item is None
        &&& self.mark is None
        &&& self.up is None
        &&& self.down is None
        &&& self.left is None
        &&& self.right is None
    }

    /// Every node below this one has a payload somewhere beneath it: no empty
    /// node is left hanging off its parent.
    pub(crate) open spec fn wf(self) -> bool
        decreases self,
    {
        &&& (self.mark matches Some(c) ==> c.holds_any() && c.wf())
        &&& (self.up matches Some(c) ==> c.holds_any() && c.wf())
        &&& (self.down matches Some(c) ==> c.holds_any() && c.wf())
        &&& (self.left matches Some(c) ==> c.holds_any() && c.wf())
        &&& (self.right matches Some(c) ==> c.holds_any() && c.wf())
    }

    /// An empty node.
    pub(crate) fn new() -> (r: Self)
        ensures
            r.is_bare(),
            r.wf(),
    {
        InputNode { item: None, mark: None, up: None, down: None, left: None, right: None }
    }

    fn link_ref(&self, k: KeyInput) -> (r: &Option<Box<InputNode<T>>>)
        ensures
            *r == self.link(k),
    {
        match k {
            KeyInput::Mark => &self.mark,
            KeyInput::Up => &self.up,
            KeyInput::Down => &self.down,
            KeyInput::Left => &self.left,
            KeyInput::Right => &self.right,
        }
    }

    fn link_mut(&mut self, k: KeyInput) -> (r: &mut Option<Box<InputNode<T>>>)
        ensures
            *r == old(self).link(k),
            *final(self) == old(self).with_link(k, *final(r)),
    {
        match k {
            KeyInput::Mark => &mut self.mark,
            KeyInput::Up => &mut self.up,
            KeyInput::Down => &mut self.down,
            KeyInput::Left => &mut self.left,
            KeyInput::Right => &mut self.right,
        }
    }


    /// A chain of fresh nodes along `seq[pos..]`, with `t` at its end.
    pub(crate) fn from_iter(t: T, seq: &[KeyInput], pos: usize) -> (r: Self)
        requires
            pos <= seq@.len(),
        ensures
            r.wf(),
            r.holds_any(),
            forall|q: Seq<KeyInput>|
                #[trigger] r.lookup(q) == if q == seq@.skip(pos as int) {
                    Some(t)
                } else {
                    None::<T>
                },
        decreases seq@.len() - pos,
    {
        let mut out = Self::new();
        if pos == seq.len() {
            out.item = Some(t);
            proof {
                assert forall|q: Seq<KeyInput>|
                    #[trigger] out.lookup(q) == if q == seq@.skip(pos as int) {
                        Some(t)
                    } else {
                        None::<T>
                    } by {
                    if q.len() == 0 {
                        assert(q =~= seq@.skip(pos as int));
                    }
                }
                assert(out.lookup(seq@.skip(pos as int)) is Some);
            }
            out
        } else {
            let k = seq[pos];
            proof { lemma_skip_step(seq@, pos as int); }
            let ghost s = seq@.skip(pos as int);
            let child = Self::from_iter(t, seq, pos + 1);
            let link = out.link_mut(k);
            *link = Some(Box::new(child));
            proof {
                assert forall|q: Seq<KeyInput>|
                    #[trigger] out.lookup(q) == if q == s {
                        Some(t)
                    } else {
                        None::<T>
                    } by {
                    if q.len() > 0 && q[0] == k {
                        lemma_eq_by_tail(q, s);
                        assert(out.lookup(q) == child.lookup(q.drop_first()));
                    }
                }
                assert(out.lookup(s) is Some);
            }
            out
        }
    }

    /// Binds `t` to `seq[pos..]` below this node, replacing any payload there.
    pub(crate) fn insert(&mut self, t: T, seq: &[KeyInput], pos: usize)
        requires
            pos <= seq@.len(),
            old(self).wf(),
        ensures
            final(self).wf(),
            final(self).holds_any(),
            forall|q: Seq<KeyInput>|
                #[trigger] final(self).lookup(q) == if q == seq@.skip(pos as int) {
                    Some(t)
                } else {
                    old(self).lookup(q)
                },
        decreases seq@.len() - pos,
    {
        let ghost old_node = *self;
        let ghost s = seq@.skip(pos as int);
        if pos == seq.len() {
            self.item = Some(t);
            proof {
                assert forall|q: Seq<KeyInput>|
                    #[trigger] self.lookup(q) == if q == s {
                        Some(t)
                    } else {
                        old_node.lookup(q)
                    } by {
                    if q.len() == 0 {
                        assert(q =~= s);
                    }
                }
                assert(self.lookup(s) is Some);
            }
            return;
        }
        let k = seq[pos];
        proof { lemma_skip_step(seq@, pos as int); }
        let link = self.link_mut(k);
        match link {
            Some(c) => c.insert(t, seq, pos + 1),
            None => {
                *link = Some(Box::new(Self::from_iter(t, seq, pos + 1)));
            },
        }
        proof {
            let c = self.link(k)->0;
            assert forall|q: Seq<KeyInput>|
                #[trigger] self.lookup(q) == if q == s {
                    Some(t)
                } else {
                    old_node.lookup(q)
                } by {
                if q.len() > 0 && q[0] == k {
                    lemma_eq_by_tail(q, s);
                    assert(self.lookup(q) == c.lookup(q.drop_first()));
                }
            }
            assert(self.lookup(s) is Some);
        }
    }


    /// A bare node reaches no payload.
    pub(crate) proof fn lemma_bare_holds_nothing(self)
        requires
            self.is_bare(),
        ensures
            !self.holds_any(),
            forall|q: Seq<KeyInput>| #[trigger] self.lookup(q) is None,
    {
        assert forall|q: Seq<KeyInput>| #[trigger] self.lookup(q) is None by {}
    }

    /// A well-formed node that is not bare reaches some payload.
    pub(crate) proof fn lemma_not_bare_holds_some(self)
        requires
            self.wf(),
            !self.is_bare(),
        ensures
            self.holds_any(),
    {
        if self.item is Some {
            assert(self.lookup(Seq::<KeyInput>::empty()) is Some);
        } else {
            let k = if self.mark is Some {
                KeyInput::Mark
            } else if self.up is Some {
                KeyInput::Up
            } else if self.down is Some {
                KeyInput::Down
            } else if self.left is Some {
                KeyInput::Left
            } else {
                KeyInput::Right
            };
            let c = self.link(k)->0;
            let q = choose|q: Seq<KeyInput>| (#[trigger] c.lookup(q)) is Some;
            let p = seq![k] + q;
            assert(p.drop_first() =~= q);
            assert(self.lookup(p) is Some);
        }
    }

    fn bare(&self) -> (r: bool)
        ensures
            r == self.is_bare(),
    {
        self.item.is_none() && self.mark.is_none() && self.up.is_none() && self.down.is_none()
            && self.left.is_none() && self.right.is_none()
    }

    /// Clears the payload at `seq[pos..]` below this node, then detaches each
    /// node on the way that is left with neither payload nor children.
    /// Returns whether this node is left bare, so that its parent detaches it;
    /// a path that leaves the tree changes nothing and returns `false`.
    pub(crate) fn remove(&mut self, seq: &[KeyInput], pos: usize) -> (r: bool)
        requires
            pos <= seq@.len(),
            old(self).wf(),
        ensures
            final(self).wf(),
            forall|q: Seq<KeyInput>|
                #[trigger] final(self).lookup(q) == if q == seq@.skip(pos as int) {
                    None
                } else {
                    old(self).lookup(q)
                },
            r ==> final(self).is_bare(),
            old(self).holds_any() ==> (r <==> final(self).is_bare()),
        decreases seq@.len() - pos,
    {
        let ghost old_node = *self;
        let ghost s = seq@.skip(pos as int);
        if pos == seq.len() {
            self.item = None;
            proof {
                assert forall|q: Seq<KeyInput>|
                    #[trigger] self.lookup(q) == if q == s {
                        None
                    } else {
                        old_node.lookup(q)
                    } by {
                    if q.len() == 0 {
                        assert(q =~= s);
                    }
                }
            }
            return self.bare();
        }
        let k = seq[pos];
        proof { lemma_skip_step(seq@, pos as int); }
        let ghost mut new_child: InputNode<T> = old_node;
        let link = self.link_mut(k);
        let child_bare = match link {
            None => {
                proof {
                    assert(old_node.lookup(s) is None);
                    if old_node.is_bare() {
                        old_node.lemma_bare_holds_nothing();
                    }
                }
                return false;
            },
            Some(c) => {
                let child_bare = c.remove(seq, pos + 1);
                proof {
                    new_child = **c;
                }
                if child_bare {
                    *link = None;
                }
                child_bare
            },
        };
        proof {
            if !child_bare {
                new_child.lemma_not_bare_holds_some();
            } else {
                new_child.lemma_bare_holds_nothing();
            }
            assert forall|q: Seq<KeyInput>|
                #[trigger] self.lookup(q) == if q == s {
                    None
                } else {
                    old_node.lookup(q)
                } by {
                if q.len() > 0 && q[0] == k {
                    lemma_eq_by_tail(q, s);
                    if child_bare {
                        assert(new_child.lookup(q.drop_first()) is None);
                    }
                }
            }
        }
        if child_bare {
            self.bare()
        } else {
            false
        }
    }

    /// The payload at the end of `seq[pos..]`, if any, for update in place.
    pub(crate) fn get_mut(&mut self, seq: &[KeyInput], pos: usize) -> (r: Option<&mut T>)
        requires
            pos <= seq@.len(),
        ensures
            r is Some <==> old(self).lookup(seq@.skip(pos as int)) is Some,
            r is Some ==> *r->0 == old(self).lookup(seq@.skip(pos as int))->0
                && *final(self) == old(self).set_at(seq@.skip(pos as int), *final(r->0)),
            r is None ==> *final(self) == *old(self),
        decreases seq@.len() - pos,
    {
        if pos == seq.len() {
            proof { assert(seq@.skip(pos as int).len() == 0); }
            return self.item.as_mut();
        }
        let k = seq[pos];
        proof { lemma_skip_step(seq@, pos as int); }
        let link = self.link_mut(k);
        match link {
            Some(c) => c.get_mut(seq, pos + 1),
            None => None,
        }
    }

    /// The payload at the end of `seq[pos..]`, if any.
    pub(crate) fn get(&self, seq: &[KeyInput], pos: usize) -> (r: Option<&T>)
        requires
            pos <= seq@.len(),
        ensures
            r is Some <==> self.lookup(seq@.skip(pos as int)) is Some,
            r is Some ==> *r->0 == self.lookup(seq@.skip(pos as int))->0,
        decreases seq@.len() - pos,
    {
        if pos == seq.len() {
            proof { assert(seq@.skip(pos as int).len() == 0); }
            return self.item.as_ref();
        }
        let k = seq[pos];
        proof {
            assert(seq@.skip(pos as int)[0] == k);
            assert(seq@.skip(pos as int).drop_first() =~= seq@.skip(pos + 1));
        }
        match self.link_ref(k) {
            Some(c) => c.get(seq, pos + 1),
            None => None,
        }
    }
}

} // verus!
