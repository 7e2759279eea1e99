use vstd::prelude::*;
use crate::password_box::{KeyEvent, PasswordAction, PasswordBoxState, mask_result};
use crate::store::{Entity, Kind, StoreModel, ValueModel, read_as, PropertyError, PropertyStore, RecordModel, Slot, SlotModel, Value, is_live};
use crate::tree::{Tree, TreeModel, grown};

verus! {

/// A lifecycle hook of a widget state.
#[derive(Clone, Copy, Debug, PartialEq, Eq, Structural)]
pub enum Hook {
    Init,
    Update,
}

/// Where a widget state stands in its lifecycle.
#[derive(Clone, Copy, Debug, PartialEq, Eq, Structural)]
pub enum Phase {
    Uninitialized,
    Active,
}

/// The state object of one widget, with its phase and the hooks run on it so far.
pub struct StateSlot {
    phase: Phase,
    hooks: Ghost<Seq<Hook>>,
    state: PasswordBoxState,
}

impl StateSlot {
    /// Where the state stands in its lifecycle.
    pub closed spec fn spec_phase(&self) -> Phase {
        self.phase
    }

    /// The hooks run on the state so far, in order.
    pub closed spec fn spec_hooks(&self) -> Seq<Hook> {
        self.hooks@
    }

    /// The widget-specific state.
    pub closed spec fn spec_state(&self) -> PasswordBoxState {
        self.state
    }

    /// Where the state stands in its lifecycle.
    pub fn phase(&self) -> (r: Phase)
        ensures
            r == self.spec_phase(),
    {
        self.phase
    }
}

/// `init` ran once, first, and only `update` after it; a state is active
/// exactly when `init` has run.
pub open spec fn hooks_wf(phase: Phase, hooks: Seq<Hook>) -> bool {
    &&& (phase == Phase::Uninitialized) == (hooks.len() == 0)
    &&& hooks.len() > 0 ==> hooks[0] == Hook::Init
    &&& forall|k: int| 1 <= k < hooks.len() ==> #[trigger] hooks[k] == Hook::Update
}

/// What one state object does in a tick, on store `m`: if it was never
/// initialized, `init` reads its echo character from property `echo` of
/// `id` (a failure ends the step); then, if an action is pending, `update`
/// masks the text with that echo character.
pub open spec fn slot_step(s: StateSlot, id: Entity, m: StoreModel) -> (Result<(), PropertyError>, StoreModel) {
    let echo: Result<char, PropertyError> = if s.spec_phase() == Phase::Uninitialized {
        match read_as(m, id, "echo"@, Kind::Char) {
            Ok(ValueModel::Char(c)) => Ok(c),
            Ok(_) => Err(PropertyError::TypeMismatch),
            Err(x) => Err(x),
        }
    } else {
        Ok(s.spec_state().echo)
    };
    match echo {
        Err(x) => (Err(x), m),
        Ok(c) => if s.spec_state().action is Some {
            mask_result(m, id, c)
        } else {
            (Ok(()), m)
        },
    }
}

/// The state-update pass from entity `i` on, on store `m`: the result and
/// the store it leaves. Entities go in id order, which puts every parent
/// before its children (a parent's id is the smaller) but is not the tree's
/// pre-order once a subtree gains a child after a later sibling was created.
/// The first failing step ends the pass.
pub open spec fn pass_from(states: Seq<Option<StateSlot>>, m: StoreModel, i: int) -> (
    Result<(), PropertyError>,
    StoreModel,
)
    decreases states.len() - i,
{
    if i < 0 || i >= states.len() {
        (Ok(()), m)
    } else {
        match states[i] {
            None => pass_from(states, m, i + 1),
            Some(s) => {
                let (r, m2) = slot_step(s, Entity(i as u32), m);
                if r is Err {
                    (r, m2)
                } else {
                    pass_from(states, m2, i + 1)
                }
            },
        }
    }
}

/// `c` is `from` or one of its ancestors.
pub open spec fn on_path(t: TreeModel, from: Entity, c: Entity) -> bool
    decreases from.0,
{
    from == c || ((from.0 as int) < t.len() && t[from.0 as int].parent is Some
        && t[from.0 as int].parent->Some_0.0 < from.0 && on_path(t, t[from.0 as int].parent->Some_0, c))
}

/// The parent of a node on the path from `a` is on that path too.
pub proof fn lemma_on_path_parent(t: TreeModel, a: Entity, c: Entity, p: Entity)
    requires
        on_path(t, a, c),
        (c.0 as int) < t.len(),
        t[c.0 as int].parent == Some(p),
        p.0 < c.0,
    ensures
        on_path(t, a, p),
    decreases a.0,
{
    if a != c {
        let q = t[a.0 as int].parent->Some_0;
        lemma_on_path_parent(t, q, c, p);
    } else {
        assert(on_path(t, p, p));
    }
}

/// The key-down handler of a widget: it records the key on the state of `target`.
#[derive(Clone, Copy, Debug, PartialEq, Eq, Structural)]
pub struct KeyDownHandler {
    pub target: Entity,
}

/// The property store, the tree, and the state object and key handler of
/// each entity, indexed by entity id.
pub struct World {
    pub store: PropertyStore,
    pub tree: Tree,
    pub states: Vec<Option<StateSlot>>,
    pub handlers: Vec<Option<KeyDownHandler>>,
}

impl World {
    pub open spec fn wf(&self) -> bool {
        &&& self.store.wf()
        &&& self.store@.len() <= u32::MAX
        &&& self.tree.wf()
        &&& self.tree@.len() == self.store@.len()
        &&& self.states@.len() == self.store@.len()
        &&& self.handlers@.len() == self.store@.len()
        &&& forall|i: int|
            0 <= i < self.states@.len() ==> (#[trigger] self.states@[i] matches Some(s) ==> hooks_wf(
                s.spec_phase(),
                s.spec_hooks(),
            ))
    }

    /// An empty world.
    pub fn new() -> (r: World)
        ensures
            r.wf(),
            r.store@.len() == 0,
    {
        World { store: PropertyStore::new(), tree: Tree::new(), states: Vec::new(), handlers: Vec::new() }
    }

    /// Creates an entity with no properties, the last child of `parent`.
    pub fn create(&mut self, parent: Option<Entity>) -> (e: Entity)
        requires
            old(self).wf(),
            old(self).store@.len() < u32::MAX,
            parent matches Some(p) ==> is_live(old(self).store@, p),
        ensures
            final(self).wf(),
            e.0 == old(self).store@.len(),
            final(self).store@ == old(self).store@.push(RecordModel { live: true, props: Map::empty(), slots: 0 }),
            final(self).tree@ == grown(old(self).tree@, parent),
            final(self).states@ == old(self).states@.push(None),
            final(self).handlers@ == old(self).handlers@.push(None),
    {
        let e = self.store.create();
        let _ = self.tree.add(parent);
        self.states.push(None);
        self.handlers.push(None);
        proof {
            assert forall|i: int| 0 <= i < self.states@.len() implies (#[trigger] self.states@[i] matches Some(
                s,
            ) ==> hooks_wf(s.spec_phase(), s.spec_hooks())) by {
                if i < old(self).states@.len() {
                    assert(self.states@[i] == old(self).states@[i]);
                }
            }
        }
        e
    }

    /// Removes `e` from the store, with its state and handler; references to
    /// its properties dangle from now on.
    pub fn remove(&mut self, e: Entity)
        requires
            old(self).wf(),
        ensures
            final(self).wf(),
            final(self).store@ == crate::store::removed(old(self).store@, e),
            final(self).tree@ == old(self).tree@,
            (e.0 as int) < old(self).states@.len() ==> final(self).states@ == old(self).states@.update(e.0 as int, None)
                && final(self).handlers@ == old(self).handlers@.update(e.0 as int, None),
            (e.0 as int) >= old(self).states@.len() ==> final(self).states@ == old(self).states@
                && final(self).handlers@ == old(self).handlers@,
    {
        self.store.remove(e);
        let i = e.0 as usize;
        if i < self.states.len() {
            self.states.set(i, None);
            self.handlers.set(i, None);
        }
        proof {
            assert forall|k: int| 0 <= k < self.states@.len() implies (#[trigger] self.states@[k] matches Some(
                s,
            ) ==> hooks_wf(s.spec_phase(), s.spec_hooks())) by {
                if k != i {
                    assert(self.states@[k] == old(self).states@[k]);
                }
            }
        }
    }

    /// Sets property `name` of the existing entity `e` to the owned value `v`.
    pub fn put_value(&mut self, e: Entity, name: &str, v: Value)
        requires
            old(self).wf(),
            is_live(old(self).store@, e),
        ensures
            final(self).wf(),
            final(self).store@.len() == old(self).store@.len(),
            final(self).store@[e.0 as int].live,
            final(self).store@[e.0 as int].props == old(self).store@[e.0 as int].props.insert(name@, SlotModel::Owned(v@)),
            forall|k: int| 0 <= k < old(self).store@.len() && k != e.0 ==> #[trigger] final(self).store@[k] == old(self).store@[k],
            final(self).tree@ == old(self).tree@,
            final(self).states@ == old(self).states@,
            final(self).handlers@ == old(self).handlers@,
    {
        self.store.define(e, crate::password_box::key(name), Slot::Owned(v));
        assert(forall|k: int| 0 <= k < old(self).store@.len() && k != e.0 ==> #[trigger] self.store@[k] == old(self).store@[k]);
    }

    /// Makes property `name` of the existing entity `e` a reference to
    /// property `source_name` of `source`.
    pub fn share(&mut self, e: Entity, name: &str, source: Entity, source_name: &str)
        requires
            old(self).wf(),
            is_live(old(self).store@, e),
        ensures
            final(self).wf(),
            final(self).store@.len() == old(self).store@.len(),
            final(self).store@[e.0 as int].live,
            final(self).store@[e.0 as int].props == old(self).store@[e.0 as int].props.insert(name@, SlotModel::Shared(source, source_name@)),
            forall|k: int| 0 <= k < old(self).store@.len() && k != e.0 ==> #[trigger] final(self).store@[k] == old(self).store@[k],
            final(self).tree@ == old(self).tree@,
            final(self).states@ == old(self).states@,
            final(self).handlers@ == old(self).handlers@,
    {
        self.store.define(
            e,
            crate::password_box::key(name),
            Slot::Shared(source, crate::password_box::key(source_name)),
        );
        assert(forall|k: int| 0 <= k < old(self).store@.len() && k != e.0 ==> #[trigger] self.store@[k] == old(self).store@[k]);
    }

    /// Gives `e` a fresh, uninitialized state object and a key-down handler
    /// that records keys on it.
    pub fn attach_state(&mut self, e: Entity, state: PasswordBoxState)
        requires
            old(self).wf(),
            (e.0 as int) < old(self).store@.len(),
        ensures
            final(self).wf(),
            final(self).store@ == old(self).store@,
            final(self).tree@ == old(self).tree@,
            final(self).states@.len() == old(self).states@.len(),
            final(self).states@[e.0 as int] matches Some(s) && s.spec_phase() == Phase::Uninitialized
                && s.spec_state() == state,
            forall|k: int| 0 <= k < old(self).states@.len() && k != e.0 ==> #[trigger] final(self).states@[k]
                == old(self).states@[k],
            final(self).handlers@ == old(self).handlers@.update(
                e.0 as int,
                Some(KeyDownHandler { target: e }),
            ),
    {
        let i = e.0 as usize;
        self.states.set(i, Some(StateSlot { phase: Phase::Uninitialized, hooks: Ghost(Seq::empty()), state }));
        self.handlers.set(i, Some(KeyDownHandler { target: e }));
        proof {
            assert forall|k: int| 0 <= k < self.states@.len() implies (#[trigger] self.states@[k] matches Some(
                s,
            ) ==> hooks_wf(s.spec_phase(), s.spec_hooks())) by {
                if k != i {
                    assert(self.states@[k] == old(self).states@[k]);
                }
            }
        }
    }

    /// The state object of `e`, if it has one.
    pub fn state(&self, e: Entity) -> (r: Option<&PasswordBoxState>)
        requires
            self.wf(),
        ensures
            (e.0 as int) < self.states@.len() && self.states@[e.0 as int] is Some ==> r == Some(
                &self.states@[e.0 as int]->Some_0.spec_state(),
            ),
            !((e.0 as int) < self.states@.len() && self.states@[e.0 as int] is Some) ==> r is None,
    {
        let i = e.0 as usize;
        if i < self.states.len() {
            match &self.states[i] {
                Some(s) => Some(&s.state),
                None => None,
            }
        } else {
            None
        }
    }

    /// Delivers a key press to `target` and bubbles it up through its
    /// ancestors: each handler on the way records the key as the pending
    /// action of its widget's state, and no other state changes. No handler consumes a key, so the
    /// result, whether one did, is `false`. Neither the store nor the tree
    /// changes.
    pub fn dispatch_key_down(&mut self, target: Entity, event: KeyEvent) -> (r: bool)
        requires
            old(self).wf(),
        ensures
            final(self).wf(),
            !r,
            final(self).store@ == old(self).store@,
            final(self).tree@ == old(self).tree@,
            final(self).handlers@ == old(self).handlers@,
            final(self).states@.len() == old(self).states@.len(),
            forall|k: int| 0 <= k < old(self).states@.len() ==> (#[trigger] final(self).states@[k]) is Some
                == old(self).states@[k] is Some,
            forall|k: int| 0 <= k < old(self).states@.len() && (#[trigger] final(self).states@[k]) is Some ==> {
                let o = old(self).states@[k]->Some_0;
                let f = final(self).states@[k]->Some_0;
                &&& f.spec_phase() == o.spec_phase()
                &&& f.spec_hooks() == o.spec_hooks()
                &&& f.spec_state().echo == o.spec_state().echo
                &&& (f.spec_state().action == o.spec_state().action || f.spec_state().action == Some(PasswordAction::Key(event)))
            },
            forall|k: int| 0 <= k < old(self).states@.len() && #[trigger] final(self).states@[k] != old(self).states@[k]
                ==> exists|c: Entity| on_path(old(self).tree@, target, c) && (c.0 as int) < old(self).handlers@.len()
                && (#[trigger] old(self).handlers@[c.0 as int]) is Some && old(self).handlers@[c.0 as int]->Some_0.target.0 == k,
            (target.0 as int) < old(self).handlers@.len() ==> (old(self).handlers@[target.0 as int] matches Some(h)
                ==> ((h.target.0 as int) < old(self).states@.len() && old(self).states@[h.target.0 as int] is Some
                ==> final(self).states@[h.target.0 as int]->Some_0.spec_state().action == Some(PasswordAction::Key(event)))),
    {
        let mut cur: Option<Entity> = Some(target);
        let mut consumed = false;
        let ghost first = true;
        while cur.is_some() && !consumed
            invariant
                self.wf(),
                !consumed,
                self.store@ == old(self).store@,
                self.tree@ == old(self).tree@,
                self.handlers@ == old(self).handlers@,
                self.states@.len() == old(self).states@.len(),
                forall|k: int| 0 <= k < old(self).states@.len() ==> (#[trigger] self.states@[k]) is Some
                    == old(self).states@[k] is Some,
                forall|k: int| 0 <= k < old(self).states@.len() && (#[trigger] self.states@[k]) is Some ==> {
                    let o = old(self).states@[k]->Some_0;
                    let f = self.states@[k]->Some_0;
                    &&& f.spec_phase() == o.spec_phase()
                    &&& f.spec_hooks() == o.spec_hooks()
                    &&& f.spec_state().echo == o.spec_state().echo
                    &&& (f.spec_state().action == o.spec_state().action || f.spec_state().action == Some(PasswordAction::Key(event)))
                },
                forall|k: int| 0 <= k < old(self).states@.len() && #[trigger] self.states@[k] != old(self).states@[k]
                    ==> exists|c: Entity| on_path(old(self).tree@, target, c) && (c.0 as int) < old(self).handlers@.len()
                    && (#[trigger] old(self).handlers@[c.0 as int]) is Some && old(self).handlers@[c.0 as int]->Some_0.target.0 == k,
                cur matches Some(c) ==> on_path(old(self).tree@, target, c),
                cur matches Some(c) ==> (c.0 as int) < self.tree@.len() || first,
                first ==> cur == Some(target),
                !first ==> ((target.0 as int) < old(self).handlers@.len() ==> (old(self).handlers@[target.0 as int] matches Some(h)
                    ==> ((h.target.0 as int) < old(self).states@.len() && old(self).states@[h.target.0 as int] is Some
                    ==> self.states@[h.target.0 as int]->Some_0.spec_state().action == Some(PasswordAction::Key(event))))),
            decreases
                match cur { Some(c) => c.0 as int + 2, None => 0int } + if first { 1int } else { 0int },
        {
            let c = cur.unwrap();
            if (c.0 as usize) >= self.tree.len() {
                cur = None;
                proof { first = false; }
                continue;
            }
            match self.handlers[c.0 as usize] {
                Some(h) => {
                    let t = h.target.0 as usize;
                    if t < self.states.len() {
                        let mut slot: Option<StateSlot> = None;
                        self.states.set_and_swap(t, &mut slot);
                        match slot {
                            Some(mut s) => {
                                s.state.action(PasswordAction::Key(event));
                                slot = Some(s);
                            },
                            None => {},
                        }
                        self.states.set_and_swap(t, &mut slot);
                        proof {
                            assert(on_path(old(self).tree@, target, c));
                            assert forall|k: int| 0 <= k < self.states@.len() implies (#[trigger] self.states@[k] matches Some(
                                s,
                            ) ==> hooks_wf(s.spec_phase(), s.spec_hooks())) by {
                                if k != t {
                                }
                            }
                        }
                    }
                },
                None => {},
            }
            cur = self.tree.parent(c);
            proof {
                first = false;
                if cur is Some {
                    lemma_on_path_parent(old(self).tree@, target, c, cur->Some_0);
                }
            }
        }
        consumed
    }

    /// The state-update pass of one tick, exactly as `pass_from` states it: a
    /// state object that was never initialized gets `init`, and then every
    /// state object gets `update`. States are visited in id order; as every
    /// parent has a smaller id than its children, each parent goes before its
    /// children, though an entity added later to an earlier subtree comes
    /// after the subtrees that follow it. The first failure stops the pass.
    /// Layout and rendering read the store after this pass; they leave the
    /// tree as it is, and so does this pass.
    pub fn tick(&mut self) -> (r: Result<(), PropertyError>)
        requires
            old(self).wf(),
        ensures
            final(self).wf(),
            final(self).tree@ == old(self).tree@,
            final(self).handlers@ == old(self).handlers@,
            final(self).store@.len() == old(self).store@.len(),
            (r, final(self).store@) == pass_from(old(self).states@, old(self).store@, 0),
            final(self).states@.len() == old(self).states@.len(),
            forall|k: int| 0 <= k < old(self).states@.len() ==> (#[trigger] final(self).states@[k]) is Some
                == old(self).states@[k] is Some,
            forall|k: int| 0 <= k < old(self).states@.len() && old(self).states@[k] is Some ==> old(
                self,
            ).states@[k]->Some_0.spec_hooks().is_prefix_of((#[trigger] final(self).states@[k])->Some_0.spec_hooks()),
            r is Ok ==> forall|k: int| 0 <= k < final(self).states@.len() ==> (#[trigger] final(self).states@[k] matches Some(s)
                ==> s.spec_phase() == Phase::Active && s.spec_state().action is None && s.spec_hooks().last() == Hook::Update),
    {
        let n = self.states.len();
        let mut i: usize = 0;
        while i < n
            invariant
                self.wf(),
                n == self.states@.len(),
                i <= n,
                self.tree@ == old(self).tree@,
                self.handlers@ == old(self).handlers@,
                self.store@.len() == old(self).store@.len(),
                pass_from(old(self).states@, old(self).store@, 0) == pass_from(old(self).states@, self.store@, i as int),
                self.states@.len() == old(self).states@.len(),
                forall|k: int| 0 <= k < n ==> (#[trigger] self.states@[k]) is Some
                    == old(self).states@[k] is Some,
                forall|k: int| 0 <= k < n && old(self).states@[k] is Some ==> old(
                    self,
                ).states@[k]->Some_0.spec_hooks().is_prefix_of((#[trigger] self.states@[k])->Some_0.spec_hooks()),
                forall|k: int| i <= k < n ==> #[trigger] self.states@[k] == old(self).states@[k],
                forall|k: int| 0 <= k < i ==> (#[trigger] self.states@[k] matches Some(s)
                    ==> s.spec_phase() == Phase::Active && s.spec_state().action is None && s.spec_hooks().last() == Hook::Update),
            decreases n - i,
        {
            let ghost before = self.states@;
            let mut slot: Option<StateSlot> = None;
            self.states.set_and_swap(i, &mut slot);
            let mut failed: Option<PropertyError> = None;
            match slot {
                None => {},
                Some(mut s) => {
                    let id = Entity(i as u32);
                    let ghost h0 = s.spec_hooks();
                    let mut ready = true;
                    if s.phase == Phase::Uninitialized {
                        match s.state.init(&self.store, id) {
                            Ok(()) => {
                                s.phase = Phase::Active;
                                s.hooks = Ghost(s.hooks@.push(Hook::Init));
                            },
                            Err(x) => {
                                failed = Some(x);
                                ready = false;
                            },
                        }
                    }
                    if ready {
                        match s.state.update(&mut self.store, id) {
                            Ok(()) => {},
                            Err(x) => {
                                failed = Some(x);
                            },
                        }
                        s.hooks = Ghost(s.hooks@.push(Hook::Update));
                    }
                    proof {
                        assert(h0.is_prefix_of(s.spec_hooks()));
                        assert(hooks_wf(s.spec_phase(), s.spec_hooks()));
                    }
                    slot = Some(s);
                },
            }
            self.states.set_and_swap(i, &mut slot);
            proof {
                assert forall|k: int| 0 <= k < self.states@.len() implies (#[trigger] self.states@[k] matches Some(
                    s,
                ) ==> hooks_wf(s.spec_phase(), s.spec_hooks())) by {
                    if k != i {
                        assert(self.states@[k] == before[k]);
                    }
                }
                assert forall|k: int| 0 <= k < n && old(self).states@[k] is Some implies old(
                    self,
                ).states@[k]->Some_0.spec_hooks().is_prefix_of((#[trigger] self.states@[k])->Some_0.spec_hooks()) by {
                    if k != i {
                        assert(self.states@[k] == before[k]);
                    }
                }
            }
            match failed {
                Some(x) => {
                    return Err(x);
                },
                None => {},
            }
            i = i + 1;
        }
        Ok(())
    }
}


/// In a well-formed world, each state object has had `init` at most once,
/// and it came before every `update` it has had.
pub proof fn lemma_init_once_first(w: &World, e: Entity)
    requires
        w.wf(),
        (e.0 as int) < w.states@.len(),
        w.states@[e.0 as int] is Some,
    ensures
        ({
            let hooks = w.states@[e.0 as int]->Some_0.spec_hooks();
            &&& forall|k: int| 0 <= k < hooks.len() ==> (#[trigger] hooks[k] == Hook::Init) == (k == 0)
            &&& (w.states@[e.0 as int]->Some_0.spec_phase() == Phase::Active) == (hooks.len() > 0)
        }),
{
    let hooks = w.states@[e.0 as int]->Some_0.spec_hooks();
    assert(hooks_wf(w.states@[e.0 as int]->Some_0.spec_phase(), hooks));
    assert forall|k: int| 0 <= k < hooks.len() implies (#[trigger] hooks[k] == Hook::Init) == (k == 0) by {
        if k > 0 {
            assert(hooks[k] == Hook::Update);
        }
    }
}

} // verus!
