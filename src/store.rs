use vstd::prelude::*;

verus! {

/// Opaque identity of a widget: the handle into the property store and the tree.
#[derive(Clone, Copy, Debug, PartialEq, Eq, Structural)]
pub struct Entity(pub u32);

/// The type tag of a property value.
#[derive(Clone, Copy, Debug, PartialEq, Eq, Structural)]
pub enum Kind {
    Bool,
    Char,
    Int,
    Text,
    Entity,
    Names,
}

/// A typed property value.
#[derive(Debug)]
pub enum Value {
    Bool(bool),
    Char(char),
    Int(i64),
    Text(Vec<char>),
    Entity(Entity),
    Names(Vec<String>),
}

/// Mathematical model of a property value.
pub enum ValueModel {
    Bool(bool),
    Char(char),
    Int(int),
    Text(Seq<char>),
    Entity(Entity),
    Names(Seq<Seq<char>>),
}

pub open spec fn kind_of(v: ValueModel) -> Kind {
    match v {
        ValueModel::Bool(_) => Kind::Bool,
        ValueModel::Char(_) => Kind::Char,
        ValueModel::Int(_) => Kind::Int,
        ValueModel::Text(_) => Kind::Text,
        ValueModel::Entity(_) => Kind::Entity,
        ValueModel::Names(_) => Kind::Names,
    }
}

impl View for Value {
    type V = ValueModel;

    open spec fn view(&self) -> ValueModel {
        match self {
            Value::Bool(b) => ValueModel::Bool(*b),
            Value::Char(c) => ValueModel::Char(*c),
            Value::Int(i) => ValueModel::Int(*i as int),
            Value::Text(t) => ValueModel::Text(t@),
            Value::Entity(e) => ValueModel::Entity(*e),
            Value::Names(ns) => ValueModel::Names(names_view(ns@)),
        }
    }
}

/// The names of a list, as sequences of characters.
pub open spec fn names_view(ns: Seq<String>) -> Seq<Seq<char>> {
    ns.map_values(|n: String| n@)
}

/// Copies a list of names one by one.
pub fn copy_names(ns: &Vec<String>) -> (r: Vec<String>)
    ensures
        names_view(r@) == names_view(ns@),
{
    let mut r: Vec<String> = Vec::new();
    let mut i: usize = 0;
    while i < ns.len()
        invariant
            i <= ns@.len(),
            names_view(r@) =~= names_view(ns@.subrange(0, i as int)),
        decreases ns@.len() - i,
    {
        let n = ns[i].clone();
        let ghost r0 = r@;
        r.push(n);
        assert(r@ == r0.push(n));
        assert(names_view(r@) =~= names_view(ns@.subrange(0, i as int)).push(ns@[i as int]@));
        i = i + 1;
        assert(ns@.subrange(0, i as int) =~= ns@.subrange(0, i - 1).push(ns@[i - 1]));
        assert(names_view(r@) =~= names_view(ns@.subrange(0, i as int)));
    }
    assert(ns@.subrange(0, i as int) =~= ns@);
    r
}

/// Copies a text value character by character.
pub fn copy_text(t: &Vec<char>) -> (r: Vec<char>)
    ensures
        r@ == t@,
{
    let mut r: Vec<char> = Vec::new();
    let mut i: usize = 0;
    while i < t.len()
        invariant
            i <= t@.len(),
            r@ == t@.subrange(0, i as int),
        decreases t@.len() - i,
    {
        r.push(t[i]);
        i = i + 1;
    }
    assert(r@ =~= t@);
    r
}

impl Value {
    /// The type tag of this value.
    pub fn kind(&self) -> (k: Kind)
        ensures
            k == kind_of(self@),
    {
        match self {
            Value::Bool(_) => Kind::Bool,
            Value::Char(_) => Kind::Char,
            Value::Int(_) => Kind::Int,
            Value::Text(_) => Kind::Text,
            Value::Entity(_) => Kind::Entity,
            Value::Names(_) => Kind::Names,
        }
    }

    /// A copy of this value that shares nothing with it.
    pub fn duplicate(&self) -> (r: Value)
        ensures
            r@ == self@,
    {
        match self {
            Value::Bool(b) => Value::Bool(*b),
            Value::Char(c) => Value::Char(*c),
            Value::Int(i) => Value::Int(*i),
            Value::Text(t) => Value::Text(copy_text(t)),
            Value::Entity(e) => Value::Entity(*e),
            Value::Names(ns) => Value::Names(copy_names(ns)),
        }
    }
}


/// The failures of a property access.
#[derive(Clone, Copy, Debug, PartialEq, Eq, Structural)]
pub enum PropertyError {
    /// The entity holds no property of that name.
    PropertyNotFound,
    /// The property holds a value of another type than the one asked for.
    TypeMismatch,
    /// The entity, or the entity that a reference names, does not exist.
    DanglingReference,
}

/// How an entity holds one property: its own value, or a reference to the
/// property `name` of an earlier entity.
#[derive(Debug)]
pub enum Slot {
    Owned(Value),
    Shared(Entity, String),
}

/// Mathematical model of a slot.
pub enum SlotModel {
    Owned(ValueModel),
    Shared(Entity, Seq<char>),
}

impl View for Slot {
    type V = SlotModel;

    open spec fn view(&self) -> SlotModel {
        match self {
            Slot::Owned(v) => SlotModel::Owned(v@),
            Slot::Shared(e, n) => SlotModel::Shared(*e, n@),
        }
    }
}

/// One named property of an entity.
#[derive(Debug)]
pub struct Property {
    pub name: String,
    pub slot: Slot,
}

/// The properties of one entity, and whether the entity still exists.
#[derive(Debug)]
pub struct Record {
    pub live: bool,
    pub props: Vec<Property>,
}

/// Mathematical model of an entity's record: a map from property names to slots.
pub struct RecordModel {
    pub live: bool,
    pub props: Map<Seq<char>, SlotModel>,
    /// How many property slots the record holds.
    pub slots: nat,
}

pub open spec fn has_name(props: Seq<Property>, name: Seq<char>) -> bool {
    exists|i: int| 0 <= i < props.len() && (#[trigger] props[i]).name@ == name
}

pub open spec fn props_map(props: Seq<Property>) -> Map<Seq<char>, SlotModel> {
    Map::new(
        |n: Seq<char>| has_name(props, n),
        |n: Seq<char>| props[choose|i: int| 0 <= i < props.len() && (#[trigger] props[i]).name@ == n].slot@,
    )
}

pub open spec fn names_unique(props: Seq<Property>) -> bool {
    forall|i: int, j: int|
        0 <= i < props.len() && 0 <= j < props.len() && i != j ==> (#[trigger] props[i]).name@
            != (#[trigger] props[j]).name@
}

impl View for Record {
    type V = RecordModel;

    open spec fn view(&self) -> RecordModel {
        RecordModel { live: self.live, props: props_map(self.props@), slots: self.props@.len() }
    }
}

/// The sparse table from entities to their named, typed properties.
pub struct PropertyStore {
    records: Vec<Record>,
}

/// The store as a sequence of records, indexed by entity id.
pub type StoreModel = Seq<RecordModel>;

pub open spec fn is_live(m: StoreModel, e: Entity) -> bool {
    (e.0 as int) < m.len() && m[e.0 as int].live
}

/// Follows references from property `name` of `e`, at most `steps` of them,
/// to the entity and name that own the value. A reference to an entity that
/// does not exist dangles, and so does a chain that needs more steps.
pub open spec fn owner_within(m: StoreModel, e: Entity, name: Seq<char>, steps: nat) -> Result<
    (Entity, Seq<char>),
    PropertyError,
>
    decreases steps,
{
    if !is_live(m, e) {
        Err(PropertyError::DanglingReference)
    } else if !m[e.0 as int].props.contains_key(name) {
        Err(PropertyError::PropertyNotFound)
    } else {
        match m[e.0 as int].props[name] {
            SlotModel::Owned(_) => Ok((e, name)),
            SlotModel::Shared(t, n) => if steps == 0 {
                Err(PropertyError::DanglingReference)
            } else {
                owner_within(m, t, n, (steps - 1) as nat)
            },
        }
    }
}

/// The number of property slots in the store.
pub open spec fn total_slots(m: StoreModel) -> nat
    decreases m.len(),
{
    if m.len() == 0 {
        0
    } else {
        total_slots(m.drop_last()) + m.last().slots
    }
}

/// How many references a read follows at most: one more than the store has
/// property slots (or the largest `usize`, if that is less). A chain of
/// references that visits no slot twice is shorter than that, so only a
/// chain that runs in a cycle reaches the bound.
pub open spec fn chain_bound(m: StoreModel) -> nat {
    if total_slots(m) + 1 < usize::MAX {
        total_slots(m) + 1
    } else {
        usize::MAX as nat
    }
}

/// The owner of property `name` of `e`: references are followed to any
/// existing entity, up to `chain_bound` of them; a cycle of references reads
/// as dangling.
pub open spec fn owner(m: StoreModel, e: Entity, name: Seq<char>) -> Result<
    (Entity, Seq<char>),
    PropertyError,
> {
    owner_within(m, e, name, chain_bound(m))
}

/// Changing one record without changing its slot count keeps the total.
pub proof fn lemma_total_slots_update(m: StoreModel, i: int, r: RecordModel)
    requires
        0 <= i < m.len(),
        r.slots == m[i].slots,
    ensures
        total_slots(m.update(i, r)) == total_slots(m),
    decreases m.len(),
{
    let m2 = m.update(i, r);
    if i < m.len() - 1 {
        assert(m2.drop_last() =~= m.drop_last().update(i, r));
        lemma_total_slots_update(m.drop_last(), i, r);
    } else {
        assert(m2.drop_last() =~= m.drop_last());
    }
}

/// Entity `e` exists and holds slot `s` under `name`.
pub open spec fn holds(m: StoreModel, e: Entity, name: Seq<char>, s: SlotModel) -> bool {
    &&& is_live(m, e)
    &&& m[e.0 as int].props.contains_key(name)
    &&& m[e.0 as int].props[name] == s
}

/// The value that property `name` of `e` reads as.
pub open spec fn read(m: StoreModel, e: Entity, name: Seq<char>) -> Result<ValueModel, PropertyError> {
    match owner(m, e, name) {
        Ok((o, n)) => match m[o.0 as int].props[n] {
            SlotModel::Owned(v) => Ok(v),
            SlotModel::Shared(_, _) => Err(PropertyError::PropertyNotFound),
        },
        Err(x) => Err(x),
    }
}

/// A read that asks for a value of type `kind`.
pub open spec fn read_as(m: StoreModel, e: Entity, name: Seq<char>, kind: Kind) -> Result<
    ValueModel,
    PropertyError,
> {
    match read(m, e, name) {
        Ok(v) => if kind_of(v) == kind {
            Ok(v)
        } else {
            Err(PropertyError::TypeMismatch)
        },
        Err(x) => Err(x),
    }
}

/// The store with slot `name` of entity `e` set to `s`.
pub open spec fn put(m: StoreModel, e: Entity, name: Seq<char>, s: SlotModel) -> StoreModel {
    m.update(
        e.0 as int,
        RecordModel {
            live: m[e.0 as int].live,
            props: m[e.0 as int].props.insert(name, s),
            slots: if m[e.0 as int].props.contains_key(name) {
                m[e.0 as int].slots
            } else {
                m[e.0 as int].slots + 1
            },
        },
    )
}

/// What writing `v` to property `name` of `e` does: a property that `e` does not
/// hold yet becomes an owned one; otherwise the write goes to the owner of the
/// value, which keeps its type.
pub open spec fn assign(m: StoreModel, e: Entity, name: Seq<char>, v: ValueModel) -> Result<
    StoreModel,
    PropertyError,
> {
    if !is_live(m, e) {
        Err(PropertyError::DanglingReference)
    } else if !m[e.0 as int].props.contains_key(name) {
        Ok(put(m, e, name, SlotModel::Owned(v)))
    } else {
        match read(m, e, name) {
            Ok(old_v) => if kind_of(old_v) == kind_of(v) {
                Ok(put(m, owner(m, e, name)->Ok_0.0, owner(m, e, name)->Ok_0.1, SlotModel::Owned(v)))
            } else {
                Err(PropertyError::TypeMismatch)
            },
            Err(x) => Err(x),
        }
    }
}

/// The store after `e` is removed: it no longer exists and holds nothing.
pub open spec fn removed(m: StoreModel, e: Entity) -> StoreModel {
    if (e.0 as int) < m.len() {
        m.update(e.0 as int, RecordModel { live: false, props: Map::empty(), slots: 0 })
    } else {
        m
    }
}

/// Where a reference chain ends, the owner holds its value itself.
pub proof fn lemma_owner_owned(m: StoreModel, e: Entity, name: Seq<char>, steps: nat)
    ensures
        owner_within(m, e, name, steps) is Ok ==> {
            let (o, n) = owner_within(m, e, name, steps)->Ok_0;
            &&& is_live(m, o)
            &&& m[o.0 as int].props.contains_key(n)
            &&& m[o.0 as int].props[n] is Owned
        },
    decreases steps,
{
    if is_live(m, e) && m[e.0 as int].props.contains_key(name) {
        match m[e.0 as int].props[name] {
            SlotModel::Owned(_) => {},
            SlotModel::Shared(t, n) => if steps > 0 {
                lemma_owner_owned(m, t, n, (steps - 1) as nat);
            },
        }
    }
}

proof fn lemma_props_map_at(props: Seq<Property>, i: int)
    requires
        names_unique(props),
        0 <= i < props.len(),
    ensures
        props_map(props).contains_key(props[i].name@),
        props_map(props)[props[i].name@] == props[i].slot@,
{
    let n = props[i].name@;
    assert(has_name(props, n));
    let j = choose|j: int| 0 <= j < props.len() && (#[trigger] props[j]).name@ == n;
    assert(j == i);
}

proof fn lemma_props_map_update(props: Seq<Property>, i: int, p: Property)
    requires
        names_unique(props),
        0 <= i < props.len(),
        p.name@ == props[i].name@,
    ensures
        names_unique(props.update(i, p)),
        props_map(props.update(i, p)) == props_map(props).insert(p.name@, p.slot@),
{
    let q = props.update(i, p);
    assert forall|a: int, b: int|
        0 <= a < q.len() && 0 <= b < q.len() && a != b implies (#[trigger] q[a]).name@
            != (#[trigger] q[b]).name@ by {
        assert(props[a].name@ != props[b].name@);
    }
    lemma_props_map_at(q, i);
    assert forall|n: Seq<char>| n != p.name@ implies has_name(q, n) == has_name(props, n) && (
    has_name(props, n) ==> props_map(q)[n] == props_map(props)[n]) by {
        if has_name(props, n) {
            let j = choose|j: int| 0 <= j < props.len() && (#[trigger] props[j]).name@ == n;
            assert(q[j].name@ == n);
            lemma_props_map_at(props, j);
            lemma_props_map_at(q, j);
        }
        if has_name(q, n) {
            let j = choose|j: int| 0 <= j < q.len() && (#[trigger] q[j]).name@ == n;
            assert(props[j].name@ == n);
        }
    }
    assert(props_map(q) =~= props_map(props).insert(p.name@, p.slot@));
}

proof fn lemma_props_map_push(props: Seq<Property>, p: Property)
    requires
        names_unique(props),
        !has_name(props, p.name@),
    ensures
        names_unique(props.push(p)),
        props_map(props.push(p)) == props_map(props).insert(p.name@, p.slot@),
{
    let q = props.push(p);
    assert forall|a: int, b: int|
        0 <= a < q.len() && 0 <= b < q.len() && a != b implies (#[trigger] q[a]).name@
            != (#[trigger] q[b]).name@ by {
        if a < props.len() && b < props.len() {
            assert(props[a].name@ != props[b].name@);
        } else if a < props.len() {
            assert(props[a].name@ == q[a].name@);
        } else {
            assert(props[b].name@ == q[b].name@);
        }
    }
    lemma_props_map_at(q, props.len() as int);
    assert forall|n: Seq<char>| n != p.name@ implies has_name(q, n) == has_name(props, n) && (
    has_name(props, n) ==> props_map(q)[n] == props_map(props)[n]) by {
        if has_name(props, n) {
            let j = choose|j: int| 0 <= j < props.len() && (#[trigger] props[j]).name@ == n;
            assert(q[j].name@ == n);
            lemma_props_map_at(props, j);
            lemma_props_map_at(q, j);
        }
        if has_name(q, n) {
            let j = choose|j: int| 0 <= j < q.len() && (#[trigger] q[j]).name@ == n;
            assert(props[j].name@ == n);
        }
    }
    assert(props_map(q) =~= props_map(props).insert(p.name@, p.slot@));
}

/// The index of the property called `name`, if there is one.
fn find(props: &Vec<Property>, name: &String) -> (r: Option<usize>)
    ensures
        r matches Some(i) ==> i < props@.len() && props@[i as int].name@ == name@,
        r is None ==> !has_name(props@, name@),
{
    let mut i: usize = 0;
    while i < props.len()
        invariant
            i <= props@.len(),
            forall|j: int| 0 <= j < i ==> (#[trigger] props@[j]).name@ != name@,
        decreases props@.len() - i,
    {
        if props[i].name == *name {
            return Some(i);
        }
        i = i + 1;
    }
    None
}


impl View for PropertyStore {
    type V = StoreModel;

    closed spec fn view(&self) -> StoreModel {
        Seq::new(self.records@.len(), |i: int| self.records@[i]@)
    }
}

impl PropertyStore {
    /// Every entity holds each property name at most once.
    pub closed spec fn wf(&self) -> bool {
        forall|i: int| 0 <= i < self.records@.len() ==> names_unique(#[trigger] self.records@[i].props@)
    }

    /// An empty store.
    pub fn new() -> (r: PropertyStore)
        ensures
            r.wf(),
            r@ == Seq::<RecordModel>::empty(),
    {
        let r = PropertyStore { records: Vec::new() };
        assert(r@ =~= Seq::<RecordModel>::empty());
        r
    }

    /// The number of entities ever created.
    pub fn len(&self) -> (n: usize)
        ensures
            n == self@.len(),
    {
        self.records.len()
    }

    /// Whether `e` exists.
    pub fn contains(&self, e: Entity) -> (r: bool)
        ensures
            r == is_live(self@, e),
    {
        (e.0 as usize) < self.records.len() && self.records[e.0 as usize].live
    }

    /// Creates a new entity with no properties; its id is the number of
    /// entities created before it.
    pub fn create(&mut self) -> (e: Entity)
        requires
            old(self).wf(),
            old(self)@.len() < u32::MAX,
        ensures
            final(self).wf(),
            e.0 == old(self)@.len(),
            final(self)@ == old(self)@.push(RecordModel { live: true, props: Map::empty(), slots: 0 }),
    {
        let e = Entity(self.records.len() as u32);
        self.records.push(Record { live: true, props: Vec::new() });
        let ghost empty = Seq::<Property>::empty();
        assert(props_map(empty) =~= Map::empty());
        assert(self.records@.last().props@ =~= empty);
        assert(self@ =~= old(self)@.push(RecordModel { live: true, props: Map::empty(), slots: 0 }));
        e
    }

    /// Removes `e`: it no longer exists, and references to it dangle.
    pub fn remove(&mut self, e: Entity)
        requires
            old(self).wf(),
        ensures
            final(self).wf(),
            final(self)@ == removed(old(self)@, e),
    {
        let i = e.0 as usize;
        if i < self.records.len() {
            self.records.set(i, Record { live: false, props: Vec::new() });
            let ghost empty = Seq::<Property>::empty();
            assert(props_map(empty) =~= Map::empty());
            assert(self.records@[i as int].props@ =~= empty);
            assert(self@ =~= removed(old(self)@, e));
        } else {
            assert(self@ =~= removed(old(self)@, e));
        }
    }

    /// Sets slot `name` of the existing entity `e` to `slot`, whatever it held.
    pub fn define(&mut self, e: Entity, name: String, slot: Slot)
        requires
            old(self).wf(),
            is_live(old(self)@, e),
        ensures
            final(self).wf(),
            final(self)@ == put(old(self)@, e, name@, slot@),
    {
        let i = e.0 as usize;
        let ghost old_props = self.records@[i as int].props@;
        let ghost p = Property { name, slot };
        proof {
            assert(names_unique(old_props));
        }
        let mut rec = Record { live: true, props: Vec::new() };
        self.records.set_and_swap(i, &mut rec);
        match find(&rec.props, &name) {
            Some(j) => {
                proof {
                    lemma_props_map_update(old_props, j as int, p);
                }
                rec.props.set(j, Property { name, slot });
            },
            None => {
                proof {
                    lemma_props_map_push(old_props, p);
                }
                rec.props.push(Property { name, slot });
            },
        }
        self.records.set_and_swap(i, &mut rec);
        assert(self@ =~= put(old(self)@, e, p.name@, p.slot@));
    }

    /// `chain_bound` of the store.
    fn chain_steps(&self) -> (n: usize)
        ensures
            n == chain_bound(self@),
    {
        let mut steps: usize = 1;
        let mut i: usize = 0;
        while i < self.records.len()
            invariant
                i <= self@.len(),
                steps as nat == (if total_slots(self@.subrange(0, i as int)) + 1 < usize::MAX {
                    total_slots(self@.subrange(0, i as int)) + 1
                } else {
                    usize::MAX as nat
                }),
            decreases self@.len() - i,
        {
            let l = self.records[i].props.len();
            proof {
                assert(self@.subrange(0, i + 1).drop_last() =~= self@.subrange(0, i as int));
                assert(self@[i as int].slots == l);
            }
            if steps <= usize::MAX - l {
                steps = steps + l;
            } else {
                steps = usize::MAX;
            }
            i = i + 1;
        }
        assert(self@.subrange(0, i as int) =~= self@);
        steps
    }

    /// Follows references from property `name` of `e` to the record index and
    /// property index that hold its value.
    fn locate(&self, e: Entity, name: &String) -> (r: Result<(Entity, usize), PropertyError>)
        requires
            self.wf(),
        ensures
            r matches Ok((o, pi)) ==> {
                &&& (o.0 as int) < self.records@.len()
                &&& pi < self.records@[o.0 as int].props@.len()
                &&& self.records@[o.0 as int].props@[pi as int].slot is Owned
                &&& owner(self@, e, name@) == Ok::<(Entity, Seq<char>), PropertyError>(
                    (o, self.records@[o.0 as int].props@[pi as int].name@),
                )
            },
            r matches Err(x) ==> owner(self@, e, name@) == Err::<(Entity, Seq<char>), PropertyError>(x),
    {
        let mut cur: Entity = e;
        let mut cur_name: &String = name;
        let mut steps: usize = self.chain_steps();
        loop
            invariant
                self.wf(),
                owner(self@, e, name@) == owner_within(self@, cur, cur_name@, steps as nat),
            decreases steps,
        {
            let ci = cur.0 as usize;
            if ci >= self.records.len() || !self.records[ci].live {
                return Err(PropertyError::DanglingReference);
            }
            let props = &self.records[ci].props;
            match find(props, cur_name) {
                None => {
                    proof {
                        assert(!self@[ci as int].props.contains_key(cur_name@));
                    }
                    return Err(PropertyError::PropertyNotFound);
                },
                Some(i) => {
                    proof {
                        assert(names_unique(props@));
                        lemma_props_map_at(props@, i as int);
                    }
                    match &props[i].slot {
                        Slot::Owned(_) => {
                            return Ok((cur, i));
                        },
                        Slot::Shared(t, n) => {
                            if steps == 0 {
                                return Err(PropertyError::DanglingReference);
                            }
                            cur = *t;
                            cur_name = n;
                            steps = steps - 1;
                        },
                    }
                },
            }
        }
    }

    /// The value of property `name` of `e`, following references, asked for as
    /// a value of type `kind`.
    pub fn get(&self, e: Entity, name: &String, kind: Kind) -> (r: Result<&Value, PropertyError>)
        requires
            self.wf(),
        ensures
            r matches Ok(v) ==> read_as(self@, e, name@, kind) == Ok::<ValueModel, PropertyError>(v@),
            r matches Err(x) ==> read_as(self@, e, name@, kind) == Err::<ValueModel, PropertyError>(x),
    {
        match self.locate(e, name) {
            Ok((o, pi)) => {
                let ri = o.0 as usize;
                match &self.records[ri].props[pi].slot {
                    Slot::Owned(v) => {
                        proof {
                            assert(names_unique(self.records@[ri as int].props@));
                            lemma_props_map_at(self.records@[ri as int].props@, pi as int);
                        }
                        if v.kind() == kind {
                            Ok(v)
                        } else {
                            Err(PropertyError::TypeMismatch)
                        }
                    },
                    Slot::Shared(_, _) => Err(PropertyError::PropertyNotFound),
                }
            },
            Err(x) => Err(x),
        }
    }

    /// A copy of the value of property `name` of `e`, detached from the store:
    /// later writes to the property leave it as it is.
    pub fn clone(&self, e: Entity, name: &String, kind: Kind) -> (r: Result<Value, PropertyError>)
        requires
            self.wf(),
        ensures
            r matches Ok(v) ==> read_as(self@, e, name@, kind) == Ok::<ValueModel, PropertyError>(v@),
            r matches Err(x) ==> read_as(self@, e, name@, kind) == Err::<ValueModel, PropertyError>(x),
    {
        match self.get(e, name, kind) {
            Ok(v) => Ok(v.duplicate()),
            Err(x) => Err(x),
        }
    }

    /// Writes `v` to property `name` of `e`: see `assign`.
    pub fn set(&mut self, e: Entity, name: String, v: Value) -> (r: Result<(), PropertyError>)
        requires
            old(self).wf(),
        ensures
            final(self).wf(),
            final(self)@.len() == old(self)@.len(),
            match assign(old(self)@, e, name@, v@) {
                Ok(m) => r == Ok::<(), PropertyError>(()) && final(self)@ == m,
                Err(x) => r == Err::<(), PropertyError>(x) && final(self)@ == old(self)@,
            },
    {
        if !self.contains(e) {
            return Err(PropertyError::DanglingReference);
        }
        match find(&self.records[e.0 as usize].props, &name) {
            None => {
                proof {
                    assert(!self@[e.0 as int].props.contains_key(name@));
                }
                self.define(e, name, Slot::Owned(v));
                Ok(())
            },
            Some(_) => {
                proof {
                    let props = self.records@[e.0 as int].props@;
                    assert(has_name(props, name@));
                }
                match self.locate(e, &name) {
                    Ok((o, pi)) => {
                        let ri = o.0 as usize;
                        proof {
                            lemma_owner_owned(self@, e, name@, chain_bound(self@));
                            assert(names_unique(self.records@[ri as int].props@));
                            lemma_props_map_at(self.records@[ri as int].props@, pi as int);
                        }
                        let same = match &self.records[ri].props[pi].slot {
                            Slot::Owned(old_v) => old_v.kind() == v.kind(),
                            Slot::Shared(_, _) => false,
                        };
                        if same {
                            let n = self.records[ri].props[pi].name.clone();
                            self.define(o, n, Slot::Owned(v));
                            Ok(())
                        } else {
                            Err(PropertyError::TypeMismatch)
                        }
                    },
                    Err(x) => Err(x),
                }
            },
        }
    }

    /// Makes property `name` of `e` a reference to property `source_name` of
    /// `source`. The reference is not checked here: if it dangles, reading it
    /// fails.
    pub fn bind(&mut self, e: Entity, name: String, source: Entity, source_name: String) -> (r: Result<
        (),
        PropertyError,
    >)
        requires
            old(self).wf(),
        ensures
            final(self).wf(),
            is_live(old(self)@, e) ==> r is Ok && final(self)@ == put(
                old(self)@,
                e,
                name@,
                SlotModel::Shared(source, source_name@),
            ),
            !is_live(old(self)@, e) ==> r == Err::<(), PropertyError>(PropertyError::DanglingReference)
                && final(self)@ == old(self)@,
    {
        if !self.contains(e) {
            return Err(PropertyError::DanglingReference);
        }
        self.define(e, name, Slot::Shared(source, source_name));
        Ok(())
    }
}


/// Replacing an owned value leaves every reference chain where it was.
pub proof fn lemma_owner_after_put(
    m: StoreModel,
    o: Entity,
    n: Seq<char>,
    v: ValueModel,
    x: Entity,
    name: Seq<char>,
    steps: nat,
)
    requires
        is_live(m, o),
        m[o.0 as int].props.contains_key(n),
        m[o.0 as int].props[n] is Owned,
    ensures
        owner_within(put(m, o, n, SlotModel::Owned(v)), x, name, steps) == owner_within(m, x, name, steps),
    decreases steps,
{
    let m2 = put(m, o, n, SlotModel::Owned(v));
    if is_live(m, x) && m[x.0 as int].props.contains_key(name) {
        assert(m2[x.0 as int].props.contains_key(name));
        match m[x.0 as int].props[name] {
            SlotModel::Owned(_) => {},
            SlotModel::Shared(t, tn) => {
                assert(x != o || name != n);
                if steps > 0 {
                    lemma_owner_after_put(m, o, n, v, t, tn, (steps - 1) as nat);
                }
            },
        }
    }
}

/// A successful write of `v` to property `name` of `e` makes the property
/// read as `v`, of the type of `v`.
pub proof fn lemma_set_then_get(m: StoreModel, e: Entity, name: Seq<char>, v: ValueModel)
    requires
        assign(m, e, name, v) is Ok,
    ensures
        read(assign(m, e, name, v)->Ok_0, e, name) == Ok::<ValueModel, PropertyError>(v),
        read_as(assign(m, e, name, v)->Ok_0, e, name, kind_of(v)) == Ok::<ValueModel, PropertyError>(v),
{
    let m2 = assign(m, e, name, v)->Ok_0;
    if m[e.0 as int].props.contains_key(name) {
        lemma_owner_owned(m, e, name, chain_bound(m));
        let (o, n) = owner(m, e, name)->Ok_0;
        lemma_owner_after_put(m, o, n, v, e, name, chain_bound(m));
        lemma_total_slots_update(m, o.0 as int, m2[o.0 as int]);
    }
}

/// Alias transparency: when property `name` of `e2` refers to property
/// `src` of `e1`, which `e1` holds itself or not yet at all, a write of `v`
/// to that property of `e1` makes `e2` read `v` too.
pub proof fn lemma_alias_reads_source(
    m: StoreModel,
    e1: Entity,
    src: Seq<char>,
    e2: Entity,
    name: Seq<char>,
    v: ValueModel,
)
    requires
        holds(m, e2, name, SlotModel::Shared(e1, src)),
        !m[e1.0 as int].props.contains_key(src) || m[e1.0 as int].props[src] is Owned,
        assign(m, e1, src, v) is Ok,
    ensures
        read(assign(m, e1, src, v)->Ok_0, e2, name) == Ok::<ValueModel, PropertyError>(v),
{
    let m2 = assign(m, e1, src, v)->Ok_0;
    assert(e1 != e2 || src != name);
    assert(m2 == put(m, e1, src, SlotModel::Owned(v)));
    assert(m2[e2.0 as int].props.contains_key(name));
    assert(m2[e2.0 as int].props[name] == SlotModel::Shared(e1, src));
    assert(m2.len() == m.len());
    assert(owner_within(m2, e1, src, (chain_bound(m2) - 1) as nat) == Ok::<(Entity, Seq<char>), PropertyError>((e1, src)));
    assert(owner(m2, e2, name) == Ok::<(Entity, Seq<char>), PropertyError>((e1, src)));
}

/// A value read before a write keeps what it held, while the property itself
/// reads as the new value: a copy is detached from the live property.
pub proof fn lemma_copy_detached(m: StoreModel, e: Entity, name: Seq<char>, kind: Kind, c: ValueModel, w: ValueModel)
    requires
        read_as(m, e, name, kind) == Ok::<ValueModel, PropertyError>(c),
        assign(m, e, name, w) is Ok,
    ensures
        read(assign(m, e, name, w)->Ok_0, e, name) == Ok::<ValueModel, PropertyError>(w),
        w != c ==> read(assign(m, e, name, w)->Ok_0, e, name) != Ok::<ValueModel, PropertyError>(c),
{
    lemma_set_then_get(m, e, name, w);
}

/// Once the entity that a reference names is removed, reading through the
/// reference fails with `DanglingReference` instead of giving an old value.
pub proof fn lemma_removed_source_dangles(m: StoreModel, e2: Entity, name: Seq<char>, e1: Entity, n: Seq<char>)
    requires
        is_live(m, e2),
        m[e2.0 as int].props.contains_key(name),
        m[e2.0 as int].props[name] == SlotModel::Shared(e1, n),
    ensures
        read(removed(m, e1), e2, name) == Err::<ValueModel, PropertyError>(PropertyError::DanglingReference),
{
    let m2 = removed(m, e1);
    if e1 != e2 {
        assert(m2[e2.0 as int] == m[e2.0 as int]);
        assert(!is_live(m2, e1));
        assert(owner_within(m2, e1, n, (chain_bound(m2) - 1) as nat) == Err::<(Entity, Seq<char>), PropertyError>(
            PropertyError::DanglingReference,
        ));
    }
}

} // verus!
