//! The graph store: entities with named properties and interned string values.
//!
//! Node `i` (counting from 1) is `nodes[i - 1]`; 0 names no node. Identifiers are
//! handed out in order and never reused.

use vstd::prelude::*;

verus! {

/// Named entries in the order they were first added.
pub type Pairs = Seq<(Seq<char>, usize)>;

/// The mathematical value of a list of `(name, id)` entries.
pub open spec fn pairs_view(v: Seq<(String, usize)>) -> Pairs {
    v.map_values(|p: (String, usize)| (p.0@, p.1))
}

/// The first position at or after `i` whose name is `k`.
pub open spec fn find_from(ps: Pairs, k: Seq<char>, i: int) -> Option<int>
    decreases ps.len() - i,
{
    if i < 0 || i >= ps.len() {
        None
    } else if ps[i].0 == k {
        Some(i)
    } else {
        find_from(ps, k, i + 1)
    }
}

/// The id bound to `k`.
pub open spec fn lookup(ps: Pairs, k: Seq<char>) -> Option<usize> {
    match find_from(ps, k, 0) {
        Some(i) => Some(ps[i].1),
        None => None,
    }
}

/// Binds `k` to `id`: an existing entry keeps its place, a new one goes last.
pub open spec fn assign(ps: Pairs, k: Seq<char>, id: usize) -> Pairs {
    match find_from(ps, k, 0) {
        Some(i) => ps.update(i, (k, id)),
        None => ps.push((k, id)),
    }
}

/// No name occurs twice.
pub open spec fn distinct_names(ps: Pairs) -> bool {
    forall|i: int, j: int| 0 <= i < j < ps.len() ==> #[trigger] ps[i].0 != #[trigger] ps[j].0
}

/// Binding a name keeps the names distinct.
pub proof fn lemma_assign_distinct(ps: Pairs, k: Seq<char>, id: usize)
    requires
        distinct_names(ps),
    ensures
        distinct_names(assign(ps, k, id)),
{
    lemma_find_from(ps, k, 0);
    let qs = assign(ps, k, id);
    match find_from(ps, k, 0) {
        Some(x) => {
            assert forall|i: int| 0 <= i < qs.len() implies #[trigger] qs[i].0 == ps[i].0 by {}
        },
        None => {
            assert forall|i: int| 0 <= i < ps.len() implies #[trigger] qs[i].0 == ps[i].0 by {}
        },
    }
}

/// `find_from` from `i` gives the first position at or after `i` named `k`.
pub proof fn lemma_find_from(ps: Pairs, k: Seq<char>, i: int)
    requires
        0 <= i,
    ensures
        match find_from(ps, k, i) {
            Some(j) => i <= j < ps.len() && ps[j].0 == k && forall|l: int|
                i <= l < j ==> ps[l].0 != k,
            None => forall|j: int| i <= j < ps.len() ==> ps[j].0 != k,
        },
    decreases ps.len() - i,
{
    if i < ps.len() && ps[i].0 != k {
        lemma_find_from(ps, k, i + 1);
    }
}

proof fn lemma_find_some(ps: Pairs, k: Seq<char>, i: int, j: int)
    requires
        0 <= i <= j < ps.len(),
        ps[j].0 == k,
        forall|l: int| i <= l < j ==> ps[l].0 != k,
    ensures
        find_from(ps, k, i) == Some(j),
    decreases j - i,
{
    if i < j {
        lemma_find_some(ps, k, i + 1, j);
    }
}

proof fn lemma_find_none(ps: Pairs, k: Seq<char>, i: int)
    requires
        0 <= i,
        forall|l: int| i <= l < ps.len() ==> ps[l].0 != k,
    ensures
        find_from(ps, k, i) is None,
    decreases ps.len() - i,
{
    if i < ps.len() {
        lemma_find_none(ps, k, i + 1);
    }
}

/// Looking up a name after an entry is added at the end.
pub proof fn lemma_lookup_push(ps: Pairs, e: (Seq<char>, usize), k: Seq<char>)
    ensures
        lookup(ps.push(e), k) == if lookup(ps, k) is Some {
            lookup(ps, k)
        } else if e.0 == k {
            Some(e.1)
        } else {
            None
        },
{
    let qs = ps.push(e);
    lemma_find_from(ps, k, 0);
    match find_from(ps, k, 0) {
        Some(j) => {
            lemma_find_some(qs, k, 0, j);
        },
        None => {
            if e.0 == k {
                lemma_find_some(qs, k, 0, ps.len() as int);
            } else {
                lemma_find_none(qs, k, 0);
            }
        },
    }
}

/// Looking up a name after a binding: the bound name gives the new id, any
/// other name what it gave before.
pub proof fn lemma_lookup_assign(ps: Pairs, k: Seq<char>, v: usize, k2: Seq<char>)
    ensures
        lookup(assign(ps, k, v), k2) == if k2 == k {
            Some(v)
        } else {
            lookup(ps, k2)
        },
{
    lemma_find_from(ps, k, 0);
    lemma_find_from(ps, k2, 0);
    match find_from(ps, k, 0) {
        Some(i) => {
            let qs = ps.update(i, (k, v));
            if k2 == k {
                lemma_find_some(qs, k, 0, i);
            } else {
                match find_from(ps, k2, 0) {
                    Some(j) => {
                        lemma_find_some(qs, k2, 0, j);
                    },
                    None => {
                        lemma_find_none(qs, k2, 0);
                    },
                }
            }
        },
        None => {
            lemma_lookup_push(ps, (k, v), k2);
        },
    }
}

/// A mutable node with named properties, each naming a target node.
#[derive(Debug)]
pub struct Entity {
    pub props: Vec<(String, usize)>,
}

/// An immutable string value.
#[derive(Debug)]
pub struct Value {
    pub val: String,
}

#[derive(Debug)]
pub enum Node {
    Entity(Entity),
    Value(Value),
}

/// The mathematical value of a node.
pub enum NodeModel {
    Entity(Pairs),
    Value(Seq<char>),
}

impl View for Node {
    type V = NodeModel;

    open spec fn view(&self) -> NodeModel {
        match self {
            Node::Entity(e) => NodeModel::Entity(pairs_view(e.props@)),
            Node::Value(v) => NodeModel::Value(v.val@),
        }
    }
}

/// Why a property could not be written.
#[derive(Debug, PartialEq, Eq, Structural, Copy, Clone)]
pub enum StoreError {
    /// The target identifier names no node.
    NoSuchObject,
    /// The target is a string value, which has no properties.
    NotAnEntity,
}

/// The mathematical value of the store: its nodes in order of identifier, and
/// the interning index from string to value node.
pub struct SpaceModel {
    pub nodes: Seq<NodeModel>,
    pub reverse: Pairs,
}

/// The node of identifier `id`.
pub open spec fn node_at(m: SpaceModel, id: usize) -> Option<NodeModel> {
    if 1 <= id <= m.nodes.len() {
        Some(m.nodes[id - 1])
    } else {
        None
    }
}

/// The empty store.
pub open spec fn empty_space() -> SpaceModel {
    SpaceModel { nodes: Seq::empty(), reverse: Seq::empty() }
}

/// The store after a new empty entity is added, and its identifier.
pub open spec fn created(m: SpaceModel) -> (SpaceModel, usize) {
    (
        SpaceModel { nodes: m.nodes.push(NodeModel::Entity(Seq::empty())), reverse: m.reverse },
        (m.nodes.len() + 1) as usize,
    )
}

/// The store after `v` is interned, and the identifier of its value node: the
/// node already indexed for `v`, or a new one.
pub open spec fn interned(m: SpaceModel, v: Seq<char>) -> (SpaceModel, usize) {
    match lookup(m.reverse, v) {
        Some(id) => (m, id),
        None => {
            let id = (m.nodes.len() + 1) as usize;
            (SpaceModel { nodes: m.nodes.push(NodeModel::Value(v)), reverse: m.reverse.push((v, id)) }, id)
        },
    }
}

/// Where a property of `obj` can be written: `obj` must name an entity.
pub open spec fn write_target(m: SpaceModel, obj: usize) -> Result<Pairs, StoreError> {
    match node_at(m, obj) {
        Some(NodeModel::Entity(ps)) => Ok(ps),
        Some(NodeModel::Value(_)) => Err(StoreError::NotAnEntity),
        None => Err(StoreError::NoSuchObject),
    }
}

/// The store after property `key` of entity `obj` is bound to `id`.
pub open spec fn bound(m: SpaceModel, obj: usize, ps: Pairs, key: Seq<char>, id: usize) -> SpaceModel {
    SpaceModel { nodes: m.nodes.update(obj - 1, NodeModel::Entity(assign(ps, key, id))), reverse: m.reverse }
}

/// Setting property `key` of `obj` to the string `v`: the new store and the
/// identifier of the interned value, or why it failed (then nothing changes).
pub open spec fn set_result(m: SpaceModel, obj: usize, key: Seq<char>, v: Seq<char>) -> Result<(SpaceModel, usize), StoreError> {
    match write_target(m, obj) {
        Ok(ps) => {
            let (m2, id) = interned(m, v);
            Ok((bound(m2, obj, ps, key, id), id))
        },
        Err(e) => Err(e),
    }
}

/// Linking property `key` of `obj` to `other`, which need not exist.
pub open spec fn link_result(m: SpaceModel, obj: usize, key: Seq<char>, other: usize) -> Result<SpaceModel, StoreError> {
    match write_target(m, obj) {
        Ok(ps) => Ok(bound(m, obj, ps, key, other)),
        Err(e) => Err(e),
    }
}

/// The node reached from `obj` by one property name: `obj` itself for an empty
/// name; otherwise the live target of that property of entity `obj`.
pub open spec fn resolve(m: SpaceModel, obj: usize, key: Seq<char>) -> Option<usize> {
    match node_at(m, obj) {
        None => None,
        Some(n) => {
            if key.len() == 0 {
                Some(obj)
            } else {
                match n {
                    NodeModel::Entity(ps) => match lookup(ps, key) {
                        Some(id) => if node_at(m, id) is Some { Some(id) } else { None },
                        None => None,
                    },
                    NodeModel::Value(_) => None,
                }
            }
        },
    }
}

/// The interning index is consistent with the nodes: each entry names a value
/// node holding exactly its string. No entity has two properties of one name.
pub open spec fn space_wf(m: SpaceModel) -> bool {
    &&& forall|j: int|
        0 <= j < m.reverse.len() ==> 1 <= #[trigger] m.reverse[j].1 <= m.nodes.len() && m.nodes[m.reverse[j].1
            - 1] == NodeModel::Value(m.reverse[j].0)
    &&& forall|i: int|
        0 <= i < m.nodes.len() ==> match #[trigger] m.nodes[i] {
            NodeModel::Entity(ps) => distinct_names(ps),
            NodeModel::Value(_) => true,
        }
}

/// The whole graph.
pub struct Space {
    pub nodes: Vec<Node>,
    pub reverse: Vec<(String, usize)>,
}

/// The position of the first entry named `k`.
fn find_key(ps: &Vec<(String, usize)>, k: &String) -> (r: Option<usize>)
    ensures
        match find_from(pairs_view(ps@), k@, 0) {
            Some(i) => r == Some(i as usize),
            None => r is None,
        },
        r is Some ==> r->0 < ps@.len() && ps@[r->0 as int].0@ == k@ && find_from(
            pairs_view(ps@),
            k@,
            0,
        ) == Some(r->0 as int),
{
    let ghost v = pairs_view(ps@);
    proof {
        lemma_find_from(v, k@, 0);
    }
    let mut i: usize = 0;
    while i < ps.len()
        invariant
            0 <= i <= ps@.len(),
            v == pairs_view(ps@),
            find_from(v, k@, 0) == find_from(v, k@, i as int),
        decreases ps@.len() - i,
    {
        if ps[i].0 == *k {
            proof {
                lemma_find_from(v, k@, i as int);
            }
            return Some(i);
        }
        i += 1;
    }
    None
}

/// Binds `k` to `id` in a list of entries.
fn assign_key(ps: &mut Vec<(String, usize)>, k: String, id: usize)
    ensures
        pairs_view(final(ps)@) == assign(pairs_view(old(ps)@), k@, id),
{
    let ghost kv = k@;
    match find_key(ps, &k) {
        Some(i) => {
            ps.set(i, (k, id));
            assert(pairs_view(ps@) =~= assign(pairs_view(old(ps)@), kv, id));
        },
        None => {
            ps.push((k, id));
            assert(pairs_view(ps@) =~= assign(pairs_view(old(ps)@), kv, id));
        },
    }
}

impl Space {
    pub open spec fn view(&self) -> SpaceModel {
        SpaceModel { nodes: self.nodes@.map_values(|n: Node| n@), reverse: pairs_view(self.reverse@) }
    }

    /// The store is consistent.
    pub open spec fn wf(&self) -> bool {
        space_wf(self.view())
    }

    /// Another node can be added without running out of identifiers.
    pub open spec fn has_room(&self) -> bool {
        self.view().nodes.len() + 1 < usize::MAX
    }

    pub fn new() -> (r: Space)
        ensures
            r.view() == empty_space(),
            r.wf(),
    {
        let r = Space { nodes: Vec::new(), reverse: Vec::new() };
        assert(r.view().nodes =~= Seq::<NodeModel>::empty());
        assert(r.view().reverse =~= Seq::<(Seq<char>, usize)>::empty());
        r
    }

    /// The identifier that the next node will get.
    fn gen_id(&self) -> (r: usize)
        requires
            self.has_room(),
        ensures
            r == self.nodes@.len() + 1,
    {
        assert(self.view().nodes.len() == self.nodes@.len());
        self.nodes.len() + 1
    }

    /// Adds an empty entity and returns its identifier.
    pub fn create(&mut self) -> (r: usize)
        requires
            old(self).wf(),
            old(self).has_room(),
        ensures
            final(self).wf(),
            (final(self).view(), r) == created(old(self).view()),
    {
        let id = self.gen_id();
        self.nodes.push(Node::Entity(Entity { props: Vec::new() }));
        proof {
            let e: Seq<(String, usize)> = Seq::empty();
            assert(pairs_view(e) =~= Seq::empty());
            assert(self.view().nodes =~= created(old(self).view()).0.nodes);
        }
        id
    }

    /// Adds a value node for `val` and indexes it.
    fn create_prop(&mut self, val: String) -> (r: usize)
        requires
            old(self).wf(),
            old(self).has_room(),
        ensures
            final(self).wf(),
            final(self).view() == (SpaceModel {
                nodes: old(self).view().nodes.push(NodeModel::Value(val@)),
                reverse: old(self).view().reverse.push((val@, r)),
            }),
            r == old(self).nodes@.len() + 1,
    {
        let id = self.gen_id();
        self.reverse.push((val.clone(), id));
        self.nodes.push(Node::Value(Value { val }));
        proof {
            let m = self.view();
            assert(m.nodes =~= old(self).view().nodes.push(NodeModel::Value(val@)));
            assert(m.reverse =~= old(self).view().reverse.push((val@, id)));
        }
        id
    }

    /// The value node for `value`: the one indexed already, or a new one.
    fn upsert_prop(&mut self, value: &str) -> (r: usize)
        requires
            old(self).wf(),
            old(self).has_room(),
        ensures
            final(self).wf(),
            (final(self).view(), r) == interned(old(self).view(), value@),
    {
        let v = value.to_owned();
        match find_key(&self.reverse, &v) {
            Some(j) => {
                assert(pairs_view(self.reverse@)[j as int].1 == self.reverse@[j as int].1);
                self.reverse[j].1
            },
            None => self.create_prop(v),
        }
    }

    /// Sets property `key` of entity `obj` to the interned string `value` and
    /// returns the value's identifier.
    pub fn set(&mut self, obj: usize, key: &str, value: &str) -> (r: Result<usize, StoreError>)
        requires
            old(self).wf(),
            old(self).has_room(),
        ensures
            final(self).wf(),
            match set_result(old(self).view(), obj, key@, value@) {
                Ok((m, id)) => r == Ok::<usize, StoreError>(id) && final(self).view() == m,
                Err(e) => r == Err::<usize, StoreError>(e) && *final(self) == *old(self),
            },
    {
        match self.check_entity(obj) {
            Err(e) => Err(e),
            Ok(()) => {
                let prop = self.upsert_prop(value);
                self.bind(obj, key, prop);
                Ok(prop)
            },
        }
    }

    /// Links property `key` of entity `obj` to `other_node`, whether or not
    /// that node exists.
    pub fn link(&mut self, obj: usize, key: &str, other_node: usize) -> (r: Result<(), StoreError>)
        requires
            old(self).wf(),
        ensures
            final(self).wf(),
            match link_result(old(self).view(), obj, key@, other_node) {
                Ok(m) => r is Ok && final(self).view() == m,
                Err(e) => r == Err::<(), StoreError>(e) && *final(self) == *old(self),
            },
    {
        match self.check_entity(obj) {
            Err(e) => Err(e),
            Ok(()) => {
                self.bind(obj, key, other_node);
                Ok(())
            },
        }
    }

    /// Whether `obj` names an entity.
    fn check_entity(&self, obj: usize) -> (r: Result<(), StoreError>)
        ensures
            match write_target(self.view(), obj) {
                Ok(_) => r is Ok,
                Err(e) => r == Err::<(), StoreError>(e),
            },
    {
        if obj == 0 || obj > self.nodes.len() {
            return Err(StoreError::NoSuchObject);
        }
        match &self.nodes[obj - 1] {
            Node::Entity(_) => Ok(()),
            Node::Value(_) => Err(StoreError::NotAnEntity),
        }
    }

    /// Binds property `key` of entity `obj` to `id`.
    fn bind(&mut self, obj: usize, key: &str, id: usize)
        requires
            old(self).wf(),
            write_target(old(self).view(), obj) is Ok,
        ensures
            final(self).wf(),
            final(self).view() == bound(old(self).view(), obj, write_target(old(self).view(), obj)->Ok_0, key@, id),
    {
        let ghost m = self.view();
        let ghost ps = write_target(m, obj)->Ok_0;
        let i = obj - 1;
        match &mut self.nodes[i] {
            Node::Entity(ent) => {
                assign_key(&mut ent.props, key.to_owned(), id);
            },
            Node::Value(_) => {},
        }
        proof {
            assert(self.view().nodes =~= bound(m, obj, ps, key@, id).nodes);
            assert forall|j: int| 0 <= j < m.reverse.len() implies m.reverse[j].1 - 1 != i by {
                assert(m.nodes[m.reverse[j].1 - 1] is Value);
            }
            assert(m.nodes[i as int] == NodeModel::Entity(ps));
            lemma_assign_distinct(ps, key@, id);
        }
    }

    /// The node reached from `obj` by the property name `key` (the object itself
    /// for an empty name), with its identifier; `None` if `obj` or the target
    /// does not exist, or `obj` is a value and `key` is not empty.
    pub fn get(&self, obj: usize, key: &str) -> (r: Option<(usize, &Node)>)
        ensures
            match resolve(self.view(), obj, key@) {
                Some(id) => r is Some && (r->0).0 == id && (r->0).1@ == self.view().nodes[id - 1],
                None => r is None,
            },
    {
        if obj == 0 || obj > self.nodes.len() {
            return None;
        }
        let node = &self.nodes[obj - 1];
        assert(self.view().nodes[obj - 1] == node@);
        if key.is_empty() {
            return Some((obj, node));
        }
        match node {
            Node::Entity(ent) => {
                let k = key.to_owned();
                match find_key(&ent.props, &k) {
                    Some(i) => {
                        let id = ent.props[i].1;
                        assert(pairs_view(ent.props@)[i as int].1 == id);
                        if id == 0 || id > self.nodes.len() {
                            None
                        } else {
                            assert(self.view().nodes[id - 1] == self.nodes@[id - 1]@);
                            Some((id, &self.nodes[id - 1]))
                        }
                    },
                    None => None,
                }
            },
            Node::Value(_) => None,
        }
    }
}

/// Setting two properties to equal strings binds both to one value node,
/// which both then resolve to.
pub proof fn lemma_interning(
    m: SpaceModel,
    o1: usize,
    k1: Seq<char>,
    o2: usize,
    k2: Seq<char>,
    x: Seq<char>,
)
    requires
        space_wf(m),
        m.nodes.len() + 1 < usize::MAX,
        k1.len() > 0,
        k2.len() > 0,
        set_result(m, o1, k1, x) is Ok,
        set_result(set_result(m, o1, k1, x)->Ok_0.0, o2, k2, x) is Ok,
    ensures
        ({
            let (m1, id1) = set_result(m, o1, k1, x)->Ok_0;
            let (m2, id2) = set_result(m1, o2, k2, x)->Ok_0;
            &&& id2 == id1
            &&& resolve(m2, o1, k1) == Some(id1)
            &&& resolve(m2, o2, k2) == Some(id1)
        }),
{
    let (m1, id1) = set_result(m, o1, k1, x)->Ok_0;
    let (m2, id2) = set_result(m1, o2, k2, x)->Ok_0;
    let ps1 = write_target(m, o1)->Ok_0;
    let (mi, _) = interned(m, x);
    lemma_lookup_push(m.reverse, (x, (m.nodes.len() + 1) as usize), x);
    assert(lookup(m1.reverse, x) == Some(id1));
    assert(1 <= id1 <= m1.nodes.len()) by {
        lemma_find_from(m.reverse, x, 0);
        match find_from(m.reverse, x, 0) {
            Some(j) => {
                assert(1 <= m.reverse[j].1 <= m.nodes.len());
            },
            None => {},
        }
    }
    let ps2 = write_target(m1, o2)->Ok_0;
    assert(m2 == bound(m1, o2, ps2, k2, id1));
    lemma_lookup_assign(ps2, k2, id1, k2);
    assert(node_at(m1, o1) == Some(NodeModel::Entity(assign(ps1, k1, id1))));
    lemma_lookup_assign(ps1, k1, id1, k1);
    if o1 == o2 {
        lemma_lookup_assign(ps2, k2, id1, k1);
    }
}

} // verus!
