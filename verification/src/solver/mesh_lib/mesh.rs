//! Mesh data: nodes, elements, sets, and the numbering of nodes.
use crate::name_map::NameMap;
use crate::solver::ids::{ElementId, NodeId};
use crate::solver::mesh_lib::elements::element::{Element, ElementModel, ElementType};
use crate::solver::mesh_lib::node::{Node, NodeModel};
use std::collections::HashMap;
use vstd::std_specs::iter::IteratorSpec;
use vstd::prelude::*;

verus! {

broadcast use vstd::std_specs::hash::group_hash_axioms;

/// Contains all node and element data.
#[derive(Debug)]
pub struct Mesh {
    /// Nodes by id.
    pub nodes: HashMap<usize, Node>,
    /// Elements by id.
    pub elements: HashMap<usize, Element>,
    /// Node sets by name.
    pub node_sets: NameMap<Vec<NodeId>>,
    /// Element sets by name.
    pub element_sets: NameMap<Vec<ElementId>>,
    /// Map: node id (from the deck) -> matrix index (0..N)
    pub node_id_to_index: HashMap<usize, usize>,
    /// Map: matrix index (0..N) -> node id (from the deck)
    pub index_to_node_id: Vec<NodeId>,
}

/// The mesh as plain values (without the node numbering).
pub struct MeshModel {
    pub nodes: Map<usize, NodeModel>,
    pub elements: Map<usize, ElementModel>,
    pub node_sets: Map<Seq<char>, Seq<NodeId>>,
    pub element_sets: Map<Seq<char>, Seq<ElementId>>,
}

impl View for Mesh {
    type V = MeshModel;

    open spec fn view(&self) -> MeshModel {
        MeshModel {
            nodes: self.nodes@.map_values(|n: Node| n@),
            elements: self.elements@.map_values(|e: Element| e@),
            node_sets: self.node_sets.map().map_values(|v: Vec<NodeId>| v@),
            element_sets: self.element_sets.map().map_values(|v: Vec<ElementId>| v@),
        }
    }
}

/// `ids` is strictly increasing.
pub open spec fn strictly_increasing(ids: Seq<NodeId>) -> bool {
    forall|i: int, j: int| 0 <= i < j < ids.len() ==> ids[i].0 < ids[j].0
}

/// The node numbering of `index_to_node_id` and `node_id_to_index` is the
/// one of the node ids in ascending order.
pub open spec fn numbering_of(
    nodes: Set<usize>,
    index_to_node_id: Seq<NodeId>,
    node_id_to_index: Map<usize, usize>,
) -> bool {
    &&& strictly_increasing(index_to_node_id)
    &&& index_to_node_id.len() == nodes.len()
    &&& forall|i: int| 0 <= i < index_to_node_id.len() ==> nodes.contains(#[trigger] index_to_node_id[i].0)
    &&& node_id_to_index.dom() == nodes
    &&& forall|i: int| 0 <= i < index_to_node_id.len() ==> node_id_to_index[#[trigger] index_to_node_id[i].0] == i
}

/// The numbering of the nodes is a bijection between the node ids and
/// `0..N`: each index holds a node whose id maps back to that index, and each
/// node id maps to an index that holds it.
pub proof fn law_numbering_round_trip(nodes: Set<usize>, index_to_node_id: Seq<NodeId>, node_id_to_index: Map<usize, usize>)
    requires
        nodes.finite(),
        numbering_of(nodes, index_to_node_id, node_id_to_index),
    ensures
        forall|i: int| 0 <= i < index_to_node_id.len() ==> node_id_to_index[#[trigger] index_to_node_id[i].0] == i,
        forall|id: usize| #[trigger] nodes.contains(id) ==> node_id_to_index[id] < index_to_node_id.len()
            && index_to_node_id[node_id_to_index[id] as int].0 == id,
{
    let raw = index_to_node_id.map_values(|n: NodeId| n.0);
    assert(raw.no_duplicates()) by {
        assert forall|a: int, b: int| 0 <= a < raw.len() && 0 <= b < raw.len() && a != b implies raw[a] != raw[b] by {
            if a < b {
                assert(index_to_node_id[a].0 < index_to_node_id[b].0);
            } else {
                assert(index_to_node_id[b].0 < index_to_node_id[a].0);
            }
        }
    }
    raw.unique_seq_to_set();
    assert(raw.to_set().subset_of(nodes)) by {
        assert forall|x: usize| raw.to_set().contains(x) implies nodes.contains(x) by {
            let i = choose|i: int| 0 <= i < raw.len() && raw[i] == x;
            assert(nodes.contains(index_to_node_id[i].0));
        }
    }
    vstd::set_lib::lemma_len_subset(raw.to_set(), nodes);
    vstd::set_lib::lemma_subset_equality(raw.to_set(), nodes);
    assert forall|id: usize| #[trigger] nodes.contains(id) implies node_id_to_index[id] < index_to_node_id.len()
        && index_to_node_id[node_id_to_index[id] as int].0 == id by {
        assert(raw.to_set().contains(id));
        let i = choose|i: int| 0 <= i < raw.len() && raw[i] == id;
        assert(node_id_to_index[index_to_node_id[i].0] == i);
    }
}

/// The ids of the elements of `m` of type `kind`.
pub open spec fn ids_of_kind(m: Map<usize, ElementModel>, kind: ElementType) -> Set<usize> {
    m.dom().filter(|k: usize| m[k].kind == kind)
}

/// `(kind, n)` if there is an element of that type, else nothing.
pub open spec fn count_entry(kind: ElementType, n: nat) -> Seq<(ElementType, u32)> {
    if n > 0 {
        seq![(kind, n as u32)]
    } else {
        Seq::empty()
    }
}

/// The element types present in `m`, in the order C3D4, C3D6, C3D10,
/// C3D20, each with its number of elements.
pub open spec fn counts_by_type(m: Map<usize, ElementModel>) -> Seq<(ElementType, u32)> {
    count_entry(ElementType::C3D4, ids_of_kind(m, ElementType::C3D4).len())
        + count_entry(ElementType::C3D6, ids_of_kind(m, ElementType::C3D6).len())
        + count_entry(ElementType::C3D10, ids_of_kind(m, ElementType::C3D10).len())
        + count_entry(ElementType::C3D20, ids_of_kind(m, ElementType::C3D20).len())
}

/// How many of `keys` name an element of type `kind` in `m`.
spec fn seq_count(keys: Seq<usize>, m: Map<usize, ElementModel>, kind: ElementType) -> nat
    decreases keys.len(),
{
    if keys.len() == 0 {
        0
    } else {
        seq_count(keys.drop_last(), m, kind) + if m[keys.last()].kind == kind {
            1nat
        } else {
            0nat
        }
    }
}

proof fn lemma_seq_count(keys: Seq<usize>, m: Map<usize, ElementModel>, kind: ElementType)
    requires
        keys.no_duplicates(),
    ensures
        seq_count(keys, m, kind) == keys.to_set().filter(|k: usize| m[k].kind == kind).len(),
        keys.to_set().filter(|k: usize| m[k].kind == kind).finite(),
        seq_count(keys, m, kind) <= keys.len(),
    decreases keys.len(),
{
    let p = |k: usize| m[k].kind == kind;
    if keys.len() == 0 {
        assert(keys.to_set().filter(p) =~= Set::<usize>::empty());
    } else {
        let rest = keys.drop_last();
        let x = keys.last();
        assert(rest.no_duplicates()) by {
            assert forall|i: int, j: int| 0 <= i < rest.len() && 0 <= j < rest.len() && i != j implies rest[i] != rest[j] by {
                assert(rest[i] == keys[i] && rest[j] == keys[j]);
            }
        }
        lemma_seq_count(rest, m, kind);
        assert(keys.to_set() =~= rest.to_set().insert(x)) by {
            assert forall|y: usize| keys.to_set().contains(y) implies rest.to_set().insert(x).contains(y) by {
                let i = choose|i: int| 0 <= i < keys.len() && keys[i] == y;
                if i < keys.len() - 1 {
                    assert(rest[i] == y);
                }
            }
            assert forall|y: usize| rest.to_set().insert(x).contains(y) implies keys.to_set().contains(y) by {
                if y != x {
                    let i = choose|i: int| 0 <= i < rest.len() && rest[i] == y;
                    assert(keys[i] == y);
                } else {
                    assert(keys[keys.len() - 1] == y);
                }
            }
        }
        assert(!rest.to_set().contains(x)) by {
            if rest.to_set().contains(x) {
                let i = choose|i: int| 0 <= i < rest.len() && rest[i] == x;
                assert(keys[i] == keys[keys.len() - 1]);
            }
        }
        if p(x) {
            assert(keys.to_set().filter(p) =~= rest.to_set().filter(p).insert(x));
        } else {
            assert(keys.to_set().filter(p) =~= rest.to_set().filter(p));
        }
    }
}

/// `slice::sort_unstable`, which its documentation describes as sorting the
/// slice in ascending order; the result holds the same elements.
#[verifier::external_body]
fn sort_ascending(v: &mut Vec<usize>)
    ensures
        final(v)@.to_multiset() == old(v)@.to_multiset(),
        forall|i: int, j: int| 0 <= i <= j < final(v)@.len() ==> final(v)@[i] <= final(v)@[j],
{
    v.sort_unstable();
}

impl Mesh {
    /// An empty mesh.
    pub fn new() -> (res: Self)
        ensures
            res@.nodes == Map::<usize, NodeModel>::empty(),
            res@.elements == Map::<usize, ElementModel>::empty(),
            res@.node_sets == Map::<Seq<char>, Seq<NodeId>>::empty(),
            res@.element_sets == Map::<Seq<char>, Seq<ElementId>>::empty(),
            res.index_to_node_id@.len() == 0,
            res.node_id_to_index@ == Map::<usize, usize>::empty(),
    {
        let res = Mesh {
            nodes: HashMap::new(),
            elements: HashMap::new(),
            node_sets: NameMap::new(),
            element_sets: NameMap::new(),
            node_id_to_index: HashMap::new(),
            index_to_node_id: Vec::new(),
        };
        assert(res@.nodes =~= Map::<usize, NodeModel>::empty());
        assert(res@.elements =~= Map::<usize, ElementModel>::empty());
        assert(res@.node_sets =~= Map::<Seq<char>, Seq<NodeId>>::empty());
        assert(res@.element_sets =~= Map::<Seq<char>, Seq<ElementId>>::empty());
        res
    }

    /// Numbers the nodes: the node ids in ascending order get the matrix
    /// indices `0..N`.
    pub fn build_node_mappings(&mut self)
        ensures
            final(self)@ == old(self)@,
            numbering_of(old(self).nodes@.dom(), final(self).index_to_node_id@, final(self).node_id_to_index@),
    {
        let mut ids: Vec<usize> = Vec::new();
        for k in it: self.nodes.keys()
            invariant
                ids@ == it.seq().take(it.index() as int).unref(),
        {
            ids.push(*k);
            assert(it.seq().take(it.index() as int + 1).unref() =~= it.seq().take(it.index() as int).unref().push(*k));
        }
        let ghost keys = ids@;
        sort_ascending(&mut ids);
        proof {
            assert(keys =~= vstd::std_specs::hash::spec_keys_iter(&self.nodes).remaining().unref());
            keys.lemma_multiset_has_no_duplicates();
            ids@.lemma_multiset_has_no_duplicates_conv();
            assert forall|x: usize| ids@.contains(x) <==> self.nodes@.dom().contains(x) by {
                vstd::seq_lib::to_multiset_contains(ids@, x);
                vstd::seq_lib::to_multiset_contains(keys, x);
            }
        }
        let mut index_to_node_id: Vec<NodeId> = Vec::new();
        let mut node_id_to_index: HashMap<usize, usize> = HashMap::new();
        let mut i: usize = 0;
        while i < ids.len()
            invariant
                i <= ids.len(),
                ids@.no_duplicates(),
                index_to_node_id@ == ids@.take(i as int).map_values(|x: usize| NodeId(x)),
                forall|x: usize| #[trigger] node_id_to_index@.contains_key(x) <==> exists|j: int| 0 <= j < i && ids@[j] == x,
                forall|j: int| 0 <= j < i ==> node_id_to_index@[#[trigger] ids@[j]] == j,
            decreases ids.len() - i,
        {
            node_id_to_index.insert(ids[i], i);
            index_to_node_id.push(NodeId(ids[i]));
            proof {
                assert(ids@.take(i + 1) =~= ids@.take(i as int).push(ids@[i as int]));
                assert(index_to_node_id@ =~= ids@.take(i + 1).map_values(|x: usize| NodeId(x)));
                assert forall|x: usize| #[trigger] node_id_to_index@.contains_key(x) implies exists|j: int| 0 <= j < i + 1 && ids@[j] == x by {
                    if x != ids@[i as int] {
                    }
                }
                assert forall|j: int| 0 <= j < i + 1 implies node_id_to_index@[#[trigger] ids@[j]] == j by {
                    if j < i {
                        assert(ids@[j] != ids@[i as int]);
                    }
                }
            }
            i += 1;
        }
        proof {
            assert(ids@.take(ids.len() as int) =~= ids@);
            assert(ids@.to_set() =~= self.nodes@.dom());
            ids@.unique_seq_to_set();
            assert(node_id_to_index@.dom() =~= self.nodes@.dom()) by {
                assert forall|x: usize| node_id_to_index@.dom().contains(x) implies self.nodes@.dom().contains(x) by {
                    let j = choose|j: int| 0 <= j < ids@.len() && ids@[j] == x;
                    assert(ids@.contains(x));
                }
                assert forall|x: usize| self.nodes@.dom().contains(x) implies node_id_to_index@.dom().contains(x) by {
                    assert(ids@.contains(x));
                    let j = choose|j: int| 0 <= j < ids@.len() && ids@[j] == x;
                    assert(node_id_to_index@.contains_key(ids@[j]));
                }
            }
            assert forall|a: int, b: int| 0 <= a < b < index_to_node_id@.len() implies index_to_node_id@[a].0 < index_to_node_id@[b].0 by {
                assert(ids@[a] != ids@[b]);
            }
        }
        self.index_to_node_id = index_to_node_id;
        self.node_id_to_index = node_id_to_index;
    }

    /// Counts all elements by their respective type: the types present, in
    /// the order C3D4, C3D6, C3D10, C3D20, each with its number of elements.
    pub fn count_by_type(&self) -> (res: Vec<(ElementType, u32)>)
        requires
            self.elements@.dom().len() <= u32::MAX,
        ensures
            res@ == counts_by_type(self@.elements),
    {
        let ghost m = self@.elements;
        let mut c4: u32 = 0;
        let mut c6: u32 = 0;
        let mut c10: u32 = 0;
        let mut c20: u32 = 0;
        let ghost keys = vstd::std_specs::hash::spec_keys_iter(&self.elements).remaining().unref();
        proof {
            assert(keys.to_set() == self.elements@.dom());
            assert(m.dom() =~= self.elements@.dom());
            assert(keys.len() == vstd::std_specs::hash::spec_keys_iter(&self.elements).remaining().len());
        }
        for k in it: self.elements.keys()
            invariant
                m == self@.elements,
                keys == vstd::std_specs::hash::spec_keys_iter(&self.elements).remaining().unref(),
                keys.no_duplicates(),
                keys.to_set() == m.dom(),
                keys.len() == m.dom().len(),
                m.dom().len() <= u32::MAX,
                it.seq().unref() == keys,
                c4 == seq_count(keys.take(it.index() as int), m, ElementType::C3D4),
                c6 == seq_count(keys.take(it.index() as int), m, ElementType::C3D6),
                c10 == seq_count(keys.take(it.index() as int), m, ElementType::C3D10),
                c20 == seq_count(keys.take(it.index() as int), m, ElementType::C3D20),
                c4 + c6 + c10 + c20 == it.index(),
        {
            let ghost i = it.index();
            assert(keys.take(i + 1).drop_last() =~= keys.take(i as int));
            assert(keys.take(i + 1).last() == *k);
            assert(keys.to_set().contains(*k));
            let kind = match self.elements.get(k) {
                Some(e) => e.element_type(),
                None => {
                    assert(false);
                    ElementType::C3D4
                },
            };
            assert(kind == m[*k].kind);
            match kind {
                ElementType::C3D4 => c4 = c4 + 1,
                ElementType::C3D6 => c6 = c6 + 1,
                ElementType::C3D10 => c10 = c10 + 1,
                ElementType::C3D20 => c20 = c20 + 1,
            }
        }
        proof {
            assert(keys.take(keys.len() as int) =~= keys);
            lemma_seq_count(keys, m, ElementType::C3D4);
            lemma_seq_count(keys, m, ElementType::C3D6);
            lemma_seq_count(keys, m, ElementType::C3D10);
            lemma_seq_count(keys, m, ElementType::C3D20);
            assert(ids_of_kind(m, ElementType::C3D4) =~= keys.to_set().filter(|k: usize| m[k].kind == ElementType::C3D4));
            assert(ids_of_kind(m, ElementType::C3D6) =~= keys.to_set().filter(|k: usize| m[k].kind == ElementType::C3D6));
            assert(ids_of_kind(m, ElementType::C3D10) =~= keys.to_set().filter(|k: usize| m[k].kind == ElementType::C3D10));
            assert(ids_of_kind(m, ElementType::C3D20) =~= keys.to_set().filter(|k: usize| m[k].kind == ElementType::C3D20));
        }
        let mut res: Vec<(ElementType, u32)> = Vec::new();
        if c4 > 0 {
            res.push((ElementType::C3D4, c4));
        }
        if c6 > 0 {
            res.push((ElementType::C3D6, c6));
        }
        if c10 > 0 {
            res.push((ElementType::C3D10, c10));
        }
        if c20 > 0 {
            res.push((ElementType::C3D20, c20));
        }
        assert(res@ =~= counts_by_type(m));
        res
    }

    /// Fetches the matrix index for a given node id (from the deck).
    pub fn get_index_for_node_id(&self, id: NodeId) -> (res: Option<usize>)
        ensures
            res == (if self.node_id_to_index@.contains_key(id.0) {
                Some(self.node_id_to_index@[id.0])
            } else {
                None
            }),
    {
        match self.node_id_to_index.get(&id.0) {
            Some(i) => Some(*i),
            None => None,
        }
    }
}

} // verus!
