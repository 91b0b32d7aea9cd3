//! Which peers a node gossips with: the ones an adjacency declares for it,
//! or else a stride partition of the membership list.

use crate::names::{clone_names, first_position, lemma_first_position, names_of, position_of};
use crate::protocol::adjacency_of;
use vstd::prelude::*;

verus! {

/// Of the other nodes, one in every `STRIDE` is a neighbour.
pub const STRIDE: usize = 4;

/// The nodes of `adjacency`, in the order they are listed.
pub open spec fn listed(adjacency: Seq<(Seq<char>, Seq<Seq<char>>)>) -> Seq<Seq<char>> {
    Seq::new(adjacency.len(), |i: int| adjacency[i].0)
}

/// The neighbours that `adjacency` declares for `node`: those of the first
/// entry that names it.
pub open spec fn declared(adjacency: Seq<(Seq<char>, Seq<Seq<char>>)>, node: Seq<char>) -> Option<
    Seq<Seq<char>>,
> {
    match first_position(listed(adjacency), node) {
        Some(i) => Some(adjacency[i].1),
        None => None,
    }
}

/// Whether the node at position `at` is a stride neighbour of the node at
/// position `own`: it is another node, and its position is `own + 1` modulo
/// the stride.
pub open spec fn selected(own: int, stride: int, at: int) -> bool {
    at != own && at % stride == (own + 1) % stride
}

/// The stride neighbours of the node at position `own`: the names at the
/// selected positions, in the order of the membership list.
pub open spec fn stride_partition(names: Seq<Seq<char>>, own: int, stride: int) -> Seq<Seq<char>>
    decreases names.len(),
{
    if names.len() == 0 {
        Seq::empty()
    } else {
        let front = stride_partition(names.drop_last(), own, stride);
        if selected(own, stride, names.len() - 1) {
            front.push(names.last())
        } else {
            front
        }
    }
}

/// A node's neighbours: what the adjacency declares for it; without a
/// declaration, its stride partition of the membership list; and nobody if it
/// is not a member.
pub open spec fn resolve(
    id: Seq<char>,
    node_ids: Seq<Seq<char>>,
    adjacency: Seq<(Seq<char>, Seq<Seq<char>>)>,
    stride: int,
) -> Seq<Seq<char>> {
    match declared(adjacency, id) {
        Some(neighbors) => neighbors,
        None => match first_position(node_ids, id) {
            Some(own) => stride_partition(node_ids, own, stride),
            None => Seq::empty(),
        },
    }
}

/// The neighbours that `topology` declares for `node`, if it names the node.
pub fn declared_neighbors(topology: &Vec<(String, Vec<String>)>, node: &str) -> (found: Option<
    Vec<String>,
>)
    ensures
        match found {
            Some(neighbors) => declared(adjacency_of(topology@), node@) == Some(
                names_of(neighbors@),
            ),
            None => declared(adjacency_of(topology@), node@) is None,
        },
{
    let key = node.to_owned();
    let ghost keys = listed(adjacency_of(topology@));
    let mut i: usize = 0;
    while i < topology.len()
        invariant
            i <= topology@.len(),
            key@ == node@,
            keys == listed(adjacency_of(topology@)),
            forall|k: int| 0 <= k < i ==> keys[k] != node@,
        decreases topology@.len() - i,
    {
        if topology[i].0 == key {
            proof {
                lemma_first_position(keys, node@);
                assert(keys[i as int] == node@);
                assert(keys.contains(node@));
            }
            return Some(clone_names(&topology[i].1));
        }
        i += 1;
    }
    proof {
        lemma_first_position(keys, node@);
        assert(forall|k: int| 0 <= k < keys.len() ==> keys[k] != node@);
    }
    None
}

/// The stride neighbours of the node at position `own` of `node_ids`.
pub fn stride_neighbors(node_ids: &Vec<String>, own: usize, stride: usize) -> (neighbors: Vec<
    String,
>)
    requires
        stride > 0,
        own < node_ids@.len(),
    ensures
        names_of(neighbors@) == stride_partition(names_of(node_ids@), own as int, stride as int),
{
    let count = node_ids.len();
    assert(own < count);
    let offset = (own + 1) % stride;
    let ghost names = names_of(node_ids@);
    let mut neighbors: Vec<String> = Vec::new();
    let mut at: usize = 0;
    proof {
        assert(names.take(0) == Seq::<Seq<char>>::empty());
        assert(names_of(neighbors@) == Seq::<Seq<char>>::empty());
    }
    while at < node_ids.len()
        invariant
            at <= node_ids@.len(),
            stride > 0,
            offset == (own + 1) % (stride as int),
            names == names_of(node_ids@),
            names_of(neighbors@) == stride_partition(names.take(at as int), own as int, stride as int),
        decreases node_ids@.len() - at,
    {
        let ghost before = neighbors@;
        if at != own && at % stride == offset {
            neighbors.push(node_ids[at].clone());
            proof {
                assert(names_of(neighbors@) == names_of(before).push(names[at as int]));
            }
        }
        proof {
            let next = names.take(at as int + 1);
            assert(next.drop_last() == names.take(at as int));
            assert(next.last() == names[at as int]);
        }
        at += 1;
    }
    proof {
        assert(names.take(names.len() as int) == names);
    }
    neighbors
}

/// A node's neighbours, from the adjacency if it declares any for the node
/// and from the stride partition otherwise.
pub fn resolve_neighbors(
    id: &str,
    node_ids: &Vec<String>,
    topology: &Vec<(String, Vec<String>)>,
    stride: usize,
) -> (neighbors: Vec<String>)
    requires
        stride > 0,
    ensures
        names_of(neighbors@) == resolve(
            id@,
            names_of(node_ids@),
            adjacency_of(topology@),
            stride as int,
        ),
{
    match declared_neighbors(topology, id) {
        Some(neighbors) => neighbors,
        None => match position_of(node_ids, id) {
            Some(own) => {
                proof {
                    lemma_first_position(names_of(node_ids@), id@);
                }
                stride_neighbors(node_ids, own, stride)
            },
            None => {
                let neighbors: Vec<String> = Vec::new();
                proof {
                    assert(names_of(neighbors@) == Seq::<Seq<char>>::empty());
                }
                neighbors
            },
        },
    }
}

/// A name is a stride neighbour exactly if it stands at a selected position.
pub proof fn lemma_stride_partition_members(
    names: Seq<Seq<char>>,
    own: int,
    stride: int,
    name: Seq<char>,
)
    ensures
        stride_partition(names, own, stride).contains(name) <==> exists|at: int|
            0 <= at < names.len() && selected(own, stride, at) && #[trigger] names[at] == name,
    decreases names.len(),
{
    let chosen = stride_partition(names, own, stride);
    if names.len() > 0 {
        let front_names = names.drop_last();
        let front = stride_partition(front_names, own, stride);
        let last = names.len() - 1;
        lemma_stride_partition_members(front_names, own, stride, name);
        if chosen.contains(name) {
            let k = choose|k: int| 0 <= k < chosen.len() && chosen[k] == name;
            if selected(own, stride, last) && k == front.len() {
                assert(names[last] == name);
            } else {
                assert(front[k] == name);
                assert(front.contains(name));
                let at = choose|at: int|
                    0 <= at < front_names.len() && selected(own, stride, at)
                        && #[trigger] front_names[at] == name;
                assert(names[at] == name);
            }
        }
        if exists|at: int|
            0 <= at < names.len() && selected(own, stride, at) && #[trigger] names[at] == name {
            let at = choose|at: int|
                0 <= at < names.len() && selected(own, stride, at) && #[trigger] names[at] == name;
            if at == last {
                assert(chosen[chosen.len() - 1] == name);
            } else {
                assert(front_names[at] == name);
                assert(front.contains(name));
                let k = choose|k: int| 0 <= k < front.len() && front[k] == name;
                assert(chosen[k] == name);
            }
        }
    }
}

} // verus!
