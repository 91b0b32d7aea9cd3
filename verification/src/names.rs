//! Node identifiers: lists of names and how they are searched.

use vstd::prelude::*;

verus! {

/// The identifiers in `list`, each as the characters it is made of.
pub open spec fn names_of(list: Seq<String>) -> Seq<Seq<char>> {
    Seq::new(list.len(), |i: int| list[i]@)
}

/// No identifier occurs twice in `names`.
pub open spec fn distinct(names: Seq<Seq<char>>) -> bool {
    forall|i: int, j: int| 0 <= i < j < names.len() ==> names[i] != names[j]
}

/// The first position at which `name` occurs in `names`, if it occurs.
pub open spec fn first_position(names: Seq<Seq<char>>, name: Seq<char>) -> Option<int>
    decreases names.len(),
{
    if names.len() == 0 {
        None
    } else if names[0] == name {
        Some(0int)
    } else {
        match first_position(names.drop_first(), name) {
            Some(i) => Some(i + 1),
            None => None,
        }
    }
}

/// `first_position` finds the least index that holds the name, and finds one
/// whenever the name occurs.
pub proof fn lemma_first_position(names: Seq<Seq<char>>, name: Seq<char>)
    ensures
        match first_position(names, name) {
            Some(i) => {
                &&& 0 <= i < names.len()
                &&& names[i] == name
                &&& forall|k: int| 0 <= k < i ==> names[k] != name
            },
            None => !names.contains(name),
        },
    decreases names.len(),
{
    if names.len() > 0 && names[0] != name {
        let rest = names.drop_first();
        lemma_first_position(rest, name);
        match first_position(rest, name) {
            Some(i) => {
                assert forall|k: int| 0 <= k < i + 1 implies names[k] != name by {
                    if k > 0 {
                        assert(rest[k - 1] == names[k]);
                    }
                }
            },
            None => {
                assert forall|k: int| 0 <= k < names.len() implies names[k] != name by {
                    if k > 0 {
                        assert(rest[k - 1] == names[k]);
                        assert(rest.contains(rest[k - 1]));
                    }
                }
            },
        }
    }
}

/// Appending a name that does not occur yet makes it found at the new last
/// position.
pub proof fn lemma_first_position_push(names: Seq<Seq<char>>, name: Seq<char>)
    requires
        first_position(names, name) is None,
    ensures
        first_position(names.push(name), name) == Some(names.len() as int),
    decreases names.len(),
{
    if names.len() > 0 {
        assert(names.push(name).drop_first() == names.drop_first().push(name));
        lemma_first_position_push(names.drop_first(), name);
    } else {
        assert(names.push(name)[0] == name);
    }
}

/// Appending a name leaves the position of every other name as it was.
pub proof fn lemma_first_position_push_other(
    names: Seq<Seq<char>>,
    name: Seq<char>,
    other: Seq<char>,
)
    requires
        other != name,
    ensures
        first_position(names.push(name), other) == first_position(names, other),
    decreases names.len(),
{
    if names.len() > 0 {
        assert(names.push(name).drop_first() == names.drop_first().push(name));
        assert(names.push(name)[0] == names[0]);
        lemma_first_position_push_other(names.drop_first(), name, other);
    } else {
        assert(names.push(name).drop_first() == Seq::<Seq<char>>::empty());
        assert(names.push(name)[0] == name);
        assert(first_position(Seq::<Seq<char>>::empty(), other) is None);
    }
}

/// The first position of `name` in `list`.
pub fn position_of(list: &Vec<String>, name: &str) -> (found: Option<usize>)
    ensures
        match found {
            Some(i) => first_position(names_of(list@), name@) == Some(i as int),
            None => first_position(names_of(list@), name@) is None,
        },
{
    let key = name.to_owned();
    let mut i: usize = 0;
    while i < list.len()
        invariant
            i <= list@.len(),
            key@ == name@,
            forall|k: int| 0 <= k < i ==> list@[k]@ != name@,
        decreases list@.len() - i,
    {
        if list[i] == key {
            proof {
                let names = names_of(list@);
                lemma_first_position(names, name@);
                assert(names[i as int] == name@);
                assert(names.contains(name@));
                assert(forall|k: int| 0 <= k < i ==> names[k] != name@);
            }
            return Some(i);
        }
        i += 1;
    }
    proof {
        let names = names_of(list@);
        lemma_first_position(names, name@);
        assert(forall|k: int| 0 <= k < names.len() ==> names[k] != name@);
    }
    None
}

/// Whether `name` occurs in `list`.
pub fn has_name(list: &Vec<String>, name: &str) -> (found: bool)
    ensures
        found == names_of(list@).contains(name@),
{
    let at = position_of(list, name);
    proof {
        lemma_first_position(names_of(list@), name@);
    }
    at.is_some()
}

/// A copy of `list`.
pub fn clone_names(list: &Vec<String>) -> (copy: Vec<String>)
    ensures
        copy@ == list@,
{
    let mut copy: Vec<String> = Vec::new();
    let mut i: usize = 0;
    while i < list.len()
        invariant
            i <= list@.len(),
            copy@ == list@.take(i as int),
        decreases list@.len() - i,
    {
        copy.push(list[i].clone());
        proof {
            assert(list@.take(i as int + 1) == list@.take(i as int).push(list@[i as int]));
        }
        i += 1;
    }
    proof {
        assert(list@.take(list@.len() as int) == list@);
    }
    copy
}

/// The test a name passes if its being among `others` is as `wanted` says.
pub open spec fn membership(others: Seq<Seq<char>>, wanted: bool) -> spec_fn(Seq<char>) -> bool {
    |name: Seq<char>| others.contains(name) == wanted
}

/// The names of `names` that are also among `others`, in their order.
pub open spec fn common_names(names: Seq<Seq<char>>, others: Seq<Seq<char>>) -> Seq<Seq<char>> {
    names.filter(membership(others, true))
}

/// The names of `names` that are not among `others`, in their order.
pub open spec fn other_names(names: Seq<Seq<char>>, others: Seq<Seq<char>>) -> Seq<Seq<char>> {
    names.filter(membership(others, false))
}

/// `names` without repetitions: each name where it first occurs.
pub open spec fn unique(names: Seq<Seq<char>>) -> Seq<Seq<char>>
    decreases names.len(),
{
    if names.len() == 0 {
        Seq::empty()
    } else {
        let front = unique(names.drop_last());
        if front.contains(names.last()) {
            front
        } else {
            front.push(names.last())
        }
    }
}

/// A list without repetitions holds no name twice.
pub proof fn lemma_unique_distinct(names: Seq<Seq<char>>)
    ensures
        distinct(unique(names)),
    decreases names.len(),
{
    let kept = unique(names);
    if names.len() > 0 {
        let front = unique(names.drop_last());
        lemma_unique_distinct(names.drop_last());
        if !front.contains(names.last()) {
            assert forall|i: int, j: int| 0 <= i < j < kept.len() implies kept[i] != kept[j] by {
                if j == front.len() {
                    assert(front.contains(front[i]));
                }
            }
        }
    }
}

/// Appending a name to a list appends its characters to the list's names.
pub proof fn lemma_names_push(list: Seq<String>, name: String)
    ensures
        names_of(list.push(name)) == names_of(list).push(name@),
{
    assert(names_of(list.push(name)) =~= names_of(list).push(name@));
}

/// The names of `list` whose being among `others` is as `wanted` says.
pub fn select(list: &Vec<String>, others: &Vec<String>, wanted: bool) -> (chosen: Vec<String>)
    ensures
        names_of(chosen@) == names_of(list@).filter(membership(names_of(others@), wanted)),
{
    let ghost names = names_of(list@);
    let ghost test = membership(names_of(others@), wanted);
    let mut chosen: Vec<String> = Vec::new();
    let mut i: usize = 0;
    proof {
        assert(names.take(0) =~= Seq::<Seq<char>>::empty());
        assert(names_of(chosen@) =~= Seq::<Seq<char>>::empty());
        reveal(Seq::filter);
    }
    while i < list.len()
        invariant
            i <= list@.len(),
            names == names_of(list@),
            test == membership(names_of(others@), wanted),
            names_of(chosen@) == names.take(i as int).filter(test),
        decreases list@.len() - i,
    {
        let found = has_name(others, list[i].as_str());
        proof {
            names.take(i as int).lemma_filter_push(names[i as int], test);
            assert(names.take(i as int).push(names[i as int]) =~= names.take(i as int + 1));
        }
        if found == wanted {
            let ghost before = chosen@;
            chosen.push(list[i].clone());
            proof {
                lemma_names_push(before, list@[i as int]);
            }
        }
        i += 1;
    }
    proof {
        assert(names.take(names.len() as int) =~= names);
    }
    chosen
}

/// `list` without repetitions.
pub fn dedup(list: &Vec<String>) -> (chosen: Vec<String>)
    ensures
        names_of(chosen@) == unique(names_of(list@)),
{
    let ghost names = names_of(list@);
    let mut chosen: Vec<String> = Vec::new();
    let mut i: usize = 0;
    proof {
        assert(names.take(0) =~= Seq::<Seq<char>>::empty());
        assert(names_of(chosen@) =~= Seq::<Seq<char>>::empty());
    }
    while i < list.len()
        invariant
            i <= list@.len(),
            names == names_of(list@),
            names_of(chosen@) == unique(names.take(i as int)),
        decreases list@.len() - i,
    {
        let seen = has_name(&chosen, list[i].as_str());
        proof {
            let next = names.take(i as int + 1);
            assert(next.drop_last() =~= names.take(i as int));
            assert(next.last() == names[i as int]);
        }
        if !seen {
            let ghost before = chosen@;
            chosen.push(list[i].clone());
            proof {
                lemma_names_push(before, list@[i as int]);
            }
        }
        i += 1;
    }
    proof {
        assert(names.take(names.len() as int) =~= names);
    }
    chosen
}

/// A copy of `values`.
pub fn clone_values(values: &Vec<usize>) -> (copy: Vec<usize>)
    ensures
        copy@ == values@,
{
    let mut copy: Vec<usize> = Vec::new();
    let mut i: usize = 0;
    while i < values.len()
        invariant
            i <= values@.len(),
            copy@ == values@.take(i as int),
        decreases values@.len() - i,
    {
        copy.push(values[i]);
        proof {
            assert(values@.take(i as int + 1) == values@.take(i as int).push(values@[i as int]));
        }
        i += 1;
    }
    proof {
        assert(values@.take(values@.len() as int) == values@);
    }
    copy
}

} // verus!
