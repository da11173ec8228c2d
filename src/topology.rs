use vstd::prelude::*;

use crate::seqs::{copy_ids, ids};

verus! {

/// `v` with every occurrence of `me` left out, order kept.
pub open spec fn without(v: Seq<Seq<char>>, me: Seq<char>) -> Seq<Seq<char>>
    decreases v.len(),
{
    if v.len() == 0 {
        v
    } else {
        let rest = without(v.drop_last(), me);
        if v.last() == me {
            rest
        } else {
            rest.push(v.last())
        }
    }
}

/// The neighbour list that a topology mapping gives to `me`: the list of its
/// first entry keyed by `me`, if there is one.
pub open spec fn lookup(t: Seq<(String, Vec<String>)>, me: Seq<char>) -> Option<Seq<Seq<char>>>
    decreases t.len(),
{
    if t.len() == 0 {
        None
    } else if t[0].0@ == me {
        Some(ids(t[0].1@))
    } else {
        lookup(t.drop_first(), me)
    }
}

/// The initial neighbour set: every member of the cluster but `me`.
pub fn others(node_ids: &Vec<String>, me: &String) -> (r: Vec<String>)
    ensures
        ids(r@) == without(ids(node_ids@), me@),
{
    let mut r: Vec<String> = Vec::new();
    let mut i: usize = 0;
    while i < node_ids.len()
        invariant
            0 <= i <= node_ids.len(),
            ids(r@) == without(ids(node_ids@.take(i as int)), me@),
        decreases node_ids.len() - i,
    {
        let ghost before = r@;
        assert(ids(node_ids@.take(i as int + 1)).drop_last() =~= ids(node_ids@.take(i as int)));
        if node_ids[i] != *me {
            r.push(node_ids[i].clone());
            assert(ids(r@) =~= ids(before).push(node_ids@[i as int]@));
        }
        i = i + 1;
    }
    assert(node_ids@.take(node_ids.len() as int) =~= node_ids@);
    r
}

/// The neighbour list that `topology` gives to `me`, if it names `me`.
pub fn neighbours_in(topology: &Vec<(String, Vec<String>)>, me: &String) -> (r: Option<Vec<String>>)
    ensures
        match r {
            Some(v) => lookup(topology@, me@) == Some(ids(v@)),
            None => lookup(topology@, me@) is None,
        },
{
    let mut i: usize = 0;
    assert(topology@.subrange(0, topology@.len() as int) =~= topology@);
    while i < topology.len()
        invariant
            0 <= i <= topology.len(),
            lookup(topology@, me@) == lookup(topology@.subrange(i as int, topology@.len() as int), me@),
        decreases topology.len() - i,
    {
        let ghost rest = topology@.subrange(i as int, topology@.len() as int);
        assert(rest.drop_first() =~= topology@.subrange(i as int + 1, topology@.len() as int));
        if topology[i].0 == *me {
            return Some(copy_ids(&topology[i].1));
        }
        i = i + 1;
    }
    None
}

} // verus!
