use vstd::prelude::*;

verus! {

/// The character sequences of a list of strings.
pub open spec fn ids(v: Seq<String>) -> Seq<Seq<char>> {
    v.map_values(|s: String| s@)
}

/// Whether `v` holds no value twice.
pub open spec fn distinct(v: Seq<usize>) -> bool {
    forall|i: int, j: int| 0 <= i < j < v.len() ==> v[i] != v[j]
}

/// `v` with `x` added unless it is there already.
pub open spec fn with_value(v: Seq<usize>, x: usize) -> Seq<usize> {
    if v.contains(x) {
        v
    } else {
        v.push(x)
    }
}

/// `mine` with each value of `theirs` that it lacks added, in order.
pub open spec fn merged(mine: Seq<usize>, theirs: Seq<usize>) -> Seq<usize>
    decreases theirs.len(),
{
    if theirs.len() == 0 {
        mine
    } else {
        with_value(merged(mine, theirs.drop_last()), theirs.last())
    }
}

/// The values of `mine`, in order, that `theirs` lacks.
pub open spec fn minus(mine: Seq<usize>, theirs: Seq<usize>) -> Seq<usize>
    decreases mine.len(),
{
    if mine.len() == 0 {
        mine
    } else {
        let r = minus(mine.drop_last(), theirs);
        if theirs.contains(mine.last()) {
            r
        } else {
            r.push(mine.last())
        }
    }
}

/// Adding a value keeps a list free of repeats, and adds it to the set.
pub proof fn lemma_with_value(v: Seq<usize>, x: usize)
    requires
        distinct(v),
    ensures
        distinct(with_value(v, x)),
        with_value(v, x).to_set() == v.to_set().insert(x),
        with_value(v, x).len() >= v.len(),
{
    if !v.contains(x) {
        assert forall|a: int, b: int| 0 <= a < b < v.push(x).len() implies v.push(x)[a] != v.push(x)[b] by {
            if b == v.len() {
                assert(v[a] == v.push(x)[a]);
            }
        }
        v.lemma_push_to_set_commute(x);
    } else {
        assert(v.to_set().insert(x) =~= v.to_set());
    }
}

/// Merging keeps a list free of repeats; its set is the union of both sets,
/// and it grew exactly when `theirs` held a value that `mine` lacked.
pub proof fn lemma_merged(mine: Seq<usize>, theirs: Seq<usize>)
    requires
        distinct(mine),
    ensures
        distinct(merged(mine, theirs)),
        merged(mine, theirs).to_set() == mine.to_set().union(theirs.to_set()),
        merged(mine, theirs).len() >= mine.len(),
        (merged(mine, theirs).len() == mine.len()) == theirs.to_set().subset_of(mine.to_set()),
        (merged(mine, theirs).len() == mine.len()) ==> merged(mine, theirs) == mine,
    decreases theirs.len(),
{
    if theirs.len() == 0 {
        assert(mine.to_set().union(theirs.to_set()) =~= mine.to_set());
    } else {
        let rest = theirs.drop_last();
        let m = merged(mine, rest);
        lemma_merged(mine, rest);
        lemma_with_value(m, theirs.last());
        assert(theirs =~= rest.push(theirs.last()));
        rest.lemma_push_to_set_commute(theirs.last());
        assert(mine.to_set().union(theirs.to_set()) =~= mine.to_set().union(rest.to_set()).insert(theirs.last()));
        if m.len() == mine.len() && !m.contains(theirs.last()) {
            assert(!mine.to_set().contains(theirs.last()));
        }
        if merged(mine, theirs).len() == mine.len() {
            assert(m.contains(theirs.last()));
            assert(m.to_set().contains(theirs.last()));
        }
        if theirs.to_set().subset_of(mine.to_set()) {
            assert(rest.to_set().subset_of(mine.to_set()));
            assert(mine.to_set().contains(theirs.last()));
            assert(m.contains(theirs.last()));
        }
    }
}

/// The set of `minus(mine, theirs)` is the set difference.
pub proof fn lemma_minus(mine: Seq<usize>, theirs: Seq<usize>)
    ensures
        minus(mine, theirs).to_set() == mine.to_set().difference(theirs.to_set()),
    decreases mine.len(),
{
    if mine.len() == 0 {
        assert(mine.to_set().difference(theirs.to_set()) =~= Set::empty());
        assert(minus(mine, theirs).to_set() =~= Set::empty());
    } else {
        let rest = mine.drop_last();
        lemma_minus(rest, theirs);
        assert(mine =~= rest.push(mine.last()));
        rest.lemma_push_to_set_commute(mine.last());
        if theirs.contains(mine.last()) {
            assert(mine.to_set().difference(theirs.to_set()) =~= rest.to_set().difference(theirs.to_set()));
        } else {
            minus(rest, theirs).lemma_push_to_set_commute(mine.last());
            assert(mine.to_set().difference(theirs.to_set()) =~= rest.to_set().difference(theirs.to_set()).insert(mine.last()));
        }
    }
}

/// Adds to `v` each value of `theirs` that it lacks; tells whether any was.
pub fn merge_into(v: &mut Vec<usize>, theirs: &Vec<usize>) -> (grew: bool)
    ensures
        final(v)@ == merged(old(v)@, theirs@),
        grew == (final(v)@ != old(v)@),
{
    let ghost v0 = v@;
    let mut grew = false;
    let mut i: usize = 0;
    while i < theirs.len()
        invariant
            0 <= i <= theirs.len(),
            v@ == merged(v0, theirs@.take(i as int)),
            grew == (v@.len() != v0.len()),
            v@.len() >= v0.len(),
            !grew ==> v@ == v0,
        decreases theirs.len() - i,
    {
        assert(theirs@.take(i as int + 1).drop_last() =~= theirs@.take(i as int));
        assert(theirs@.take(i as int + 1).last() == theirs@[i as int]);
        if !contains_value(v, theirs[i]) {
            v.push(theirs[i]);
            grew = true;
        }
        i = i + 1;
    }
    assert(theirs@.take(theirs.len() as int) =~= theirs@);
    grew
}

/// The values of `mine`, in order, that `theirs` lacks.
pub fn minus_values(mine: &Vec<usize>, theirs: &Vec<usize>) -> (r: Vec<usize>)
    ensures
        r@ == minus(mine@, theirs@),
{
    let mut r: Vec<usize> = Vec::new();
    let mut i: usize = 0;
    while i < mine.len()
        invariant
            0 <= i <= mine.len(),
            r@ == minus(mine@.take(i as int), theirs@),
        decreases mine.len() - i,
    {
        assert(mine@.take(i as int + 1).drop_last() =~= mine@.take(i as int));
        assert(mine@.take(i as int + 1).last() == mine@[i as int]);
        if !contains_value(theirs, mine[i]) {
            r.push(mine[i]);
        }
        i = i + 1;
    }
    assert(mine@.take(mine.len() as int) =~= mine@);
    r
}

/// Whether `list` holds a string equal to `s`.
pub fn contains_id(list: &Vec<String>, s: &String) -> (r: bool)
    ensures
        r == ids(list@).contains(s@),
{
    let mut i: usize = 0;
    while i < list.len()
        invariant
            0 <= i <= list.len(),
            forall|j: int| 0 <= j < i ==> list@[j]@ != s@,
        decreases list.len() - i,
    {
        if list[i] == *s {
            assert(ids(list@)[i as int] == s@);
            return true;
        }
        i = i + 1;
    }
    proof {
        if ids(list@).contains(s@) {
            let k = choose|k: int| 0 <= k < ids(list@).len() && ids(list@)[k] == s@;
            assert(list@[k]@ == s@);
        }
    }
    false
}

/// Whether `list` holds `x`.
pub fn contains_value(list: &Vec<usize>, x: usize) -> (r: bool)
    ensures
        r == list@.contains(x),
{
    let mut i: usize = 0;
    while i < list.len()
        invariant
            0 <= i <= list.len(),
            forall|j: int| 0 <= j < i ==> list@[j] != x,
        decreases list.len() - i,
    {
        if list[i] == x {
            return true;
        }
        i = i + 1;
    }
    false
}

/// A copy of a list of values.
pub fn copy_values(list: &Vec<usize>) -> (r: Vec<usize>)
    ensures
        r@ == list@,
{
    let mut r: Vec<usize> = Vec::new();
    let mut i: usize = 0;
    while i < list.len()
        invariant
            0 <= i <= list.len(),
            r@ == list@.take(i as int),
        decreases list.len() - i,
    {
        r.push(list[i]);
        i = i + 1;
        assert(r@ =~= list@.take(i as int));
    }
    assert(list@.take(list.len() as int) =~= list@);
    r
}

/// A copy of a list of strings.
pub fn copy_ids(list: &Vec<String>) -> (r: Vec<String>)
    ensures
        ids(r@) == ids(list@),
{
    let mut r: Vec<String> = Vec::new();
    let mut i: usize = 0;
    while i < list.len()
        invariant
            0 <= i <= list.len(),
            r@.len() == i,
            forall|j: int| 0 <= j < i ==> r@[j]@ == list@[j]@,
        decreases list.len() - i,
    {
        r.push(list[i].clone());
        i = i + 1;
    }
    assert(ids(r@) =~= ids(list@));
    r
}

} // verus!
