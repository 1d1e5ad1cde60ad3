use vstd::prelude::*;

verus! {

/// The map an association list stands for; a later entry overrides an
/// earlier one with the same key.
pub open spec fn as_map<V>(s: Seq<(u32, V)>) -> Map<u32, V>
    decreases s.len(),
{
    if s.len() == 0 {
        Map::empty()
    } else {
        as_map(s.drop_last()).insert(s.last().0, s.last().1)
    }
}

/// No key occurs twice.
pub open spec fn keys_unique<V>(s: Seq<(u32, V)>) -> bool {
    forall|i: int, j: int|
        0 <= i < s.len() && 0 <= j < s.len() && #[trigger] s[i].0 == #[trigger] s[j].0 ==> i == j
}

pub proof fn lemma_as_map_push<V>(s: Seq<(u32, V)>, e: (u32, V))
    ensures
        as_map(s.push(e)) == as_map(s).insert(e.0, e.1),
{
    assert(s.push(e).drop_last() =~= s);
}

pub proof fn lemma_as_map_index<V>(s: Seq<(u32, V)>, i: int)
    requires
        keys_unique(s),
        0 <= i < s.len(),
    ensures
        as_map(s).contains_key(s[i].0),
        as_map(s)[s[i].0] == s[i].1,
    decreases s.len(),
{
    let t = s.drop_last();
    if i < s.len() - 1 {
        assert(t[i] == s[i]);
        assert(keys_unique(t));
        lemma_as_map_index(t, i);
        assert(s[i].0 != s.last().0);
    }
}

pub proof fn lemma_as_map_keys<V>(s: Seq<(u32, V)>, k: u32)
    ensures
        as_map(s).contains_key(k) <==> exists|i: int| 0 <= i < s.len() && #[trigger] s[i].0 == k,
    decreases s.len(),
{
    if s.len() > 0 {
        let t = s.drop_last();
        lemma_as_map_keys(t, k);
        if exists|i: int| 0 <= i < t.len() && #[trigger] t[i].0 == k {
            let i = choose|i: int| 0 <= i < t.len() && #[trigger] t[i].0 == k;
            assert(s[i].0 == k);
        }
        if exists|i: int| 0 <= i < s.len() && #[trigger] s[i].0 == k {
            let i = choose|i: int| 0 <= i < s.len() && #[trigger] s[i].0 == k;
            if i < s.len() - 1 {
                assert(t[i].0 == k);
            }
        }
    }
}

pub proof fn lemma_as_map_update<V>(s: Seq<(u32, V)>, i: int, v: V)
    requires
        keys_unique(s),
        0 <= i < s.len(),
    ensures
        as_map(s.update(i, (s[i].0, v))) == as_map(s).insert(s[i].0, v),
        keys_unique(s.update(i, (s[i].0, v))),
    decreases s.len(),
{
    let k = s[i].0;
    let u = s.update(i, (k, v));
    let t = s.drop_last();
    if i == s.len() - 1 {
        assert(u.drop_last() =~= t);
        assert(as_map(u) =~= as_map(s).insert(k, v));
    } else {
        assert(keys_unique(t));
        lemma_as_map_update(t, i, v);
        assert(u.drop_last() =~= t.update(i, (k, v)));
        assert(s.last().0 != k);
        assert(as_map(u) =~= as_map(s).insert(k, v));
    }
}

pub proof fn lemma_as_map_concat<V>(s: Seq<(u32, V)>, t: Seq<(u32, V)>, e: (u32, V))
    ensures
        as_map((s + t).push(e)) == as_map(s + t.push(e)),
{
    assert((s + t).push(e) =~= s + t.push(e));
}

/// Looking up the concatenation `s + t`: a key of `t` (whose keys are
/// unique) gives its value in `t`, any other key its value in `s`.
pub proof fn lemma_as_map_append<V>(s: Seq<(u32, V)>, t: Seq<(u32, V)>, k: u32)
    requires
        keys_unique(t),
    ensures
        forall|i: int|
            0 <= i < t.len() && #[trigger] t[i].0 == k ==> as_map(s + t).contains_key(k) && as_map(
                s + t,
            )[k] == t[i].1,
        (forall|i: int| 0 <= i < t.len() ==> #[trigger] t[i].0 != k) ==> as_map(s + t).contains_key(
            k,
        ) == as_map(s).contains_key(k) && as_map(s + t)[k] == as_map(s)[k],
    decreases t.len(),
{
    if t.len() == 0 {
        assert(s + t =~= s);
    } else {
        let u = t.drop_last();
        assert((s + t).drop_last() =~= s + u);
        assert(keys_unique(u));
        lemma_as_map_append(s, u, k);
        assert forall|i: int| 0 <= i < t.len() && #[trigger] t[i].0 == k implies as_map(s + t).contains_key(k) && as_map(s + t)[k] == t[i].1 by {
            if i < t.len() - 1 {
                assert(u[i] == t[i]);
                assert(t.last().0 != k);
            }
        }
        if forall|i: int| 0 <= i < t.len() ==> #[trigger] t[i].0 != k {
            assert(t.last().0 != k);
            assert forall|i: int| 0 <= i < u.len() implies #[trigger] u[i].0 != k by {
                assert(u[i] == t[i]);
            }
        }
    }
}

/// Keys in strictly increasing order.
pub open spec fn keys_increasing<V>(s: Seq<(u32, V)>) -> bool {
    forall|i: int, j: int| 0 <= i < j < s.len() ==> s[i].0 < s[j].0
}

/// With distinct keys, the map holds exactly the listed keys, each with its
/// listed value.
pub proof fn lemma_as_map_unique<V>(s: Seq<(u32, V)>)
    requires
        keys_unique(s),
    ensures
        forall|k: u32|
            #![trigger as_map(s).contains_key(k)]
            as_map(s).contains_key(k) <==> exists|i: int| 0 <= i < s.len() && #[trigger] s[i].0 == k,
        forall|i: int| 0 <= i < s.len() ==> #[trigger] as_map(s)[s[i].0] == s[i].1,
{
    assert forall|k: u32| as_map(s).contains_key(k) <==> exists|i: int| 0 <= i < s.len() && #[trigger] s[i].0 == k by {
        lemma_as_map_keys(s, k);
    }
    assert forall|i: int| 0 <= i < s.len() implies #[trigger] as_map(s)[s[i].0] == s[i].1 by {
        lemma_as_map_index(s, i);
    }
}

/// Sets the value of key `k`, keeping the keys in increasing order.
pub fn upsert_sorted<V>(s: &mut Vec<(u32, V)>, k: u32, v: V)
    requires
        keys_increasing(old(s)@),
    ensures
        keys_increasing(final(s)@),
        keys_unique(final(s)@),
        as_map(final(s)@) == as_map(old(s)@).insert(k, v),
        final(s)@.len() <= old(s)@.len() + 1,
{
    let ghost old_s = s@;
    let mut p: usize = 0;
    while p < s.len() && s[p].0 < k
        invariant
            s@ == old_s,
            p <= s.len(),
            forall|i: int| 0 <= i < p ==> s@[i].0 < k,
        decreases s.len() - p,
    {
        p = p + 1;
    }
    assert(keys_unique(old_s));
    proof {
        lemma_as_map_unique(old_s);
    }
    if p < s.len() && s[p].0 == k {
        proof {
            lemma_as_map_update(old_s, p as int, v);
        }
        s.set(p, (k, v));
        assert(keys_increasing(s@));
    } else {
        s.insert(p, (k, v));
        let ghost new_s = s@;
        assert(keys_increasing(new_s)) by {
            assert forall|i: int, j: int| 0 <= i < j < new_s.len() implies new_s[i].0 < new_s[j].0 by {
                if j < p {
                } else if i < p && j == p {
                } else if i < p {
                    assert(new_s[j] == old_s[j - 1]);
                } else if i == p {
                    assert(new_s[j] == old_s[j - 1]);
                    assert(old_s[p as int].0 > k);
                    assert(old_s[p as int].0 <= old_s[j - 1].0 || j - 1 == p);
                } else {
                    assert(new_s[i] == old_s[i - 1] && new_s[j] == old_s[j - 1]);
                }
            }
        }
        assert(keys_unique(new_s));
        proof {
            lemma_as_map_unique(new_s);
            assert forall|k2: u32| as_map(new_s).contains_key(k2) == as_map(old_s).insert(k, v).contains_key(k2) by {
                if exists|i: int| 0 <= i < old_s.len() && #[trigger] old_s[i].0 == k2 {
                    let i = choose|i: int| 0 <= i < old_s.len() && #[trigger] old_s[i].0 == k2;
                    if i < p {
                        assert(new_s[i].0 == k2);
                    } else {
                        assert(new_s[i + 1].0 == k2);
                    }
                }
                if exists|i: int| 0 <= i < new_s.len() && #[trigger] new_s[i].0 == k2 {
                    let i = choose|i: int| 0 <= i < new_s.len() && #[trigger] new_s[i].0 == k2;
                    if i < p {
                        assert(old_s[i].0 == k2);
                    } else if i > p {
                        assert(old_s[i - 1].0 == k2);
                    }
                }
                assert(new_s[p as int].0 == k);
            }
            assert forall|k2: u32| #[trigger] as_map(new_s).contains_key(k2) implies as_map(new_s)[k2] == as_map(old_s).insert(k, v)[k2] by {
                let i = choose|i: int| 0 <= i < new_s.len() && #[trigger] new_s[i].0 == k2;
                assert(as_map(new_s)[new_s[i].0] == new_s[i].1);
                if i < p {
                    assert(old_s[i] == new_s[i]);
                    assert(as_map(old_s)[old_s[i].0] == old_s[i].1);
                } else if i > p {
                    assert(old_s[i - 1] == new_s[i]);
                    assert(as_map(old_s)[old_s[i - 1].0] == old_s[i - 1].1);
                }
            }
            assert(as_map(new_s) =~= as_map(old_s).insert(k, v));
        }
    }
}

/// Whether `x` occurs in `xs`.
pub fn contains_u32(xs: &Vec<u32>, x: u32) -> (r: bool)
    ensures
        r == xs@.contains(x),
{
    let mut i: usize = 0;
    while i < xs.len()
        invariant
            i <= xs.len(),
            forall|k: int| 0 <= k < i ==> xs@[k] != x,
        decreases xs.len() - i,
    {
        if xs[i] == x {
            return true;
        }
        i = i + 1;
    }
    false
}

/// Index of the entry with key `k`.
pub fn find_key<V>(s: &Vec<(u32, V)>, k: u32) -> (r: Option<usize>)
    ensures
        r matches Some(i) ==> i < s.len() && s@[i as int].0 == k,
        r is None ==> forall|i: int| 0 <= i < s.len() ==> #[trigger] s@[i].0 != k,
        r is None ==> !as_map(s@).contains_key(k),
{
    let mut i: usize = 0;
    while i < s.len()
        invariant
            i <= s.len(),
            forall|j: int| 0 <= j < i ==> #[trigger] s@[j].0 != k,
        decreases s.len() - i,
    {
        if s[i].0 == k {
            return Some(i);
        }
        i = i + 1;
    }
    proof {
        lemma_as_map_keys(s@, k);
    }
    None
}

/// Sets the value of key `k`, adding an entry when there is none.
pub fn upsert<V>(s: &mut Vec<(u32, V)>, k: u32, v: V)
    requires
        keys_unique(old(s)@),
    ensures
        keys_unique(final(s)@),
        as_map(final(s)@) == as_map(old(s)@).insert(k, v),
        final(s)@.len() <= old(s)@.len() + 1,
{
    match find_key(s, k) {
        Some(i) => {
            proof {
                lemma_as_map_update(s@, i as int, v);
            }
            s.set(i, (k, v));
        },
        None => {
            proof {
                lemma_as_map_push(s@, (k, v));
            }
            s.push((k, v));
        },
    }
}

} // verus!
