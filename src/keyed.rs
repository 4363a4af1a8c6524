use vstd::prelude::*;

verus! {

/// A sequence of key-value pairs read as a map, the last pair of a key
/// winning.
pub open spec fn map_of<K, V>(s: Seq<(K, V)>) -> Map<K, V>
    decreases s.len(),
{
    if s.len() == 0 {
        Map::empty()
    } else {
        map_of(s.drop_last()).insert(s.last().0, s.last().1)
    }
}

pub open spec fn unique_keys<K, V>(s: Seq<(K, V)>) -> bool {
    forall|i: int, j: int| 0 <= i < j < s.len() ==> #[trigger] s[i].0 != #[trigger] s[j].0
}

pub proof fn lemma_map_of<K, V>(s: Seq<(K, V)>)
    requires
        unique_keys(s),
    ensures
        forall|k: K|
            #[trigger] map_of(s).contains_key(k) <==> exists|i: int| 0 <= i < s.len() && s[i].0 == k,
        forall|i: int| 0 <= i < s.len() ==> #[trigger] map_of(s)[s[i].0] == s[i].1,
    decreases s.len(),
{
    if s.len() > 0 {
        let p = s.drop_last();
        assert(unique_keys(p));
        lemma_map_of(p);
        assert forall|k: K| #[trigger] map_of(s).contains_key(k) <==> exists|i: int|
            0 <= i < s.len() && s[i].0 == k by {
            if map_of(s).contains_key(k) {
                if k == s.last().0 {
                    assert(s[s.len() - 1].0 == k);
                } else {
                    assert(map_of(p).contains_key(k));
                    let i = choose|i: int| 0 <= i < p.len() && p[i].0 == k;
                    assert(s[i] == p[i]);
                }
            }
            if exists|i: int| 0 <= i < s.len() && s[i].0 == k {
                let i = choose|i: int| 0 <= i < s.len() && s[i].0 == k;
                if i < s.len() - 1 {
                    assert(p[i] == s[i]);
                    assert(map_of(p).contains_key(k));
                }
            }
        }
        assert forall|i: int| 0 <= i < s.len() implies #[trigger] map_of(s)[s[i].0] == s[i].1 by {
            if i < s.len() - 1 {
                assert(p[i] == s[i]);
                assert(s[i].0 != s[s.len() - 1].0);
                assert(map_of(p)[p[i].0] == p[i].1);
            }
        }
    }
}

pub proof fn lemma_map_of_update<K, V>(s: Seq<(K, V)>, i: int, v: V)
    requires
        unique_keys(s),
        0 <= i < s.len(),
    ensures
        unique_keys(s.update(i, (s[i].0, v))),
        map_of(s.update(i, (s[i].0, v))) == map_of(s).insert(s[i].0, v),
    decreases s.len(),
{
    let u = s.update(i, (s[i].0, v));
    assert forall|x: int, y: int| 0 <= x < y < u.len() implies #[trigger] u[x].0
        != #[trigger] u[y].0 by {
        assert(u[x].0 == s[x].0);
        assert(u[y].0 == s[y].0);
    }
    let p = s.drop_last();
    assert(unique_keys(p));
    if i == s.len() - 1 {
        assert(u.drop_last() =~= p);
        assert(map_of(u) =~= map_of(s).insert(s[i].0, v));
    } else {
        lemma_map_of_update(p, i, v);
        assert(u.drop_last() =~= p.update(i, (p[i].0, v)));
        assert(s.last().0 != s[i].0);
        assert(map_of(u) =~= map_of(s).insert(s[i].0, v));
    }
}

pub proof fn lemma_map_of_push<K, V>(s: Seq<(K, V)>, k: K, v: V)
    requires
        unique_keys(s),
        !map_of(s).contains_key(k),
    ensures
        unique_keys(s.push((k, v))),
        map_of(s.push((k, v))) == map_of(s).insert(k, v),
{
    lemma_map_of(s);
    let u = s.push((k, v));
    assert(u.drop_last() =~= s);
    assert forall|x: int, y: int| 0 <= x < y < u.len() implies #[trigger] u[x].0
        != #[trigger] u[y].0 by {
        if y == s.len() {
            assert(u[x] == s[x]);
        } else {
            assert(u[x] == s[x] && u[y] == s[y]);
        }
    }
}

pub proof fn lemma_map_of_remove<K, V>(s: Seq<(K, V)>, i: int)
    requires
        unique_keys(s),
        0 <= i < s.len(),
    ensures
        unique_keys(s.remove(i)),
        map_of(s.remove(i)) == map_of(s).remove(s[i].0),
    decreases s.len(),
{
    let u = s.remove(i);
    assert forall|x: int, y: int| 0 <= x < y < u.len() implies #[trigger] u[x].0
        != #[trigger] u[y].0 by {
        let ox = if x < i { x } else { x + 1 };
        let oy = if y < i { y } else { y + 1 };
        assert(u[x] == s[ox]);
        assert(u[y] == s[oy]);
    }
    let p = s.drop_last();
    assert(unique_keys(p));
    lemma_map_of(p);
    if i == s.len() - 1 {
        assert(u =~= p);
        assert(!map_of(p).contains_key(s[i].0)) by {
            if map_of(p).contains_key(s[i].0) {
                let j = choose|j: int| 0 <= j < p.len() && p[j].0 == s[i].0;
                assert(s[j] == p[j]);
            }
        }
        assert(map_of(u) =~= map_of(s).remove(s[i].0));
    } else {
        lemma_map_of_remove(p, i);
        assert(u.drop_last() =~= p.remove(i));
        assert(u.last() == s.last());
        assert(s.last().0 != s[i].0);
        assert(map_of(u) =~= map_of(s).remove(s[i].0));
    }
}

} // verus!
