use vstd::prelude::*;

verus! {

broadcast use vstd::seq::Seq::lemma_flatten_push;

/// Index of the last parent whose id is `key`, or -1 when there is none.
///
/// A later parent with the same id overrides an earlier one, as it does when
/// the ids are collected into a map from id to position.
pub open spec fn last_index_of(ids: Seq<u128>, key: u128) -> int
    decreases ids.len(),
{
    if ids.len() == 0 {
        -1
    } else if ids.last() == key {
        ids.len() - 1
    } else {
        last_index_of(ids.drop_last(), key)
    }
}

/// Every child key names some parent.
pub open spec fn keys_resolve(keys: Seq<u128>, ids: Seq<u128>) -> bool {
    forall|i: int| 0 <= i < keys.len() ==> #[trigger] ids.contains(keys[i])
}

/// Some child key resolves to parent `i`.
pub open spec fn parent_has_child(keys: Seq<u128>, ids: Seq<u128>, i: int) -> bool {
    exists|k: int| 0 <= k < keys.len() && last_index_of(ids, #[trigger] keys[k]) == i
}

/// The children (in their order) whose key resolves to parent `j`.
pub open spec fn group_at<C>(children: Seq<C>, keys: Seq<u128>, ids: Seq<u128>, j: int) -> Seq<C>
    decreases children.len(),
{
    if children.len() == 0 {
        Seq::empty()
    } else {
        let rest = group_at(children.drop_last(), keys.take(children.len() - 1), ids, j);
        if last_index_of(ids, keys[children.len() - 1]) == j {
            rest.push(children.last())
        } else {
            rest
        }
    }
}

pub proof fn lemma_last_index_of_bounds(ids: Seq<u128>, key: u128)
    ensures
        -1 <= last_index_of(ids, key) < ids.len(),
        ids.contains(key) ==> 0 <= last_index_of(ids, key),
        0 <= last_index_of(ids, key) ==> ids[last_index_of(ids, key)] == key,
        forall|k: int| last_index_of(ids, key) < k < ids.len() ==> ids[k] != key,
    decreases ids.len(),
{
    if ids.len() > 0 {
        lemma_last_index_of_bounds(ids.drop_last(), key);
        if ids.contains(key) && ids.last() != key {
            let w = choose|w: int| 0 <= w < ids.len() && ids[w] == key;
            assert(ids.drop_last()[w] == key);
        }
        if ids.last() != key {
            assert forall|k: int| last_index_of(ids, key) < k < ids.len() implies ids[k] != key by {
                if k < ids.len() - 1 {
                    assert(ids.drop_last()[k] == ids[k]);
                }
            }
        }
    }
}

/// Position of the last entry of `ids` equal to `key`; the key must occur.
pub(crate) fn find_last(ids: &Vec<u128>, key: u128) -> (r: usize)
    requires
        ids@.contains(key),
    ensures
        r as int == last_index_of(ids@, key),
        r < ids@.len(),
{
    proof {
        lemma_last_index_of_bounds(ids@, key);
    }
    let mut i = ids.len();
    while i > 0
        invariant
            i <= ids@.len(),
            last_index_of(ids@, key) < i,
            forall|k: int| i <= k < ids@.len() ==> ids@[k] != key,
            ids@.contains(key),
            0 <= last_index_of(ids@, key),
            ids@[last_index_of(ids@, key)] == key,
            forall|k: int| last_index_of(ids@, key) < k < ids@.len() ==> ids@[k] != key,
        decreases i,
    {
        if ids[i - 1] == key {
            return i - 1;
        }
        i = i - 1;
    }
    0
}

/// Splits `children` among the parents: group `j` holds, in order, the
/// children whose key is the id of parent `j` (the last parent carrying that
/// id, where ids repeat).
pub fn grouped_by<C>(children: Vec<C>, keys: &Vec<u128>, parent_ids: &Vec<u128>) -> (groups: Vec<Vec<C>>)
    requires
        keys@.len() == children@.len(),
        keys_resolve(keys@, parent_ids@),
    ensures
        groups@.len() == parent_ids@.len(),
        forall|j: int| 0 <= j < parent_ids@.len() ==>
            (#[trigger] groups@[j])@ == group_at(children@, keys@, parent_ids@, j),
{
    let mut groups: Vec<Vec<C>> = Vec::new();
    let m = parent_ids.len();
    for j in 0..m
        invariant
            groups@.len() == j,
            forall|k: int| 0 <= k < j ==> (#[trigger] groups@[k])@ == Seq::<C>::empty(),
    {
        groups.push(Vec::new());
    }
    let ghost all = children@;
    let n = children.len();
    let mut i: usize = 0;
    for c in it: children.into_iter()
        invariant
            i == it.index(),
            it.seq() == all,
            n == all.len(),
            keys@.len() == n,
            keys_resolve(keys@, parent_ids@),
            groups@.len() == parent_ids@.len(),
            forall|j: int| 0 <= j < parent_ids@.len() ==>
                (#[trigger] groups@[j])@ == group_at(all.take(i as int), keys@.take(i as int), parent_ids@, j),
    {
        assert(parent_ids@.contains(keys@[i as int]));
        let t = find_last(parent_ids, keys[i]);
        proof {
            assert(all.take(i + 1).drop_last() =~= all.take(i as int));
            assert(keys@.take(i + 1).take(i as int) =~= keys@.take(i as int));
        }
        groups[t].push(c);
        i = i + 1;
    }
    proof {
        assert(all.take(n as int) =~= all);
        assert(keys@.take(n as int) =~= keys@);
    }
    groups
}


/// Mapping the children commutes with grouping them.
pub proof fn lemma_group_at_map<A, B>(s: Seq<A>, keys: Seq<u128>, ids: Seq<u128>, j: int, f: spec_fn(A) -> B)
    requires
        keys.len() == s.len(),
    ensures
        group_at(s, keys, ids, j).map_values(f) == group_at(s.map_values(f), keys, ids, j),
    decreases s.len(),
{
    if s.len() > 0 {
        let n = s.len() - 1;
        lemma_group_at_map(s.drop_last(), keys.take(n), ids, j, f);
        assert(s.map_values(f).drop_last() =~= s.drop_last().map_values(f));
        let r = group_at(s.drop_last(), keys.take(n), ids, j);
        if last_index_of(ids, keys[n]) == j {
            assert(r.push(s.last()).map_values(f) =~= r.map_values(f).push(f(s.last())));
        }
    }
}

/// A group is non-empty exactly when some child key resolves to its parent.
pub proof fn lemma_group_nonempty<C>(s: Seq<C>, keys: Seq<u128>, ids: Seq<u128>, j: int)
    requires
        keys.len() == s.len(),
    ensures
        group_at(s, keys, ids, j).len() > 0 <==> exists|k: int| 0 <= k < keys.len() && last_index_of(ids, #[trigger] keys[k]) == j,
    decreases s.len(),
{
    if s.len() > 0 {
        let n = s.len() - 1;
        lemma_group_nonempty(s.drop_last(), keys.take(n), ids, j);
        if exists|k: int| 0 <= k < keys.len() && last_index_of(ids, #[trigger] keys[k]) == j {
            let k = choose|k: int| 0 <= k < keys.len() && last_index_of(ids, #[trigger] keys[k]) == j;
            if k < n {
                assert(keys.take(n)[k] == keys[k]);
            }
        }
        if exists|k: int| 0 <= k < n && last_index_of(ids, #[trigger] keys.take(n)[k]) == j {
            let k = choose|k: int| 0 <= k < n && last_index_of(ids, #[trigger] keys.take(n)[k]) == j;
            assert(keys[k] == keys.take(n)[k]);
        }
    }
}

/// The group length is the number of children whose key resolves to the parent.
pub proof fn lemma_group_at_len_le<C>(s: Seq<C>, keys: Seq<u128>, ids: Seq<u128>, j: int)
    requires
        keys.len() == s.len(),
    ensures
        group_at(s, keys, ids, j).len() <= s.len(),
    decreases s.len(),
{
    if s.len() > 0 {
        lemma_group_at_len_le(s.drop_last(), keys.take(s.len() - 1), ids, j);
    }
}

/// Each member of a group is one of the children.
pub proof fn lemma_group_at_members<C>(s: Seq<C>, keys: Seq<u128>, ids: Seq<u128>, j: int)
    requires
        keys.len() == s.len(),
    ensures
        forall|m: int| 0 <= m < group_at(s, keys, ids, j).len() ==>
            s.contains(#[trigger] group_at(s, keys, ids, j)[m]),
    decreases s.len(),
{
    if s.len() > 0 {
        let n = s.len() - 1;
        lemma_group_at_members(s.drop_last(), keys.take(n), ids, j);
        let g = group_at(s, keys, ids, j);
        let r = group_at(s.drop_last(), keys.take(n), ids, j);
        assert forall|m: int| 0 <= m < g.len() implies s.contains(#[trigger] g[m]) by {
            if m < r.len() {
                assert(s.drop_last().contains(r[m]));
                let k = choose|k: int| 0 <= k < n && s.drop_last()[k] == r[m];
                assert(g[m] == s[k]);
            } else {
                assert(g[m] == s[n]);
            }
        }
    }
}

/// The key of each element, computed by `f`, whose results `key` describes.
pub(crate) fn keys_of<T, F: Fn(&T) -> u128>(v: &Vec<T>, f: F, Ghost(key): Ghost<spec_fn(T) -> u128>) -> (r: Vec<u128>)
    requires
        forall|x: &T| #[trigger] f.requires((x,)),
        forall|x: &T, k: u128| f.ensures((x,), k) ==> k == key(*x),
    ensures
        r@ == v@.map_values(key),
{
    let mut r: Vec<u128> = Vec::new();
    for i in 0..v.len()
        invariant
            forall|x: &T| #[trigger] f.requires((x,)),
            forall|x: &T, k: u128| f.ensures((x,), k) ==> k == key(*x),
            r@ == v@.take(i as int).map_values(key),
    {
        let k = f(&v[i]);
        r.push(k);
        proof {
            assert(v@.take(i + 1) =~= v@.take(i as int).push(v@[i as int]));
            assert(r@ =~= v@.take(i + 1).map_values(key));
        }
    }
    proof {
        assert(v@.take(v@.len() as int) =~= v@);
    }
    r
}

/// The total size of the groups of the first `m` parents.
pub open spec fn grouped_total<C>(children: Seq<C>, keys: Seq<u128>, ids: Seq<u128>, m: int) -> int
    decreases m,
{
    if m <= 0 {
        0
    } else {
        grouped_total(children, keys, ids, m - 1) + group_at(children, keys, ids, m - 1).len()
    }
}

proof fn lemma_grouped_total_step<C>(children: Seq<C>, keys: Seq<u128>, ids: Seq<u128>, m: int)
    requires
        children.len() > 0,
        keys.len() == children.len(),
    ensures
        grouped_total(children, keys, ids, m) == grouped_total(
            children.drop_last(),
            keys.take(children.len() - 1),
            ids,
            m,
        ) + if 0 <= last_index_of(ids, keys[children.len() - 1]) < m { 1int } else { 0int },
    decreases m,
{
    if m > 0 {
        lemma_grouped_total_step(children, keys, ids, m - 1);
    }
}

/// Grouping neither loses nor repeats a child: when every key names a
/// parent, the groups together hold as many children as were given.
pub proof fn lemma_grouping_keeps_every_child<C>(children: Seq<C>, keys: Seq<u128>, ids: Seq<u128>)
    requires
        keys.len() == children.len(),
        keys_resolve(keys, ids),
    ensures
        grouped_total(children, keys, ids, ids.len() as int) == children.len(),
    decreases children.len(),
{
    if children.len() > 0 {
        let n = children.len() - 1;
        assert(keys_resolve(keys.take(n), ids)) by {
            assert forall|i: int| 0 <= i < keys.take(n).len() implies #[trigger] ids.contains(keys.take(n)[i]) by {
                assert(keys.take(n)[i] == keys[i]);
            }
        }
        lemma_grouping_keeps_every_child(children.drop_last(), keys.take(n), ids);
        lemma_grouped_total_step(children, keys, ids, ids.len() as int);
        assert(ids.contains(keys[n]));
        lemma_last_index_of_bounds(ids, keys[n]);
    } else {
        lemma_grouped_total_empty(children, keys, ids, ids.len() as int);
    }
}

proof fn lemma_grouped_total_empty<C>(children: Seq<C>, keys: Seq<u128>, ids: Seq<u128>, m: int)
    requires
        children.len() == 0,
    ensures
        grouped_total(children, keys, ids, m) == 0,
    decreases m,
{
    if m > 0 {
        lemma_grouped_total_empty(children, keys, ids, m - 1);
    }
}

/// Pairs the elements of `a` and `b` position by position, stopping at the end
/// of the shorter one.
pub fn zip_vecs<A, B>(a: Vec<A>, b: Vec<B>) -> (r: Vec<(A, B)>)
    ensures
        r@.len() == if a@.len() <= b@.len() { a@.len() } else { b@.len() },
        forall|i: int| 0 <= i < r@.len() ==> #[trigger] r@[i] == (a@[i], b@[i]),
{
    let ghost bs = b@;
    let mut b = b;
    let mut rev: Vec<B> = Vec::new();
    while b.len() > 0
        invariant
            b@.len() + rev@.len() == bs.len(),
            b@ == bs.take(b@.len() as int),
            forall|k: int| 0 <= k < rev@.len() ==> #[trigger] rev@[k] == bs[bs.len() - 1 - k],
        decreases b@.len(),
    {
        let x = b.pop().unwrap();
        rev.push(x);
        proof {
            assert(b@ =~= bs.take(b@.len() as int));
        }
    }
    let ghost all = a@;
    let n = a.len();
    let mut r: Vec<(A, B)> = Vec::new();
    let mut i: usize = 0;
    for x in it: a.into_iter()
        invariant
            i == it.index(),
            it.seq() == all,
            n == all.len(),
            r@.len() == (if i <= bs.len() { i as int } else { bs.len() as int }),
            rev@.len() == (if i <= bs.len() { bs.len() - i } else { 0 }),
            forall|k: int| 0 <= k < rev@.len() ==> #[trigger] rev@[k] == bs[bs.len() - 1 - k],
            forall|k: int| 0 <= k < r@.len() ==> #[trigger] r@[k] == (all[k], bs[k]),
    {
        if rev.len() > 0 {
            let y = rev.pop().unwrap();
            r.push((x, y));
        }
        i = i + 1;
    }
    r
}

/// Pairs each parent with the group of children that belongs to it.
pub fn attach<P, C>(parents: Vec<P>, parent_ids: &Vec<u128>, children: Vec<C>, keys: &Vec<u128>) -> (r: Vec<(P, Vec<C>)>)
    requires
        parent_ids@.len() == parents@.len(),
        keys@.len() == children@.len(),
        keys_resolve(keys@, parent_ids@),
    ensures
        r@.len() == parents@.len(),
        forall|i: int| 0 <= i < r@.len() ==> (#[trigger] r@[i]).0 == parents@[i]
            && r@[i].1@ == group_at(children@, keys@, parent_ids@, i),
{
    let groups = grouped_by(children, keys, parent_ids);
    let ghost g = groups@;
    let r = zip_vecs(parents, groups);
    assert forall|i: int| 0 <= i < r@.len() implies (#[trigger] r@[i]).0 == parents@[i]
        && r@[i].1@ == group_at(children@, keys@, parent_ids@, i) by {
        assert(r@[i] == (parents@[i], g[i]));
        assert(g[i]@ == group_at(children@, keys@, parent_ids@, i));
    }
    r
}


proof fn lemma_group_at_concat<C>(a: Seq<C>, ka: Seq<u128>, b: Seq<C>, kb: Seq<u128>, ids: Seq<u128>, j: int)
    requires
        ka.len() == a.len(),
        kb.len() == b.len(),
    ensures
        group_at(a + b, ka + kb, ids, j) == group_at(a, ka, ids, j) + group_at(b, kb, ids, j),
    decreases b.len(),
{
    if b.len() == 0 {
        assert(a + b =~= a);
        assert(ka + kb =~= ka);
        assert(group_at(a, ka, ids, j) + group_at(b, kb, ids, j) =~= group_at(a, ka, ids, j));
    } else {
        let n = b.len() - 1;
        lemma_group_at_concat(a, ka, b.drop_last(), kb.take(n), ids, j);
        let ab = a + b;
        let kab = ka + kb;
        assert(ab.drop_last() =~= a + b.drop_last());
        assert(kab.take(ab.len() - 1) =~= ka + kb.take(n));
        assert(kab[ab.len() - 1] == kb[n]);
        let ra = group_at(a, ka, ids, j);
        let rb = group_at(b.drop_last(), kb.take(n), ids, j);
        if last_index_of(ids, kb[n]) == j {
            assert((ra + rb).push(b.last()) =~= ra + rb.push(b.last()));
        }
    }
}

proof fn lemma_group_at_uniform<C>(b: Seq<C>, kb: Seq<u128>, ids: Seq<u128>, j: int, key: u128)
    requires
        kb.len() == b.len(),
        forall|i: int| 0 <= i < kb.len() ==> kb[i] == key,
    ensures
        group_at(b, kb, ids, j) == if last_index_of(ids, key) == j { b } else { Seq::<C>::empty() },
    decreases b.len(),
{
    if b.len() > 0 {
        let n = b.len() - 1;
        lemma_group_at_uniform(b.drop_last(), kb.take(n), ids, j, key);
        if last_index_of(ids, key) == j {
            assert(b.drop_last().push(b.last()) =~= b);
        }
    } else {
        assert(b =~= Seq::<C>::empty());
    }
}

proof fn lemma_last_index_of_distinct(ids: Seq<u128>, k: int)
    requires
        ids.no_duplicates(),
        0 <= k < ids.len(),
    ensures
        last_index_of(ids, ids[k]) == k,
{
    lemma_last_index_of_bounds(ids, ids[k]);
    assert(ids.contains(ids[k]));
}

/// Grouping children that come in blocks, one block per parent and each
/// child of block `k` naming parent `k`, gives each parent its block back,
/// when no two parents share an id.
pub proof fn lemma_group_blocks<C>(blocks: Seq<Seq<C>>, f: spec_fn(C) -> u128, ids: Seq<u128>, j: int)
    requires
        blocks.len() <= ids.len(),
        ids.no_duplicates(),
        forall|k: int, i: int| 0 <= k < blocks.len() && 0 <= i < blocks[k].len() ==> f(#[trigger] blocks[k][i]) == ids[k],
    ensures
        group_at(blocks.flatten(), blocks.flatten().map_values(f), ids, j)
            == if 0 <= j < blocks.len() { blocks[j] } else { Seq::<C>::empty() },
        keys_resolve(blocks.flatten().map_values(f), ids),
    decreases blocks.len(),
{
    if blocks.len() == 0 {
        assert(blocks.flatten() =~= Seq::<C>::empty());
        assert(blocks.flatten().map_values(f) =~= Seq::<u128>::empty());
    } else {
        let m = blocks.len() - 1;
        let pre = blocks.drop_last();
        let b = blocks[m];
        assert forall|k: int, i: int| 0 <= k < pre.len() && 0 <= i < pre[k].len() implies f(#[trigger] pre[k][i]) == ids[k] by {
            assert(pre[k] == blocks[k]);
        }
        lemma_group_blocks(pre, f, ids, j);
        assert(pre.push(b) =~= blocks);
        let a = pre.flatten();
        assert(pre.push(b).flatten() =~= a + b);
        assert(blocks.flatten() == a + b);
        assert((a + b).map_values(f) =~= a.map_values(f) + b.map_values(f));
        lemma_group_at_concat(a, a.map_values(f), b, b.map_values(f), ids, j);
        assert forall|i: int| 0 <= i < b.map_values(f).len() implies b.map_values(f)[i] == ids[m] by {
            assert(f(blocks[m][i]) == ids[m]);
        }
        lemma_group_at_uniform(b, b.map_values(f), ids, j, ids[m]);
        lemma_last_index_of_distinct(ids, m);
        if 0 <= j < m {
            assert(group_at(a, a.map_values(f), ids, j) + Seq::<C>::empty() =~= pre[j]);
        } else if j == m {
            assert(group_at(a, a.map_values(f), ids, j) =~= Seq::<C>::empty());
            assert(Seq::<C>::empty() + b =~= b);
        } else {
            assert(Seq::<C>::empty() + Seq::<C>::empty() =~= Seq::<C>::empty());
        }
        let keys = blocks.flatten().map_values(f);
        assert forall|i: int| 0 <= i < keys.len() implies #[trigger] ids.contains(keys[i]) by {
            if i < a.len() {
                assert(keys[i] == a.map_values(f)[i]);
                assert(ids.contains(a.map_values(f)[i]));
            } else {
                assert(keys[i] == b.map_values(f)[i - a.len()]);
                assert(ids[m] == keys[i]);
            }
        }
    }
}

/// Mapping a flattened sequence maps each of its parts.
pub proof fn lemma_flatten_map<A, B>(xs: Seq<Seq<A>>, f: spec_fn(A) -> B)
    ensures
        xs.flatten().map_values(f) == xs.map_values(|s: Seq<A>| s.map_values(f)).flatten(),
    decreases xs.len(),
{
    let g = |s: Seq<A>| s.map_values(f);
    if xs.len() == 0 {
        assert(xs.flatten().map_values(f) =~= Seq::<B>::empty());
        assert(xs.map_values(g).flatten() =~= Seq::<B>::empty());
    } else {
        let pre = xs.drop_last();
        lemma_flatten_map(pre, f);
        assert(pre.push(xs.last()) =~= xs);
        assert(xs.map_values(g) =~= pre.map_values(g).push(g(xs.last())));
        assert(pre.push(xs.last()).flatten() =~= pre.flatten() + xs.last());
        assert(pre.map_values(g).push(g(xs.last())).flatten() =~= pre.map_values(g).flatten() + g(xs.last()));
        assert((pre.flatten() + xs.last()).map_values(f) =~= pre.flatten().map_values(f) + xs.last().map_values(f));
    }
}

/// Flattening each part and then the whole is flattening twice.
pub proof fn lemma_flatten_flatten<A>(xss: Seq<Seq<Seq<A>>>)
    ensures
        xss.map_values(|s: Seq<Seq<A>>| s.flatten()).flatten() == xss.flatten().flatten(),
    decreases xss.len(),
{
    let h = |s: Seq<Seq<A>>| s.flatten();
    if xss.len() == 0 {
        assert(xss.map_values(h).flatten() =~= Seq::<A>::empty());
        assert(xss.flatten() =~= Seq::<Seq<A>>::empty());
        assert(xss.flatten().flatten() =~= Seq::<A>::empty());
    } else {
        let pre = xss.drop_last();
        let z = xss.last();
        lemma_flatten_flatten(pre);
        assert(pre.push(z) =~= xss);
        assert(xss.map_values(h) =~= pre.map_values(h).push(z.flatten()));
        assert(pre.map_values(h).push(z.flatten()).flatten() =~= pre.map_values(h).flatten() + z.flatten());
        assert(pre.push(z).flatten() =~= pre.flatten() + z);
        vstd::seq_lib::lemma_flatten_concat(pre.flatten(), z);
    }
}

/// A property of every element of every part holds of every element of the
/// flattened sequence.
pub proof fn lemma_flatten_all<A>(xs: Seq<Seq<A>>, p: spec_fn(A) -> bool)
    requires
        forall|k: int, i: int| 0 <= k < xs.len() && 0 <= i < xs[k].len() ==> p(#[trigger] xs[k][i]),
    ensures
        forall|j: int| 0 <= j < xs.flatten().len() ==> p(#[trigger] xs.flatten()[j]),
    decreases xs.len(),
{
    if xs.len() > 0 {
        let pre = xs.drop_last();
        let b = xs.last();
        assert forall|k: int, i: int| 0 <= k < pre.len() && 0 <= i < pre[k].len() implies p(#[trigger] pre[k][i]) by {
            assert(pre[k] == xs[k]);
        }
        lemma_flatten_all(pre, p);
        assert(pre.push(b) =~= xs);
        assert(pre.push(b).flatten() =~= pre.flatten() + b);
        assert forall|j: int| 0 <= j < xs.flatten().len() implies p(#[trigger] xs.flatten()[j]) by {
            if j < pre.flatten().len() {
                assert(xs.flatten()[j] == pre.flatten()[j]);
            } else {
                assert(xs.flatten()[j] == b[j - pre.flatten().len()]);
                assert(p(xs[xs.len() - 1][j - pre.flatten().len()]));
            }
        }
    } else {
        assert(xs.flatten().len() == 0);
    }
}


/// Whether a child's key, computed by `f`, is `id`.
pub open spec fn key_is<C>(f: spec_fn(C) -> u128, id: u128) -> spec_fn(C) -> bool {
    |c: C| f(c) == id
}

/// Whether the parent that a child names, by `f`, is kept.
pub open spec fn parent_kept<C>(f: spec_fn(C) -> u128, keep: spec_fn(u128) -> bool) -> spec_fn(C) -> bool {
    |c: C| keep(f(c))
}

/// When parent ids do not repeat, the group of parent `j` is the children
/// whose key is the id of parent `j`, in their order.
pub proof fn lemma_group_at_distinct_is_filter<C>(c: Seq<C>, f: spec_fn(C) -> u128, ids: Seq<u128>, j: int)
    requires
        ids.no_duplicates(),
        0 <= j < ids.len(),
    ensures
        group_at(c, c.map_values(f), ids, j) == c.filter(key_is(f, ids[j])),
    decreases c.len(),
{
    reveal(Seq::filter);
    if c.len() > 0 {
        let n = c.len() - 1;
        assert(c.map_values(f).take(n) =~= c.drop_last().map_values(f));
        lemma_group_at_distinct_is_filter(c.drop_last(), f, ids, j);
        let key = f(c.last());
        assert(c.map_values(f)[n] == key);
        lemma_last_index_of_bounds(ids, key);
        lemma_last_index_of_distinct(ids, j);
    } else {
        assert(c.filter(key_is(f, ids[j])) =~= Seq::<C>::empty());
    }
}

proof fn lemma_filter_narrower<C>(c: Seq<C>, p: spec_fn(C) -> bool, q: spec_fn(C) -> bool)
    requires
        forall|x: C| #[trigger] q(x) ==> p(x),
    ensures
        c.filter(p).filter(q) == c.filter(q),
    decreases c.len(),
{
    reveal(Seq::filter);
    if c.len() > 0 {
        let d = c.drop_last();
        lemma_filter_narrower(d, p, q);
        if p(c.last()) {
            let s = d.filter(p).push(c.last());
            assert(s.drop_last() =~= d.filter(p));
            assert(s.last() == c.last());
        }
    }
}

proof fn lemma_filter_keeps_no_duplicates(s: Seq<u128>, p: spec_fn(u128) -> bool)
    requires
        s.no_duplicates(),
    ensures
        s.filter(p).no_duplicates(),
    decreases s.len(),
{
    reveal(Seq::filter);
    if s.len() > 0 {
        let d = s.drop_last();
        assert(d.no_duplicates());
        lemma_filter_keeps_no_duplicates(d, p);
        if p(s.last()) {
            let fd = d.filter(p);
            let fs = fd.push(s.last());
            assert forall|i: int, k: int| 0 <= i < fs.len() && 0 <= k < fs.len() && i != k implies fs[i] != fs[k] by {
                if i < fd.len() && k < fd.len() {
                    assert(fs[i] == fd[i] && fs[k] == fd[k]);
                } else if i < fd.len() {
                    assert(fd.contains(fd[i]));
                    d.lemma_filter_contains_rev(p, fd[i]);
                    let w = choose|w: int| 0 <= w < d.len() && d[w] == fd[i];
                    assert(s[w] == d[w]);
                } else if k < fd.len() {
                    assert(fd.contains(fd[k]));
                    d.lemma_filter_contains_rev(p, fd[k]);
                    let w = choose|w: int| 0 <= w < d.len() && d[w] == fd[k];
                    assert(s[w] == d[w]);
                }
            }
        }
    }
}

/// Keeping only some parents, and only the children that name a kept parent,
/// gives each kept parent the same group as grouping everything, when parent
/// ids do not repeat: a filtered read agrees with the unfiltered one.
pub proof fn lemma_grouping_kept_parents<C>(
    children: Seq<C>,
    f: spec_fn(C) -> u128,
    ids: Seq<u128>,
    keep: spec_fn(u128) -> bool,
    j: int,
    j2: int,
)
    requires
        ids.no_duplicates(),
        0 <= j < ids.len(),
        0 <= j2 < ids.filter(keep).len(),
        ids.filter(keep)[j2] == ids[j],
    ensures
        group_at(
            children.filter(parent_kept(f, keep)),
            children.filter(parent_kept(f, keep)).map_values(f),
            ids.filter(keep),
            j2,
        ) == group_at(children, children.map_values(f), ids, j),
{
    let kept = ids.filter(keep);
    ids.lemma_filter_pred(keep, j2);
    assert(keep(kept[j2]));
    lemma_filter_keeps_no_duplicates(ids, keep);
    let c2 = children.filter(parent_kept(f, keep));
    lemma_group_at_distinct_is_filter(c2, f, kept, j2);
    lemma_group_at_distinct_is_filter(children, f, ids, j);
    let q = key_is(f, ids[j]);
    let p = parent_kept(f, keep);
    assert forall|x: C| #[trigger] q(x) implies p(x) by {}
    lemma_filter_narrower(children, p, q);
    assert(key_is(f, kept[j2]) == q);
}


/// Every element of every part is in the flattened sequence.
pub proof fn lemma_flatten_contains<A>(xs: Seq<Seq<A>>, k: int, j: int)
    requires
        0 <= k < xs.len(),
        0 <= j < xs[k].len(),
    ensures
        xs.flatten().contains(xs[k][j]),
    decreases xs.len(),
{
    let pre = xs.drop_last();
    let b = xs.last();
    assert(pre.push(b) =~= xs);
    assert(pre.push(b).flatten() =~= pre.flatten() + b);
    if k == xs.len() - 1 {
        assert(xs.flatten()[pre.flatten().len() + j] == b[j]);
    } else {
        assert(pre[k] == xs[k]);
        lemma_flatten_contains(pre, k, j);
        let w = choose|w: int| 0 <= w < pre.flatten().len() && pre.flatten()[w] == xs[k][j];
        assert(xs.flatten()[w] == pre.flatten()[w]);
    }
}

} // verus!
