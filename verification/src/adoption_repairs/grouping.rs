//! Rows that share a key.

use vstd::prelude::*;

use crate::text;

verus! {

/// What rows are grouped by: a name and, where rows have one, a kind.
#[derive(Debug)]
pub struct GroupKey {
    pub name: String,
    pub kind: Option<String>,
}

/// Whether the two keys are the same.
pub open spec fn same_key(a: GroupKey, b: GroupKey) -> bool {
    a.name@ == b.name@ && text::same_optional(a.kind, b.kind)
}

/// Whether key `a` comes before `b`: by name, then by kind.
pub open spec fn key_before(a: GroupKey, b: GroupKey) -> bool {
    if a.name@ == b.name@ {
        text::optional_before(a.kind, b.kind)
    } else {
        text::comes_before(a.name@, b.name@)
    }
}

/// Whether `group` lists, in ascending order, exactly the positions whose key
/// is that of its first one.
pub open spec fn lists_one_key(group: Seq<usize>, keys: Seq<GroupKey>) -> bool {
    &&& group.len() > 0
    &&& forall|k: int| 0 <= k < group.len() ==> 0 <= #[trigger] group[k] < keys.len()
    &&& forall|k: int, l: int| 0 <= k < l < group.len() ==> #[trigger] group[k] < #[trigger] group[l]
    &&& forall|i: usize|
        0 <= i < keys.len() ==> (#[trigger] group.contains(i) <==> same_key(
            keys[i as int],
            keys[group[0] as int],
        ))
}

/// Whether `groups` are the keys that occur more than once, in the order of the
/// keys, each with all the positions at which it occurs.
pub open spec fn are_duplicate_groups(groups: Seq<Vec<usize>>, keys: Seq<GroupKey>) -> bool {
    &&& forall|g: int| 0 <= g < groups.len() ==> (#[trigger] groups[g])@.len() >= 2
    &&& forall|g: int| 0 <= g < groups.len() ==> lists_one_key(#[trigger] groups[g]@, keys)
    &&& forall|g: int, h: int|
        0 <= g < h < groups.len() ==> key_before(
            keys[#[trigger] groups[g]@[0] as int],
            keys[#[trigger] groups[h]@[0] as int],
        )
    &&& forall|i: usize, j: usize|
        0 <= i < j < keys.len() && #[trigger] same_key(keys[i as int], keys[j as int])
            ==> exists|g: int| 0 <= g < groups.len() && (#[trigger] groups[g])@.contains(i)
}

/// Executable [`same_key`] and [`key_before`].
fn compare_keys(a: &GroupKey, b: &GroupKey) -> (result: (bool, bool))
    ensures
        result.0 == same_key(*a, *b),
        result.1 == key_before(*a, *b),
{
    proof {
        text::lemma_optional_order(a.kind, b.kind, a.kind);
    }
    if text::same_text(a.name.as_str(), b.name.as_str()) {
        let before: bool = text::optional_text_before(&a.kind, &b.kind);
        let after: bool = text::optional_text_before(&b.kind, &a.kind);
        (!before && !after, before)
    } else {
        (false, text::text_before(a.name.as_str(), b.name.as_str()))
    }
}

/// Keys are totally ordered.
proof fn lemma_key_order(a: GroupKey, b: GroupKey, c: GroupKey)
    ensures
        key_before(a, b) && key_before(b, c) ==> key_before(a, c),
        same_key(a, b) || key_before(a, b) || key_before(b, a),
        key_before(a, b) ==> !same_key(a, b) && !key_before(b, a),
        same_key(a, b) && same_key(b, c) ==> same_key(a, c),
        same_key(a, b) ==> same_key(b, a),
        same_key(a, b) && key_before(b, c) ==> key_before(a, c),
        key_before(a, b) && same_key(b, c) ==> key_before(a, c),
        same_key(a, a),
{
    text::lemma_optional_order(a.kind, b.kind, c.kind);
    text::lemma_optional_order(b.kind, c.kind, a.kind);
    text::lemma_optional_order(c.kind, a.kind, b.kind);
    text::lemma_optional_order(a.kind, c.kind, b.kind);
    text::lemma_optional_order(b.kind, a.kind, c.kind);
    text::lemma_before_total(a.name@, b.name@);
    text::lemma_before_irreflexive(a.name@);
    text::lemma_before_irreflexive(b.name@);
    if text::comes_before(a.name@, b.name@) && text::comes_before(b.name@, a.name@) {
        text::lemma_before_transitive(a.name@, b.name@, a.name@);
    }
    if text::comes_before(a.name@, b.name@) && text::comes_before(b.name@, c.name@) {
        text::lemma_before_transitive(a.name@, b.name@, c.name@);
    }
}

/// Whether `groups` partition the first `upto` positions by key, in key order.
spec fn are_groups(groups: Seq<Vec<usize>>, keys: Seq<GroupKey>, upto: int) -> bool {
    &&& forall|g: int| 0 <= g < groups.len() ==> (#[trigger] groups[g])@.len() > 0
    &&& forall|g: int, k: int|
        0 <= g < groups.len() && 0 <= k < groups[g]@.len() ==> 0 <= #[trigger] groups[g]@[k] < upto
            && same_key(keys[groups[g]@[k] as int], keys[groups[g]@[0] as int])
    &&& forall|g: int, k: int, l: int|
        0 <= g < groups.len() && 0 <= k < l < groups[g]@.len() ==> #[trigger] groups[g]@[k]
            < #[trigger] groups[g]@[l]
    &&& forall|g: int, h: int|
        0 <= g < h < groups.len() ==> key_before(
            keys[#[trigger] groups[g]@[0] as int],
            keys[#[trigger] groups[h]@[0] as int],
        )
    &&& forall|i: int| 0 <= i < upto ==> #[trigger] is_listed(groups, i)
}

/// Whether some group holds position `i`.
spec fn is_listed(groups: Seq<Vec<usize>>, i: int) -> bool {
    exists|g: int, k: int|
        0 <= g < groups.len() && 0 <= k < groups[g]@.len() && #[trigger] groups[g]@[k] == i
}

/// The number of groups whose key comes before that of position `i`.
fn place_of(groups: &Vec<Vec<usize>>, keys: &Vec<GroupKey>, i: usize) -> (place: usize)
    requires
        i < keys@.len(),
        are_groups(groups@, keys@, i as int),
    ensures
        place <= groups@.len(),
        forall|g: int|
            0 <= g < place ==> key_before(keys@[#[trigger] groups@[g]@[0] as int], keys@[i as int]),
        forall|g: int|
            place <= g < groups@.len() ==> !key_before(
                keys@[#[trigger] groups@[g]@[0] as int],
                keys@[i as int],
            ),
{
    let mut low: usize = 0;
    let mut high: usize = groups.len();
    while low < high
        invariant
            low <= high <= groups@.len(),
            i < keys@.len(),
            are_groups(groups@, keys@, i as int),
            forall|g: int|
                0 <= g < low ==> key_before(keys@[#[trigger] groups@[g]@[0] as int], keys@[i as int]),
            forall|g: int|
                high <= g < groups@.len() ==> !key_before(
                    keys@[#[trigger] groups@[g]@[0] as int],
                    keys@[i as int],
                ),
        decreases high - low,
    {
        let mid: usize = low + (high - low) / 2;
        let first: usize = groups[mid][0];
        let (_same, before) = compare_keys(&keys[first], &keys[i]);
        if before {
            assert forall|g: int| 0 <= g < mid + 1 implies key_before(
                keys@[#[trigger] groups@[g]@[0] as int],
                keys@[i as int],
            ) by {
                lemma_key_order(
                    keys@[groups@[g]@[0] as int],
                    keys@[groups@[mid as int]@[0] as int],
                    keys@[i as int],
                );
            }
            low = mid + 1;
        } else {
            assert forall|g: int| mid <= g < groups@.len() implies !key_before(
                keys@[#[trigger] groups@[g]@[0] as int],
                keys@[i as int],
            ) by {
                lemma_key_order(
                    keys@[groups@[mid as int]@[0] as int],
                    keys@[groups@[g]@[0] as int],
                    keys@[i as int],
                );
            }
            high = mid;
        }
    }
    low
}

/// All groups of positions with the same key, in key order.
fn group_positions(keys: &Vec<GroupKey>) -> (groups: Vec<Vec<usize>>)
    ensures
        are_groups(groups@, keys@, keys@.len() as int),
{
    let mut groups: Vec<Vec<usize>> = Vec::new();
    for i in 0..keys.len()
        invariant
            are_groups(groups@, keys@, i as int),
    {
        let place: usize = place_of(&groups, keys, i);
        let ghost before = groups@;
        let joins: bool = if place < groups.len() {
            let first: usize = groups[place][0];
            compare_keys(&keys[first], &keys[i]).0
        } else {
            false
        };
        if joins {
            let mut members: Vec<usize> = groups.remove(place);
            members.push(i);
            groups.insert(place, members);
            proof {
                let p: int = place as int;
                let after = groups@;
                assert(after.len() == before.len());
                assert(forall|g: int| 0 <= g < before.len() && g != p ==> after[g] == before[g]);
                assert(after[p]@ =~= before[p]@.push(i));
                lemma_key_order(keys@[before[p]@[0] as int], keys@[i as int], keys@[i as int]);
                assert forall|j: int| 0 <= j < i + 1 implies #[trigger] is_listed(after, j) by {
                    if j == i {
                        assert(after[p]@[before[p]@.len() as int] == i);
                    } else {
                        assert(is_listed(before, j));
                        let (g, k) = choose|g: int, k: int|
                            0 <= g < before.len() && 0 <= k < before[g]@.len()
                                && #[trigger] before[g]@[k] == j;
                        assert(after[g]@[k] == j);
                    }
                }
            }
        } else {
            let mut members: Vec<usize> = Vec::new();
            members.push(i);
            groups.insert(place, members);
            proof {
                let p: int = place as int;
                let after = groups@;
                assert(after =~= before.insert(p, members));
                assert(after[p]@ =~= seq![i]);
                assert forall|g: int| p <= g < before.len() implies key_before(
                    keys@[i as int],
                    keys@[#[trigger] before[g]@[0] as int],
                ) by {
                    lemma_key_order(
                        keys@[before[g]@[0] as int],
                        keys@[i as int],
                        keys@[i as int],
                    );
                    lemma_key_order(
                        keys@[i as int],
                        keys@[before[p]@[0] as int],
                        keys@[before[g]@[0] as int],
                    );
                    lemma_key_order(
                        keys@[before[p]@[0] as int],
                        keys@[i as int],
                        keys@[i as int],
                    );
                }
                lemma_key_order(keys@[i as int], keys@[i as int], keys@[i as int]);
                assert forall|g: int, h: int| 0 <= g < h < after.len() implies key_before(
                    keys@[#[trigger] after[g]@[0] as int],
                    keys@[#[trigger] after[h]@[0] as int],
                ) by {
                    let a: int = if g < p { g } else { g - 1 };
                    let b: int = if h < p { h } else { h - 1 };
                    if g != p && h != p {
                        assert(after[g] == before[a] && after[h] == before[b]);
                    } else if g == p {
                        assert(after[h] == before[b]);
                    } else {
                        assert(after[g] == before[a]);
                    }
                }
                assert forall|j: int| 0 <= j < i + 1 implies #[trigger] is_listed(after, j) by {
                    if j == i {
                        assert(after[p]@[0] == i);
                    } else {
                        assert(is_listed(before, j));
                        let (g, k) = choose|g: int, k: int|
                            0 <= g < before.len() && 0 <= k < before[g]@.len()
                                && #[trigger] before[g]@[k] == j;
                        let h: int = if g < p { g } else { g + 1 };
                        assert(after[h] == before[g]);
                        assert(after[h]@[k] == j);
                    }
                }
                assert forall|g: int, k: int|
                    0 <= g < after.len() && 0 <= k < after[g]@.len() implies 0
                    <= #[trigger] after[g]@[k] < i + 1 && same_key(
                    keys@[after[g]@[k] as int],
                    keys@[after[g]@[0] as int],
                ) by {
                    if g != p {
                        let a: int = if g < p { g } else { g - 1 };
                        assert(after[g] == before[a]);
                    }
                }
                assert forall|g: int, k: int, l: int|
                    0 <= g < after.len() && 0 <= k < l < after[g]@.len() implies #[trigger] after[g]@[k]
                    < #[trigger] after[g]@[l] by {
                    if g != p {
                        let a: int = if g < p { g } else { g - 1 };
                        assert(after[g] == before[a]);
                    }
                }
            }
        }
    }
    groups
}

/// In a partition by key every group lists its key in full.
proof fn lemma_group_lists_key(groups: Seq<Vec<usize>>, keys: Seq<GroupKey>, g: int)
    requires
        are_groups(groups, keys, keys.len() as int),
        0 <= g < groups.len(),
    ensures
        lists_one_key(groups[g]@, keys),
{
    let group = groups[g]@;
    assert forall|i: usize| 0 <= i < keys.len() implies (#[trigger] group.contains(i) <==> same_key(
        keys[i as int],
        keys[group[0] as int],
    )) by {
        if group.contains(i) {
            let k = group.index_of(i);
            assert(groups[g]@[k] == i);
        }
        if same_key(keys[i as int], keys[group[0] as int]) {
            assert(is_listed(groups, i as int));
            let (h, k) = choose|h: int, k: int|
                0 <= h < groups.len() && 0 <= k < groups[h]@.len() && #[trigger] groups[h]@[k] == i;
            let a = keys[groups[h]@[0] as int];
            let b = keys[group[0] as int];
            lemma_key_order(a, keys[i as int], b);
            lemma_key_order(keys[i as int], a, b);
            lemma_key_order(a, b, a);
            lemma_key_order(b, a, b);
            assert(same_key(a, b));
            if h < g {
                assert(key_before(a, b));
            } else if h > g {
                assert(key_before(b, a));
            }
            assert(groups[h]@[k] == i);
        }
    }
}

/// The groups of positions that share a key with another position, in the
/// order of the keys.
pub fn duplicate_groups(keys: &Vec<GroupKey>) -> (duplicates: Vec<Vec<usize>>)
    ensures
        are_duplicate_groups(duplicates@, keys@),
{
    let mut rest: Vec<Vec<usize>> = group_positions(keys);
    let ghost all = rest@;
    let mut reversed: Vec<Vec<usize>> = Vec::new();
    while rest.len() > 0
        invariant
            are_groups(all, keys@, keys@.len() as int),
            rest@ == all.take(rest@.len() as int),
            rest@.len() <= all.len(),
            are_kept(reversed@, all, rest@.len() as int),
        decreases rest@.len(),
    {
        let ghost before = reversed@;
        let ghost n: int = rest@.len() - 1;
        match rest.pop() {
            Some(group) => {
                assert(group == all[n]);
                if group.len() >= 2 {
                    reversed.push(group);
                }
                proof {
                    lemma_keep(before, reversed@, all, n);
                }
            },
            None => {},
        }
    }
    let mut duplicates: Vec<Vec<usize>> = Vec::new();
    let ghost kept = reversed@;
    while reversed.len() > 0
        invariant
            reversed@ == kept.take(reversed@.len() as int),
            reversed@.len() <= kept.len(),
            duplicates@.len() == kept.len() - reversed@.len(),
            forall|k: int|
                0 <= k < duplicates@.len() ==> #[trigger] duplicates@[k] == kept[kept.len() - 1 - k],
        decreases reversed@.len(),
    {
        match reversed.pop() {
            Some(group) => {
                duplicates.push(group);
            },
            None => {},
        }
    }
    proof {
        lemma_kept_are_duplicates(duplicates@, kept, all, keys@);
    }
    duplicates
}

/// Whether `kept` are the groups from `from` on that have two members or more,
/// the last one first.
spec fn are_kept(kept: Seq<Vec<usize>>, all: Seq<Vec<usize>>, from: int) -> bool {
    &&& forall|k: int| 0 <= k < kept.len() ==> is_kept_from(#[trigger] kept[k], all, from)
    &&& forall|k: int, l: int|
        0 <= k < l < kept.len() ==> stands_before(all, #[trigger] kept[l], #[trigger] kept[k])
    &&& forall|g: int|
        from <= g < all.len() && (#[trigger] all[g])@.len() >= 2 ==> kept.contains(all[g])
}

spec fn is_kept_from(group: Vec<usize>, all: Seq<Vec<usize>>, from: int) -> bool {
    exists|g: int| from <= g < all.len() && #[trigger] all[g] == group && group@.len() >= 2
}

spec fn stands_before(all: Seq<Vec<usize>>, a: Vec<usize>, b: Vec<usize>) -> bool {
    exists|g: int, h: int|
        0 <= g < h < all.len() && #[trigger] all[g] == a && #[trigger] all[h] == b
}

proof fn lemma_keep(before: Seq<Vec<usize>>, after: Seq<Vec<usize>>, all: Seq<Vec<usize>>, n: int)
    requires
        0 <= n < all.len(),
        are_kept(before, all, n + 1),
        after == (if all[n]@.len() >= 2 {
            before.push(all[n])
        } else {
            before
        }),
    ensures
        are_kept(after, all, n),
{
    assert forall|k: int| 0 <= k < after.len() implies is_kept_from(#[trigger] after[k], all, n) by {
        if k < before.len() {
            assert(is_kept_from(before[k], all, n + 1));
            assert(after[k] == before[k]);
        } else {
            assert(all[n] == after[k]);
        }
    }
    assert forall|k: int, l: int| 0 <= k < l < after.len() implies stands_before(
        all,
        #[trigger] after[l],
        #[trigger] after[k],
    ) by {
        assert(after[k] == before[k]);
        if l < before.len() {
            assert(after[l] == before[l]);
            assert(stands_before(all, before[l], before[k]));
        } else {
            assert(is_kept_from(before[k], all, n + 1));
            let g = choose|g: int|
                n + 1 <= g < all.len() && #[trigger] all[g] == before[k] && before[k]@.len() >= 2;
            assert(all[n] == after[l] && all[g] == after[k]);
        }
    }
    assert forall|g: int| n <= g < all.len() && (#[trigger] all[g])@.len() >= 2 implies after.contains(
        all[g],
    ) by {
        if g == n {
            assert(after[after.len() - 1] == all[g]);
        } else {
            assert(before.contains(all[g]));
            let k = before.index_of(all[g]);
            assert(after[k] == all[g]);
        }
    }
}

proof fn lemma_kept_are_duplicates(
    groups: Seq<Vec<usize>>,
    kept: Seq<Vec<usize>>,
    all: Seq<Vec<usize>>,
    keys: Seq<GroupKey>,
)
    requires
        are_groups(all, keys, keys.len() as int),
        are_kept(kept, all, 0),
        groups.len() == kept.len(),
        forall|k: int| 0 <= k < groups.len() ==> #[trigger] groups[k] == kept[kept.len() - 1 - k],
    ensures
        are_duplicate_groups(groups, keys),
{
    assert forall|g: int| 0 <= g < groups.len() implies (#[trigger] groups[g])@.len() >= 2
        && lists_one_key(groups[g]@, keys) by {
        let group = kept[kept.len() - 1 - g];
        assert(is_kept_from(group, all, 0));
        let h = choose|h: int| 0 <= h < all.len() && #[trigger] all[h] == group && group@.len() >= 2;
        lemma_group_lists_key(all, keys, h);
    }
    assert forall|g: int, h: int| 0 <= g < h < groups.len() implies key_before(
        keys[#[trigger] groups[g]@[0] as int],
        keys[#[trigger] groups[h]@[0] as int],
    ) by {
        let a = kept[kept.len() - 1 - g];
        let b = kept[kept.len() - 1 - h];
        assert(stands_before(all, a, b));
        let (x, y) = choose|x: int, y: int|
            0 <= x < y < all.len() && #[trigger] all[x] == a && #[trigger] all[y] == b;
        assert(key_before(keys[all[x]@[0] as int], keys[all[y]@[0] as int]));
    }
    assert forall|i: usize, j: usize|
        0 <= i < j < keys.len() && #[trigger] same_key(
            keys[i as int],
            keys[j as int],
        ) implies exists|g: int| 0 <= g < groups.len() && (#[trigger] groups[g])@.contains(i) by {
        assert(is_listed(all, i as int));
        let (h, k) = choose|h: int, k: int|
            0 <= h < all.len() && 0 <= k < all[h]@.len() && #[trigger] all[h]@[k] == i;
        lemma_group_lists_key(all, keys, h);
        let group = all[h]@;
        assert(group.contains(i));
        lemma_key_order(keys[j as int], keys[i as int], keys[group[0] as int]);
        lemma_key_order(keys[i as int], keys[j as int], keys[group[0] as int]);
        assert(group.contains(j));
        let l = group.index_of(j);
        assert(group[k] == i && group[l] == j);
        assert(group.len() >= 2);
        assert(kept.contains(all[h]));
        let p = kept.index_of(all[h]);
        assert(groups[kept.len() - 1 - p] == all[h]);
    }
}

/// Two ascending sequences with the same members are the same.
proof fn lemma_ascending_is_unique(a: Seq<usize>, b: Seq<usize>)
    requires
        forall|k: int, l: int| 0 <= k < l < a.len() ==> #[trigger] a[k] < #[trigger] a[l],
        forall|k: int, l: int| 0 <= k < l < b.len() ==> #[trigger] b[k] < #[trigger] b[l],
        forall|i: usize| #[trigger] a.contains(i) <==> b.contains(i),
    ensures
        a == b,
    decreases a.len(),
{
    if a.len() == 0 {
        if b.len() > 0 {
            assert(b.contains(b[0]));
            assert(a.contains(b[0]));
        }
        assert(a =~= b);
    } else {
        let last = a[a.len() - 1];
        assert(a.contains(last));
        assert(b.contains(last));
        let last_of_b = b[b.len() - 1];
        assert(b.contains(last_of_b));
        assert(a.contains(last_of_b));
        let i = a.index_of(last_of_b);
        let j = b.index_of(last);
        assert(a[i] == last_of_b);
        assert(b[j] == last);
        assert(last == last_of_b) by {
            if i < a.len() - 1 {
                assert(a[i] < a[a.len() - 1]);
            }
            if j < b.len() - 1 {
                assert(b[j] < b[b.len() - 1]);
            }
        }
        let a_rest = a.drop_last();
        let b_rest = b.drop_last();
        assert forall|n: usize| #[trigger] a_rest.contains(n) <==> b_rest.contains(n) by {
            if a_rest.contains(n) {
                let k = a_rest.index_of(n);
                assert(a[k] == n && a[k] < last);
                assert(a.contains(n));
                let l = b.index_of(n);
                assert(b.contains(n));
                assert(b[l] == n);
                assert(b_rest[l] == n);
            }
            if b_rest.contains(n) {
                let k = b_rest.index_of(n);
                assert(b[k] == n && b[k] < last);
                assert(b.contains(n));
                let l = a.index_of(n);
                assert(a.contains(n));
                assert(a[l] == n);
                assert(a_rest[l] == n);
            }
        }
        lemma_ascending_is_unique(a_rest, b_rest);
        assert(a =~= a_rest.push(last));
        assert(b =~= b_rest.push(last));
    }
}

/// Each group of one grouping is a group of the other.
proof fn lemma_same_group(
    a: Seq<Vec<usize>>,
    b: Seq<Vec<usize>>,
    keys: Seq<GroupKey>,
    g: int,
) -> (h: int)
    requires
        are_duplicate_groups(a, keys),
        are_duplicate_groups(b, keys),
        keys.len() <= usize::MAX,
        0 <= g < a.len(),
    ensures
        0 <= h < b.len(),
        a[g]@ == b[h]@,
{
    let group = a[g]@;
    assert(lists_one_key(group, keys));
    let first = group[0];
    let second = group[1];
    assert(group[0] < group[1]);
    assert(group.contains(first));
    assert(group.contains(second));
    assert(same_key(keys[second as int], keys[first as int]));
    assert(same_key(keys[first as int], keys[second as int]));
    let h = choose|h: int| 0 <= h < b.len() && (#[trigger] b[h])@.contains(first);
    let other = b[h]@;
    assert(lists_one_key(other, keys));
    assert(same_key(keys[first as int], keys[other[0] as int]));
    assert forall|i: usize| #[trigger] group.contains(i) <==> other.contains(i) by {
        if group.contains(i) {
            let k = group.index_of(i);
            assert(group[k] == i);
            assert(i < keys.len());
        }
        if other.contains(i) {
            let k = other.index_of(i);
            assert(other[k] == i);
            assert(i < keys.len());
        }
    }
    lemma_ascending_is_unique(group, other);
    h
}

/// The duplicate groups of keys are determined by the keys: no two groupings
/// differ.
pub proof fn law_duplicate_groups_are_unique(
    a: Seq<Vec<usize>>,
    b: Seq<Vec<usize>>,
    keys: Seq<GroupKey>,
)
    requires
        are_duplicate_groups(a, keys),
        are_duplicate_groups(b, keys),
        keys.len() <= usize::MAX,
    ensures
        a.len() == b.len(),
        forall|g: int| 0 <= g < a.len() ==> (#[trigger] a[g])@ == b[g]@,
{
    let shared: int = if a.len() < b.len() { a.len() as int } else { b.len() as int };
    lemma_groups_agree(a, b, keys, shared);
    if a.len() < b.len() {
        let h = lemma_same_group(b, a, keys, shared);
        assert(a[h]@ == b[h]@);
        lemma_groups_differ(b, keys, h, shared);
    } else if b.len() < a.len() {
        let h = lemma_same_group(a, b, keys, shared);
        assert(a[h]@ == b[h]@);
        lemma_groups_differ(a, keys, h, shared);
    }
}

/// Two groups of one grouping are not the same.
proof fn lemma_groups_differ(groups: Seq<Vec<usize>>, keys: Seq<GroupKey>, g: int, h: int)
    requires
        are_duplicate_groups(groups, keys),
        0 <= g < h < groups.len(),
    ensures
        groups[g]@ != groups[h]@,
{
    let first = keys[groups[g]@[0] as int];
    assert(key_before(first, keys[groups[h]@[0] as int]));
    lemma_key_order(first, first, first);
}

/// The first `n` groups of two groupings agree.
proof fn lemma_groups_agree(
    a: Seq<Vec<usize>>,
    b: Seq<Vec<usize>>,
    keys: Seq<GroupKey>,
    n: int,
)
    requires
        are_duplicate_groups(a, keys),
        are_duplicate_groups(b, keys),
        keys.len() <= usize::MAX,
        0 <= n <= a.len(),
        n <= b.len(),
    ensures
        forall|g: int| 0 <= g < n ==> (#[trigger] a[g])@ == b[g]@,
    decreases n,
{
    if n > 0 {
        lemma_groups_agree(a, b, keys, n - 1);
        let g = n - 1;
        let h = lemma_same_group(a, b, keys, g);
        let k = lemma_same_group(b, a, keys, g);
        if h < g {
            assert(a[h]@ == b[h]@);
            lemma_groups_differ(a, keys, h, g);
        }
        if k < g {
            assert(a[k]@ == b[k]@);
            lemma_groups_differ(b, keys, k, g);
        }
        if h > g && k > g {
            let in_a = keys[a[g]@[0] as int];
            let in_b = keys[b[g]@[0] as int];
            assert(key_before(in_a, keys[a[k]@[0] as int]));
            assert(key_before(in_b, keys[b[h]@[0] as int]));
            lemma_key_order(in_a, in_b, in_a);
            lemma_key_order(in_a, in_a, in_a);
        }
    }
}

/// No position is in two groups, and none is listed twice in one.
pub proof fn lemma_groups_are_disjoint(
    groups: Seq<Vec<usize>>,
    keys: Seq<GroupKey>,
    g: int,
    m: int,
    h: int,
    n: int,
)
    requires
        are_duplicate_groups(groups, keys),
        0 <= g < groups.len(),
        0 <= m < groups[g]@.len(),
        0 <= h < groups.len(),
        0 <= n < groups[h]@.len(),
        groups[g]@[m] == groups[h]@[n],
    ensures
        g == h,
        m == n,
        groups[g]@[m] < keys.len(),
{
    let i = groups[g]@[m];
    assert(lists_one_key(groups[g]@, keys));
    assert(lists_one_key(groups[h]@, keys));
    assert(groups[g]@.contains(i) && groups[h]@.contains(i));
    let a = keys[groups[g]@[0] as int];
    let b = keys[groups[h]@[0] as int];
    let key = keys[i as int];
    assert(same_key(key, a) && same_key(key, b));
    lemma_key_order(key, a, b);
    lemma_key_order(a, key, b);
    lemma_key_order(a, b, key);
    lemma_key_order(b, a, key);
    if g < h {
        assert(key_before(a, b));
    }
    if h < g {
        assert(key_before(b, a));
    }
}

} // verus!
