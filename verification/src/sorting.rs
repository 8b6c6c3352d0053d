//! The order in which the images are shown: ascending by numeric key, paths
//! of equal key in the order in which they were listed, and the cover image
//! moved to the front.

use crate::numeric_key::{numeric_key, path_key, without_ascii_digit};
use vstd::prelude::*;

verus! {

/// Whether the keys of `paths` never decrease from one position to the next.
pub open spec fn sorted_by_key(paths: Seq<Seq<char>>) -> bool {
    forall|i: int, j: int|
        0 <= i <= j < paths.len() ==> path_key(#[trigger] paths[i]) <= path_key(
            #[trigger] paths[j],
        )
}

/// Whether every path of `paths` that has none of the digits `0` to `9` has
/// the key 0.
pub open spec fn digit_free_keyed_zero(paths: Seq<Seq<char>>) -> bool {
    forall|i: int|
        0 <= i < paths.len() && without_ascii_digit(#[trigger] paths[i]) ==> path_key(paths[i])
            == 0
}

/// The paths of `paths` whose key is `key`, in the order in which they stand.
pub open spec fn with_key(paths: Seq<Seq<char>>, key: int) -> Seq<Seq<char>> {
    paths.filter(|path: Seq<char>| path_key(path) == key)
}

/// The first position of `sorted` at which the key is at least `key`; the
/// length of `sorted` where every key is smaller.
pub open spec fn first_not_below(sorted: Seq<Seq<char>>, key: int) -> int
    decreases sorted.len(),
{
    if sorted.len() == 0 || path_key(sorted[0]) >= key {
        0
    } else {
        1 + first_not_below(sorted.skip(1), key)
    }
}

/// `paths` in ascending order of key, paths of equal key kept in the order in
/// which `paths` lists them.
pub open spec fn key_ordered(paths: Seq<Seq<char>>) -> Seq<Seq<char>>
    decreases paths.len(),
{
    if paths.len() == 0 {
        paths
    } else {
        let rest = key_ordered(paths.skip(1));
        rest.insert(first_not_below(rest, path_key(paths[0])), paths[0])
    }
}

/// Where `first_not_below` points: every key before it is smaller, the key at
/// it is not.
pub proof fn lemma_first_not_below(sorted: Seq<Seq<char>>, key: int)
    ensures
        0 <= first_not_below(sorted, key) <= sorted.len(),
        forall|i: int|
            0 <= i < first_not_below(sorted, key) ==> path_key(#[trigger] sorted[i]) < key,
        first_not_below(sorted, key) < sorted.len() ==> path_key(
            sorted[first_not_below(sorted, key)],
        ) >= key,
    decreases sorted.len(),
{
    if sorted.len() == 0 || path_key(sorted[0]) >= key {
    } else {
        let rest = sorted.skip(1);
        lemma_first_not_below(rest, key);
        assert forall|i: int| 0 <= i < first_not_below(sorted, key) implies path_key(
            #[trigger] sorted[i],
        ) < key by {
            if i > 0 {
                assert(sorted[i] == rest[i - 1]);
            }
        }
    }
}

/// A position with smaller keys before it and no smaller key at it is the one
/// that `first_not_below` gives.
pub proof fn lemma_first_not_below_is(sorted: Seq<Seq<char>>, key: int, at: int)
    requires
        0 <= at <= sorted.len(),
        forall|i: int| 0 <= i < at ==> path_key(#[trigger] sorted[i]) < key,
        at < sorted.len() ==> path_key(sorted[at]) >= key,
    ensures
        first_not_below(sorted, key) == at,
    decreases sorted.len(),
{
    if sorted.len() == 0 {
    } else if at == 0 {
    } else {
        assert(path_key(sorted[0]) < key);
        let rest = sorted.skip(1);
        assert forall|i: int| 0 <= i < at - 1 implies path_key(#[trigger] rest[i]) < key by {
            assert(rest[i] == sorted[i + 1]);
        }
        lemma_first_not_below_is(rest, key, at - 1);
    }
}

/// No path of `paths` has the key `key`, so none is selected by it.
pub proof fn lemma_with_key_none(paths: Seq<Seq<char>>, key: int)
    requires
        forall|i: int| 0 <= i < paths.len() ==> path_key(#[trigger] paths[i]) != key,
    ensures
        with_key(paths, key) == Seq::<Seq<char>>::empty(),
    decreases paths.len(),
{
    reveal(Seq::filter);
    if paths.len() > 0 {
        let front = paths.drop_last();
        assert forall|i: int| 0 <= i < front.len() implies path_key(#[trigger] front[i])
            != key by {
            assert(front[i] == paths[i]);
        }
        lemma_with_key_none(front, key);
        assert(path_key(paths[paths.len() - 1]) != key);
    }
}

/// Selecting by key from `sorted` with `path` put in at `at`, where every key
/// before `at` is smaller than that of `path`: `path` comes first among the
/// paths of its own key, and the other keys do not see it.
pub proof fn lemma_with_key_insert(sorted: Seq<Seq<char>>, at: int, path: Seq<char>, key: int)
    requires
        0 <= at <= sorted.len(),
        forall|i: int| 0 <= i < at ==> path_key(#[trigger] sorted[i]) < path_key(path),
    ensures
        with_key(sorted.insert(at, path), key) == if path_key(path) == key {
            seq![path] + with_key(sorted, key)
        } else {
            with_key(sorted, key)
        },
{
    let pred = |p: Seq<char>| path_key(p) == key;
    let before = sorted.subrange(0, at);
    let after = sorted.subrange(at, sorted.len() as int);
    assert(sorted =~= before + after);
    assert(sorted.insert(at, path) =~= before.push(path) + after);
    Seq::filter_distributes_over_add(before, after, pred);
    Seq::filter_distributes_over_add(before.push(path), after, pred);
    before.lemma_filter_push(path, pred);
    if path_key(path) == key {
        assert forall|i: int| 0 <= i < before.len() implies path_key(#[trigger] before[i])
            != key by {
            assert(before[i] == sorted[i]);
        }
        lemma_with_key_none(before, key);
        assert(with_key(sorted.insert(at, path), key) =~= seq![path] + with_key(sorted, key));
    }
}

/// What `key_ordered` does: it rearranges the paths it is given, leaves the
/// keys ascending, and keeps the paths of each key in their order.
pub proof fn lemma_key_ordered(paths: Seq<Seq<char>>)
    ensures
        key_ordered(paths).len() == paths.len(),
        key_ordered(paths).to_multiset() == paths.to_multiset(),
        sorted_by_key(key_ordered(paths)),
        forall|key: int| #[trigger] with_key(key_ordered(paths), key) == with_key(paths, key),
    decreases paths.len(),
{
    if paths.len() == 0 {
    } else {
        let first = paths[0];
        let tail = paths.skip(1);
        let rest = key_ordered(tail);
        let at = first_not_below(rest, path_key(first));
        let placed = rest.insert(at, first);
        lemma_key_ordered(tail);
        lemma_first_not_below(rest, path_key(first));
        assert(paths =~= tail.insert(0, first));
        vstd::seq_lib::to_multiset_insert(rest, at, first);
        vstd::seq_lib::to_multiset_insert(tail, 0, first);
        assert(sorted_by_key(placed)) by {
            assert forall|i: int, j: int| 0 <= i <= j < placed.len() implies path_key(
                #[trigger] placed[i],
            ) <= path_key(#[trigger] placed[j]) by {
                let a = if i < at { i } else { i - 1 };
                let b = if j < at { j } else { j - 1 };
                if i != at {
                    assert(placed[i] == rest[a]);
                }
                if j != at {
                    assert(placed[j] == rest[b]);
                }
                if i != at && j != at {
                    assert(a <= b);
                } else if i == at && j != at {
                    assert(at <= b);
                    assert(path_key(rest[at]) <= path_key(rest[b]));
                }
            }
        }
        assert forall|key: int| #[trigger]
            with_key(placed, key) == with_key(paths, key) by {
            lemma_with_key_insert(rest, at, first, key);
            lemma_with_key_insert(tail, 0, first, key);
        }
    }
}

/// A sorted list is still sorted when one of its paths is taken out.
pub proof fn lemma_sorted_without(paths: Seq<Seq<char>>, at: int)
    requires
        sorted_by_key(paths),
        0 <= at < paths.len(),
    ensures
        sorted_by_key(paths.remove(at)),
{
    let without = paths.remove(at);
    assert forall|i: int, j: int| 0 <= i <= j < without.len() implies path_key(
        #[trigger] without[i],
    ) <= path_key(#[trigger] without[j]) by {
        let a = if i < at { i } else { i + 1 };
        let b = if j < at { j } else { j + 1 };
        assert(without[i] == paths[a]);
        assert(without[j] == paths[b]);
    }
}

/// Selecting by key from a list that has a first path: the first path leads
/// the paths of its own key, and the other keys select from the rest alone.
pub proof fn lemma_with_key_first(paths: Seq<Seq<char>>, key: int)
    requires
        paths.len() > 0,
    ensures
        with_key(paths, key) == if path_key(paths[0]) == key {
            seq![paths[0]] + with_key(paths.skip(1), key)
        } else {
            with_key(paths.skip(1), key)
        },
{
    assert(paths =~= paths.skip(1).insert(0, paths[0]));
    lemma_with_key_insert(paths.skip(1), 0, paths[0], key);
}

/// A key that selects something is the key of one of the paths.
pub proof fn lemma_with_key_some(paths: Seq<Seq<char>>, key: int)
    requires
        with_key(paths, key).len() > 0,
    ensures
        exists|i: int| 0 <= i < paths.len() && path_key(#[trigger] paths[i]) == key,
{
    if forall|i: int| 0 <= i < paths.len() ==> path_key(#[trigger] paths[i]) != key {
        lemma_with_key_none(paths, key);
    }
}

/// Two lists in ascending order of key that hold, for each key, the same
/// paths in the same order are one and the same list: to be sorted and to
/// keep the order within each key leaves no choice.
pub proof fn lemma_stable_order_is_unique(first: Seq<Seq<char>>, second: Seq<Seq<char>>)
    requires
        sorted_by_key(first),
        sorted_by_key(second),
        forall|key: int| #[trigger] with_key(first, key) == with_key(second, key),
    ensures
        first == second,
    decreases first.len(),
{
    if first.len() == 0 {
        if second.len() > 0 {
            let key = path_key(second[0]);
            lemma_with_key_first(second, key);
            lemma_with_key_none(first, key);
            assert(with_key(first, key) == with_key(second, key));
        }
        assert(first =~= second);
    } else {
        let key = path_key(first[0]);
        lemma_with_key_first(first, key);
        assert(with_key(first, key) == with_key(second, key));
        if second.len() == 0 {
            lemma_with_key_none(second, key);
        }
        let other = path_key(second[0]);
        lemma_with_key_first(second, other);
        assert(with_key(first, other) == with_key(second, other));
        lemma_with_key_some(second, key);
        lemma_with_key_some(first, other);
        assert(key == other);
        let first_rest = first.skip(1);
        let second_rest = second.skip(1);
        let selected = with_key(first, key);
        assert(selected[0] == first[0]);
        assert(selected[0] == second[0]);
        assert(selected.skip(1) =~= with_key(first_rest, key));
        assert(selected.skip(1) =~= with_key(second_rest, key));
        assert forall|k: int| #[trigger]
            with_key(first_rest, k) == with_key(second_rest, k) by {
            lemma_with_key_first(first, k);
            lemma_with_key_first(second, k);
            assert(with_key(first, k) == with_key(second, k));
        }
        lemma_sorted_without(first, 0);
        lemma_sorted_without(second, 0);
        assert(first_rest =~= first.remove(0));
        assert(second_rest =~= second.remove(0));
        lemma_stable_order_is_unique(first_rest, second_rest);
        assert(first =~= seq![first[0]] + first_rest);
        assert(second =~= seq![second[0]] + second_rest);
    }
}

/// Whatever list is in ascending order of key and keeps, for each key, the
/// paths of `paths` in their order, is `key_ordered(paths)`.
pub proof fn lemma_key_ordered_is_the_stable_order(sorted: Seq<Seq<char>>, paths: Seq<Seq<char>>)
    requires
        sorted_by_key(sorted),
        forall|key: int| #[trigger] with_key(sorted, key) == with_key(paths, key),
    ensures
        sorted == key_ordered(paths),
{
    lemma_key_ordered(paths);
    assert forall|key: int| #[trigger]
        with_key(sorted, key) == with_key(key_ordered(paths), key) by {
        assert(with_key(sorted, key) == with_key(paths, key));
        assert(with_key(key_ordered(paths), key) == with_key(paths, key));
    }
    lemma_stable_order_is_unique(sorted, key_ordered(paths));
}

/// In a sorted list, a path without digits stands before every path whose
/// key is above 0.
pub proof fn lemma_digit_free_first(paths: Seq<Seq<char>>, free: int, keyed: int)
    requires
        sorted_by_key(paths),
        digit_free_keyed_zero(paths),
        0 <= free < paths.len(),
        0 <= keyed < paths.len(),
        without_ascii_digit(paths[free]),
        path_key(paths[keyed]) > 0,
    ensures
        free < keyed,
{
}

/// A property of each path of a list holds of each path of a rearrangement
/// of it: here, that the paths without digits have the key 0.
pub proof fn lemma_digit_free_rearranged(paths: Seq<Seq<char>>, rearranged: Seq<Seq<char>>)
    requires
        digit_free_keyed_zero(paths),
        rearranged.to_multiset() == paths.to_multiset(),
    ensures
        digit_free_keyed_zero(rearranged),
{
    assert forall|i: int|
        0 <= i < rearranged.len() && without_ascii_digit(
            #[trigger] rearranged[i],
        ) implies path_key(rearranged[i]) == 0 by {
        assert(rearranged.contains(rearranged[i]));
        vstd::seq_lib::to_multiset_contains(rearranged, rearranged[i]);
        vstd::seq_lib::to_multiset_contains(paths, rearranged[i]);
        let j = choose|j: int| 0 <= j < paths.len() && paths[j] == rearranged[i];
        assert(without_ascii_digit(paths[j]));
    }
}

/// The first position at which `path` stands in `paths`; the length of
/// `paths` where it stands nowhere.
pub open spec fn first_position(paths: Seq<Seq<char>>, path: Seq<char>) -> int
    decreases paths.len(),
{
    if paths.len() == 0 || paths[0] == path {
        0
    } else {
        1 + first_position(paths.skip(1), path)
    }
}

/// `paths` with the first occurrence of `path` moved to the front, and
/// unchanged where `path` does not occur.
pub open spec fn moved_to_front(paths: Seq<Seq<char>>, path: Seq<char>) -> Seq<Seq<char>> {
    let at = first_position(paths, path);
    if at < paths.len() {
        paths.remove(at).insert(0, path)
    } else {
        paths
    }
}

/// The order in which `paths` are shown: by ascending key, and then, where
/// there is a cover image, with its first occurrence moved to the front.
pub open spec fn shown_order(paths: Seq<Seq<char>>, cover: Option<Seq<char>>) -> Seq<Seq<char>> {
    match cover {
        Some(path) => moved_to_front(key_ordered(paths), path),
        None => key_ordered(paths),
    }
}

/// The cover image of a seed list: its first path.
pub open spec fn cover_of(seed: Seq<Seq<char>>) -> Option<Seq<char>> {
    if seed.len() > 0 {
        Some(seed[0])
    } else {
        None
    }
}

/// The order of display of a seed list followed by the paths found later:
/// all of them by ascending key, then the first path of the seed list moved
/// to the front.
pub open spec fn display_order(seed: Seq<Seq<char>>, found: Seq<Seq<char>>) -> Seq<Seq<char>> {
    shown_order(seed + found, cover_of(seed))
}

/// Where `first_position` points: `path` stands there, and nowhere before.
pub proof fn lemma_first_position(paths: Seq<Seq<char>>, path: Seq<char>)
    ensures
        0 <= first_position(paths, path) <= paths.len(),
        forall|i: int| 0 <= i < first_position(paths, path) ==> #[trigger] paths[i] != path,
        first_position(paths, path) < paths.len() ==> paths[first_position(paths, path)] == path,
    decreases paths.len(),
{
    if paths.len() == 0 || paths[0] == path {
    } else {
        let rest = paths.skip(1);
        lemma_first_position(rest, path);
        assert forall|i: int| 0 <= i < first_position(paths, path) implies #[trigger] paths[i]
            != path by {
            if i > 0 {
                assert(paths[i] == rest[i - 1]);
            }
        }
    }
}

/// A position that holds `path`, with no `path` before it, is the one that
/// `first_position` gives; so is the length of a list without `path`.
pub proof fn lemma_first_position_is(paths: Seq<Seq<char>>, path: Seq<char>, at: int)
    requires
        0 <= at <= paths.len(),
        forall|i: int| 0 <= i < at ==> #[trigger] paths[i] != path,
        at < paths.len() ==> paths[at] == path,
    ensures
        first_position(paths, path) == at,
    decreases paths.len(),
{
    if paths.len() == 0 || at == 0 {
    } else {
        assert(paths[0] != path);
        let rest = paths.skip(1);
        assert forall|i: int| 0 <= i < at - 1 implies #[trigger] rest[i] != path by {
            assert(rest[i] == paths[i + 1]);
        }
        lemma_first_position_is(rest, path, at - 1);
    }
}

/// The characters of each path of `paths` after `path` was put in at `at`.
proof fn lemma_deep_view_insert(before: Vec<String>, after: Vec<String>, at: int, path: String)
    requires
        0 <= at <= before@.len(),
        after@ == before@.insert(at, path),
    ensures
        after.deep_view() == before.deep_view().insert(at, path@),
{
    assert(after.deep_view() =~= before.deep_view().insert(at, path@));
}

/// Sorts `paths` by numeric key, ascending. Paths of equal key keep the order
/// in which `paths` lists them.
pub fn sort_by_numeric_key(paths: Vec<String>) -> (sorted: Vec<String>)
    ensures
        sorted.deep_view() == key_ordered(paths.deep_view()),
        sorted.len() == paths.len(),
        sorted.deep_view().to_multiset() == paths.deep_view().to_multiset(),
        sorted_by_key(sorted.deep_view()),
        forall|key: int| #[trigger]
            with_key(sorted.deep_view(), key) == with_key(paths.deep_view(), key),
        digit_free_keyed_zero(sorted.deep_view()),
{
    let ghost all = paths.deep_view();
    let mut rest = paths;
    let mut sorted: Vec<String> = Vec::new();
    let mut keys: Vec<u32> = Vec::new();
    assert(all.skip(all.len() as int) =~= Seq::<Seq<char>>::empty());
    assert(sorted.deep_view() =~= Seq::<Seq<char>>::empty());
    while rest.len() > 0
        invariant
            rest.len() <= all.len(),
            rest.deep_view() == all.take(rest.len() as int),
            sorted.deep_view() == key_ordered(all.skip(rest.len() as int)),
            keys.len() == sorted.len(),
            forall|i: int| 0 <= i < keys.len() ==> #[trigger] keys[i] == path_key(sorted[i]@),
            digit_free_keyed_zero(sorted.deep_view()),
        decreases rest.len(),
    {
        let ghost left = rest.len() as int;
        let ghost placed = sorted.deep_view();
        let ghost shorter = rest;
        let path = rest.pop().unwrap();
        let key = numeric_key(path.as_str());
        let mut at: usize = 0;
        while at < keys.len() && keys[at] < key
            invariant
                at <= keys.len(),
                keys.len() == sorted.len(),
                forall|i: int| 0 <= i < keys.len() ==> #[trigger] keys[i] == path_key(sorted[i]@),
                forall|i: int| 0 <= i < at ==> #[trigger] keys[i] < key,
            decreases keys.len() - at,
        {
            at += 1;
        }
        proof {
            assert(path@ == all[left - 1]) by {
                assert(shorter.deep_view()[left - 1] == all.take(left)[left - 1]);
            }
            assert(rest.deep_view() =~= all.take(left - 1)) by {
                assert forall|i: int| 0 <= i < left - 1 implies rest.deep_view()[i] == all.take(
                    left - 1,
                )[i] by {
                    assert(shorter.deep_view()[i] == all.take(left)[i]);
                }
            }
            assert(all.skip(left - 1).skip(1) =~= all.skip(left));
            assert forall|i: int| 0 <= i < at implies path_key(#[trigger] placed[i]) < key by {
                assert(keys[i] < key);
            }
            lemma_first_not_below_is(placed, key as int, at as int);
        }
        let ghost before = sorted;
        sorted.insert(at, path);
        keys.insert(at, key);
        proof {
            lemma_deep_view_insert(before, sorted, at as int, path);
            assert forall|i: int|
                0 <= i < sorted.len() && without_ascii_digit(
                    #[trigger] sorted.deep_view()[i],
                ) implies path_key(sorted.deep_view()[i]) == 0 by {
                if i < at {
                    assert(sorted.deep_view()[i] == placed[i]);
                } else if i > at {
                    assert(sorted.deep_view()[i] == placed[i - 1]);
                }
            }
        }
    }
    proof {
        assert(all.skip(0) =~= all);
        lemma_key_ordered(all);
    }
    sorted
}

/// The characters of each path of `paths` after the path at `at` was taken out.
proof fn lemma_deep_view_remove(before: Vec<String>, after: Vec<String>, at: int)
    requires
        0 <= at < before@.len(),
        after@ == before@.remove(at),
    ensures
        after.deep_view() == before.deep_view().remove(at),
{
    assert(after.deep_view() =~= before.deep_view().remove(at));
}

/// Moving a path to the front rearranges the list; where the path occurs it
/// then stands first, and what follows it keeps its order, so that a list
/// that was sorted by key is still sorted from the second position on.
pub proof fn lemma_moved_to_front(paths: Seq<Seq<char>>, path: Seq<char>)
    ensures
        moved_to_front(paths, path).len() == paths.len(),
        moved_to_front(paths, path).to_multiset() == paths.to_multiset(),
        paths.contains(path) ==> moved_to_front(paths, path)[0] == path,
        paths.contains(path) ==> moved_to_front(paths, path).skip(1) == paths.remove(
            first_position(paths, path),
        ),
        !paths.contains(path) ==> moved_to_front(paths, path) == paths,
        sorted_by_key(paths) && paths.contains(path) ==> sorted_by_key(
            moved_to_front(paths, path).skip(1),
        ),
{
    let at = first_position(paths, path);
    lemma_first_position(paths, path);
    if at < paths.len() {
        let without = paths.remove(at);
        let moved = without.insert(0, path);
        assert(paths.contains(path));
        vstd::seq_lib::to_multiset_remove(paths, at);
        vstd::seq_lib::to_multiset_insert(without, 0, path);
        assert(paths.to_multiset().count(path) > 0) by {
            vstd::seq_lib::to_multiset_contains(paths, path);
        }
        assert(paths.to_multiset().remove(path).insert(path) =~= paths.to_multiset());
        assert(moved.skip(1) =~= without);
        if sorted_by_key(paths) {
            lemma_sorted_without(paths, at);
        }
    } else {
        if paths.contains(path) {
            let i = choose|i: int| 0 <= i < paths.len() && paths[i] == path;
            assert(paths[i] != path);
        }
    }
}

/// The display order holds every path once for each time it was listed. With
/// a seed list, its first path stands first, and the paths after the first
/// position are in ascending order of key.
pub proof fn lemma_display_order(seed: Seq<Seq<char>>, found: Seq<Seq<char>>)
    ensures
        display_order(seed, found).len() == seed.len() + found.len(),
        display_order(seed, found).to_multiset() == (seed + found).to_multiset(),
        seed.len() == 0 ==> sorted_by_key(display_order(seed, found)),
        seed.len() > 0 ==> display_order(seed, found)[0] == seed[0],
        seed.len() > 0 ==> sorted_by_key(display_order(seed, found).skip(1)),
{
    let all = seed + found;
    let sorted = key_ordered(all);
    lemma_key_ordered(all);
    if seed.len() > 0 {
        assert(all[0] == seed[0]);
        assert(all.contains(seed[0]));
        vstd::seq_lib::to_multiset_contains(all, seed[0]);
        vstd::seq_lib::to_multiset_contains(sorted, seed[0]);
        lemma_moved_to_front(sorted, seed[0]);
    }
}

/// Moves the first occurrence of `path` in `paths` to the front. A list in
/// which `path` does not occur stays as it is.
pub fn move_to_front(paths: &mut Vec<String>, path: &String)
    ensures
        final(paths).deep_view() == moved_to_front(old(paths).deep_view(), path@),
{
    let ghost listed = paths.deep_view();
    let mut at: usize = 0;
    while at < paths.len() && !(paths[at] == *path)
        invariant
            at <= paths.len(),
            paths.deep_view() == listed,
            forall|i: int| 0 <= i < at ==> #[trigger] listed[i] != path@,
        decreases paths.len() - at,
    {
        assert(listed[at as int] == paths[at as int]@);
        at += 1;
    }
    proof {
        if at < paths.len() {
            assert(listed[at as int] == paths[at as int]@);
        }
        lemma_first_position_is(listed, path@, at as int);
    }
    if at < paths.len() {
        let ghost before = *paths;
        let found = paths.remove(at);
        let ghost without = *paths;
        paths.insert(0, found);
        proof {
            lemma_deep_view_remove(before, without, at as int);
            lemma_deep_view_insert(without, *paths, 0, found);
        }
    }
}

/// Puts a seed list and the paths found later into their order of display:
/// all of them by ascending key, paths of equal key in the order listed, and
/// then the first path of the seed list moved to the front.
pub fn arrange(seed: Vec<String>, found: Vec<String>) -> (shown: Vec<String>)
    ensures
        shown.deep_view() == display_order(seed.deep_view(), found.deep_view()),
        shown.len() == seed.len() + found.len(),
        shown.deep_view().to_multiset() == (seed.deep_view()
            + found.deep_view()).to_multiset(),
        seed.len() == 0 ==> sorted_by_key(shown.deep_view()),
        seed.len() > 0 ==> shown.deep_view()[0] == seed[0]@,
        seed.len() > 0 ==> sorted_by_key(shown.deep_view().skip(1)),
        digit_free_keyed_zero(shown.deep_view()),
{
    let cover = if seed.len() > 0 {
        Some(seed[0].clone())
    } else {
        None
    };
    let mut all = seed;
    let mut found = found;
    let ghost later = found.deep_view();
    all.append(&mut found);
    proof {
        assert(all.deep_view() =~= seed.deep_view() + later);
        lemma_display_order(seed.deep_view(), later);
    }
    let mut shown = sort_by_numeric_key(all);
    let ghost sorted = shown.deep_view();
    match cover {
        Some(path) => {
            move_to_front(&mut shown, &path);
            proof {
                lemma_moved_to_front(sorted, path@);
                lemma_digit_free_rearranged(sorted, shown.deep_view());
            }
        },
        None => {},
    }
    shown
}

} // verus!
