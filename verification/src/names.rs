//! Lists of names in ascending order, each name once.

use crate::text;
use vstd::prelude::*;

verus! {

/// Each name comes before those that follow it, so none occurs twice.
pub open spec fn ascending(names: Seq<Seq<char>>) -> bool {
    forall|i: int, j: int|
        0 <= i < j < names.len() ==> text::precedes(#[trigger] names[i], #[trigger] names[j])
}

/// The two lists hold the same names, whatever their order and however often.
pub open spec fn same_names(a: Seq<Seq<char>>, b: Seq<Seq<char>>) -> bool {
    forall|name: Seq<char>| a.contains(name) <==> b.contains(name)
}

/// `longer` holds the names of `list`, and `name`.
pub open spec fn adds(longer: Seq<Seq<char>>, list: Seq<Seq<char>>, name: Seq<char>) -> bool {
    forall|n: Seq<char>| #[trigger] longer.contains(n) <==> (list.contains(n) || n == name)
}

/// The names of `names` in ascending order, each once.
pub open spec fn sorted(names: Seq<Seq<char>>) -> Seq<Seq<char>> {
    choose|list: Seq<Seq<char>>| ascending(list) && same_names(list, names)
}

/// No string comes before itself.
pub proof fn order_is_irreflexive(a: Seq<char>)
    ensures
        !text::precedes(a, a),
    decreases a.len(),
{
    if a.len() > 0 {
        order_is_irreflexive(a.drop_first());
    }
}

/// Of two different strings one comes before the other.
pub proof fn order_is_total(a: Seq<char>, b: Seq<char>)
    ensures
        text::precedes(a, b) || a == b || text::precedes(b, a),
    decreases a.len(),
{
    if a.len() > 0 && b.len() > 0 {
        if a[0] == b[0] {
            order_is_total(a.drop_first(), b.drop_first());
            if a.drop_first() == b.drop_first() {
                assert(a =~= seq![a[0]] + a.drop_first());
                assert(b =~= seq![b[0]] + b.drop_first());
            }
        }
    } else if a.len() == 0 && b.len() == 0 {
        assert(a =~= b);
    }
}

/// What comes before a string comes before all that follow it.
pub proof fn order_is_transitive(a: Seq<char>, b: Seq<char>, c: Seq<char>)
    requires
        text::precedes(a, b),
        text::precedes(b, c),
    ensures
        text::precedes(a, c),
    decreases a.len(),
{
    if a.len() > 0 && b.len() > 0 && c.len() > 0 && a[0] == b[0] && b[0] == c[0] {
        order_is_transitive(a.drop_first(), b.drop_first(), c.drop_first());
    }
}

/// Putting a name in its place keeps the order and adds just that name.
proof fn insertion_keeps_order(list: Seq<Seq<char>>, k: int, name: Seq<char>)
    requires
        ascending(list),
        0 <= k <= list.len(),
        forall|i: int| 0 <= i < k ==> text::precedes(#[trigger] list[i], name),
        k < list.len() ==> text::precedes(name, list[k]),
    ensures
        ascending(list.insert(k, name)),
        adds(list.insert(k, name), list, name),
{
    let longer = list.insert(k, name);
    assert forall|i: int, j: int| 0 <= i < j < longer.len() implies text::precedes(
        #[trigger] longer[i],
        #[trigger] longer[j],
    ) by {
        if i == k && j > k + 1 {
            order_is_transitive(name, list[k], list[j - 1]);
        }
    }
    assert forall|n: Seq<char>| list.contains(n) || n == name implies longer.contains(n) by {
        if n == name {
            assert(longer[k] == n);
        } else {
            let i = choose|i: int| 0 <= i < list.len() && list[i] == n;
            assert(longer[if i < k { i } else { i + 1 }] == n);
        }
    }
    assert forall|n: Seq<char>| longer.contains(n) implies list.contains(n) || n == name by {
        let i = choose|i: int| 0 <= i < longer.len() && longer[i] == n;
        if i < k {
            assert(list[i] == n);
        } else if i > k {
            assert(list[i - 1] == n);
        }
    }
}

/// An ascending list begins with the least of its names, and goes on with the others.
proof fn first_is_least(a: Seq<Seq<char>>, b: Seq<Seq<char>>)
    requires
        ascending(a),
        ascending(b),
        same_names(a, b),
        a.len() > 0,
    ensures
        b.len() > 0,
        a[0] == b[0],
        ascending(a.drop_first()),
        same_names(a.drop_first(), b.drop_first()),
{
    assert(a.contains(a[0]));
    let i = choose|i: int| 0 <= i < b.len() && b[i] == a[0];
    assert(b.contains(b[0]));
    let j = choose|j: int| 0 <= j < a.len() && a[j] == b[0];
    if i > 0 && j > 0 {
        order_is_transitive(a[0], b[0], a[0]);
        order_is_irreflexive(a[0]);
    }
    assert forall|n: Seq<char>| a.drop_first().contains(n) implies b.drop_first().contains(n) by {
        rest_is_kept(a, b, n);
    }
    assert forall|n: Seq<char>| b.drop_first().contains(n) implies a.drop_first().contains(n) by {
        rest_is_kept(b, a, n);
    }
}

/// A name after the first of `a` comes after the first of `b` too, where the firsts are equal.
proof fn rest_is_kept(a: Seq<Seq<char>>, b: Seq<Seq<char>>, n: Seq<char>)
    requires
        ascending(a),
        same_names(a, b),
        a.len() > 0,
        b.len() > 0,
        a[0] == b[0],
        a.drop_first().contains(n),
    ensures
        b.drop_first().contains(n),
{
    let i = choose|i: int| 0 <= i < a.drop_first().len() && a.drop_first()[i] == n;
    assert(a[i + 1] == n);
    assert(text::precedes(a[0], a[i + 1]));
    order_is_irreflexive(n);
    assert(a.contains(n));
    let j = choose|j: int| 0 <= j < b.len() && b[j] == n;
    assert(b.drop_first()[j - 1] == n);
}

/// Two ascending lists of the same names are equal: order and repetitions leave no choice.
pub proof fn ascending_list_is_unique(a: Seq<Seq<char>>, b: Seq<Seq<char>>)
    requires
        ascending(a),
        ascending(b),
        same_names(a, b),
    ensures
        a == b,
    decreases a.len(),
{
    if a.len() == 0 {
        if b.len() > 0 {
            assert(b.contains(b[0]));
        }
        assert(a =~= b);
    } else {
        first_is_least(a, b);
        ascending_list_is_unique(a.drop_first(), b.drop_first());
        assert(a =~= seq![a[0]] + a.drop_first());
        assert(b =~= seq![b[0]] + b.drop_first());
    }
}

/// `list` is the sorted form of `names` as soon as it is ascending and holds the same names.
pub proof fn sorted_is(list: Seq<Seq<char>>, names: Seq<Seq<char>>)
    requires
        ascending(list),
        same_names(list, names),
    ensures
        sorted(names) == list,
{
    let chosen = sorted(names);
    assert(ascending(chosen) && same_names(chosen, names));
    ascending_list_is_unique(chosen, list);
}

/// Every list of names has a sorted form: ascending, with the same names.
pub proof fn sorted_holds_the_names_in_order(names: Seq<Seq<char>>)
    ensures
        ascending(sorted(names)),
        same_names(sorted(names), names),
    decreases names.len(),
{
    if names.len() == 0 {
        sorted_is(names, names);
    } else {
        let rest = names.drop_last();
        let name = names.last();
        sorted_holds_the_names_in_order(rest);
        let list = sorted(rest);
        let k = insertion_point(list, name);
        let longer = if k < list.len() && list[k] == name {
            list
        } else {
            insertion_keeps_order(list, k, name);
            list.insert(k, name)
        };
        last_adds_one(names);
        if longer == list {
            assert(list.contains(name));
        }
        assert forall|n: Seq<char>| longer.contains(n) <==> names.contains(n) by {
            assert(list.contains(n) <==> rest.contains(n));
        }
        sorted_is(longer, names);
    }
}

/// A list holds what it holds without its last name, and that name.
proof fn last_adds_one(names: Seq<Seq<char>>)
    requires
        names.len() > 0,
    ensures
        adds(names, names.drop_last(), names.last()),
{
    assert forall|n: Seq<char>| names.contains(n) implies names.drop_last().contains(n) || n
        == names.last() by {
        let i = choose|i: int| 0 <= i < names.len() && names[i] == n;
        if i < names.len() - 1 {
            assert(names.drop_last()[i] == n);
        }
    }
    assert forall|n: Seq<char>|
        names.drop_last().contains(n) || n == names.last() implies names.contains(n) by {
        if n == names.last() {
            assert(names[names.len() - 1] == n);
        } else {
            let i = choose|i: int| 0 <= i < names.drop_last().len() && names.drop_last()[i] == n;
            assert(names[i] == n);
        }
    }
}

/// The position in `list` up to which all names come before `name`.
proof fn insertion_point(list: Seq<Seq<char>>, name: Seq<char>) -> (k: int)
    requires
        ascending(list),
    ensures
        0 <= k <= list.len(),
        forall|i: int| 0 <= i < k ==> text::precedes(#[trigger] list[i], name),
        k < list.len() ==> list[k] == name || text::precedes(name, list[k]),
    decreases list.len(),
{
    if list.len() == 0 {
        0
    } else if text::precedes(list.last(), name) {
        assert forall|i: int| 0 <= i < list.len() implies text::precedes(
            #[trigger] list[i],
            name,
        ) by {
            if i < list.len() - 1 {
                order_is_transitive(list[i], list.last(), name);
            }
        }
        list.len() as int
    } else {
        order_is_total(list.last(), name);
        let k = insertion_point(list.drop_last(), name);
        assert forall|i: int| 0 <= i < k implies text::precedes(#[trigger] list[i], name) by {
            assert(list.drop_last()[i] == list[i]);
        }
        k
    }
}

/// The sorted form depends only on which names there are, not on their order or number.
pub proof fn sorted_depends_on_the_names_alone(a: Seq<Seq<char>>, b: Seq<Seq<char>>)
    requires
        same_names(a, b),
    ensures
        sorted(a) == sorted(b),
{
    sorted_holds_the_names_in_order(a);
    assert(same_names(sorted(a), b));
    sorted_is(sorted(a), b);
}

/// Puts `name` in its place in the ascending `list`, unless it is there already.
pub fn add_name(list: &mut Vec<String>, name: String)
    requires
        ascending(old(list).deep_view()),
    ensures
        ascending(final(list).deep_view()),
        adds(final(list).deep_view(), old(list).deep_view(), name@),
{
    let ghost before = list.deep_view();
    let mut k: usize = 0;
    while k < list.len() && text::is_before(list[k].as_str(), name.as_str())
        invariant
            k <= list.len(),
            list.deep_view() == before,
            forall|i: int| 0 <= i < k ==> text::precedes(#[trigger] before[i], name@),
        decreases list.len() - k,
    {
        assert(before[k as int] == list[k as int]@);
        k += 1;
    }
    proof {
        if k < list.len() {
            assert(before[k as int] == list[k as int]@);
            order_is_total(before[k as int], name@);
        }
    }
    if k < list.len() && text::same_text(list[k].as_str(), name.as_str()) {
        assert(before[k as int] == name@);
        return;
    }
    proof {
        insertion_keeps_order(before, k as int, name@);
    }
    list.insert(k, name);
    assert(list.deep_view() =~= before.insert(k as int, name@));
}

/// The names of `names` in ascending order, each once.
pub fn sorted_names(names: Vec<String>) -> (r: Vec<String>)
    ensures
        r.deep_view() == sorted(names.deep_view()),
{
    let mut r: Vec<String> = Vec::new();
    let ghost all = names.deep_view();
    let mut i: usize = 0;
    while i < names.len()
        invariant
            i <= names.len(),
            names.deep_view() == all,
            ascending(r.deep_view()),
            same_names(r.deep_view(), all.take(i as int)),
        decreases names.len() - i,
    {
        let ghost before = r.deep_view();
        add_name(&mut r, names[i].clone());
        proof {
            let prefix = all.take(i + 1);
            assert(prefix.drop_last() =~= all.take(i as int));
            assert(prefix.last() == names[i as int]@);
            last_adds_one(prefix);
            assert forall|n: Seq<char>| r.deep_view().contains(n) <==> prefix.contains(n) by {
                assert(before.contains(n) <==> prefix.drop_last().contains(n));
            }
        }
        i += 1;
    }
    proof {
        assert(all.take(all.len() as int) =~= all);
        sorted_is(r.deep_view(), all);
    }
    r
}

/// Of the names in a sorted list, each comes before those that follow it and differs from them; all
/// of them are among the names that were sorted, and none of those is lost.
pub proof fn sorted_list_ascends_and_loses_nothing(names: Seq<Seq<char>>)
    ensures
        forall|i: int, j: int|
            0 <= i < j < sorted(names).len() ==> text::precedes(
                #[trigger] sorted(names)[i],
                #[trigger] sorted(names)[j],
            ) && sorted(names)[i] != sorted(names)[j],
        forall|i: int| 0 <= i < sorted(names).len() ==> names.contains(#[trigger] sorted(names)[i]),
        forall|k: int| 0 <= k < names.len() ==> sorted(names).contains(#[trigger] names[k]),
{
    let list = sorted(names);
    sorted_holds_the_names_in_order(names);
    assert forall|i: int, j: int| 0 <= i < j < list.len() implies text::precedes(
        #[trigger] list[i],
        #[trigger] list[j],
    ) && list[i] != list[j] by {
        order_is_irreflexive(list[i]);
    }
    assert forall|i: int| 0 <= i < list.len() implies names.contains(#[trigger] list[i]) by {
        assert(list.contains(list[i]));
    }
    assert forall|k: int| 0 <= k < names.len() implies list.contains(#[trigger] names[k]) by {
        assert(names.contains(names[k]));
    }
}

} // verus!
