//! Resolution of the `[dependency-groups]` table: each selected group is
//! resolved with a fresh visited set, following `{include-group = ...}`
//! references, and a group reached twice in one resolution is a cycle.
use vstd::prelude::*;
use vstd::seq_lib::seq_to_set_is_finite;
use vstd::set_lib::lemma_len_subset;
use vstd::string::StringExecFns;

use crate::error::ParsingError;
use crate::name_set::{contains_text, insert_name, is_name_set, text_set, texts};
use crate::names::{extract_package_name, normalize_package_name, specifier_name};
use crate::tree::{lookup, lookup_entry, str_of, TomlValue};

verus! {

/// The names of the groups of a group table.
pub open spec fn group_names(groups: Seq<(String, TomlValue)>) -> Set<Seq<char>> {
    groups.map_values(|e: (String, TomlValue)| e.0@).to_set()
}

/// How many groups of the table are not yet visited.
pub open spec fn unvisited_count(groups: Seq<(String, TomlValue)>, visited: Set<Seq<char>>) -> nat {
    group_names(groups).difference(visited).len()
}

/// The entries of a group: its array, or nothing when its value is not an array.
pub open spec fn group_items(v: TomlValue) -> Seq<TomlValue> {
    match v {
        TomlValue::Array(items) => items@,
        _ => Seq::empty(),
    }
}

/// The group that an entry `{include-group = "name"}` refers to.
pub open spec fn included_group(item: TomlValue) -> Option<Seq<char>> {
    match item {
        TomlValue::Table(t) => str_of(lookup(t@, "include-group"@)),
        _ => None,
    }
}

/// A failure of group resolution.
pub enum GroupFault {
    Missing { included: Seq<char>, from_group: Seq<char> },
    Circular { group: Seq<char> },
}

/// The group-resolution failure that an error reports, if it is one.
pub open spec fn fault_of(e: ParsingError) -> Option<GroupFault> {
    match e {
        ParsingError::MissingDependencyGroup { included, from_group } => Some(
            GroupFault::Missing { included: included@, from_group: from_group@ },
        ),
        ParsingError::CircularDependencyGroup { group } => Some(
            GroupFault::Circular { group: group@ },
        ),
        _ => None,
    }
}

/// Visiting a further group of the table lowers the count of unvisited groups.
pub proof fn lemma_unvisited_shrinks(
    groups: Seq<(String, TomlValue)>,
    outer: Set<Seq<char>>,
    from: Seq<char>,
    visited: Set<Seq<char>>,
)
    requires
        outer.insert(from).subset_of(visited),
        group_names(groups).contains(from),
        !outer.contains(from),
    ensures
        unvisited_count(groups, visited) < unvisited_count(groups, outer),
{
    let names = group_names(groups);
    seq_to_set_is_finite(groups.map_values(|e: (String, TomlValue)| e.0@));
    let a = names.difference(visited);
    let b = names.difference(outer);
    assert(a.subset_of(b.remove(from)));
    lemma_len_subset(a, b.remove(from));
}

/// Resolves group `name` with `visited` already seen in this resolution: the
/// names it contributes and the visited set afterwards.
pub open spec fn resolve_group(
    groups: Seq<(String, TomlValue)>,
    name: Seq<char>,
    visited: Set<Seq<char>>,
) -> Result<(Set<Seq<char>>, Set<Seq<char>>), GroupFault>
    decreases unvisited_count(groups, visited), 1nat, 0nat,
{
    if visited.contains(name) {
        Err(GroupFault::Circular { group: name })
    } else {
        match lookup(groups, name) {
            None => Ok((Set::empty(), visited.insert(name))),
            Some(v) => resolve_items(groups, name, group_items(v), group_items(v).len(), visited),
        }
    }
}

/// Resolves the first `n` entries of group `from`, entered with `outer` visited.
pub open spec fn resolve_items(
    groups: Seq<(String, TomlValue)>,
    from: Seq<char>,
    items: Seq<TomlValue>,
    n: nat,
    outer: Set<Seq<char>>,
) -> Result<(Set<Seq<char>>, Set<Seq<char>>), GroupFault>
    decreases unvisited_count(groups, outer), 0nat, n,
{
    if n == 0 {
        Ok((Set::empty(), outer.insert(from)))
    } else {
        match resolve_items(groups, from, items, (n - 1) as nat, outer) {
            Err(f) => Err(f),
            Ok((deps, vis)) => match items[n - 1] {
                TomlValue::Str(s) => Ok((deps.insert(specifier_name(s@)), vis)),
                _ => match included_group(items[n - 1]) {
                    None => Ok((deps, vis)),
                    Some(g) => if lookup(groups, g) is None {
                        Err(GroupFault::Missing { included: g, from_group: from })
                    } else if outer.insert(from).subset_of(vis) && group_names(groups).contains(from)
                        && !outer.contains(from) {
                        proof {
                            lemma_unvisited_shrinks(groups, outer, from, vis);
                        }
                        match resolve_group(groups, g, vis) {
                            Err(f) => Err(f),
                            Ok((more, vis2)) => Ok((deps.union(more), vis2)),
                        }
                    } else {
                        // Not reached from `resolve_group`, where the guard always
                        // holds (`lemma_include_guard_holds`); it only bounds the recursion.
                        Ok((deps, vis))
                    },
                },
            },
        }
    }
}

/// The groups to resolve: every group of the table when the selection holds
/// `"all"`, else the selection itself.
pub open spec fn selection_targets(
    groups: Seq<(String, TomlValue)>,
    selection: Seq<Seq<char>>,
) -> Seq<Seq<char>> {
    if selection.contains("all"@) {
        groups.map_values(|e: (String, TomlValue)| e.0@)
    } else {
        selection
    }
}

/// The union of the first `n` targets' resolutions, each from an empty visited
/// set; the first failure in target order ends it.
pub open spec fn resolve_targets(
    groups: Seq<(String, TomlValue)>,
    targets: Seq<Seq<char>>,
    n: nat,
) -> Result<Set<Seq<char>>, GroupFault>
    decreases n,
{
    if n == 0 {
        Ok(Set::empty())
    } else {
        match resolve_targets(groups, targets, (n - 1) as nat) {
            Err(f) => Err(f),
            Ok(deps) => match resolve_group(groups, targets[n - 1], Set::empty()) {
                Err(f) => Err(f),
                Ok((more, _)) => Ok(deps.union(more)),
            },
        }
    }
}

/// The names that selecting `selection` from the group table contributes.
pub open spec fn resolve_selection(
    groups: Seq<(String, TomlValue)>,
    selection: Seq<Seq<char>>,
) -> Result<Set<Seq<char>>, GroupFault> {
    let targets = selection_targets(groups, selection);
    resolve_targets(groups, targets, targets.len())
}

proof fn lemma_lookup_names(groups: Seq<(String, TomlValue)>, key: Seq<char>)
    ensures
        lookup(groups, key) is Some ==> group_names(groups).contains(key),
    decreases groups.len(),
{
    if groups.len() > 0 {
        let keys = groups.map_values(|e: (String, TomlValue)| e.0@);
        if groups[0].0@ == key {
            assert(keys[0] == key);
        } else {
            lemma_lookup_names(groups.drop_first(), key);
            if lookup(groups, key) is Some {
                let tail = groups.drop_first().map_values(|e: (String, TomlValue)| e.0@);
                let j = choose|j: int| 0 <= j < tail.len() && tail[j] == key;
                assert(keys[j + 1] == key);
            }
        }
    }
}

proof fn lemma_resolve_group_grows(
    groups: Seq<(String, TomlValue)>,
    name: Seq<char>,
    visited: Set<Seq<char>>,
)
    ensures
        resolve_group(groups, name, visited) matches Ok((_, v)) ==> visited.insert(name).subset_of(v),
    decreases unvisited_count(groups, visited), 1nat, 0nat,
{
    if !visited.contains(name) {
        if let Some(v) = lookup(groups, name) {
            lemma_resolve_items_grows(groups, name, group_items(v), group_items(v).len(), visited);
        }
    }
}

proof fn lemma_resolve_items_grows(
    groups: Seq<(String, TomlValue)>,
    from: Seq<char>,
    items: Seq<TomlValue>,
    n: nat,
    outer: Set<Seq<char>>,
)
    ensures
        resolve_items(groups, from, items, n, outer) matches Ok((_, v)) ==> outer.insert(from).subset_of(v),
    decreases unvisited_count(groups, outer), 0nat, n,
{
    if n > 0 {
        lemma_resolve_items_grows(groups, from, items, (n - 1) as nat, outer);
        if let Ok((deps, vis)) = resolve_items(groups, from, items, (n - 1) as nat, outer) {
            if let Some(g) = included_group(items[n - 1]) {
                if !(items[n - 1] is Str) && lookup(groups, g) is Some && outer.insert(from).subset_of(vis)
                    && group_names(groups).contains(from) && !outer.contains(from) {
                    lemma_unvisited_shrinks(groups, outer, from, vis);
                    lemma_resolve_group_grows(groups, g, vis);
                }
            }
        }
    }
}

/// Within a resolution started by `resolve_group`, every include is resolved
/// with a visited set that holds the including group and all that was visited
/// before it, so the guard in `resolve_items` never fails there.
pub proof fn lemma_include_guard_holds(
    groups: Seq<(String, TomlValue)>,
    from: Seq<char>,
    outer: Set<Seq<char>>,
    n: nat,
)
    requires
        !outer.contains(from),
        lookup(groups, from) is Some,
        n <= group_items(lookup(groups, from)->Some_0).len(),
        resolve_items(groups, from, group_items(lookup(groups, from)->Some_0), n, outer) matches Ok(
            (_, vis),
        ),
    ensures
        ({
            let vis = resolve_items(groups, from, group_items(lookup(groups, from)->Some_0), n, outer)->Ok_0.1;
            outer.insert(from).subset_of(vis) && group_names(groups).contains(from)
                && !outer.contains(from)
        }),
{
    lemma_lookup_names(groups, from);
    lemma_resolve_items_grows(groups, from, group_items(lookup(groups, from)->Some_0), n, outer);
}

proof fn lemma_items_failure_persists(
    groups: Seq<(String, TomlValue)>,
    from: Seq<char>,
    items: Seq<TomlValue>,
    n: nat,
    m: nat,
    outer: Set<Seq<char>>,
)
    requires
        n <= m,
        resolve_items(groups, from, items, n, outer) is Err,
    ensures
        resolve_items(groups, from, items, m, outer) == resolve_items(groups, from, items, n, outer),
    decreases m - n,
{
    if n < m {
        lemma_items_failure_persists(groups, from, items, n, (m - 1) as nat, outer);
    }
}

proof fn lemma_targets_failure_persists(
    groups: Seq<(String, TomlValue)>,
    targets: Seq<Seq<char>>,
    n: nat,
    m: nat,
)
    requires
        n <= m,
        resolve_targets(groups, targets, n) is Err,
    ensures
        resolve_targets(groups, targets, m) == resolve_targets(groups, targets, n),
    decreases m - n,
{
    if n < m {
        lemma_targets_failure_persists(groups, targets, n, (m - 1) as nat);
    }
}

/// The entries of the group named `name` in the table (none when absent).
pub open spec fn entries_of(groups: Seq<(String, TomlValue)>, name: Seq<char>) -> Seq<TomlValue> {
    match lookup(groups, name) {
        Some(v) => group_items(v),
        None => Seq::empty(),
    }
}

/// The names that the literal entries among `items` declare.
pub open spec fn literal_names(items: Seq<TomlValue>) -> Set<Seq<char>>
    decreases items.len(),
{
    if items.len() == 0 {
        Set::empty()
    } else {
        match items.last() {
            TomlValue::Str(s) => literal_names(items.drop_last()).insert(specifier_name(s@)),
            _ => literal_names(items.drop_last()),
        }
    }
}

proof fn lemma_literal_prefix(
    groups: Seq<(String, TomlValue)>,
    from: Seq<char>,
    items: Seq<TomlValue>,
    n: nat,
    outer: Set<Seq<char>>,
)
    requires
        n <= items.len(),
        forall|j: int| 0 <= j < n ==> (#[trigger] items[j]) is Str,
    ensures
        resolve_items(groups, from, items, n, outer) == Ok::<
            (Set<Seq<char>>, Set<Seq<char>>),
            GroupFault,
        >((literal_names(items.take(n as int)), outer.insert(from))),
    decreases n,
{
    if n > 0 {
        lemma_literal_prefix(groups, from, items, (n - 1) as nat, outer);
        assert(items.take(n as int).drop_last() == items.take(n - 1));
    }
}

/// A selected group that the table does not declare contributes nothing and
/// raises no error.
pub proof fn lemma_unknown_selection_is_empty(groups: Seq<(String, TomlValue)>, name: Seq<char>)
    requires
        lookup(groups, name) is None,
        name != "all"@,
    ensures
        resolve_selection(groups, seq![name]) == Ok::<Set<Seq<char>>, GroupFault>(Set::empty()),
{
    let sel = seq![name];
    assert(!sel.contains("all"@)) by {
        if sel.contains("all"@) {
            let j = choose|j: int| 0 <= j < sel.len() && sel[j] == "all"@;
            assert(sel[j] == name);
        }
    }
    assert(resolve_group(groups, name, Set::empty()) == Ok::<
        (Set<Seq<char>>, Set<Seq<char>>),
        GroupFault,
    >((Set::empty(), Set::<Seq<char>>::empty().insert(name))));
    assert(resolve_targets(groups, sel, 0) == Ok::<Set<Seq<char>>, GroupFault>(Set::empty()));
    assert(Set::<Seq<char>>::empty().union(Set::empty()) == Set::<Seq<char>>::empty());
}

/// A selected group whose entries up to an include are literals, where the
/// included group is not declared, fails with `MissingDependencyGroup`
/// naming the included group and the selected one.
pub proof fn lemma_missing_include_fails(
    groups: Seq<(String, TomlValue)>,
    name: Seq<char>,
    k: int,
    missing: Seq<char>,
)
    requires
        name != "all"@,
        lookup(groups, name) is Some,
        0 <= k < entries_of(groups, name).len(),
        forall|j: int| 0 <= j < k ==> (#[trigger] entries_of(groups, name)[j]) is Str,
        included_group(entries_of(groups, name)[k]) == Some(missing),
        lookup(groups, missing) is None,
    ensures
        resolve_selection(groups, seq![name]) == Err::<Set<Seq<char>>, GroupFault>(
            GroupFault::Missing { included: missing, from_group: name },
        ),
{
    let sel = seq![name];
    assert(!sel.contains("all"@)) by {
        if sel.contains("all"@) {
            let j = choose|j: int| 0 <= j < sel.len() && sel[j] == "all"@;
            assert(sel[j] == name);
        }
    }
    let items = entries_of(groups, name);
    let empty = Set::<Seq<char>>::empty();
    lemma_literal_prefix(groups, name, items, k as nat, empty);
    assert(!(items[k] is Str));
    assert(resolve_items(groups, name, items, (k + 1) as nat, empty) is Err);
    lemma_items_failure_persists(groups, name, items, (k + 1) as nat, items.len(), empty);
    assert(resolve_group(groups, name, empty) == resolve_items(
        groups,
        name,
        items,
        items.len(),
        empty,
    ));
    assert(resolve_targets(groups, sel, 0) == Ok::<Set<Seq<char>>, GroupFault>(Set::empty()));
}

/// Resolves the last entry of group `from`, an include of `next`, after
/// its literal entries.
proof fn lemma_literals_then_include(
    groups: Seq<(String, TomlValue)>,
    from: Seq<char>,
    next: Seq<char>,
    outer: Set<Seq<char>>,
)
    requires
        !outer.contains(from),
        lookup(groups, from) is Some,
        lookup(groups, next) is Some,
        entries_of(groups, from).len() >= 1,
        forall|j: int|
            0 <= j < entries_of(groups, from).len() - 1 ==> (#[trigger] entries_of(groups, from)[j]) is Str,
        included_group(entries_of(groups, from).last()) == Some(next),
    ensures
        resolve_group(groups, from, outer) == match resolve_group(groups, next, outer.insert(from)) {
            Err(f) => Err(f),
            Ok((more, vis)) => Ok::<(Set<Seq<char>>, Set<Seq<char>>), GroupFault>(
                (literal_names(entries_of(groups, from).drop_last()).union(more), vis),
            ),
        },
{
    let items = entries_of(groups, from);
    let k = (items.len() - 1) as nat;
    lemma_literal_prefix(groups, from, items, k, outer);
    assert(items.take(k as int) == items.drop_last());
    lemma_lookup_names(groups, from);
    assert(outer.insert(from).subset_of(outer.insert(from)));
}

/// A three-level include chain `top = L1 + [{include-group = mid}]`,
/// `mid = L2 + [{include-group = base}]`, `base = L3`, where `L1`, `L2` and
/// `L3` are literal entries, selected as `[top]`, resolves to the names of
/// all three lists.
pub proof fn lemma_transitive_chain(
    groups: Seq<(String, TomlValue)>,
    top: Seq<char>,
    mid: Seq<char>,
    base: Seq<char>,
)
    requires
        top != mid && mid != base && top != base,
        top != "all"@,
        lookup(groups, top) is Some && lookup(groups, mid) is Some && lookup(groups, base) is Some,
        entries_of(groups, top).len() >= 1,
        forall|j: int|
            0 <= j < entries_of(groups, top).len() - 1 ==> (#[trigger] entries_of(groups, top)[j]) is Str,
        included_group(entries_of(groups, top).last()) == Some(mid),
        entries_of(groups, mid).len() >= 1,
        forall|j: int|
            0 <= j < entries_of(groups, mid).len() - 1 ==> (#[trigger] entries_of(groups, mid)[j]) is Str,
        included_group(entries_of(groups, mid).last()) == Some(base),
        forall|j: int|
            0 <= j < entries_of(groups, base).len() ==> (#[trigger] entries_of(groups, base)[j]) is Str,
    ensures
        resolve_selection(groups, seq![top]) == Ok::<Set<Seq<char>>, GroupFault>(
            literal_names(entries_of(groups, top).drop_last()).union(
                literal_names(entries_of(groups, mid).drop_last()),
            ).union(literal_names(entries_of(groups, base))),
        ),
{
    let sel = seq![top];
    assert(!sel.contains("all"@)) by {
        if sel.contains("all"@) {
            let j = choose|j: int| 0 <= j < sel.len() && sel[j] == "all"@;
            assert(sel[j] == top);
        }
    }
    let it = entries_of(groups, top);
    let im = entries_of(groups, mid);
    let ib = entries_of(groups, base);
    let v0 = Set::<Seq<char>>::empty();
    let v1 = v0.insert(top);
    let v2 = v1.insert(mid);
    lemma_literal_prefix(groups, base, ib, ib.len(), v2);
    assert(ib.take(ib.len() as int) == ib);
    assert(resolve_group(groups, base, v2) == resolve_items(groups, base, ib, ib.len(), v2));
    lemma_literals_then_include(groups, mid, base, v1);
    lemma_literals_then_include(groups, top, mid, v0);
    let a = literal_names(it.drop_last());
    let b = literal_names(im.drop_last());
    let c = literal_names(ib);
    assert(resolve_targets(groups, sel, 0) == Ok::<Set<Seq<char>>, GroupFault>(Set::empty()));
    assert(Set::<Seq<char>>::empty().union(a.union(b.union(c))) == a.union(b).union(c));
}

/// Two groups `a = [x, {include-group = b}]` and `b = [y, {include-group = a}]`,
/// selected as `[a]`, fail with `CircularDependencyGroup` naming `a`.
pub proof fn lemma_mutual_include_is_cycle(
    groups: Seq<(String, TomlValue)>,
    a: Seq<char>,
    b: Seq<char>,
)
    requires
        a != b,
        a != "all"@,
        lookup(groups, a) is Some && lookup(groups, b) is Some,
        entries_of(groups, a).len() == 2,
        entries_of(groups, a)[0] is Str,
        included_group(entries_of(groups, a)[1]) == Some(b),
        entries_of(groups, b).len() == 2,
        entries_of(groups, b)[0] is Str,
        included_group(entries_of(groups, b)[1]) == Some(a),
    ensures
        resolve_selection(groups, seq![a]) == Err::<Set<Seq<char>>, GroupFault>(
            GroupFault::Circular { group: a },
        ),
{
    let sel = seq![a];
    assert(!sel.contains("all"@)) by {
        if sel.contains("all"@) {
            let j = choose|j: int| 0 <= j < sel.len() && sel[j] == "all"@;
            assert(sel[j] == a);
        }
    }
    let ia = entries_of(groups, a);
    let ib = entries_of(groups, b);
    let v0 = Set::<Seq<char>>::empty();
    let v1 = v0.insert(a);
    let v2 = v1.insert(b);
    lemma_lookup_names(groups, a);
    lemma_lookup_names(groups, b);
    let circular = Err::<(Set<Seq<char>>, Set<Seq<char>>), GroupFault>(
        GroupFault::Circular { group: a },
    );
    assert(resolve_group(groups, a, v2) == circular);
    assert(resolve_items(groups, b, ib, 0, v1)->Ok_0.1 == v2);
    assert(resolve_items(groups, a, ia, 0, v0)->Ok_0.1 == v1);
    assert(resolve_items(groups, b, ib, 1, v1) is Ok);
    assert(resolve_items(groups, b, ib, 1, v1)->Ok_0.1 == v2);
    assert(v1.insert(b).subset_of(v2));
    assert(resolve_items(groups, b, ib, 2, v1) == circular);
    assert(resolve_group(groups, b, v1) == circular);
    assert(resolve_items(groups, a, ia, 1, v0)->Ok_0.1 == v1);
    assert(v0.insert(a).subset_of(v1));
    assert(resolve_items(groups, a, ia, 2, v0) == circular);
    assert(resolve_group(groups, a, v0) == circular);
    assert(resolve_targets(groups, sel, 0) == Ok::<Set<Seq<char>>, GroupFault>(Set::empty()));
}

/// Every group in `v` but not in `w` that the table declares has each of its
/// includes declared and in `v`.
pub open spec fn includes_closed(
    groups: Seq<(String, TomlValue)>,
    v: Set<Seq<char>>,
    w: Set<Seq<char>>,
) -> bool {
    forall|h: Seq<char>, j: int|
        #![trigger v.contains(h), entries_of(groups, h)[j]]
        v.contains(h) && !w.contains(h) && lookup(groups, h) is Some && 0 <= j < entries_of(
            groups,
            h,
        ).len() && included_group(entries_of(groups, h)[j]) is Some ==> lookup(
            groups,
            included_group(entries_of(groups, h)[j])->Some_0,
        ) is Some && v.contains(included_group(entries_of(groups, h)[j])->Some_0)
}

proof fn lemma_group_success_closed(
    groups: Seq<(String, TomlValue)>,
    name: Seq<char>,
    visited: Set<Seq<char>>,
)
    ensures
        resolve_group(groups, name, visited) matches Ok((_, v)) ==> visited.insert(name).subset_of(v)
            && includes_closed(groups, v, visited),
    decreases unvisited_count(groups, visited), 1nat, 0nat,
{
    if !visited.contains(name) {
        if let Some(g) = lookup(groups, name) {
            let items = group_items(g);
            lemma_items_success_closed(groups, name, items, items.len(), visited);
            if let Ok((_, v)) = resolve_group(groups, name, visited) {
                assert forall|h: Seq<char>, j: int|
                    v.contains(h) && !visited.contains(h) && lookup(groups, h) is Some && 0 <= j
                        < entries_of(groups, h).len() && included_group(
                        #[trigger] entries_of(groups, h)[j],
                    ) is Some implies lookup(
                    groups,
                    included_group(entries_of(groups, h)[j])->Some_0,
                ) is Some && v.contains(included_group(entries_of(groups, h)[j])->Some_0) by {
                    if h != name {
                        assert(!visited.insert(name).contains(h));
                    }
                }
            }
        } else {
            if let Ok((_, v)) = resolve_group(groups, name, visited) {
                assert(v == visited.insert(name));
            }
        }
    }
}

proof fn lemma_items_success_closed(
    groups: Seq<(String, TomlValue)>,
    from: Seq<char>,
    items: Seq<TomlValue>,
    n: nat,
    outer: Set<Seq<char>>,
)
    requires
        lookup(groups, from) is Some,
        !outer.contains(from),
        n <= items.len(),
    ensures
        resolve_items(groups, from, items, n, outer) matches Ok((_, v)) ==> outer.insert(
            from,
        ).subset_of(v) && includes_closed(groups, v, outer.insert(from)) && (forall|j: int|
            #![trigger items[j]]
            0 <= j < n && included_group(items[j]) is Some ==> lookup(
                groups,
                included_group(items[j])->Some_0,
            ) is Some && v.contains(included_group(items[j])->Some_0)),
    decreases unvisited_count(groups, outer), 0nat, n,
{
    if n > 0 {
        lemma_items_success_closed(groups, from, items, (n - 1) as nat, outer);
        lemma_lookup_names(groups, from);
        if let Ok((deps, vis)) = resolve_items(groups, from, items, (n - 1) as nat, outer) {
            if !(items[n - 1] is Str) {
                if let Some(g) = included_group(items[n - 1]) {
                    if lookup(groups, g) is Some {
                        lemma_unvisited_shrinks(groups, outer, from, vis);
                        lemma_group_success_closed(groups, g, vis);
                        if let Ok((_, v)) = resolve_group(groups, g, vis) {
                            assert(vis.subset_of(v));
                            assert forall|h: Seq<char>, j: int|
                                v.contains(h) && !outer.insert(from).contains(h) && lookup(
                                    groups,
                                    h,
                                ) is Some && 0 <= j < entries_of(groups, h).len() && included_group(
                                    #[trigger] entries_of(groups, h)[j],
                                ) is Some implies lookup(
                                groups,
                                included_group(entries_of(groups, h)[j])->Some_0,
                            ) is Some && v.contains(
                                included_group(entries_of(groups, h)[j])->Some_0,
                            ) by {
                                if vis.contains(h) {
                                    assert(vis.contains(
                                        included_group(entries_of(groups, h)[j])->Some_0,
                                    ));
                                }
                            }
                            assert forall|j: int|
                                0 <= j < n && included_group(#[trigger] items[j]) is Some implies lookup(
                                groups,
                                included_group(items[j])->Some_0,
                            ) is Some && v.contains(included_group(items[j])->Some_0) by {
                                if j < n - 1 {
                                    assert(vis.contains(included_group(items[j])->Some_0));
                                }
                            }
                        }
                    }
                }
            }
        }
    }
}

proof fn lemma_targets_success(
    groups: Seq<(String, TomlValue)>,
    targets: Seq<Seq<char>>,
    n: nat,
    i: int,
)
    requires
        0 <= i < n <= targets.len(),
        resolve_targets(groups, targets, n) is Ok,
    ensures
        resolve_group(groups, targets[i], Set::empty()) is Ok,
    decreases n,
{
    if i < n - 1 {
        lemma_targets_success(groups, targets, (n - 1) as nat, i);
    }
}

proof fn lemma_path_in_closed(
    groups: Seq<(String, TomlValue)>,
    path: Seq<Seq<char>>,
    steps: Seq<int>,
    v: Set<Seq<char>>,
    i: int,
)
    requires
        0 <= i < path.len(),
        steps.len() == path.len() - 1,
        v.contains(path[0]),
        includes_closed(groups, v, Set::empty()),
        forall|i: int| 0 <= i < path.len() ==> lookup(groups, #[trigger] path[i]) is Some,
        forall|i: int|
            0 <= i < path.len() - 1 ==> 0 <= #[trigger] steps[i] < entries_of(groups, path[i]).len()
                && included_group(entries_of(groups, path[i])[steps[i]]) == Some(path[i + 1]),
    ensures
        v.contains(path[i]),
    decreases i,
{
    if i > 0 {
        lemma_path_in_closed(groups, path, steps, v, i - 1);
        let h = path[i - 1];
        let j = steps[i - 1];
        assert(lookup(groups, h) is Some);
        assert(v.contains(h) && entries_of(groups, h)[j] == entries_of(groups, h)[j]);
    }
}

/// If a chain of includes leads from a selected group to a group with an
/// include of an undeclared group, resolving the selection fails.
pub proof fn lemma_reachable_missing_include_fails(
    groups: Seq<(String, TomlValue)>,
    selection: Seq<Seq<char>>,
    path: Seq<Seq<char>>,
    steps: Seq<int>,
    k: int,
    missing: Seq<char>,
)
    requires
        path.len() >= 1,
        steps.len() == path.len() - 1,
        selection_targets(groups, selection).contains(path[0]),
        forall|i: int| 0 <= i < path.len() ==> lookup(groups, #[trigger] path[i]) is Some,
        forall|i: int|
            0 <= i < path.len() - 1 ==> 0 <= #[trigger] steps[i] < entries_of(groups, path[i]).len()
                && included_group(entries_of(groups, path[i])[steps[i]]) == Some(path[i + 1]),
        0 <= k < entries_of(groups, path.last()).len(),
        included_group(entries_of(groups, path.last())[k]) == Some(missing),
        lookup(groups, missing) is None,
    ensures
        resolve_selection(groups, selection) is Err,
{
    let targets = selection_targets(groups, selection);
    if resolve_selection(groups, selection) is Ok {
        let t = choose|t: int| 0 <= t < targets.len() && targets[t] == path[0];
        lemma_targets_success(groups, targets, targets.len(), t);
        let empty = Set::<Seq<char>>::empty();
        lemma_group_success_closed(groups, path[0], empty);
        let v = resolve_group(groups, path[0], empty)->Ok_0.1;
        assert(v.contains(path[0]));
        lemma_path_in_closed(groups, path, steps, v, path.len() - 1);
        let last = path.last();
        assert(v.contains(last) && entries_of(groups, last)[k] == entries_of(groups, last)[k]);
    }
}

/// Outcome of resolving one group, set against its specification.
pub open spec fn group_outcome(
    r: Result<(), ParsingError>,
    expected: Result<(Set<Seq<char>>, Set<Seq<char>>), GroupFault>,
    deps_before: Set<Seq<char>>,
    deps_after: Set<Seq<char>>,
    visited_after: Set<Seq<char>>,
) -> bool {
    match expected {
        Ok((more, vis)) => r is Ok && deps_after == deps_before.union(more) && visited_after == vis,
        Err(f) => r matches Err(e) && fault_of(e) == Some(f),
    }
}

/// Resolves group `group_name` into `dependencies`, recording each group
/// entered in `visited`.
fn extract_group_deps(
    dependencies: &mut Vec<String>,
    groups: &Vec<(String, TomlValue)>,
    group_name: &str,
    visited: &mut Vec<String>,
) -> (r: Result<(), ParsingError>)
    requires
        is_name_set(old(dependencies)@),
        is_name_set(old(visited)@),
    ensures
        is_name_set(final(dependencies)@),
        is_name_set(final(visited)@),
        group_outcome(
            r,
            resolve_group(groups@, group_name@, text_set(old(visited)@)),
            text_set(old(dependencies)@),
            text_set(final(dependencies)@),
            text_set(final(visited)@),
        ),
        text_set(old(dependencies)@).subset_of(text_set(final(dependencies)@)),
        text_set(old(visited)@).contains(group_name@) ==> final(dependencies)@ == old(
            dependencies,
        )@ && final(visited)@ == old(visited)@,
    decreases unvisited_count(groups@, text_set(old(visited)@)),
{
    let ghost gs = groups@;
    let ghost v0 = text_set(visited@);
    let ghost d0 = text_set(dependencies@);
    if contains_text(visited, group_name) {
        return Err(ParsingError::CircularDependencyGroup { group: String::from_str(group_name) });
    }
    insert_name(visited, String::from_str(group_name));
    assert(d0.union(Set::empty()) == d0);
    let group_value = match lookup_entry(groups, group_name) {
        Some(v) => v,
        None => {
            return Ok(());
        },
    };
    proof {
        lemma_lookup_names(gs, group_name@);
    }
    let items = match group_value {
        TomlValue::Array(items) => items,
        _ => {
            return Ok(());
        },
    };
    let ghost mut added: Set<Seq<char>> = Set::empty();
    let mut i: usize = 0;
    while i < items.len()
        invariant
            gs == groups@,
            i <= items@.len(),
            group_items(*group_value) == items@,
            lookup(gs, group_name@) == Some(*group_value),
            group_names(gs).contains(group_name@),
            !v0.contains(group_name@),
            v0 == text_set(old(visited)@),
            d0 == text_set(old(dependencies)@),
            d0.subset_of(text_set(dependencies@)),
            is_name_set(dependencies@),
            is_name_set(visited@),
            v0.insert(group_name@).subset_of(text_set(visited@)),
            resolve_items(gs, group_name@, items@, i as nat, v0) == Ok::<
                (Set<Seq<char>>, Set<Seq<char>>),
                GroupFault,
            >((added, text_set(visited@))),
            text_set(dependencies@) == d0.union(added),
        decreases items.len() - i,
    {
        let item = &items[i];
        match item {
            TomlValue::Str(s) => {
                let name = normalize_package_name(extract_package_name(s.as_str()).as_str());
                insert_name(dependencies, name);
                proof {
                    added = added.insert(specifier_name(s@));
                    assert(text_set(dependencies@) == d0.union(added));
                }
            },
            TomlValue::Table(t) => {
                let included = match lookup_entry(t, "include-group") {
                    Some(v) => v.as_str(),
                    None => None,
                };
                if let Some(inc) = included {
                    assert(included_group(*item) == Some(inc@));
                    if lookup_entry(groups, inc).is_none() {
                        proof {
                            lemma_items_failure_persists(
                                gs,
                                group_name@,
                                items@,
                                (i + 1) as nat,
                                items@.len(),
                                v0,
                            );
                        }
                        return Err(
                            ParsingError::MissingDependencyGroup {
                                included: String::from_str(inc),
                                from_group: String::from_str(group_name),
                            },
                        );
                    }
                    let ghost vis = text_set(visited@);
                    let ghost deps_mid = text_set(dependencies@);
                    proof {
                        lemma_unvisited_shrinks(gs, v0, group_name@, vis);
                        lemma_resolve_group_grows(gs, inc@, vis);
                    }
                    match extract_group_deps(dependencies, groups, inc, visited) {
                        Ok(()) => {},
                        Err(e) => {
                            proof {
                                lemma_items_failure_persists(
                                    gs,
                                    group_name@,
                                    items@,
                                    (i + 1) as nat,
                                    items@.len(),
                                    v0,
                                );
                            }
                            return Err(e);
                        },
                    }
                    proof {
                        let more = resolve_group(gs, inc@, vis)->Ok_0.0;
                        added = added.union(more);
                        assert(text_set(dependencies@) == d0.union(added));
                    }
                } else {
                    assert(included_group(*item) is None);
                }
            },
            _ => {},
        }
        i = i + 1;
    }
    Ok(())
}

/// Adds to `dependencies` the names that the groups selected by
/// `include_groups` contribute: every group when it holds `"all"`, else the
/// groups it names, each resolved on its own; names that the table does not
/// declare contribute nothing.
pub fn extract_dependency_groups(
    dependencies: &mut Vec<String>,
    groups: &Vec<(String, TomlValue)>,
    include_groups: &Vec<String>,
) -> (r: Result<(), ParsingError>)
    requires
        is_name_set(old(dependencies)@),
    ensures
        is_name_set(final(dependencies)@),
        text_set(old(dependencies)@).subset_of(text_set(final(dependencies)@)),
        match resolve_selection(groups@, texts(include_groups@)) {
            Ok(more) => r is Ok && text_set(final(dependencies)@) == text_set(old(dependencies)@).union(more),
            Err(f) => r matches Err(e) && fault_of(e) == Some(f),
        },
{
    let ghost gs = groups@;
    let ghost d0 = text_set(dependencies@);
    let include_all = contains_text(include_groups, "all");
    let ghost targets = selection_targets(gs, texts(include_groups@));
    let n = if include_all {
        groups.len()
    } else {
        include_groups.len()
    };
    let ghost mut added: Set<Seq<char>> = Set::empty();
    let mut i: usize = 0;
    while i < n
        invariant
            gs == groups@,
            i <= n == targets.len(),
            targets == selection_targets(gs, texts(include_groups@)),
            include_all == texts(include_groups@).contains("all"@),
            is_name_set(dependencies@),
            resolve_targets(gs, targets, i as nat) == Ok::<Set<Seq<char>>, GroupFault>(added),
            d0 == text_set(old(dependencies)@),
            d0.subset_of(text_set(dependencies@)),
            text_set(dependencies@) == d0.union(added),
        decreases n - i,
    {
        let name: &str = if include_all {
            groups[i].0.as_str()
        } else {
            include_groups[i].as_str()
        };
        assert(name@ == targets[i as int]);
        let mut visited: Vec<String> = Vec::new();
        assert(text_set(visited@) == Set::<Seq<char>>::empty());
        match extract_group_deps(dependencies, groups, name, &mut visited) {
            Ok(()) => {},
            Err(e) => {
                proof {
                    lemma_targets_failure_persists(gs, targets, (i + 1) as nat, targets.len());
                }
                return Err(e);
            },
        }
        proof {
            let more = resolve_group(gs, targets[i as int], Set::empty())->Ok_0.0;
            added = added.union(more);
            assert(text_set(dependencies@) == d0.union(added));
        }
        i = i + 1;
    }
    Ok(())
}

} // verus!
