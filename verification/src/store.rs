//! What a spawner keeps in maps that many threads can share: variables of the environment, and
//! handles. The maps are walked in no order that can be relied on.

use crate::handle::{associate_named, named_from, Handle};
use crate::text::{check_nul, from_utf8, has_nul, lemma_ascii_byte};
use dashmap::mapref::one::RefMut;
use dashmap::DashMap;
use vstd::prelude::*;
use vstd::slice::slice_to_vec;
use vstd::utf8::*;

verus! {

/// `dashmap::DashMap`, a map that many threads can share.
#[verifier::external_type_specification]
#[verifier::external_body]
#[verifier::reject_recursive_types(K)]
#[verifier::reject_recursive_types(V)]
#[verifier::reject_recursive_types(S)]
pub struct ExDashMap<K, V, S>(DashMap<K, V, S>);

/// `dashmap::mapref::one::RefMut`, access to one value of a map for as long as it is held.
#[verifier::external_type_specification]
#[verifier::external_body]
#[verifier::reject_recursive_types(K)]
#[verifier::reject_recursive_types(V)]
pub struct ExRefMut<'a, K, V>(RefMut<'a, K, V>);

// ---------------------------------------------------------------------------
// Variables
// ---------------------------------------------------------------------------

/// The variables that a map holds.
pub uninterp spec fn variables(map: DashMap<String, String>) -> Map<Seq<char>, Seq<char>>;

/// `DashMap::new`: the map holds nothing.
#[verifier::external_body]
pub(crate) fn variables_new() -> (map: DashMap<String, String>)
    ensures
        variables(map) == (Map::<Seq<char>, Seq<char>>::empty()),
{
    DashMap::new()
}

/// `DashMap::insert`: the variable then has this value, whatever it had before.
#[verifier::external_body]
pub(crate) fn variables_insert(map: &mut DashMap<String, String>, key: String, value: String)
    ensures
        variables(*final(map)) == variables(*old(map)).insert(key@, value@),
{
    let _ = map.insert(key, value);
}

/// `DashMap::contains_key`: whether there is such a variable.
#[verifier::external_body]
pub(crate) fn variables_contain(map: &DashMap<String, String>, key: &String) -> (held: bool)
    ensures
        held == variables(*map).dom().contains(key@),
{
    map.contains_key(key)
}

/// The pairs are the variables of the map, each once.
pub open spec fn is_listing(
    pairs: Seq<(String, String)>,
    map: Map<Seq<char>, Seq<char>>,
) -> bool {
    &&& forall|i: int|
        0 <= i < pairs.len() ==> map.dom().contains((#[trigger] pairs[i]).0@) && map[pairs[i].0@]
            == pairs[i].1@
    &&& forall|i: int, j: int|
        0 <= i < j < pairs.len() ==> (#[trigger] pairs[i]).0@ != (#[trigger] pairs[j]).0@
    &&& forall|k: Seq<char>|
        map.dom().contains(k) ==> exists|i: int|
            0 <= i < pairs.len() && (#[trigger] pairs[i]).0@ == k
}

/// `DashMap::into_iter`: every variable comes out once, with its value. In which order is left
/// open.
#[verifier::external_body]
pub(crate) fn variables_into(map: DashMap<String, String>) -> (pairs: Vec<(String, String)>)
    ensures
        is_listing(pairs@, variables(map)),
{
    map.into_iter().collect()
}

// ---------------------------------------------------------------------------
// Handles
// ---------------------------------------------------------------------------

/// The handles that a map holds, by their names.
pub uninterp spec fn handles(map: DashMap<String, Handle>) -> Map<Seq<char>, Handle>;

/// The handle that an access to a map gives, when it is gained.
pub uninterp spec fn held(guard: RefMut<'_, String, Handle>) -> Handle;

/// `DashMap::new`: the map holds nothing.
#[verifier::external_body]
pub(crate) fn handles_new() -> (map: DashMap<String, Handle>)
    ensures
        handles(map) == (Map::<Seq<char>, Handle>::empty()),
{
    DashMap::new()
}

/// `DashMap::insert`: the name then stands for this handle. The one that it stood for before, if
/// any, comes out.
#[verifier::external_body]
pub(crate) fn handles_insert(
    map: &mut DashMap<String, Handle>,
    name: String,
    handle: Handle,
) -> (replaced: Option<Handle>)
    ensures
        handles(*final(map)) == handles(*old(map)).insert(name@, handle),
        replaced == (if handles(*old(map)).dom().contains(name@) {
            Some(handles(*old(map))[name@])
        } else {
            None
        }),
{
    map.insert(name, handle)
}

/// `DashMap::get_mut`: access to the handle of this name, if there is one. Through it that
/// handle can change, and nothing else in the map; what it is changed to is left open.
#[verifier::external_body]
pub(crate) fn handles_get<'a>(map: &'a mut DashMap<String, Handle>, name: &str) -> (found: Option<
    RefMut<'a, String, Handle>,
>)
    ensures
        found is Some <==> handles(*old(map)).dom().contains(name@),
        found matches Some(guard) ==> held(guard) == handles(*old(map))[name@],
        found is None ==> handles(*final(map)) == handles(*old(map)),
        handles(*final(map)).dom() == handles(*old(map)).dom(),
        handles(*final(map)).remove(name@) == handles(*old(map)).remove(name@),
{
    map.get_mut(name)
}

/// The list holds the handles of the map, each once, under some order of their names.
pub open spec fn lists_handles(list: Seq<Handle>, map: Map<Seq<char>, Handle>) -> bool {
    exists|names: Seq<Seq<char>>| #[trigger] orders_handles(list, map, names)
}

/// The list holds the handles of the map in the order of these names.
pub open spec fn orders_handles(
    list: Seq<Handle>,
    map: Map<Seq<char>, Handle>,
    names: Seq<Seq<char>>,
) -> bool {
    &&& names.no_duplicates()
    &&& forall|name: Seq<char>| names.contains(name) <==> map.dom().contains(name)
    &&& list.len() == names.len()
    &&& forall|i: int| 0 <= i < list.len() ==> #[trigger] list[i] == map[names[i]]
}

/// `DashMap::into_iter`: every handle comes out once. In which order is left open.
#[verifier::external_body]
pub(crate) fn handles_into(map: DashMap<String, Handle>) -> (list: Vec<Handle>)
    ensures
        lists_handles(list@, handles(map)),
{
    map.into_iter().map(|pair| pair.1).collect()
}

// ---------------------------------------------------------------------------
// The environment of a child
// ---------------------------------------------------------------------------

/// The byte between the name of a variable and its value.
pub const EQUALS: u8 = 61;

/// The variables that a list of assignments leaves, of which the later ones win.
pub open spec fn inherited(vars: Seq<(Vec<u8>, Vec<u8>)>) -> Map<Seq<u8>, Seq<u8>>
    decreases vars.len(),
{
    if vars.len() == 0 {
        Map::empty()
    } else {
        inherited(vars.drop_last()).insert(vars.last().0@, vars.last().1@)
    }
}

/// Variables whose names and values are text, as bytes.
pub open spec fn encoded(own: Map<Seq<char>, Seq<char>>) -> Map<Seq<u8>, Seq<u8>> {
    Map::new(
        |key: Seq<u8>| valid_utf8(key) && own.dom().contains(decode_utf8(key)),
        |key: Seq<u8>| encode_utf8(own[decode_utf8(key)]),
    )
}

/// The variables of this process, and over them those that were set for the child.
pub open spec fn merged(
    own: Map<Seq<char>, Seq<char>>,
    vars: Seq<(Vec<u8>, Vec<u8>)>,
) -> Map<Seq<u8>, Seq<u8>> {
    inherited(vars).union_prefer_right(encoded(own))
}

/// A variable that was set for the child is not one that the system can take.
pub open spec fn has_nul_variable(own: Map<Seq<char>, Seq<char>>) -> bool {
    exists|key: Seq<char>| #[trigger]
        own.dom().contains(key) && (has_nul(key) || has_nul(own[key]))
}

/// A variable as the system takes it.
pub open spec fn entry(key: Seq<u8>, value: Seq<u8>) -> Seq<u8> {
    key.push(EQUALS) + value
}

/// A variable that the system can take.
pub open spec fn passable(map: Map<Seq<u8>, Seq<u8>>, key: Seq<u8>) -> bool {
    map.dom().contains(key) && !key.contains(0u8) && !map[key].contains(0u8)
}

/// The entries are the variables that the system can take, each once, in the order of these
/// names.
pub open spec fn orders_environment(
    entries: Seq<Seq<u8>>,
    map: Map<Seq<u8>, Seq<u8>>,
    names: Seq<Seq<u8>>,
) -> bool {
    &&& names.no_duplicates()
    &&& forall|name: Seq<u8>| #[trigger] names.contains(name) <==> passable(map, name)
    &&& entries.len() == names.len()
    &&& forall|i: int|
        0 <= i < entries.len() ==> #[trigger] entries[i] == entry(names[i], map[names[i]])
}

/// The entries are the variables that the system can take, each once, in some order. The system
/// can take every variable that it gave, and every one that was set for a child which is started
/// at all.
pub open spec fn is_environment(entries: Seq<Seq<u8>>, map: Map<Seq<u8>, Seq<u8>>) -> bool {
    exists|names: Seq<Seq<u8>>| #[trigger] orders_environment(entries, map, names)
}

/// Vectors of bytes as runs of bytes.
pub open spec fn byte_runs(list: Seq<Vec<u8>>) -> Seq<Seq<u8>> {
    Seq::new(list.len(), |i: int| list[i]@)
}

/// The pairs are the variables of the map, each once.
pub open spec fn lists_bytes(
    pairs: Seq<(Vec<u8>, Vec<u8>)>,
    map: Map<Seq<u8>, Seq<u8>>,
) -> bool {
    &&& forall|i: int|
        0 <= i < pairs.len() ==> map.dom().contains((#[trigger] pairs[i]).0@) && map[pairs[i].0@]
            == pairs[i].1@
    &&& forall|i: int, j: int|
        0 <= i < j < pairs.len() ==> (#[trigger] pairs[i]).0@ != (#[trigger] pairs[j]).0@
    &&& forall|k: Seq<u8>|
        map.dom().contains(k) ==> exists|i: int|
            0 <= i < pairs.len() && (#[trigger] pairs[i]).0@ == k
}

/// This assignment is the last of its variable.
pub open spec fn is_last(vars: Seq<(Vec<u8>, Vec<u8>)>, i: int) -> bool {
    forall|j: int| i < j < vars.len() ==> (#[trigger] vars[j]).0@ != vars[i].0@
}

/// The last assignment of a variable decides.
proof fn lemma_inherited(vars: Seq<(Vec<u8>, Vec<u8>)>, key: Seq<u8>)
    ensures
        forall|i: int|
            0 <= i < vars.len() && (#[trigger] vars[i]).0@ == key ==> inherited(
                vars,
            ).dom().contains(key) && (is_last(vars, i) ==> inherited(vars)[key] == vars[i].1@),
        inherited(vars).dom().contains(key) ==> exists|i: int|
            0 <= i < vars.len() && (#[trigger] vars[i]).0@ == key && is_last(vars, i),
    decreases vars.len(),
{
    if vars.len() > 0 {
        let init = vars.drop_last();
        let n = vars.len() - 1;
        lemma_inherited(init, key);
        assert forall|i: int| 0 <= i < vars.len() && (#[trigger] vars[i]).0@ == key implies {
            &&& inherited(vars).dom().contains(key)
            &&& is_last(vars, i) ==> inherited(vars)[key] == vars[i].1@
        } by {
            if i < n {
                assert(init[i] == vars[i]);
                if is_last(vars, i) {
                    assert(vars[n].0@ != key);
                    assert(is_last(init, i));
                }
            }
        }
        if inherited(vars).dom().contains(key) {
            if vars[n].0@ == key {
                assert(is_last(vars, n));
            } else {
                let i = choose|i: int|
                    0 <= i < init.len() && (#[trigger] init[i]).0@ == key && is_last(init, i);
                assert(vars[i].0@ == key);
                assert forall|j: int| i < j < vars.len() implies (#[trigger] vars[j]).0@
                    != vars[i].0@ by {
                    if j < n {
                        assert(init[j] == vars[j]);
                    }
                }
            }
        }
    }
}

/// Whether two runs of bytes are the same.
fn same_bytes(a: &[u8], b: &[u8]) -> (same: bool)
    ensures
        same == (a@ == b@),
{
    if a.len() != b.len() {
        return false;
    }
    let mut i: usize = 0;
    while i < a.len()
        invariant
            i <= a@.len(),
            a@.len() == b@.len(),
            forall|j: int| 0 <= j < i ==> a@[j] == b@[j],
        decreases a@.len() - i,
    {
        if a[i] != b[i] {
            return false;
        }
        i += 1;
    }
    assert(a@ =~= b@);
    true
}

/// Whether bytes hold a zero.
fn holds_zero(bytes: &[u8]) -> (held: bool)
    ensures
        held == bytes@.contains(0u8),
{
    let mut i: usize = 0;
    while i < bytes.len()
        invariant
            i <= bytes@.len(),
            forall|j: int| 0 <= j < i ==> bytes@[j] != 0u8,
        decreases bytes@.len() - i,
    {
        if bytes[i] == 0 {
            assert(bytes@[i as int] == 0u8);
            return true;
        }
        i += 1;
    }
    false
}

/// Whether an assignment is the last of its variable.
fn last_of_name(vars: &[(Vec<u8>, Vec<u8>)], i: usize) -> (last: bool)
    requires
        i < vars@.len(),
    ensures
        last == is_last(vars@, i as int),
{
    assert(i < vars.len());
    let mut j: usize = i + 1;
    while j < vars.len()
        invariant
            i < j <= vars@.len(),
            forall|k: int| i < k < j ==> (#[trigger] vars@[k]).0@ != vars@[i as int].0@,
        decreases vars@.len() - j,
    {
        if same_bytes(vars[j].0.as_slice(), vars[i].0.as_slice()) {
            assert(vars@[j as int].0@ == vars@[i as int].0@);
            return false;
        }
        j += 1;
    }
    true
}

/// Whether a variable of this name was set for the child.
fn is_set(own: &DashMap<String, String>, key: &[u8]) -> (set: bool)
    ensures
        set == encoded(variables(*own)).dom().contains(key@),
{
    match from_utf8(key) {
        Some(text) => variables_contain(own, &text),
        None => false,
    }
}

/// The variables of this process that were not set for the child.
fn unset(own: &DashMap<String, String>, vars: &[(Vec<u8>, Vec<u8>)]) -> (pairs: Vec<
    (Vec<u8>, Vec<u8>),
>)
    ensures
        lists_bytes(
            pairs@,
            inherited(vars@).remove_keys(encoded(variables(*own)).dom()),
        ),
{
    let ghost set = encoded(variables(*own)).dom();
    let mut pairs: Vec<(Vec<u8>, Vec<u8>)> = Vec::new();
    let ghost mut places: Seq<int> = Seq::empty();
    let mut i: usize = 0;
    while i < vars.len()
        invariant
            i <= vars@.len(),
            set == encoded(variables(*own)).dom(),
            places.len() == pairs@.len(),
            forall|m: int|
                0 <= m < places.len() ==> {
                    &&& 0 <= #[trigger] places[m] < i
                    &&& pairs@[m].0@ == vars@[places[m]].0@
                    &&& pairs@[m].1@ == vars@[places[m]].1@
                    &&& is_last(vars@, places[m])
                    &&& !set.contains(vars@[places[m]].0@)
                },
            forall|m: int, n: int| 0 <= m < n < places.len() ==> places[m] < places[n],
            forall|k: int|
                #![trigger vars@[k]]
                0 <= k < i && is_last(vars@, k) && !set.contains(vars@[k].0@)
                    ==> places.contains(k),
        decreases vars@.len() - i,
    {
        let ghost before = places;
        if last_of_name(vars, i) && !is_set(own, vars[i].0.as_slice()) {
            pairs.push((slice_to_vec(vars[i].0.as_slice()), slice_to_vec(vars[i].1.as_slice())));
            proof {
                places = places.push(i as int);
                assert(places[before.len() as int] == i);
            }
        }
        assert forall|k: int|
            #![trigger vars@[k]]
            0 <= k < i + 1 && is_last(vars@, k) && !set.contains(vars@[k].0@) implies places.contains(
            k,
        ) by {
            if k < i {
                let m = choose|m: int| 0 <= m < before.len() && before[m] == k;
                assert(places[m] == k);
            }
        }
        i += 1;
    }
    proof {
        let map = inherited(vars@).remove_keys(set);
        assert forall|m: int| 0 <= m < pairs@.len() implies map.dom().contains(
            (#[trigger] pairs@[m]).0@,
        ) && map[pairs@[m].0@] == pairs@[m].1@ by {
            lemma_inherited(vars@, pairs@[m].0@);
            assert(vars@[places[m]].0@ == pairs@[m].0@);
        }
        assert forall|m: int, n: int| 0 <= m < n < pairs@.len() implies (
        #[trigger] pairs@[m]).0@ != (#[trigger] pairs@[n]).0@ by {
            assert(places[m] < places[n]);
            assert(is_last(vars@, places[m]));
            assert(vars@[places[n]].0@ != vars@[places[m]].0@);
        }
        assert forall|k: Seq<u8>| map.dom().contains(k) implies exists|m: int|
            0 <= m < pairs@.len() && (#[trigger] pairs@[m]).0@ == k by {
            lemma_inherited(vars@, k);
            let at = choose|at: int|
                0 <= at < vars@.len() && (#[trigger] vars@[at]).0@ == k && is_last(vars@, at);
            assert(places.contains(at));
            let m = choose|m: int| 0 <= m < places.len() && places[m] == at;
            assert(pairs@[m].0@ == k);
        }
    }
    pairs
}

/// Adds the variables that were set for the child to those that were not.
fn add_own(pairs: &mut Vec<(Vec<u8>, Vec<u8>)>, own: &[(String, String)])
    ensures
        final(pairs)@.len() == old(pairs)@.len() + own@.len(),
        forall|i: int| 0 <= i < old(pairs)@.len() ==> #[trigger] final(pairs)@[i] == old(pairs)@[i],
        forall|i: int|
            0 <= i < own@.len() ==> {
                &&& (#[trigger] final(pairs)@[old(pairs)@.len() + i]).0@ == encode_utf8(
                    own@[i].0@,
                )
                &&& final(pairs)@[old(pairs)@.len() + i].1@ == encode_utf8(own@[i].1@)
            },
{
    let ghost start = pairs@.len();
    let mut i: usize = 0;
    while i < own.len()
        invariant
            i <= own@.len(),
            start == old(pairs)@.len(),
            pairs@.len() == start + i,
            forall|j: int| 0 <= j < start ==> #[trigger] pairs@[j] == old(pairs)@[j],
            forall|j: int|
                0 <= j < i ==> {
                    &&& (#[trigger] pairs@[start + j]).0@ == encode_utf8(own@[j].0@)
                    &&& pairs@[start + j].1@ == encode_utf8(own@[j].1@)
                },
        decreases own@.len() - i,
    {
        let key = slice_to_vec(own[i].0.as_str().as_bytes());
        let value = slice_to_vec(own[i].1.as_str().as_bytes());
        pairs.push((key, value));
        i += 1;
    }
}

/// What was not set for the child, and then what was, is the whole.
proof fn lemma_whole(
    rest: Seq<(Vec<u8>, Vec<u8>)>,
    own: Seq<(String, String)>,
    pairs: Seq<(Vec<u8>, Vec<u8>)>,
    set: Map<Seq<char>, Seq<char>>,
    vars: Seq<(Vec<u8>, Vec<u8>)>,
)
    requires
        lists_bytes(rest, inherited(vars).remove_keys(encoded(set).dom())),
        is_listing(own, set),
        pairs.len() == rest.len() + own.len(),
        forall|i: int| 0 <= i < rest.len() ==> #[trigger] pairs[i] == rest[i],
        forall|i: int|
            0 <= i < own.len() ==> {
                &&& (#[trigger] pairs[rest.len() + i]).0@ == encode_utf8(own[i].0@)
                &&& pairs[rest.len() + i].1@ == encode_utf8(own[i].1@)
            },
    ensures
        lists_bytes(pairs, merged(set, vars)),
{
    let map = merged(set, vars);
    let n = rest.len() as int;
    assert forall|i: int| 0 <= i < own.len() implies {
        &&& encoded(set).dom().contains((#[trigger] pairs[n + i]).0@)
        &&& encoded(set)[pairs[n + i].0@] == pairs[n + i].1@
    } by {
        encode_utf8_valid_utf8(own[i].0@);
        encode_utf8_decode_utf8(own[i].0@);
        assert(set.dom().contains(own[i].0@));
    }
    assert forall|i: int| 0 <= i < pairs.len() implies map.dom().contains(
        (#[trigger] pairs[i]).0@,
    ) && map[pairs[i].0@] == pairs[i].1@ by {
        if i < n {
            assert(rest[i] == pairs[i]);
        } else {
            assert(pairs[n + (i - n)] == pairs[i]);
        }
    }
    assert forall|i: int, j: int| 0 <= i < j < pairs.len() implies (#[trigger] pairs[i]).0@ != (
    #[trigger] pairs[j]).0@ by {
        if j < n {
            assert(rest[i] == pairs[i]);
            assert(rest[j] == pairs[j]);
        } else if i < n {
            assert(rest[i] == pairs[i]);
            assert(pairs[n + (j - n)] == pairs[j]);
        } else {
            assert(pairs[n + (i - n)] == pairs[i]);
            assert(pairs[n + (j - n)] == pairs[j]);
            encode_utf8_decode_utf8(own[i - n].0@);
            encode_utf8_decode_utf8(own[j - n].0@);
            assert(own[i - n].0@ != own[j - n].0@);
        }
    }
    assert forall|k: Seq<u8>| map.dom().contains(k) implies exists|i: int|
        0 <= i < pairs.len() && (#[trigger] pairs[i]).0@ == k by {
        if encoded(set).dom().contains(k) {
            let text = decode_utf8(k);
            let i = choose|i: int| 0 <= i < own.len() && (#[trigger] own[i]).0@ == text;
            decode_utf8_encode_utf8(k);
            assert(pairs[n + i].0@ == k);
        } else {
            let left = inherited(vars).remove_keys(encoded(set).dom());
            assert(left.dom().contains(k));
            let i = choose|i: int| 0 <= i < rest.len() && (#[trigger] rest[i]).0@ == k;
            assert(pairs[i].0@ == k);
        }
    }
}

/// Adds bytes at the end.
fn append_bytes(text: &mut Vec<u8>, bytes: &[u8])
    ensures
        final(text)@ == old(text)@ + bytes@,
{
    let mut i: usize = 0;
    while i < bytes.len()
        invariant
            i <= bytes@.len(),
            text@ == old(text)@ + bytes@.take(i as int),
        decreases bytes@.len() - i,
    {
        text.push(bytes[i]);
        assert(text@ =~= old(text)@ + bytes@.take(i + 1));
        i += 1;
    }
    assert(text@ =~= old(text)@ + bytes@);
}

/// The variables as the system takes them. Those that it cannot take are left out.
fn write_entries(pairs: &[(Vec<u8>, Vec<u8>)], Ghost(map): Ghost<Map<Seq<u8>, Seq<u8>>>) -> (list:
    Vec<Vec<u8>>)
    requires
        lists_bytes(pairs@, map),
    ensures
        is_environment(byte_runs(list@), map),
{
    let mut list: Vec<Vec<u8>> = Vec::new();
    let ghost mut names: Seq<Seq<u8>> = Seq::empty();
    let mut i: usize = 0;
    while i < pairs.len()
        invariant
            i <= pairs@.len(),
            lists_bytes(pairs@, map),
            names.no_duplicates(),
            forall|name: Seq<u8>| #[trigger]
                names.contains(name) <==> passable(map, name) && exists|k: int|
                    0 <= k < i && (#[trigger] pairs@[k]).0@ == name,
            list@.len() == names.len(),
            forall|k: int|
                0 <= k < list@.len() ==> (#[trigger] list@[k])@ == entry(names[k], map[names[k]]),
        decreases pairs@.len() - i,
    {
        let key = pairs[i].0.as_slice();
        let value = pairs[i].1.as_slice();
        let ghost before = names;
        proof {
            assert(map[pairs@[i as int].0@] == pairs@[i as int].1@);
            if before.contains(key@) {
                let k = choose|k: int| 0 <= k < i && (#[trigger] pairs@[k]).0@ == key@;
                assert(pairs@[k].0@ != pairs@[i as int].0@);
            }
        }
        if !holds_zero(key) && !holds_zero(value) {
            let mut text = slice_to_vec(key);
            text.push(EQUALS);
            append_bytes(&mut text, value);
            list.push(text);
            proof {
                names = names.push(key@);
                assert forall|name: Seq<u8>| #[trigger] names.contains(name) <==> passable(
                    map,
                    name,
                ) && exists|k: int| 0 <= k < i + 1 && (#[trigger] pairs@[k]).0@ == name by {
                    lemma_contains_push(before, key@, name);
                    if name == key@ {
                        assert(pairs@[i as int].0@ == name);
                    }
                }
            }
        } else {
            proof {
                assert forall|name: Seq<u8>| #[trigger] names.contains(name) <==> passable(
                    map,
                    name,
                ) && exists|k: int| 0 <= k < i + 1 && (#[trigger] pairs@[k]).0@ == name by {
                    if passable(map, name) && exists|k: int|
                        0 <= k < i + 1 && (#[trigger] pairs@[k]).0@ == name {
                        let k = choose|k: int|
                            0 <= k < i + 1 && (#[trigger] pairs@[k]).0@ == name;
                        assert(k != i);
                    }
                }
            }
        }
        i += 1;
    }
    proof {
        assert forall|name: Seq<u8>| #[trigger] names.contains(name) <==> passable(
            map,
            name,
        ) by {}
        assert(orders_environment(byte_runs(list@), map, names));
    }
    list
}

/// Whether the system can take all the variables that were set for the child.
fn all_passable(pairs: &[(String, String)]) -> (all: bool)
    ensures
        all == (forall|i: int|
            0 <= i < pairs@.len() ==> !has_nul((#[trigger] pairs@[i]).0@) && !has_nul(
                pairs@[i].1@,
            )),
{
    let mut i: usize = 0;
    while i < pairs.len()
        invariant
            i <= pairs@.len(),
            forall|j: int|
                0 <= j < i ==> !has_nul((#[trigger] pairs@[j]).0@) && !has_nul(pairs@[j].1@),
        decreases pairs@.len() - i,
    {
        if check_nul(pairs[i].0.as_str()).is_err() || check_nul(pairs[i].1.as_str()).is_err() {
            assert(has_nul(pairs@[i as int].0@) || has_nul(pairs@[i as int].1@));
            return false;
        }
        i += 1;
    }
    true
}

/// The environment of a child: the variables `vars` of this process, and over them those that were
/// set for it. There is none where the system cannot take one that was set.
pub(crate) fn environment(own: DashMap<String, String>, vars: &[(Vec<u8>, Vec<u8>)]) -> (list:
    Option<Vec<Vec<u8>>>)
    ensures
        list is None <==> has_nul_variable(variables(own)),
        list matches Some(entries) ==> is_environment(
            byte_runs(entries@),
            merged(variables(own), vars@),
        ),
{
    let ghost set = variables(own);
    let mut pairs = unset(&own, vars);
    let ghost rest = pairs@;
    let listed = variables_into(own);
    if !all_passable(listed.as_slice()) {
        proof {
            let i = choose|i: int|
                0 <= i < listed@.len() && (has_nul((#[trigger] listed@[i]).0@) || has_nul(
                    listed@[i].1@,
                ));
            assert(set.dom().contains(listed@[i].0@));
        }
        return None;
    }
    proof {
        if has_nul_variable(set) {
            let key = choose|key: Seq<char>| #[trigger]
                set.dom().contains(key) && (has_nul(key) || has_nul(set[key]));
            let i = choose|i: int| 0 <= i < listed@.len() && (#[trigger] listed@[i]).0@ == key;
            assert(!has_nul(listed@[i].0@) && !has_nul(listed@[i].1@));
        }
    }
    add_own(&mut pairs, listed.as_slice());
    proof {
        lemma_whole(rest, listed@, pairs@, set, vars@);
    }
    Some(write_entries(pairs.as_slice(), Ghost(merged(set, vars@))))
}

proof fn lemma_contains_push(list: Seq<Seq<u8>>, last: Seq<u8>, x: Seq<u8>)
    ensures
        list.push(last).contains(x) <==> list.contains(x) || x == last,
{
    let longer = list.push(last);
    if list.contains(x) {
        let i = choose|i: int| 0 <= i < list.len() && list[i] == x;
        assert(longer[i] == x);
    }
    if x == last {
        assert(longer[list.len() as int] == x);
    }
    if longer.contains(x) && x != last {
        let i = choose|i: int| 0 <= i < longer.len() && longer[i] == x;
        assert(list[i] == x);
    }
}

// ---------------------------------------------------------------------------
// What holds of every environment
// ---------------------------------------------------------------------------

/// To set a variable for the child sets it among the bytes, and no other variable is touched.
proof fn lemma_encoded_insert(own: Map<Seq<char>, Seq<char>>, key: Seq<char>, value: Seq<char>)
    ensures
        encoded(own.insert(key, value)) == encoded(own).insert(
            encode_utf8(key),
            encode_utf8(value),
        ),
{
    encode_utf8_valid_utf8(key);
    encode_utf8_decode_utf8(key);
    let lhs = encoded(own.insert(key, value));
    let rhs = encoded(own).insert(encode_utf8(key), encode_utf8(value));
    assert forall|k: Seq<u8>| lhs.dom().contains(k) <==> rhs.dom().contains(k) by {
        if valid_utf8(k) && decode_utf8(k) == key {
            decode_utf8_encode_utf8(k);
        }
    }
    assert forall|k: Seq<u8>| lhs.dom().contains(k) implies lhs[k] == rhs[k] by {
        if decode_utf8(k) == key {
            decode_utf8_encode_utf8(k);
        }
    }
    assert(lhs =~= rhs);
}

/// A variable that is set for the child has the value that it was set to, whatever it is in this
/// process, and no other variable is touched.
pub proof fn law_set_variable_overrides(
    own: Map<Seq<char>, Seq<char>>,
    vars: Seq<(Vec<u8>, Vec<u8>)>,
    key: Seq<char>,
    value: Seq<char>,
)
    ensures
        merged(own.insert(key, value), vars) == merged(own, vars).insert(
            encode_utf8(key),
            encode_utf8(value),
        ),
{
    lemma_encoded_insert(own, key, value);
    assert(merged(own.insert(key, value), vars) =~= merged(own, vars).insert(
        encode_utf8(key),
        encode_utf8(value),
    ));
}

/// A variable of this process that was not set for the child reaches it byte for byte, whatever
/// bytes it is made of.
pub proof fn law_other_variables_are_left_alone(
    own: Map<Seq<char>, Seq<char>>,
    vars: Seq<(Vec<u8>, Vec<u8>)>,
    key: Seq<u8>,
)
    requires
        inherited(vars).dom().contains(key),
        !encoded(own).dom().contains(key),
    ensures
        merged(own, vars).dom().contains(key),
        merged(own, vars)[key] == inherited(vars)[key],
{
}

/// To pass a variable of this process on changes nothing where all of them are passed on, unless
/// the variable had been set for the child before.
pub proof fn law_passing_on_is_no_change_when_all_are(
    own: Map<Seq<char>, Seq<char>>,
    vars: Seq<(Vec<u8>, Vec<u8>)>,
    key: Seq<char>,
    value: Seq<char>,
)
    requires
        inherited(vars).dom().contains(encode_utf8(key)),
        inherited(vars)[encode_utf8(key)] == encode_utf8(value),
        !own.dom().contains(key),
    ensures
        merged(own.insert(key, value), vars) == merged(own, vars),
{
    law_set_variable_overrides(own, vars, key, value);
    encode_utf8_decode_utf8(key);
    assert(merged(own, vars).insert(encode_utf8(key), encode_utf8(value)) =~= merged(own, vars));
}

proof fn lemma_entry_zero(key: Seq<u8>, value: Seq<u8>)
    ensures
        entry(key, value).contains(0u8) <==> key.contains(0u8) || value.contains(0u8),
{
    let whole = entry(key, value);
    if key.contains(0u8) {
        let i = choose|i: int| 0 <= i < key.len() && key[i] == 0u8;
        assert(whole[i] == 0u8);
    }
    if value.contains(0u8) {
        let i = choose|i: int| 0 <= i < value.len() && value[i] == 0u8;
        assert(whole[key.len() + 1 + i] == 0u8);
    }
    if whole.contains(0u8) {
        let i = choose|i: int| 0 <= i < whole.len() && whole[i] == 0u8;
        if i < key.len() {
            assert(key[i] == 0u8);
        } else {
            assert(i != key.len());
            assert(value[i - key.len() - 1] == 0u8);
        }
    }
}

/// Every entry of an environment can be handed to the system, and every variable that can be
/// has its entry.
pub proof fn law_environment_is_complete(
    entries: Seq<Seq<u8>>,
    map: Map<Seq<u8>, Seq<u8>>,
    key: Seq<u8>,
)
    requires
        is_environment(entries, map),
    ensures
        forall|i: int| 0 <= i < entries.len() ==> !(#[trigger] entries[i]).contains(0u8),
        map.dom().contains(key) && !entry(key, map[key]).contains(0u8) ==> entries.contains(
            entry(key, map[key]),
        ),
{
    let names = choose|names: Seq<Seq<u8>>| #[trigger] orders_environment(entries, map, names);
    assert forall|i: int| 0 <= i < entries.len() implies !(#[trigger] entries[i]).contains(0u8) by {
        assert(names.contains(names[i]));
        lemma_entry_zero(names[i], map[names[i]]);
    }
    lemma_entry_zero(key, map[key]);
    if map.dom().contains(key) && !entry(key, map[key]).contains(0u8) {
        assert(passable(map, key));
        assert(names.contains(key));
        let i = choose|i: int| 0 <= i < names.len() && names[i] == key;
        assert(entries[i] == entry(key, map[key]));
    }
}

/// Where the system can take the variables that were set for the child, every one of them has its
/// entry.
pub proof fn law_set_variable_has_an_entry(
    entries: Seq<Seq<u8>>,
    own: Map<Seq<char>, Seq<char>>,
    vars: Seq<(Vec<u8>, Vec<u8>)>,
    key: Seq<char>,
)
    requires
        is_environment(entries, merged(own, vars)),
        !has_nul_variable(own),
        own.dom().contains(key),
    ensures
        entries.contains(entry(encode_utf8(key), encode_utf8(own[key]))),
{
    encode_utf8_valid_utf8(key);
    encode_utf8_decode_utf8(key);
    lemma_ascii_byte(key, 0);
    lemma_ascii_byte(own[key], 0);
    assert(!has_nul(key) && !has_nul(own[key]));
    lemma_entry_zero(encode_utf8(key), encode_utf8(own[key]));
    law_environment_is_complete(entries, merged(own, vars), encode_utf8(key));
}

// ---------------------------------------------------------------------------
// What holds of all handles that are attached
// ---------------------------------------------------------------------------

/// The handles by their names once these were attached, one after the other.
pub open spec fn attached(list: Seq<Handle>) -> Map<Seq<char>, Handle>
    decreases list.len(),
{
    if list.len() == 0 {
        Map::empty()
    } else {
        attached(list.drop_last()).insert(list.last()@.name, list.last())
    }
}

/// The place of the last handle of this name.
pub open spec fn last_named(list: Seq<Handle>, name: Seq<char>) -> Option<int>
    decreases list.len(),
{
    if list.len() == 0 {
        None
    } else if list.last()@.name == name {
        Some(list.len() - 1)
    } else {
        last_named(list.drop_last(), name)
    }
}

proof fn lemma_attached(list: Seq<Handle>, name: Seq<char>)
    ensures
        attached(list).dom().contains(name) <==> last_named(list, name) is Some,
        last_named(list, name) matches Some(i) ==> 0 <= i < list.len() && attached(list)[name]
            == list[i] && list[i]@.name == name,
    decreases list.len(),
{
    if list.len() > 0 {
        lemma_attached(list.drop_last(), name);
    }
}

proof fn lemma_named_from(list: Seq<Handle>, name: Seq<char>, i: int)
    requires
        0 <= i,
    ensures
        match named_from(list, name, i) {
            Some(k) => i <= k < list.len() && list[k]@.name == name,
            None => forall|k: int| i <= k < list.len() ==> (#[trigger] list[k])@.name != name,
        },
    decreases list.len() - i,
{
    if i < list.len() && list[i]@.name != name {
        lemma_named_from(list, name, i + 1);
    }
}

/// Of the handles that were attached, the last one of a name is the one that is found by it once
/// the child runs. None is found exactly if none of that name was attached.
pub proof fn law_last_attached_is_found(all: Seq<Handle>, list: Seq<Handle>, name: Seq<char>)
    requires
        lists_handles(list, attached(all)),
    ensures
        associate_named(list, name) is Some <==> last_named(all, name) is Some,
        associate_named(list, name) matches Some(i) ==> list[i] == all[last_named(all, name)->0],
{
    let map = attached(all);
    let names = choose|names: Seq<Seq<char>>| #[trigger] orders_handles(list, map, names);
    lemma_attached(all, name);
    lemma_named_from(list, name, 0);
    assert forall|i: int| 0 <= i < list.len() implies (#[trigger] list[i])@.name == names[i] by {
        assert(names.contains(names[i]));
        lemma_attached(all, names[i]);
    }
    match associate_named(list, name) {
        Some(i) => {
            assert(names[i] == name);
            assert(names.contains(name));
        },
        None => {
            if map.dom().contains(name) {
                assert(names.contains(name));
                let i = choose|i: int| 0 <= i < names.len() && names[i] == name;
                assert(list[i]@.name == name);
            }
        },
    }
}

/// What is made of an associate is found again by its name.
pub proof fn law_changed_associate_is_found_again(
    list: Seq<Handle>,
    name: Seq<char>,
    changed: Handle,
)
    requires
        associate_named(list, name) is Some,
        changed@.name == name,
    ensures
        ({
            let i = associate_named(list, name)->0;
            associate_named(list.update(i, changed), name) == Some(i)
        }),
{
    lemma_named_from(list, name, 0);
    lemma_found_again(list, name, changed, 0);
}

proof fn lemma_found_again(list: Seq<Handle>, name: Seq<char>, changed: Handle, from: int)
    requires
        0 <= from,
        named_from(list, name, from) is Some,
        changed@.name == name,
    ensures
        ({
            let i = named_from(list, name, from)->0;
            named_from(list.update(i, changed), name, from) == Some(i)
        }),
    decreases list.len() - from,
{
    lemma_named_from(list, name, from);
    if list[from]@.name != name {
        lemma_found_again(list, name, changed, from + 1);
        let i = named_from(list, name, from)->0;
        lemma_named_from(list, name, from + 1);
        assert(list.update(i, changed)[from] == list[from]);
    }
}

// ---------------------------------------------------------------------------
// What the words above stand for
// ---------------------------------------------------------------------------

/// Of the assignments of a variable the last one counts, and a variable is there exactly if it was
/// assigned.
pub proof fn law_last_assignment_counts(vars: Seq<(Vec<u8>, Vec<u8>)>, key: Seq<u8>)
    ensures
        inherited(vars).dom().contains(key) <==> exists|i: int|
            0 <= i < vars.len() && (#[trigger] vars[i]).0@ == key,
        forall|i: int|
            0 <= i < vars.len() && (#[trigger] vars[i]).0@ == key && (forall|j: int|
                i < j < vars.len() ==> (#[trigger] vars[j]).0@ != key) ==> inherited(vars)[key]
                == vars[i].1@,
{
    lemma_inherited(vars, key);
    assert forall|i: int|
        0 <= i < vars.len() && (#[trigger] vars[i]).0@ == key && (forall|j: int|
            i < j < vars.len() ==> (#[trigger] vars[j]).0@ != key) implies inherited(vars)[key]
        == vars[i].1@ by {
        assert(is_last(vars, i));
    }
}

/// A variable that was set for the child is there as the bytes of its name, with the bytes of its
/// value, and there is no other.
pub proof fn law_set_variables_are_their_bytes(
    own: Map<Seq<char>, Seq<char>>,
    key: Seq<char>,
    bytes: Seq<u8>,
)
    ensures
        own.dom().contains(key) <==> encoded(own).dom().contains(encode_utf8(key)),
        own.dom().contains(key) ==> encoded(own)[encode_utf8(key)] == encode_utf8(own[key]),
        encoded(own).dom().contains(bytes) ==> exists|k: Seq<char>| #[trigger]
            encode_utf8(k) == bytes && own.dom().contains(k),
{
    encode_utf8_valid_utf8(key);
    encode_utf8_decode_utf8(key);
    if encoded(own).dom().contains(bytes) {
        decode_utf8_encode_utf8(bytes);
        assert(encode_utf8(decode_utf8(bytes)) == bytes);
    }
}

/// What was set for the child counts over what this process has, variable by variable.
pub proof fn law_what_is_set_counts(
    own: Map<Seq<char>, Seq<char>>,
    vars: Seq<(Vec<u8>, Vec<u8>)>,
    key: Seq<u8>,
)
    ensures
        merged(own, vars).dom().contains(key) <==> encoded(own).dom().contains(key) || inherited(
            vars,
        ).dom().contains(key),
        encoded(own).dom().contains(key) ==> merged(own, vars)[key] == encoded(own)[key],
        !encoded(own).dom().contains(key) && inherited(vars).dom().contains(key) ==> merged(
            own,
            vars,
        )[key] == inherited(vars)[key],
{
}

/// A child is refused its variables exactly if a NUL stands in the name or the value of one that
/// was set for it.
pub proof fn law_any_nul_variable_counts(own: Map<Seq<char>, Seq<char>>)
    ensures
        has_nul_variable(own) <==> exists|key: Seq<char>| #[trigger]
            own.dom().contains(key) && (key.contains('\0') || own[key].contains('\0')),
{
}

/// An entry is the name of the variable, an equals sign and its value.
pub proof fn law_entry_is_name_and_value(key: Seq<u8>, value: Seq<u8>)
    ensures
        entry(key, value) == key + seq![61u8] + value,
{
    assert(entry(key, value) =~= key + seq![61u8] + value);
}

/// The entries of an environment are those of variables that it holds, each of another one, and
/// there are as many as there are variables without a zero.
pub proof fn law_environment_holds_nothing_else(
    entries: Seq<Seq<u8>>,
    map: Map<Seq<u8>, Seq<u8>>,
) -> (names: Seq<Seq<u8>>)
    requires
        is_environment(entries, map),
    ensures
        names.len() == entries.len(),
        forall|i: int|
            0 <= i < entries.len() ==> map.dom().contains(#[trigger] names[i]) && entries[i]
                == names[i] + seq![61u8] + map[names[i]],
        forall|i: int, j: int|
            0 <= i < j < names.len() ==> #[trigger] names[i] != #[trigger] names[j],
        forall|key: Seq<u8>|
            map.dom().contains(key) && !key.contains(0u8) && !map[key].contains(0u8)
                ==> #[trigger] names.contains(key),
{
    let names = choose|names: Seq<Seq<u8>>| #[trigger] orders_environment(entries, map, names);
    assert forall|i: int| 0 <= i < entries.len() implies map.dom().contains(
        #[trigger] names[i],
    ) && entries[i] == names[i] + seq![61u8] + map[names[i]] by {
        assert(names.contains(names[i]));
        law_entry_is_name_and_value(names[i], map[names[i]]);
        assert(entries[i] == entry(names[i], map[names[i]]));
    }
    assert forall|key: Seq<u8>|
        map.dom().contains(key) && !key.contains(0u8) && !map[key].contains(
            0u8,
        ) implies #[trigger] names.contains(key) by {
        assert(passable(map, key));
    }
    names
}

/// Runs of bytes are those of the vectors, each at its place.
pub proof fn law_runs_are_those_of_the_vectors(list: Seq<Vec<u8>>, i: int)
    ensures
        byte_runs(list).len() == list.len(),
        0 <= i < list.len() ==> byte_runs(list)[i] == list[i]@,
{
}

/// A list of the handles of a map holds the handle of every name at one place, and no others.
pub proof fn law_every_handle_is_listed_once(
    list: Seq<Handle>,
    map: Map<Seq<char>, Handle>,
) -> (names: Seq<Seq<char>>)
    requires
        lists_handles(list, map),
    ensures
        names.len() == list.len(),
        forall|i: int|
            0 <= i < list.len() ==> map.dom().contains(#[trigger] names[i]) && list[i]
                == map[names[i]],
        forall|i: int, j: int|
            0 <= i < j < names.len() ==> #[trigger] names[i] != #[trigger] names[j],
        forall|name: Seq<char>| map.dom().contains(name) ==> exists|i: int|
            0 <= i < names.len() && #[trigger] names[i] == name,
{
    let names = choose|names: Seq<Seq<char>>| #[trigger] orders_handles(list, map, names);
    assert forall|i: int| 0 <= i < list.len() implies map.dom().contains(#[trigger] names[i])
        && list[i] == map[names[i]] by {
        assert(names.contains(names[i]));
    }
    assert forall|name: Seq<char>| map.dom().contains(name) implies exists|i: int|
        0 <= i < names.len() && #[trigger] names[i] == name by {
        assert(names.contains(name));
    }
    names
}

} // verus!
