//! Linux capabilities: which of them a child keeps, and which are taken from it.

use dashmap::DashSet;
use vstd::prelude::*;

verus! {

/// A Linux capability.
#[derive(Clone, Copy, Debug, PartialEq, Eq, Structural)]
#[allow(non_camel_case_types)]
pub enum Capability {
    /// `CAP_CHOWN`
    CAP_CHOWN,
    /// `CAP_DAC_OVERRIDE`
    CAP_DAC_OVERRIDE,
    /// `CAP_DAC_READ_SEARCH`
    CAP_DAC_READ_SEARCH,
    /// `CAP_FOWNER`
    CAP_FOWNER,
    /// `CAP_FSETID`
    CAP_FSETID,
    /// `CAP_KILL`
    CAP_KILL,
    /// `CAP_SETGID`
    CAP_SETGID,
    /// `CAP_SETUID`
    CAP_SETUID,
    /// `CAP_SETPCAP`
    CAP_SETPCAP,
    /// `CAP_LINUX_IMMUTABLE`
    CAP_LINUX_IMMUTABLE,
    /// `CAP_NET_BIND_SERVICE`
    CAP_NET_BIND_SERVICE,
    /// `CAP_NET_BROADCAST`
    CAP_NET_BROADCAST,
    /// `CAP_NET_ADMIN`
    CAP_NET_ADMIN,
    /// `CAP_NET_RAW`
    CAP_NET_RAW,
    /// `CAP_IPC_LOCK`
    CAP_IPC_LOCK,
    /// `CAP_IPC_OWNER`
    CAP_IPC_OWNER,
    /// `CAP_SYS_MODULE`
    CAP_SYS_MODULE,
    /// `CAP_SYS_RAWIO`
    CAP_SYS_RAWIO,
    /// `CAP_SYS_CHROOT`
    CAP_SYS_CHROOT,
    /// `CAP_SYS_PTRACE`
    CAP_SYS_PTRACE,
    /// `CAP_SYS_PACCT`
    CAP_SYS_PACCT,
    /// `CAP_SYS_ADMIN`
    CAP_SYS_ADMIN,
    /// `CAP_SYS_BOOT`
    CAP_SYS_BOOT,
    /// `CAP_SYS_NICE`
    CAP_SYS_NICE,
    /// `CAP_SYS_RESOURCE`
    CAP_SYS_RESOURCE,
    /// `CAP_SYS_TIME`
    CAP_SYS_TIME,
    /// `CAP_SYS_TTY_CONFIG`
    CAP_SYS_TTY_CONFIG,
    /// `CAP_MKNOD`
    CAP_MKNOD,
    /// `CAP_LEASE`
    CAP_LEASE,
    /// `CAP_AUDIT_WRITE`
    CAP_AUDIT_WRITE,
    /// `CAP_AUDIT_CONTROL`
    CAP_AUDIT_CONTROL,
    /// `CAP_SETFCAP`
    CAP_SETFCAP,
    /// `CAP_MAC_OVERRIDE`
    CAP_MAC_OVERRIDE,
    /// `CAP_MAC_ADMIN`
    CAP_MAC_ADMIN,
    /// `CAP_SYSLOG`
    CAP_SYSLOG,
    /// `CAP_WAKE_ALARM`
    CAP_WAKE_ALARM,
    /// `CAP_BLOCK_SUSPEND`
    CAP_BLOCK_SUSPEND,
    /// `CAP_AUDIT_READ`
    CAP_AUDIT_READ,
    /// `CAP_PERFMON`
    CAP_PERFMON,
    /// `CAP_BPF`
    CAP_BPF,
    /// `CAP_CHECKPOINT_RESTORE`
    CAP_CHECKPOINT_RESTORE,
}

impl Capability {
    /// The number that the kernel knows the capability by.
    pub open spec fn number(self) -> u8 {
        match self {
            Capability::CAP_CHOWN => 0,
            Capability::CAP_DAC_OVERRIDE => 1,
            Capability::CAP_DAC_READ_SEARCH => 2,
            Capability::CAP_FOWNER => 3,
            Capability::CAP_FSETID => 4,
            Capability::CAP_KILL => 5,
            Capability::CAP_SETGID => 6,
            Capability::CAP_SETUID => 7,
            Capability::CAP_SETPCAP => 8,
            Capability::CAP_LINUX_IMMUTABLE => 9,
            Capability::CAP_NET_BIND_SERVICE => 10,
            Capability::CAP_NET_BROADCAST => 11,
            Capability::CAP_NET_ADMIN => 12,
            Capability::CAP_NET_RAW => 13,
            Capability::CAP_IPC_LOCK => 14,
            Capability::CAP_IPC_OWNER => 15,
            Capability::CAP_SYS_MODULE => 16,
            Capability::CAP_SYS_RAWIO => 17,
            Capability::CAP_SYS_CHROOT => 18,
            Capability::CAP_SYS_PTRACE => 19,
            Capability::CAP_SYS_PACCT => 20,
            Capability::CAP_SYS_ADMIN => 21,
            Capability::CAP_SYS_BOOT => 22,
            Capability::CAP_SYS_NICE => 23,
            Capability::CAP_SYS_RESOURCE => 24,
            Capability::CAP_SYS_TIME => 25,
            Capability::CAP_SYS_TTY_CONFIG => 26,
            Capability::CAP_MKNOD => 27,
            Capability::CAP_LEASE => 28,
            Capability::CAP_AUDIT_WRITE => 29,
            Capability::CAP_AUDIT_CONTROL => 30,
            Capability::CAP_SETFCAP => 31,
            Capability::CAP_MAC_OVERRIDE => 32,
            Capability::CAP_MAC_ADMIN => 33,
            Capability::CAP_SYSLOG => 34,
            Capability::CAP_WAKE_ALARM => 35,
            Capability::CAP_BLOCK_SUSPEND => 36,
            Capability::CAP_AUDIT_READ => 37,
            Capability::CAP_PERFMON => 38,
            Capability::CAP_BPF => 39,
            Capability::CAP_CHECKPOINT_RESTORE => 40,
        }
    }

    /// The number that the kernel knows the capability by.
    pub fn index(&self) -> (index: u8)
        ensures
            index == self.number(),
    {
        match self {
            Capability::CAP_CHOWN => 0,
            Capability::CAP_DAC_OVERRIDE => 1,
            Capability::CAP_DAC_READ_SEARCH => 2,
            Capability::CAP_FOWNER => 3,
            Capability::CAP_FSETID => 4,
            Capability::CAP_KILL => 5,
            Capability::CAP_SETGID => 6,
            Capability::CAP_SETUID => 7,
            Capability::CAP_SETPCAP => 8,
            Capability::CAP_LINUX_IMMUTABLE => 9,
            Capability::CAP_NET_BIND_SERVICE => 10,
            Capability::CAP_NET_BROADCAST => 11,
            Capability::CAP_NET_ADMIN => 12,
            Capability::CAP_NET_RAW => 13,
            Capability::CAP_IPC_LOCK => 14,
            Capability::CAP_IPC_OWNER => 15,
            Capability::CAP_SYS_MODULE => 16,
            Capability::CAP_SYS_RAWIO => 17,
            Capability::CAP_SYS_CHROOT => 18,
            Capability::CAP_SYS_PTRACE => 19,
            Capability::CAP_SYS_PACCT => 20,
            Capability::CAP_SYS_ADMIN => 21,
            Capability::CAP_SYS_BOOT => 22,
            Capability::CAP_SYS_NICE => 23,
            Capability::CAP_SYS_RESOURCE => 24,
            Capability::CAP_SYS_TIME => 25,
            Capability::CAP_SYS_TTY_CONFIG => 26,
            Capability::CAP_MKNOD => 27,
            Capability::CAP_LEASE => 28,
            Capability::CAP_AUDIT_WRITE => 29,
            Capability::CAP_AUDIT_CONTROL => 30,
            Capability::CAP_SETFCAP => 31,
            Capability::CAP_MAC_OVERRIDE => 32,
            Capability::CAP_MAC_ADMIN => 33,
            Capability::CAP_SYSLOG => 34,
            Capability::CAP_WAKE_ALARM => 35,
            Capability::CAP_BLOCK_SUSPEND => 36,
            Capability::CAP_AUDIT_READ => 37,
            Capability::CAP_PERFMON => 38,
            Capability::CAP_BPF => 39,
            Capability::CAP_CHECKPOINT_RESTORE => 40,
        }
    }
}

// ---------------------------------------------------------------------------
// Capabilities that a child keeps
// ---------------------------------------------------------------------------

/// `dashmap::DashSet`, a set that many threads can share.
#[verifier::external_type_specification]
#[verifier::external_body]
#[verifier::reject_recursive_types(K)]
#[verifier::reject_recursive_types(S)]
pub struct ExDashSet<K, S>(DashSet<K, S>);

/// The numbers that a set holds.
pub uninterp spec fn numbers(set: DashSet<u8>) -> Set<u8>;

/// `DashSet::new`: the set holds nothing.
#[verifier::external_body]
pub(crate) fn set_new() -> (set: DashSet<u8>)
    ensures
        numbers(set) == (Set::<u8>::empty()),
{
    DashSet::new()
}

/// `DashSet::insert`: the set then holds the number too.
#[verifier::external_body]
pub(crate) fn set_insert(set: &mut DashSet<u8>, number: u8)
    ensures
        numbers(*final(set)) == numbers(*old(set)).insert(number),
{
    let _ = set.insert(number);
}

/// `DashSet::contains`: whether the set holds the number.
#[verifier::external_body]
pub(crate) fn set_contains(set: &DashSet<u8>, number: u8) -> (held: bool)
    ensures
        held == numbers(*set).contains(number),
{
    set.contains(&number)
}

/// `DashSet::is_empty`: whether the set holds no number.
#[verifier::external_body]
pub(crate) fn set_is_empty(set: &DashSet<u8>) -> (empty: bool)
    ensures
        empty <==> numbers(*set) == (Set::<u8>::empty()),
{
    set.is_empty()
}

/// The kernel numbers its capabilities from zero up to this number.
pub const LAST_CAPABILITY: u8 = 40;

/// `caps::all`: every capability, by its number (`caps::Capability::index`). They are the
/// numbers up to [`LAST_CAPABILITY`], each once, in no order that can be relied on.
#[verifier::external_body]
fn all() -> (list: Vec<u8>)
    ensures
        list@.no_duplicates(),
        forall|c: u8| list@.contains(c) <==> c <= LAST_CAPABILITY,
{
    caps::all().into_iter().map(|cap| cap.index()).collect()
}

/// The list holds the capabilities that a child must lose, each once: all but those to keep.
pub open spec fn is_difference(list: Seq<u8>, keep: Set<u8>) -> bool {
    &&& list.no_duplicates()
    &&& forall|c: u8| list.contains(c) <==> c <= LAST_CAPABILITY && !keep.contains(c)
}

/// Every capability but those to keep.
pub(crate) fn difference(keep: &DashSet<u8>) -> (list: Vec<u8>)
    ensures
        is_difference(list@, numbers(*keep)),
{
    let every = all();
    let mut list: Vec<u8> = Vec::new();
    let mut i: usize = 0;
    while i < every.len()
        invariant
            i <= every.len(),
            every@.no_duplicates(),
            forall|c: u8| every@.contains(c) <==> c <= LAST_CAPABILITY,
            list@.no_duplicates(),
            forall|c: u8| list@.contains(c) <==> every@.take(i as int).contains(c) && !numbers(
                *keep,
            ).contains(c),
        decreases every.len() - i,
    {
        let c: u8 = every[i];
        let ghost before = list@;
        let ghost done = every@.take(i as int);
        let ghost next = every@.take(i + 1);
        proof {
            assert(next =~= done.push(c));
            if done.contains(c) {
                let j = choose|j: int| 0 <= j < done.len() && done[j] == c;
                assert(every@[j] == every@[i as int]);
            }
            assert forall|d: u8| next.contains(d) <==> done.contains(d) || d == c by {
                if done.contains(d) {
                    let j = choose|j: int| 0 <= j < done.len() && done[j] == d;
                    assert(next[j] == d);
                }
                assert(next[i as int] == c);
            }
        }
        if !set_contains(keep, c) {
            list.push(c);
            proof {
                assert forall|d: u8| list@.contains(d) <==> before.contains(d) || d == c by {
                    if before.contains(d) {
                        let j = choose|j: int| 0 <= j < before.len() && before[j] == d;
                        assert(list@[j] == d);
                    }
                    assert(list@[before.len() as int] == c);
                }
            }
        }
        proof {
            assert forall|d: u8| list@.contains(d) <==> next.contains(d) && !numbers(
                *keep,
            ).contains(d) by {
                assert(before.contains(d) <==> done.contains(d) && !numbers(*keep).contains(d));
                assert(next.contains(d) <==> done.contains(d) || d == c);
            }
        }
        i += 1;
    }
    assert(every@.take(i as int) =~= every@);
    list
}

// ---------------------------------------------------------------------------
// Taking capabilities away
// ---------------------------------------------------------------------------

/// The sets of capabilities that a thread has.
#[derive(Clone, Copy, Debug, PartialEq, Eq, Structural)]
pub enum CapSet {
    /// Those that survive the start of a program without privilege of its own.
    Ambient,
    /// Those that the kernel checks.
    Effective,
    /// Those that the start of a program with matching privilege keeps.
    Inheritable,
    /// Those that the thread may use.
    Permitted,
}

/// What to drop from one set: of the capabilities that it has, those on the list, in the order
/// in which the set names them.
pub open spec fn drops(set: CapSet, has: Seq<u8>, list: Seq<u8>) -> Seq<(CapSet, u8)>
    decreases has.len(),
{
    if has.len() == 0 {
        Seq::empty()
    } else {
        let before = drops(set, has.drop_last(), list);
        if list.contains(has.last()) {
            before.push((set, has.last()))
        } else {
            before
        }
    }
}

/// Whether a list holds a number.
fn listed(list: &[u8], number: u8) -> (held: bool)
    ensures
        held == list@.contains(number),
{
    let mut i: usize = 0;
    while i < list.len()
        invariant
            i <= list.len(),
            forall|j: int| 0 <= j < i ==> list@[j] != number,
        decreases list.len() - i,
    {
        if list[i] == number {
            assert(list@[i as int] == number);
            return true;
        }
        i += 1;
    }
    false
}

/// Adds what has to be dropped from one set.
fn push_drops(plan: &mut Vec<(CapSet, u8)>, set: CapSet, has: &[u8], list: &[u8])
    ensures
        final(plan)@ == old(plan)@ + drops(set, has@, list@),
{
    let mut i: usize = 0;
    while i < has.len()
        invariant
            i <= has.len(),
            plan@ == old(plan)@ + drops(set, has@.take(i as int), list@),
        decreases has.len() - i,
    {
        let ghost next = has@.take(i + 1);
        assert(next.drop_last() =~= has@.take(i as int));
        assert(next.last() == has@[i as int]);
        if listed(list, has[i]) {
            plan.push((set, has[i]));
        }
        assert(plan@ =~= old(plan)@ + drops(set, next, list@));
        i += 1;
    }
    assert(has@.take(i as int) =~= has@);
}

/// Everything to drop, one set after the other.
pub open spec fn all_drops(
    list: Seq<u8>,
    ambient: Seq<u8>,
    effective: Seq<u8>,
    inheritable: Seq<u8>,
    permitted: Seq<u8>,
) -> Seq<(CapSet, u8)> {
    drops(CapSet::Ambient, ambient, list) + drops(CapSet::Effective, effective, list) + drops(
        CapSet::Inheritable,
        inheritable,
        list,
    ) + drops(CapSet::Permitted, permitted, list)
}

/// The capabilities to drop from each set of a thread, so that it is left with none on the
/// list.
pub fn clear_capabilities(
    list: &[u8],
    ambient: &[u8],
    effective: &[u8],
    inheritable: &[u8],
    permitted: &[u8],
) -> (plan: Vec<(CapSet, u8)>)
    ensures
        plan@ == all_drops(list@, ambient@, effective@, inheritable@, permitted@),
{
    let mut plan: Vec<(CapSet, u8)> = Vec::new();
    push_drops(&mut plan, CapSet::Ambient, ambient, list);
    push_drops(&mut plan, CapSet::Effective, effective, list);
    push_drops(&mut plan, CapSet::Inheritable, inheritable, list);
    push_drops(&mut plan, CapSet::Permitted, permitted, list);
    assert(plan@ =~= all_drops(list@, ambient@, effective@, inheritable@, permitted@));
    plan
}

/// What is dropped from a set is exactly what the set has and the list names.
proof fn lemma_drops(set: CapSet, has: Seq<u8>, list: Seq<u8>)
    ensures
        forall|s: CapSet, c: u8|
            #![trigger drops(set, has, list).contains((s, c))]
            drops(set, has, list).contains((s, c)) <==> s == set && has.contains(c)
                && list.contains(c),
    decreases has.len(),
{
    let all = drops(set, has, list);
    if has.len() > 0 {
        let init = has.drop_last();
        let before = drops(set, init, list);
        lemma_drops(set, init, list);
        assert forall|s: CapSet, c: u8| #![trigger all.contains((s, c))]
            all.contains((s, c)) <==> s == set && has.contains(c) && list.contains(c) by {
            if all.contains((s, c)) {
                let i = choose|i: int| 0 <= i < all.len() && all[i] == (s, c);
                if i < before.len() {
                    assert(before[i] == (s, c));
                    assert(before.contains((s, c)));
                    let j = choose|j: int| 0 <= j < init.len() && init[j] == c;
                    assert(has[j] == c);
                } else {
                    assert(has[has.len() - 1] == c);
                }
            }
            if s == set && has.contains(c) && list.contains(c) {
                let j = choose|j: int| 0 <= j < has.len() && has[j] == c;
                if j < init.len() {
                    assert(init[j] == c);
                    assert(before.contains((s, c)));
                    let i = choose|i: int| 0 <= i < before.len() && before[i] == (s, c);
                    assert(all[i] == (s, c));
                } else {
                    assert(all[before.len() as int] == (s, c));
                }
            }
        }
    }
}

/// The capabilities that a thread has in one of its sets.
pub open spec fn set_of(
    set: CapSet,
    ambient: Seq<u8>,
    effective: Seq<u8>,
    inheritable: Seq<u8>,
    permitted: Seq<u8>,
) -> Seq<u8> {
    match set {
        CapSet::Ambient => ambient,
        CapSet::Effective => effective,
        CapSet::Inheritable => inheritable,
        CapSet::Permitted => permitted,
    }
}

/// A child loses a capability from a set exactly if it has it there and it is not one to keep:
/// one that is kept survives wherever it was, every other one goes, and none is added.
pub proof fn law_only_kept_capabilities_survive(
    keep: Set<u8>,
    list: Seq<u8>,
    ambient: Seq<u8>,
    effective: Seq<u8>,
    inheritable: Seq<u8>,
    permitted: Seq<u8>,
    set: CapSet,
    c: u8,
)
    requires
        is_difference(list, keep),
        c <= LAST_CAPABILITY,
    ensures
        all_drops(list, ambient, effective, inheritable, permitted).contains((set, c)) <==> set_of(
            set,
            ambient,
            effective,
            inheritable,
            permitted,
        ).contains(c) && !keep.contains(c),
{
    let a = drops(CapSet::Ambient, ambient, list);
    let e = drops(CapSet::Effective, effective, list);
    let i = drops(CapSet::Inheritable, inheritable, list);
    let p = drops(CapSet::Permitted, permitted, list);
    lemma_drops(CapSet::Ambient, ambient, list);
    lemma_drops(CapSet::Effective, effective, list);
    lemma_drops(CapSet::Inheritable, inheritable, list);
    lemma_drops(CapSet::Permitted, permitted, list);
    lemma_contains_sum(a, e, (set, c));
    lemma_contains_sum(a + e, i, (set, c));
    lemma_contains_sum(a + e + i, p, (set, c));
    assert(a.contains((set, c)) <==> set == CapSet::Ambient && ambient.contains(c)
        && list.contains(c));
    assert(e.contains((set, c)) <==> set == CapSet::Effective && effective.contains(c)
        && list.contains(c));
    assert(i.contains((set, c)) <==> set == CapSet::Inheritable && inheritable.contains(c)
        && list.contains(c));
    assert(p.contains((set, c)) <==> set == CapSet::Permitted && permitted.contains(c)
        && list.contains(c));
}

proof fn lemma_contains_sum(a: Seq<(CapSet, u8)>, b: Seq<(CapSet, u8)>, x: (CapSet, u8))
    ensures
        (a + b).contains(x) <==> a.contains(x) || b.contains(x),
{
    if a.contains(x) {
        let i = choose|i: int| 0 <= i < a.len() && a[i] == x;
        assert((a + b)[i] == x);
    }
    if b.contains(x) {
        let i = choose|i: int| 0 <= i < b.len() && b[i] == x;
        assert((a + b)[a.len() + i] == x);
    }
    if (a + b).contains(x) {
        let i = choose|i: int| 0 <= i < (a + b).len() && (a + b)[i] == x;
        if i < a.len() {
            assert(a[i] == x);
        } else {
            assert(b[i - a.len()] == x);
        }
    }
}

/// The kernel's numbers of the capabilities. No two have the same.
pub proof fn law_capabilities_have_the_kernels_numbers(a: Capability, b: Capability)
    ensures
        Capability::CAP_CHOWN.number() == 0,
        Capability::CAP_DAC_OVERRIDE.number() == 1,
        Capability::CAP_DAC_READ_SEARCH.number() == 2,
        Capability::CAP_FOWNER.number() == 3,
        Capability::CAP_FSETID.number() == 4,
        Capability::CAP_KILL.number() == 5,
        Capability::CAP_SETGID.number() == 6,
        Capability::CAP_SETUID.number() == 7,
        Capability::CAP_SETPCAP.number() == 8,
        Capability::CAP_LINUX_IMMUTABLE.number() == 9,
        Capability::CAP_NET_BIND_SERVICE.number() == 10,
        Capability::CAP_NET_BROADCAST.number() == 11,
        Capability::CAP_NET_ADMIN.number() == 12,
        Capability::CAP_NET_RAW.number() == 13,
        Capability::CAP_IPC_LOCK.number() == 14,
        Capability::CAP_IPC_OWNER.number() == 15,
        Capability::CAP_SYS_MODULE.number() == 16,
        Capability::CAP_SYS_RAWIO.number() == 17,
        Capability::CAP_SYS_CHROOT.number() == 18,
        Capability::CAP_SYS_PTRACE.number() == 19,
        Capability::CAP_SYS_PACCT.number() == 20,
        Capability::CAP_SYS_ADMIN.number() == 21,
        Capability::CAP_SYS_BOOT.number() == 22,
        Capability::CAP_SYS_NICE.number() == 23,
        Capability::CAP_SYS_RESOURCE.number() == 24,
        Capability::CAP_SYS_TIME.number() == 25,
        Capability::CAP_SYS_TTY_CONFIG.number() == 26,
        Capability::CAP_MKNOD.number() == 27,
        Capability::CAP_LEASE.number() == 28,
        Capability::CAP_AUDIT_WRITE.number() == 29,
        Capability::CAP_AUDIT_CONTROL.number() == 30,
        Capability::CAP_SETFCAP.number() == 31,
        Capability::CAP_MAC_OVERRIDE.number() == 32,
        Capability::CAP_MAC_ADMIN.number() == 33,
        Capability::CAP_SYSLOG.number() == 34,
        Capability::CAP_WAKE_ALARM.number() == 35,
        Capability::CAP_BLOCK_SUSPEND.number() == 36,
        Capability::CAP_AUDIT_READ.number() == 37,
        Capability::CAP_PERFMON.number() == 38,
        Capability::CAP_BPF.number() == 39,
        Capability::CAP_CHECKPOINT_RESTORE.number() == 40,
        a.number() == b.number() ==> a == b,
        a.number() <= 40,
{
}

/// What a child must lose is exactly what the kernel knows and it is not to keep, each once.
pub proof fn law_child_loses_all_but_what_it_keeps(list: Seq<u8>, keep: Set<u8>, c: u8)
    requires
        is_difference(list, keep),
    ensures
        (exists|i: int| 0 <= i < list.len() && #[trigger] list[i] == c) <==> c <= 40
            && !keep.contains(c),
        forall|i: int, j: int|
            0 <= i < j < list.len() ==> #[trigger] list[i] != #[trigger] list[j],
{
    assert(list.contains(c) <==> exists|i: int|
        0 <= i < list.len() && #[trigger] list[i] == c);
}

/// From a set is dropped what it has and the list names, in the order in which it has it.
pub proof fn law_drops_are_what_the_list_names(set: CapSet, has: Seq<u8>, list: Seq<u8>)
    ensures
        drops(set, has, list).len() == has.filter(|c: u8| list.contains(c)).len(),
        forall|i: int|
            0 <= i < drops(set, has, list).len() ==> #[trigger] drops(set, has, list)[i] == (
                set,
                has.filter(|c: u8| list.contains(c))[i],
            ),
    decreases has.len(),
{
    reveal(Seq::filter);
    let listed = |c: u8| list.contains(c);
    if has.len() > 0 {
        law_drops_are_what_the_list_names(set, has.drop_last(), list);
        let before = has.drop_last().filter(listed);
        assert(has.filter(listed) == if listed(has.last()) {
            before.push(has.last())
        } else {
            before
        });
    }
}

/// The ambient set is seen to first, then the effective, the inheritable and the permitted one.
pub proof fn law_sets_are_seen_to_in_turn(
    list: Seq<u8>,
    ambient: Seq<u8>,
    effective: Seq<u8>,
    inheritable: Seq<u8>,
    permitted: Seq<u8>,
)
    ensures
        ({
            let all = all_drops(list, ambient, effective, inheritable, permitted);
            let a = drops(CapSet::Ambient, ambient, list);
            let e = drops(CapSet::Effective, effective, list);
            let i = drops(CapSet::Inheritable, inheritable, list);
            let p = drops(CapSet::Permitted, permitted, list);
            &&& all.len() == a.len() + e.len() + i.len() + p.len()
            &&& all.take(a.len() as int) == a
            &&& all.subrange(a.len() as int, (a.len() + e.len()) as int) == e
            &&& all.subrange((a.len() + e.len()) as int, (a.len() + e.len() + i.len()) as int) == i
            &&& all.skip((a.len() + e.len() + i.len()) as int) == p
        }),
{
    let all = all_drops(list, ambient, effective, inheritable, permitted);
    let a = drops(CapSet::Ambient, ambient, list);
    let e = drops(CapSet::Effective, effective, list);
    let i = drops(CapSet::Inheritable, inheritable, list);
    let p = drops(CapSet::Permitted, permitted, list);
    assert(all =~= a + e + i + p);
    assert(all.take(a.len() as int) =~= a);
    assert(all.subrange(a.len() as int, (a.len() + e.len()) as int) =~= e);
    assert(all.subrange((a.len() + e.len()) as int, (a.len() + e.len() + i.len()) as int) =~= i);
    assert(all.skip((a.len() + e.len() + i.len()) as int) =~= p);
}

} // verus!
