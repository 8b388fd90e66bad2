//! Off-endpoint guard: the decisions over snapshots that the host supplies.
//!
//! Process loopback of the own tree is device-agnostic: it contains the own playback wherever that
//! is routed. Subtracting it from endpoint E while some of that playback goes to endpoint F injects
//! an inverted copy of F's share into the output. The host therefore polls the audio sessions of
//! every active render endpoint and fails as soon as a process of the own tree has an active
//! session on an endpoint other than E.

use vstd::prelude::*;
use vstd::string::*;

verus! {

/// One audio session as seen on one render endpoint.
#[derive(Clone, Debug, PartialEq, Eq)]
pub struct SessionInfo {
    pub endpoint_id: String,
    pub pid: u32,
    pub active: bool,
}

/// `pid` is a child of `parent` in a snapshot of `(pid, parent pid)` pairs. Process 0 is no child,
/// and no process is its own.
pub open spec fn child_of(entries: Seq<(u32, u32)>, pid: u32, parent: u32) -> bool {
    entries.contains((pid, parent)) && pid != 0 && pid != parent
}

/// `path` leads from `root` down to its last member, child by child.
pub open spec fn lineage(entries: Seq<(u32, u32)>, root: u32, path: Seq<u32>) -> bool {
    &&& path.len() > 0
    &&& path[0] == root
    &&& forall|k: int| 0 < k < path.len() ==> child_of(entries, #[trigger] path[k], path[k - 1])
}

/// `pid` is `root` or one of its descendants.
pub open spec fn descends(entries: Seq<(u32, u32)>, root: u32, pid: u32) -> bool {
    exists|path: Seq<u32>| #[trigger] lineage(entries, root, path) && path.last() == pid
}

/// `tree` with the children of `parent` among the first `n` entries appended, each once.
pub open spec fn adopted(tree: Seq<u32>, parent: u32, entries: Seq<(u32, u32)>, n: nat) -> Seq<u32>
    decreases n,
{
    if n == 0 {
        tree
    } else {
        let t = adopted(tree, parent, entries, (n - 1) as nat);
        let e = entries[n - 1];
        if e.1 == parent && e.0 != 0 && e.0 != e.1 && !t.contains(e.0) {
            t.push(e.0)
        } else {
            t
        }
    }
}

/// The breadth-first walk from position `i` on. A tree has at most one member per entry besides the
/// root, so the walk ends before position `entries.len() + 1`.
pub open spec fn walked(tree: Seq<u32>, i: nat, entries: Seq<(u32, u32)>) -> Seq<u32>
    decreases entries.len() + 1 - i,
{
    if i >= tree.len() || i > entries.len() {
        tree
    } else {
        walked(adopted(tree, tree[i as int], entries, entries.len()), i + 1, entries)
    }
}

/// Every member is the root or the pid of an entry, and none occurs twice.
spec fn drawn_from(tree: Seq<u32>, root: u32, entries: Seq<(u32, u32)>) -> bool {
    &&& tree.len() > 0
    &&& tree[0] == root
    &&& tree.no_duplicates()
    &&& forall|k: int| 0 <= k < tree.len() ==> descends(entries, root, #[trigger] tree[k])
}

proof fn lemma_child_descends(entries: Seq<(u32, u32)>, root: u32, parent: u32, pid: u32)
    requires
        descends(entries, root, parent),
        child_of(entries, pid, parent),
    ensures
        descends(entries, root, pid),
{
    let path = choose|path: Seq<u32>| #[trigger] lineage(entries, root, path) && path.last() == parent;
    let longer = path.push(pid);
    assert forall|k: int| 0 < k < longer.len() implies child_of(entries, #[trigger] longer[k], longer[k - 1]) by {
        if k < path.len() {
            assert(longer[k] == path[k]);
            assert(longer[k - 1] == path[k - 1]);
        } else {
            assert(longer[k - 1] == path.last());
        }
    }
    assert(lineage(entries, root, longer));
    assert(longer.last() == pid);
}

proof fn lemma_adopted(tree: Seq<u32>, root: u32, parent: u32, entries: Seq<(u32, u32)>, n: nat)
    requires
        drawn_from(tree, root, entries),
        descends(entries, root, parent),
        n <= entries.len(),
    ensures
        ({
            let t = adopted(tree, parent, entries, n);
            &&& drawn_from(t, root, entries)
            &&& tree.is_prefix_of(t)
            &&& forall|k: int|
                0 <= k < n && (#[trigger] entries[k]).1 == parent && entries[k].0 != 0 && entries[k].0
                    != parent ==> t.contains(entries[k].0)
        }),
    decreases n,
{
    if n > 0 {
        lemma_adopted(tree, root, parent, entries, (n - 1) as nat);
        let t = adopted(tree, parent, entries, (n - 1) as nat);
        let e = entries[n - 1];
        if e.1 == parent && e.0 != 0 && e.0 != e.1 && !t.contains(e.0) {
            assert(entries.contains((e.0, parent)));
            lemma_child_descends(entries, root, parent, e.0);
            let u = t.push(e.0);
            assert(u.last() == e.0);
            assert forall|k: int|
                0 <= k < n && (#[trigger] entries[k]).1 == parent && entries[k].0 != 0 && entries[k].0
                    != parent implies u.contains(entries[k].0) by {
                if k < n - 1 {
                    let at = choose|at: int| 0 <= at < t.len() && t[at] == entries[k].0;
                    assert(u[at] == entries[k].0);
                } else {
                    assert(u[t.len() as int] == e.0);
                }
            }
        }
    }
}

proof fn lemma_bounded(tree: Seq<u32>, root: u32, entries: Seq<(u32, u32)>)
    requires
        drawn_from(tree, root, entries),
    ensures
        tree.len() <= entries.len() + 1,
{
    let pids = entries.map_values(|e: (u32, u32)| e.0).push(root);
    assert forall|x: u32| tree.to_set().contains(x) implies pids.to_set().contains(x) by {
        let k = choose|k: int| 0 <= k < tree.len() && tree[k] == x;
        assert(descends(entries, root, tree[k]));
        let path = choose|path: Seq<u32>| #[trigger] lineage(entries, root, path) && path.last() == x;
        if path.len() == 1 {
            assert(pids.last() == root);
            assert(pids[entries.len() as int] == x);
        } else {
            assert(child_of(entries, path[path.len() - 1], path[path.len() - 2]));
            let at = choose|at: int|
                0 <= at < entries.len() && entries[at] == (path[path.len() - 1], path[path.len() - 2]);
            assert(pids[at] == x);
        }
    }
    tree.unique_seq_to_set();
    pids.lemma_cardinality_of_set();
    vstd::set_lib::lemma_len_subset(tree.to_set(), pids.to_set());
}

/// A tree that holds the children of each member holds every descendant of its root.
proof fn lemma_closed(tree: Seq<u32>, root: u32, entries: Seq<(u32, u32)>, path: Seq<u32>, n: int)
    requires
        tree.contains(root),
        forall|p: u32, c: u32| tree.contains(p) && #[trigger] child_of(entries, c, p) ==> tree.contains(c),
        lineage(entries, root, path),
        0 <= n < path.len(),
    ensures
        tree.contains(path[n]),
    decreases n,
{
    if n > 0 {
        lemma_closed(tree, root, entries, path, n - 1);
        assert(child_of(entries, path[n], path[n - 1]));
    }
}

/// `root` plus every descendant in a snapshot of `(pid, parent pid)` pairs, each once and breadth
/// first. Snapshots that look cyclic, because a pid was used again, are walked like any other.
pub fn process_tree(root: u32, entries: &[(u32, u32)]) -> (r: Vec<u32>)
    ensures
        r@ == walked(seq![root], 0, entries@),
        r@.no_duplicates(),
        r@.len() > 0 && r@[0] == root,
        forall|pid: u32| r@.contains(pid) <==> descends(entries@, root, pid),
{
    let mut tree: Vec<u32> = Vec::new();
    tree.push(root);
    let mut i: usize = 0;
    proof {
        assert(tree@ =~= seq![root]);
        assert(lineage(entries@, root, seq![root]));
        assert(descends(entries@, root, root));
        lemma_bounded(tree@, root, entries@);
    }
    while i < tree.len()
        invariant
            i <= tree@.len(),
            tree@.len() <= entries@.len() + 1,
            drawn_from(tree@, root, entries@),
            walked(seq![root], 0, entries@) == walked(tree@, i as nat, entries@),
            forall|k: int, c: u32|
                0 <= k < i && #[trigger] child_of(entries@, c, tree@[k]) ==> tree@.contains(c),
        decreases entries@.len() + 1 - i,
    {
        let parent: u32 = tree[i];
        let ghost before = tree@;
        assert(descends(entries@, root, tree@[i as int]));
        let mut j: usize = 0;
        while j < entries.len()
            invariant
                j <= entries@.len(),
                tree@ == adopted(before, parent, entries@, j as nat),
            decreases entries@.len() - j,
        {
            let (pid, ppid) = entries[j];
            if ppid == parent && pid != 0 && pid != ppid && !contains(&tree, pid) {
                tree.push(pid);
            }
            j = j + 1;
        }
        proof {
            lemma_adopted(before, root, parent, entries@, entries@.len());
            lemma_bounded(tree@, root, entries@);
            assert forall|k: int, c: u32| 0 <= k < i + 1 && #[trigger] child_of(entries@, c, tree@[k]) implies tree@.contains(
                c,
            ) by {
                assert(before[k] == tree@[k]);
                if k < i {
                    assert(child_of(entries@, c, before[k]));
                    let at = choose|at: int| 0 <= at < before.len() && before[at] == c;
                    assert(tree@[at] == c);
                } else {
                    let at = choose|at: int| 0 <= at < entries@.len() && entries@[at] == (c, parent);
                    assert(entries@[at].1 == parent);
                }
            }
        }
        i = i + 1;
    }
    proof {
        assert forall|p: u32, c: u32| tree@.contains(p) && #[trigger] child_of(entries@, c, p) implies tree@.contains(
            c,
        ) by {
            let k = choose|k: int| 0 <= k < tree@.len() && tree@[k] == p;
            assert(child_of(entries@, c, tree@[k]));
        }
        assert(tree@[0] == root);
        assert forall|pid: u32| tree@.contains(pid) <==> descends(entries@, root, pid) by {
            if descends(entries@, root, pid) {
                let path = choose|path: Seq<u32>|
                    #[trigger] lineage(entries@, root, path) && path.last() == pid;
                lemma_closed(tree@, root, entries@, path, path.len() - 1);
            }
        }
    }
    tree
}

pub(crate) fn contains(list: &[u32], x: u32) -> (r: bool)
    ensures
        r == list@.contains(x),
{
    let mut i: usize = 0;
    while i < list.len()
        invariant
            i <= list@.len(),
            forall|k: int| 0 <= k < i ==> list@[k] != x,
        decreases list@.len() - i,
    {
        if list[i] == x {
            assert(list@[i as int] == x);
            return true;
        }
        i = i + 1;
    }
    false
}

/// `c` with an ASCII capital made small.
pub open spec fn ascii_lower(c: char) -> char {
    if 'A' <= c <= 'Z' { (c as u32 + 32) as char } else { c }
}

/// Equal but for the case of ASCII letters.
pub open spec fn same_ignoring_case(a: Seq<char>, b: Seq<char>) -> bool {
    a.len() == b.len() && forall|i: int|
        0 <= i < a.len() ==> ascii_lower(#[trigger] a[i]) == ascii_lower(b[i])
}

fn to_ascii_lower(c: char) -> (r: char)
    ensures
        r == ascii_lower(c),
{
    if 'A' <= c && c <= 'Z' {
        (c as u8 + 32) as char
    } else {
        c
    }
}

pub fn eq_ignore_ascii_case(a: &str, b: &str) -> (r: bool)
    ensures
        r == same_ignoring_case(a@, b@),
{
    let n: usize = a.unicode_len();
    if n != b.unicode_len() {
        return false;
    }
    let mut i: usize = 0;
    while i < n
        invariant
            n == a@.len(),
            n == b@.len(),
            i <= n,
            forall|k: int| 0 <= k < i ==> ascii_lower(#[trigger] a@[k]) == ascii_lower(b@[k]),
        decreases n - i,
    {
        if to_ascii_lower(a.get_char(i)) != to_ascii_lower(b.get_char(i)) {
            assert(ascii_lower(a@[i as int]) != ascii_lower(b@[i as int]));
            return false;
        }
        i = i + 1;
    }
    true
}

/// What one look at a session, or at an endpoint with its sessions, gave.
#[derive(Clone, Debug)]
pub enum Inspected {
    Session { info: SessionInfo },
    Unreadable { reason: String },
}

/// The active sessions of a run of looks, in their order.
pub open spec fn active_among(readings: Seq<Inspected>) -> Seq<SessionInfo>
    decreases readings.len(),
{
    if readings.len() == 0 {
        Seq::empty()
    } else {
        let before = active_among(readings.drop_last());
        match readings.last() {
            Inspected::Session { info } if info.active => before.push(info),
            _ => before,
        }
    }
}

/// The sessions that are rendering, where every look could be had. A session that could not be read
/// may be an own one on any endpoint, so that nothing is vouched for: `Err` is the reason of the
/// first look that failed.
pub fn vouched(readings: Vec<Inspected>) -> (r: Result<Vec<SessionInfo>, String>)
    ensures
        r is Ok <==> forall|k: int|
            0 <= k < readings@.len() ==> !((#[trigger] readings@[k]) is Unreadable),
        r matches Ok(active) ==> active@ == active_among(readings@),
        r matches Err(why) ==> exists|k: int|
            {
                &&& 0 <= k < readings@.len()
                &&& #[trigger] readings@[k] == (Inspected::Unreadable { reason: why })
                &&& forall|j: int| 0 <= j < k ==> !((#[trigger] readings@[j]) is Unreadable)
            },
{
    let ghost all = readings@;
    let mut rest = readings;
    let mut active: Vec<SessionInfo> = Vec::new();
    let mut i: usize = 0;
    let n: usize = rest.len();
    proof {
        assert(all.take(0) =~= Seq::<Inspected>::empty());
    }
    while i < n
        invariant
            i <= n,
            all == readings@,
            n == all.len(),
            rest@ == all.skip(i as int),
            active@ == active_among(all.take(i as int)),
            forall|k: int| 0 <= k < i ==> !((#[trigger] all[k]) is Unreadable),
        decreases n - i,
    {
        let reading = rest.remove(0);
        proof {
            assert(reading == all[i as int]);
            assert(rest@ =~= all.skip(i + 1));
            assert(all.take(i + 1).drop_last() =~= all.take(i as int));
        }
        match reading {
            Inspected::Unreadable { reason } => {
                return Err(reason);
            },
            Inspected::Session { info } => {
                if info.active {
                    active.push(info);
                }
            },
        }
        i = i + 1;
    }
    proof {
        assert(all.take(n as int) =~= all);
    }
    Ok(active)
}

/// An active session of the own tree on another endpoint than `target`.
pub open spec fn strays(target: Seq<char>, own: Seq<u32>, s: SessionInfo) -> bool {
    s.active && own.contains(s.pid) && !same_ignoring_case(s.endpoint_id@, target)
}

pub open spec fn stray_reason(s: SessionInfo) -> Seq<char> {
    "own process "@ + crate::text::decimal(s.pid as nat) + " is playing on another endpoint ("@
        + s.endpoint_id@
        + "); the process reference would inject that audio inverted, so multi-endpoint own playback is unsupported"@
}

/// `Err` for the first active session of the own tree on an endpoint other than `target_endpoint`.
/// Sessions that are not rendering are allowed.
pub fn check_own_routes(target_endpoint: &str, own: &[u32], sessions: &[SessionInfo]) -> (r: Result<(), String>)
    ensures
        r is Ok <==> forall|k: int|
            0 <= k < sessions@.len() ==> !strays(target_endpoint@, own@, #[trigger] sessions@[k]),
        r matches Err(why) ==> exists|k: int|
            {
                &&& 0 <= k < sessions@.len()
                &&& strays(target_endpoint@, own@, #[trigger] sessions@[k])
                &&& forall|j: int| 0 <= j < k ==> !strays(target_endpoint@, own@, #[trigger] sessions@[j])
                &&& why@ == stray_reason(sessions@[k])
            },
        forall|k: int, j: int|
            0 <= k < sessions@.len() && 0 <= j < own@.len() && (#[trigger] sessions@[k]).active
                && sessions@[k].pid == #[trigger] own@[j] && !same_ignoring_case(
                sessions@[k].endpoint_id@,
                target_endpoint@,
            ) ==> r is Err,
{
    let mut i: usize = 0;
    while i < sessions.len()
        invariant
            i <= sessions@.len(),
            forall|k: int| 0 <= k < i ==> !strays(target_endpoint@, own@, #[trigger] sessions@[k]),
        decreases sessions@.len() - i,
    {
        let s = &sessions[i];
        if s.active && contains(own, s.pid) && !eq_ignore_ascii_case(s.endpoint_id.as_str(), target_endpoint) {
            let mut why: String = "own process ".to_owned();
            crate::text::push_decimal(&mut why, s.pid as u64);
            why.append(" is playing on another endpoint (");
            why.append(s.endpoint_id.as_str());
            why.append(
                "); the process reference would inject that audio inverted, so multi-endpoint own playback is unsupported",
            );
            assert(strays(target_endpoint@, own@, sessions@[i as int]));
            return Err(why);
        }
        i = i + 1;
    }
    Ok(())
}

/// Two characters count as the same where they are equal, or where one is an ASCII capital and the
/// other its small letter; and two texts where they are as long as each other and the same at every
/// place.
pub proof fn only_the_case_of_ascii_letters_is_ignored(a: Seq<char>, b: Seq<char>)
    ensures
        same_ignoring_case(a, b) <==> a.len() == b.len() && forall|i: int|
            0 <= i < a.len() ==> (#[trigger] a[i] == b[i] || ('A' <= a[i] <= 'Z' && b[i] as int == a[i] as int + 32)
                || ('A' <= b[i] <= 'Z' && a[i] as int == b[i] as int + 32)),
        same_ignoring_case(a, b) <==> same_ignoring_case(b, a),
        same_ignoring_case(a, a),
{
    assert forall|i: int| 0 <= i < a.len() && a.len() == b.len() implies (ascii_lower(#[trigger] a[i]) == ascii_lower(b[i])) == (a[i] == b[i]
        || ('A' <= a[i] <= 'Z' && b[i] as int == a[i] as int + 32) || ('A' <= b[i] <= 'Z' && a[i] as int == b[i] as int + 32)) by {
        let x = a[i];
        let y = b[i];
        assert('A' <= x <= 'Z' ==> ascii_lower(x) as int == x as int + 32);
        assert('A' <= y <= 'Z' ==> ascii_lower(y) as int == y as int + 32);
    }
}

/// Whichever member of the own tree has an active session on another endpoint, the first one as much
/// as the last, strays; a session that is not active, of a process outside the tree, or on the target
/// endpoint does not.
pub proof fn every_member_of_the_tree_can_stray(target: Seq<char>, own: Seq<u32>, s: SessionInfo, j: int)
    ensures
        0 <= j < own.len() && s.active && s.pid == own[j] && s.endpoint_id@.len() != target.len() ==> strays(
            target,
            own,
            s,
        ),
        0 <= j < own.len() && s.active && s.pid == own[j] && !same_ignoring_case(s.endpoint_id@, target)
            ==> strays(target, own, s),
        !s.active ==> !strays(target, own, s),
        same_ignoring_case(s.endpoint_id@, target) ==> !strays(target, own, s),
        (forall|k: int| 0 <= k < own.len() ==> own[k] != s.pid) ==> !strays(target, own, s),
{
}

/// With the tree of a root as the own processes, the root and every child of a member stray on
/// another endpoint.
pub proof fn the_root_and_its_descendants_can_stray(
    target: Seq<char>,
    entries: Seq<(u32, u32)>,
    root: u32,
    tree: Seq<u32>,
    s: SessionInfo,
)
    requires
        forall|pid: u32| tree.contains(pid) <==> descends(entries, root, pid),
        s.active,
        !same_ignoring_case(s.endpoint_id@, target),
    ensures
        s.pid == root ==> strays(target, tree, s),
        forall|parent: u32|
            tree.contains(parent) && #[trigger] entries.contains((s.pid, parent)) && s.pid != 0 && s.pid
                != parent ==> strays(target, tree, s),
{
    assert(lineage(entries, root, seq![root]));
    assert(seq![root].last() == root);
    assert(descends(entries, root, root));
    assert forall|parent: u32|
        tree.contains(parent) && #[trigger] entries.contains((s.pid, parent)) && s.pid != 0 && s.pid
            != parent implies strays(target, tree, s) by {
        lemma_child_descends(entries, root, parent, s.pid);
    }
}

/// The tree of a root holds the root, and with a process every entry that names it as the parent, but
/// for the number zero and a process that names itself; and it is the least such set.
pub proof fn a_tree_is_closed_and_least(entries: Seq<(u32, u32)>, root: u32, members: Set<u32>)
    ensures
        descends(entries, root, root),
        forall|k: int|
            0 <= k < entries.len() && descends(entries, root, (#[trigger] entries[k]).1) && entries[k].0 != 0
                && entries[k].0 != entries[k].1 ==> descends(entries, root, entries[k].0),
        members.contains(root) && (forall|k: int|
            0 <= k < entries.len() && members.contains((#[trigger] entries[k]).1) && entries[k].0 != 0
                && entries[k].0 != entries[k].1 ==> members.contains(entries[k].0)) ==> forall|pid: u32| #[trigger]
            descends(entries, root, pid) ==> members.contains(pid),
{
    assert(lineage(entries, root, seq![root]));
    assert(seq![root].last() == root);
    assert forall|k: int|
        0 <= k < entries.len() && descends(entries, root, (#[trigger] entries[k]).1) && entries[k].0 != 0
            && entries[k].0 != entries[k].1 implies descends(entries, root, entries[k].0) by {
        assert(entries.contains((entries[k].0, entries[k].1)));
        lemma_child_descends(entries, root, entries[k].1, entries[k].0);
    }
    if members.contains(root) && (forall|k: int|
        0 <= k < entries.len() && members.contains((#[trigger] entries[k]).1) && entries[k].0 != 0
            && entries[k].0 != entries[k].1 ==> members.contains(entries[k].0)) {
        assert forall|pid: u32| #[trigger] descends(entries, root, pid) implies members.contains(pid) by {
            let path = choose|path: Seq<u32>| #[trigger] lineage(entries, root, path) && path.last() == pid;
            lemma_members_hold(members, root, entries, path, path.len() - 1);
        }
    }
}

proof fn lemma_members_hold(members: Set<u32>, root: u32, entries: Seq<(u32, u32)>, path: Seq<u32>, n: int)
    requires
        members.contains(root),
        forall|k: int|
            0 <= k < entries.len() && members.contains((#[trigger] entries[k]).1) && entries[k].0 != 0
                && entries[k].0 != entries[k].1 ==> members.contains(entries[k].0),
        lineage(entries, root, path),
        0 <= n < path.len(),
    ensures
        members.contains(path[n]),
    decreases n,
{
    if n > 0 {
        lemma_members_hold(members, root, entries, path, n - 1);
        assert(child_of(entries, path[n], path[n - 1]));
        let at = choose|at: int| 0 <= at < entries.len() && entries[at] == (path[n], path[n - 1]);
        assert(members.contains(entries[at].1));
    }
}

/// Among the active sessions of a run of looks stands each one that was seen active, and nothing else.
pub proof fn active_sessions_are_those_seen_active(readings: Seq<Inspected>)
    ensures
        forall|k: int|
            0 <= k < readings.len() ==> (#[trigger] readings[k] matches Inspected::Session { info } ==> (
            info.active ==> active_among(readings).contains(info))),
        forall|j: int|
            0 <= j < active_among(readings).len() ==> (#[trigger] active_among(readings)[j]).active
                && readings.contains((Inspected::Session { info: active_among(readings)[j] })),
    decreases readings.len(),
{
    if readings.len() > 0 {
        let before = readings.drop_last();
        let was = active_among(before);
        let now = active_among(readings);
        active_sessions_are_those_seen_active(before);
        assert forall|k: int| 0 <= k < readings.len() implies (#[trigger] readings[k] matches Inspected::Session { info } ==> (
        info.active ==> now.contains(info))) by {
            if let Inspected::Session { info } = readings[k] {
                if info.active {
                    if k < readings.len() - 1 {
                        assert(before[k] == readings[k]);
                        let at = choose|at: int| 0 <= at < was.len() && was[at] == info;
                        assert(now[at] == info);
                    } else {
                        assert(now[was.len() as int] == info);
                    }
                }
            }
        }
        assert forall|j: int| 0 <= j < now.len() implies (#[trigger] now[j]).active && readings.contains(
            (Inspected::Session { info: now[j] }),
        ) by {
            if j < was.len() {
                assert(now[j] == was[j]);
                let at = choose|at: int| 0 <= at < before.len() && before[at] == (Inspected::Session { info: was[j] });
                assert(readings[at] == before[at]);
            } else {
                assert(readings[readings.len() - 1] == (Inspected::Session { info: now[j] }));
            }
        }
    }
}

/// A stray session is reported with its process and its endpoint.
pub proof fn a_stray_is_reported_by_process_and_endpoint(s: SessionInfo)
    ensures
        stray_reason(s) == "own process "@ + crate::text::decimal(s.pid as nat)
            + " is playing on another endpoint ("@ + s.endpoint_id@
            + "); the process reference would inject that audio inverted, so multi-endpoint own playback is unsupported"@,
{
}

} // verus!
