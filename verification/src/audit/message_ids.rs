//! The stable `MESSAGE_ID` of each event type.
//!
//! Each event type has one UUID, assigned once and never changed or reused. The journal takes it
//! without its dashes.

use crate::text::{chars_of, same};
use vstd::prelude::*;
use vstd::string::*;

verus! {

/// The registry: event type and RFC 4122 UUID.
pub const MESSAGE_IDS: [(&'static str, &'static str); 25] = [
    ("net.connect-allow", "f3f34d7d-9803-4f86-b0e0-6448ab9d2a46"),
    ("net.connect-deny", "272a449a-5530-4235-a25e-fe9db4efcf0e"),
    ("net.bind-allow", "7530d120-917e-4798-a401-04672c6e17bf"),
    ("net.bind-deny", "11ae7eb0-66e8-4172-b84d-4da9f95dc30f"),
    ("net.bind-rewrite", "e16826e6-6e04-4f1a-afaa-8747a1aaff27"),
    ("net.egress", "b9c1f4a2-3d6e-4c11-9a2f-7e0c5d8a1b34"),
    ("fs.access-deny", "31cdea3a-b4a3-4b28-a0a6-b701dc8bc9fe"),
    ("fs.scrub-hit", "43aaffc6-f93f-4444-a639-7ccf6ded44ac"),
    ("exec.allow", "0c7f429f-fd8c-45fe-85db-9d8f03b16bff"),
    ("exec.deny", "c5ea6b43-d002-4a9b-bac9-68f485dd0b4a"),
    ("unix.connect-allow", "77aa28e6-ad83-40a8-a7d0-c23aa3b7b95b"),
    ("unix.connect-deny", "990d921b-1bcf-4f80-8031-cd6a47663b7c"),
    ("dbus.call-allow", "96966399-d539-4baa-96b3-820beb95d03e"),
    ("dbus.call-deny", "c4499d84-b627-499a-9893-38580f563322"),
    ("priv.invoke", "76e3b05f-baf7-47f5-b5a9-b79c72645f4c"),
    ("priv.refuse", "1e8d2bd0-1455-4d0a-a6e0-560519bf188e"),
    ("lifecycle.kennel-start", "6a9570ea-637e-4afe-851a-797656ab5f3f"),
    ("lifecycle.kennel-exit", "c251f7c2-2a1d-4b83-9eff-80e60ca5af4e"),
    ("lifecycle.daemon-spawn", "401f4e9f-91d9-4564-8569-f704c2d69819"),
    ("lifecycle.daemon-exit", "650d50d5-033c-463e-a197-55a9e6b8d489"),
    ("lifecycle.daemon-giveup", "a25a7e30-c0b7-439b-8bb1-f3f3cc51fd27"),
    ("lifecycle.workload-exit", "8bbe34b4-409d-4042-aaf1-47b4526876f8"),
    ("lifecycle.kenneld-state-dump", "0c03a424-1d3c-4d09-8e0f-d402ea6b08be"),
    ("lifecycle.audit-drop", "e27d4ef0-0cc1-4893-a0ad-79b243f55901"),
    ("lifecycle.audit-truncate", "9bd3be2d-cdf5-447b-a783-7713fe211f4c"),
];

/// A text without its dashes.
pub open spec fn undashed(s: Seq<char>) -> Seq<char> {
    s.filter(|c: char| c != '-')
}

/// Whether `event` is registered at position `i`, and nowhere before.
pub open spec fn registered_at(event: Seq<char>, i: int) -> bool {
    &&& 0 <= i < MESSAGE_IDS@.len()
    &&& MESSAGE_IDS@[i].0@ == event
    &&& forall|j: int| 0 <= j < i ==> (#[trigger] MESSAGE_IDS@[j]).0@ != event
}

/// A text without its dashes.
fn without_dashes(s: &str) -> (out: String)
    ensures
        out@ == undashed(s@),
{
    let cs = chars_of(s);
    let mut out = String::new();
    let mut i: usize = 0;
    let ghost keep = |c: char| c != '-';
    proof {
        reveal(Seq::filter);
        assert(cs@.take(0).filter(keep) =~= seq![]);
    }
    while i < cs.len()
        invariant
            i <= cs@.len(),
            keep == (|c: char| c != '-'),
            out@ == cs@.take(i as int).filter(keep),
        decreases cs@.len() - i,
    {
        proof {
            reveal(Seq::filter);
            assert(cs@.take(i + 1).drop_last() =~= cs@.take(i as int));
        }
        if cs[i] != '-' {
            out.push(cs[i]);
        }
        i = i + 1;
    }
    assert(cs@.take(cs@.len() as int) =~= s@);
    out
}

/// The `MESSAGE_ID` of an event type: its UUID without dashes, `None` where it is not registered.
pub fn for_event(event: &str) -> (r: Option<String>)
    ensures
        match r {
            Some(id) => exists|i: int| #[trigger]
                registered_at(event@, i) && id@ == undashed(MESSAGE_IDS@[i].1@),
            None => forall|i: int| 0 <= i < MESSAGE_IDS@.len() ==> (#[trigger] MESSAGE_IDS@[i]).0@
                != event@,
        },
{
    let ids = MESSAGE_IDS;
    let mut i: usize = 0;
    while i < ids.len()
        invariant
            ids == MESSAGE_IDS,
            i <= ids@.len(),
            forall|j: int| 0 <= j < i ==> (#[trigger] MESSAGE_IDS@[j]).0@ != event@,
        decreases ids@.len() - i,
    {
        if same(ids[i].0, event) {
            assert(registered_at(event@, i as int));
            return Some(without_dashes(ids[i].1));
        }
        i = i + 1;
    }
    None
}

/// What tells an event type from the others: its length and two of its characters.
spec fn name_mark(s: Seq<char>) -> int {
    (s.len() * 256 + s[s.len() - 9] as int) * 256 + s[s.len() - 6] as int
}

/// What tells an identifier from the others: two of its characters.
spec fn id_mark(s: Seq<char>) -> int {
    (s[0] as int) * 256 + s[2] as int
}

/// The marks of the registry.
spec fn marks() -> Seq<(int, int)> {
    seq![
        (1140013, 26214),
        (1076852, 12850),
        (944429, 14131),
        (877156, 12641),
        (1074277, 25910),
        (681317, 25187),
        (942963, 13155),
        (815989, 13409),
        (686126, 12343),
        (615779, 25445),
        (1205549, 14177),
        (1142388, 14640),
        (1007917, 14649),
        (942956, 25396),
        (747881, 14181),
        (747890, 12600),
        (1469997, 13881),
        (1404524, 25397),
        (1469741, 13361),
        (1402222, 13872),
        (1535847, 24885),
        (1535076, 14434),
        (1864805, 12336),
        (1340788, 25911),
        (1584501, 14692),
    ]
}

proof fn lemma_marks(i: int)
    requires
        0 <= i < MESSAGE_IDS@.len(),
    ensures
        marks().len() == MESSAGE_IDS@.len(),
        name_mark(MESSAGE_IDS@[i].0@) == marks()[i].0,
        id_mark(MESSAGE_IDS@[i].1@) == marks()[i].1,
        MESSAGE_IDS@[i].1@.len() == 36,
        forall|k: int| 0 <= k < 3 ==> (#[trigger] MESSAGE_IDS@[i].1@[k]) != '-',
{
    reveal_strlit("net.connect-allow");
    reveal_strlit("f3f34d7d-9803-4f86-b0e0-6448ab9d2a46");
    reveal_strlit("net.connect-deny");
    reveal_strlit("272a449a-5530-4235-a25e-fe9db4efcf0e");
    reveal_strlit("net.bind-allow");
    reveal_strlit("7530d120-917e-4798-a401-04672c6e17bf");
    reveal_strlit("net.bind-deny");
    reveal_strlit("11ae7eb0-66e8-4172-b84d-4da9f95dc30f");
    reveal_strlit("net.bind-rewrite");
    reveal_strlit("e16826e6-6e04-4f1a-afaa-8747a1aaff27");
    reveal_strlit("net.egress");
    reveal_strlit("b9c1f4a2-3d6e-4c11-9a2f-7e0c5d8a1b34");
    reveal_strlit("fs.access-deny");
    reveal_strlit("31cdea3a-b4a3-4b28-a0a6-b701dc8bc9fe");
    reveal_strlit("fs.scrub-hit");
    reveal_strlit("43aaffc6-f93f-4444-a639-7ccf6ded44ac");
    reveal_strlit("exec.allow");
    reveal_strlit("0c7f429f-fd8c-45fe-85db-9d8f03b16bff");
    reveal_strlit("exec.deny");
    reveal_strlit("c5ea6b43-d002-4a9b-bac9-68f485dd0b4a");
    reveal_strlit("unix.connect-allow");
    reveal_strlit("77aa28e6-ad83-40a8-a7d0-c23aa3b7b95b");
    reveal_strlit("unix.connect-deny");
    reveal_strlit("990d921b-1bcf-4f80-8031-cd6a47663b7c");
    reveal_strlit("dbus.call-allow");
    reveal_strlit("96966399-d539-4baa-96b3-820beb95d03e");
    reveal_strlit("dbus.call-deny");
    reveal_strlit("c4499d84-b627-499a-9893-38580f563322");
    reveal_strlit("priv.invoke");
    reveal_strlit("76e3b05f-baf7-47f5-b5a9-b79c72645f4c");
    reveal_strlit("priv.refuse");
    reveal_strlit("1e8d2bd0-1455-4d0a-a6e0-560519bf188e");
    reveal_strlit("lifecycle.kennel-start");
    reveal_strlit("6a9570ea-637e-4afe-851a-797656ab5f3f");
    reveal_strlit("lifecycle.kennel-exit");
    reveal_strlit("c251f7c2-2a1d-4b83-9eff-80e60ca5af4e");
    reveal_strlit("lifecycle.daemon-spawn");
    reveal_strlit("401f4e9f-91d9-4564-8569-f704c2d69819");
    reveal_strlit("lifecycle.daemon-exit");
    reveal_strlit("650d50d5-033c-463e-a197-55a9e6b8d489");
    reveal_strlit("lifecycle.daemon-giveup");
    reveal_strlit("a25a7e30-c0b7-439b-8bb1-f3f3cc51fd27");
    reveal_strlit("lifecycle.workload-exit");
    reveal_strlit("8bbe34b4-409d-4042-aaf1-47b4526876f8");
    reveal_strlit("lifecycle.kenneld-state-dump");
    reveal_strlit("0c03a424-1d3c-4d09-8e0f-d402ea6b08be");
    reveal_strlit("lifecycle.audit-drop");
    reveal_strlit("e27d4ef0-0cc1-4893-a0ad-79b243f55901");
    reveal_strlit("lifecycle.audit-truncate");
    reveal_strlit("9bd3be2d-cdf5-447b-a783-7713fe211f4c");
}

proof fn lemma_undashed_front(s: Seq<char>)
    requires
        s.len() >= 3,
        forall|k: int| 0 <= k < 3 ==> (#[trigger] s[k]) != '-',
    ensures
        undashed(s).len() >= 3,
        undashed(s)[0] == s[0],
        undashed(s)[2] == s[2],
{
    let keep = |c: char| c != '-';
    let (a, b) = (s.take(3), s.skip(3));
    assert(s =~= a + b);
    Seq::filter_distributes_over_add(a, b, keep);
    reveal_with_fuel(Seq::filter, 4);
    assert(a.filter(keep) =~= a);
}

/// No event type is registered twice, and no two event types have the same `MESSAGE_ID`.
pub proof fn law_message_ids_are_distinct(i: int, j: int)
    requires
        0 <= i < j < MESSAGE_IDS@.len(),
    ensures
        MESSAGE_IDS@[i].0@ != MESSAGE_IDS@[j].0@,
        undashed(MESSAGE_IDS@[i].1@) != undashed(MESSAGE_IDS@[j].1@),
{
    lemma_marks(i);
    lemma_marks(j);
    lemma_undashed_front(MESSAGE_IDS@[i].1@);
    lemma_undashed_front(MESSAGE_IDS@[j].1@);
    assert(marks()[i].0 != marks()[j].0);
    assert(marks()[i].1 != marks()[j].1);
}

/// An event has the identifier that is registered for it, without its dashes, and only a registered
/// one has any.
pub proof fn law_registered_events_have_their_id(event: &str, r: Option<String>, i: int)
    requires
        call_ensures(for_event, (event,), r),
        0 <= i < MESSAGE_IDS@.len(),
        MESSAGE_IDS@[i].0@ == event@,
    ensures
        r matches Some(id) && id@ == undashed(MESSAGE_IDS@[i].1@),
        r matches Some(id) && !id@.contains('-'),
{
    if let Some(id) = r {
        let k = choose|k: int| #[trigger]
            registered_at(event@, k) && id@ == undashed(MESSAGE_IDS@[k].1@);
        if k < i {
            law_message_ids_are_distinct(k, i);
        } else if i < k {
            law_message_ids_are_distinct(i, k);
        }
        lemma_undashed(MESSAGE_IDS@[i].1@);
    } else {
        assert(MESSAGE_IDS@[i].0@ != event@);
    }
}

proof fn lemma_undashed(s: Seq<char>)
    ensures
        !undashed(s).contains('-'),
    decreases s.len(),
{
    reveal(Seq::filter);
    if s.len() > 0 {
        lemma_undashed(s.drop_last());
        let front = undashed(s.drop_last());
        let all = undashed(s);
        if all.contains('-') {
            let k = choose|k: int| 0 <= k < all.len() && all[k] == '-';
            if k < front.len() {
                assert(front[k] == '-');
            }
        }
    }
}

} // verus!
