//! The role command: which of the author's roles gets the new name.

use vstd::prelude::*;

verus! {

/// One role of the guild, as the role command sees it.
#[derive(Clone, Copy, PartialEq, Eq, Structural, Debug)]
pub struct RoleEntry {
    /// The role's id.
    pub id: u64,
    /// Its position in the guild's role list; higher ranks higher.
    pub position: i64,
    /// Whether the message's author has the role.
    pub held: bool,
}

/// The highest position seen and the role that holds it, after scanning
/// `roles` in order from the start value `(-1, default_id)`: a held role
/// replaces the current one only where its position is strictly higher.
pub open spec fn scan(roles: Seq<RoleEntry>, default_id: u64) -> (int, u64)
    decreases roles.len(),
{
    if roles.len() == 0 {
        (-1, default_id)
    } else {
        let (highest, target) = scan(roles.drop_last(), default_id);
        let r = roles.last();
        if r.held && r.position > highest {
            (r.position as int, r.id)
        } else {
            (highest, target)
        }
    }
}

/// The role to rename: the scan's choice, unless that is the default role.
pub open spec fn role_to_rename(roles: Seq<RoleEntry>, default_id: u64) -> Option<u64> {
    let target = scan(roles, default_id).1;
    if target != default_id {
        Some(target)
    } else {
        None
    }
}

/// Role `i` is held, has a position of 0 or more, no held role ranks higher,
/// and every held role before it ranks strictly lower.
pub open spec fn is_first_highest_held(roles: Seq<RoleEntry>, i: int) -> bool {
    &&& 0 <= i < roles.len()
    &&& roles[i].held
    &&& roles[i].position >= 0
    &&& forall|j: int| 0 <= j < roles.len() && (#[trigger] roles[j]).held ==> roles[j].position <= roles[i].position
    &&& forall|j: int| 0 <= j < i && (#[trigger] roles[j]).held ==> roles[j].position < roles[i].position
}

/// Chooses the role to rename among `roles`, where `default_id` is the guild's
/// first role: the held role of highest position (the first such in `roles`
/// where several share it), unless none has a position of 0 or more, or the
/// choice is the default role itself; then `None`.
pub fn choose_role(default_id: u64, roles: &Vec<RoleEntry>) -> (chosen: Option<u64>)
    ensures
        chosen == role_to_rename(roles@, default_id),
        chosen matches Some(id) ==> id != default_id && exists|i: int|
            is_first_highest_held(roles@, i) && #[trigger] roles@[i].id == id,
        chosen is None ==> forall|i: int|
            is_first_highest_held(roles@, i) ==> #[trigger] roles@[i].id == default_id,
{
    let mut highest: i64 = -1;
    let mut target: u64 = default_id;
    let mut i: usize = 0;
    while i < roles.len()
        invariant
            i <= roles.len(),
            scan(roles@.take(i as int), default_id) == (highest as int, target),
        decreases roles.len() - i,
    {
        let r = roles[i];
        assert(roles@.take(i as int) == roles@.take(i + 1).drop_last());
        if r.held && r.position > highest {
            highest = r.position;
            target = r.id;
        }
        i = i + 1;
    }
    assert(roles@.take(roles.len() as int) == roles@);
    proof {
        lemma_choice_is_first_highest(roles@, default_id);
    }
    if target != default_id {
        Some(target)
    } else {
        None
    }
}

/// At most one role is the first held role of highest position.
pub proof fn lemma_first_highest_unique(roles: Seq<RoleEntry>, a: int, b: int)
    requires
        is_first_highest_held(roles, a),
        is_first_highest_held(roles, b),
    ensures
        a == b,
{
    if a < b {
        assert(roles[a].position < roles[b].position);
        assert(roles[a].position <= roles[b].position);
        assert(roles[b].position <= roles[a].position);
    } else if b < a {
        assert(roles[b].position < roles[a].position);
        assert(roles[a].position <= roles[b].position);
    }
}

/// The role that the scan ends on, where it is not the default role, is the
/// first held role of highest position; and where the scan ends on the default
/// role, any first held role of highest position is the default role.
pub proof fn lemma_choice_is_first_highest(roles: Seq<RoleEntry>, default_id: u64)
    ensures
        scan(roles, default_id).1 != default_id ==> exists|i: int|
            is_first_highest_held(roles, i) && #[trigger] roles[i].id == scan(roles, default_id).1,
        scan(roles, default_id).1 == default_id ==> forall|i: int|
            is_first_highest_held(roles, i) ==> #[trigger] roles[i].id == default_id,
{
    lemma_scan_finds_highest(roles, default_id);
    let (h, t) = scan(roles, default_id);
    if t != default_id {
        if !(exists|j: int| 0 <= j < roles.len() && (#[trigger] roles[j]).held && roles[j].position >= 0) {
            assert forall|j: int| 0 <= j < roles.len() && (#[trigger] roles[j]).held implies roles[j].position < 0 by {}
            assert(false);
        }
        let i = choose|i: int| {
            &&& 0 <= i < roles.len()
            &&& (#[trigger] roles[i]).held
            &&& roles[i].id == t
            &&& roles[i].position == h
            &&& forall|j: int| 0 <= j < i && (#[trigger] roles[j]).held ==> roles[j].position < roles[i].position
        };
        assert(is_first_highest_held(roles, i));
    } else {
        assert forall|i: int| is_first_highest_held(roles, i) implies #[trigger] roles[i].id == default_id by {
            assert(roles[i].held && roles[i].position >= 0);
            let k = choose|k: int| {
                &&& 0 <= k < roles.len()
                &&& (#[trigger] roles[k]).held
                &&& roles[k].id == t
                &&& roles[k].position == h
                &&& forall|j: int| 0 <= j < k && (#[trigger] roles[j]).held ==> roles[j].position < roles[k].position
            };
            assert(is_first_highest_held(roles, k));
            lemma_first_highest_unique(roles, i, k);
        }
    }
}

/// The scan ends on the held role of highest position, the first of them in
/// order, where some held role has a position of 0 or more; otherwise it ends
/// where it started.
pub proof fn lemma_scan_finds_highest(roles: Seq<RoleEntry>, default_id: u64)
    ensures
        forall|j: int| 0 <= j < roles.len() && (#[trigger] roles[j]).held ==> roles[j].position <= scan(roles, default_id).0,
        (forall|j: int| 0 <= j < roles.len() && (#[trigger] roles[j]).held ==> roles[j].position < 0)
            ==> scan(roles, default_id) == (-1int, default_id),
        (exists|j: int| 0 <= j < roles.len() && (#[trigger] roles[j]).held && roles[j].position >= 0)
            ==> exists|i: int| {
                &&& 0 <= i < roles.len()
                &&& (#[trigger] roles[i]).held
                &&& roles[i].id == scan(roles, default_id).1
                &&& roles[i].position == scan(roles, default_id).0
                &&& forall|j: int| 0 <= j < i && (#[trigger] roles[j]).held ==> roles[j].position < roles[i].position
            },
    decreases roles.len(),
{
    if roles.len() > 0 {
        let prefix = roles.drop_last();
        lemma_scan_finds_highest(prefix, default_id);
        let (h, t) = scan(prefix, default_id);
        let last = roles.last();
        assert forall|j: int| 0 <= j < prefix.len() implies #[trigger] roles[j] == prefix[j] by {}
        if last.held && last.position > h {
            assert(roles[roles.len() - 1] == last);
            if forall|j: int| 0 <= j < roles.len() && (#[trigger] roles[j]).held ==> roles[j].position < 0 {
                assert(roles[roles.len() - 1].held);
                assert(false);
            }
        } else {
            if exists|j: int| 0 <= j < roles.len() && (#[trigger] roles[j]).held && roles[j].position >= 0 {
                let j = choose|j: int| 0 <= j < roles.len() && (#[trigger] roles[j]).held && roles[j].position >= 0;
                if j == roles.len() - 1 {
                    assert(last.held && last.position >= 0);
                    assert(h >= 0);
                    assert(exists|k: int| 0 <= k < prefix.len() && (#[trigger] prefix[k]).held && prefix[k].position >= 0) by {
                        if forall|k: int| 0 <= k < prefix.len() && (#[trigger] prefix[k]).held ==> prefix[k].position < 0 {
                            assert(scan(prefix, default_id) == (-1int, default_id));
                        }
                    }
                } else {
                    assert(prefix[j] == roles[j]);
                }
                let i = choose|i: int| {
                    &&& 0 <= i < prefix.len()
                    &&& (#[trigger] prefix[i]).held
                    &&& prefix[i].id == t
                    &&& prefix[i].position == h
                    &&& forall|j: int| 0 <= j < i && (#[trigger] prefix[j]).held ==> prefix[j].position < prefix[i].position
                };
                assert(roles[i] == prefix[i]);
            }
        }
    }
}

} // verus!
