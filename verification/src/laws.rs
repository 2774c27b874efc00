//! The session layer's cross-operation laws, proved over the same models
//! the operations' contracts use: epoch monotonicity, key-package single
//! use, the admin-subset invariant, welcome idempotence, side-effect-free
//! previews, and the protect/process round trip.

use vstd::prelude::*;
use crate::errors::Error;
use crate::keys::ID_LEN;
use crate::group::subset_seq;
use crate::messages::{WelcomeView, BodyView, WireView};
use crate::session::{
    SessionView, Session, has_group, gidx, grp, lemma_gidx, apply_change, am_err, am_state,
    rm_err, rm_state, cp_err, cp_state, pm_err, pm_state, cm_err,
    cm_wire, jw_err, jw_state, pw_err, group_of_welcome, cg_err, cg_state, refs_of, kps_of,
    all_kp_valid, distinct_ids,
};
use crate::group::distinct_seq;

verus! {

/// The core of epoch monotonicity: replacing one group by its committed
/// successor moves that group's epoch up by exactly one and leaves every
/// other group untouched.
proof fn lemma_commit_step(
    s: SessionView,
    gs2: Seq<crate::group::GroupView>,
    gid: Seq<u8>,
    adds: Seq<Seq<u8>>,
    rm: Seq<Seq<u8>>,
)
    requires
        s.swf(),
        has_group(s.groups, gid),
        grp(s.groups, gid).epoch < u64::MAX,
        gs2 == s.groups.update(gidx(s.groups, gid), apply_change(grp(s.groups, gid), adds, rm)),
    ensures
        has_group(gs2, gid),
        grp(gs2, gid).epoch == grp(s.groups, gid).epoch + 1,
        forall|id: Seq<u8>|
            id != gid ==> (#[trigger] has_group(gs2, id) <==> has_group(s.groups, id)),
        forall|id: Seq<u8>|
            id != gid && has_group(s.groups, id) ==> #[trigger] grp(gs2, id) == grp(
                s.groups,
                id,
            ),
{
    let i = gidx(s.groups, gid);
    assert(0 <= i < s.groups.len() && s.groups[i].id == gid);
    let g2 = apply_change(grp(s.groups, gid), adds, rm);
    assert(g2.id == gid);
    assert(distinct_ids(gs2)) by {
        assert forall|a: int, b: int| 0 <= a < b < gs2.len() implies gs2[a].id != gs2[b].id by {
            assert(gs2[a].id == s.groups[a].id && gs2[b].id == s.groups[b].id);
        }
    }
    lemma_gidx(gs2, gid, i);
    assert forall|id: Seq<u8>|
        id != gid implies (#[trigger] has_group(gs2, id) <==> has_group(s.groups, id)) by {
        if has_group(gs2, id) {
            let j = choose|j: int| 0 <= j < gs2.len() && gs2[j].id == id;
            assert(s.groups[j].id == id);
        }
        if has_group(s.groups, id) {
            let j = choose|j: int| 0 <= j < s.groups.len() && s.groups[j].id == id;
            assert(j != i);
            assert(gs2[j].id == id);
        }
    }
    assert forall|id: Seq<u8>|
        id != gid && has_group(s.groups, id) implies #[trigger] grp(gs2, id) == grp(
        s.groups,
        id,
    ) by {
        let j = choose|j: int| 0 <= j < s.groups.len() && s.groups[j].id == id;
        assert(j != i);
        lemma_gidx(s.groups, id, j);
        assert(gs2[j].id == id);
        lemma_gidx(gs2, id, j);
    }
}

/// Epoch monotonicity under `add_members`: a successful call advances the
/// target group's epoch by exactly one and no other group's at all.
pub proof fn lemma_add_members_epoch(s: SessionView, gid: Seq<u8>, kh: Seq<Seq<u8>>)
    requires
        s.swf(),
        s.headroom(),
        am_err(s, gid, kh) is None,
    ensures
        grp(am_state(s, gid, kh).groups, gid).epoch == grp(s.groups, gid).epoch + 1,
        forall|id: Seq<u8>|
            id != gid && has_group(s.groups, id) ==> #[trigger] grp(am_state(s, gid, kh).groups, id)
                == grp(s.groups, id),
{
    lemma_commit_step(
        s,
        am_state(s, gid, kh).groups,
        gid,
        crate::session::pks_of(kps_of(kh)),
        Seq::empty(),
    );
}

/// Epoch monotonicity under `remove_members`.
pub proof fn lemma_remove_members_epoch(s: SessionView, gid: Seq<u8>, mh: Seq<Seq<u8>>)
    requires
        s.swf(),
        s.headroom(),
        rm_err(s, gid, mh) is None,
    ensures
        grp(rm_state(s, gid, mh).groups, gid).epoch == grp(s.groups, gid).epoch + 1,
        forall|id: Seq<u8>|
            id != gid && has_group(s.groups, id) ==> #[trigger] grp(rm_state(s, gid, mh).groups, id)
                == grp(s.groups, id),
{
    lemma_commit_step(
        s,
        rm_state(s, gid, mh).groups,
        gid,
        Seq::empty(),
        crate::session::decode_pks(mh),
    );
}

/// Epoch monotonicity under `commit_proposal`.
pub proof fn lemma_commit_proposal_epoch(
    s: SessionView,
    gid: Seq<u8>,
    p: crate::messages::ProposalView,
)
    requires
        s.swf(),
        s.headroom(),
        cp_err(s, gid, p) is None,
    ensures
        grp(cp_state(s, gid, p).groups, gid).epoch == grp(s.groups, gid).epoch + 1,
        forall|id: Seq<u8>|
            id != gid && has_group(s.groups, id) ==> #[trigger] grp(cp_state(s, gid, p).groups, id)
                == grp(s.groups, id),
{
    lemma_commit_step(
        s,
        cp_state(s, gid, p).groups,
        gid,
        crate::session::pks_of(p.add_packages),
        p.removes,
    );
}

/// Epoch monotonicity under `process_message_for_group`: a processed
/// commit advances its group's epoch by exactly one; an application
/// message advances nothing.
pub proof fn lemma_process_message_epoch(s: SessionView, w: WireView)
    requires
        s.swf(),
        s.headroom(),
        pm_err(s, w) is None,
    ensures
        w.body is Membership ==> grp(pm_state(s, w).groups, w.group_id).epoch == grp(
            s.groups,
            w.group_id,
        ).epoch + 1,
        w.body is Application ==> pm_state(s, w) == s,
        forall|id: Seq<u8>|
            id != w.group_id && has_group(s.groups, id) ==> #[trigger] grp(
                pm_state(s, w).groups,
                id,
            ) == grp(s.groups, id),
{
    match w.body {
        BodyView::Membership(c) => {
            lemma_commit_step(s, pm_state(s, w).groups, w.group_id, c.adds, c.removes);
        },
        BodyView::Application(_) => {
        },
    }
}

/// Recording a new group, by creation or by joining from a welcome,
/// leaves every existing group's record — its epoch included — exactly
/// as it was.
proof fn lemma_push_preserves_groups(gs: Seq<crate::group::GroupView>, g: crate::group::GroupView)
    requires
        distinct_ids(gs),
        !has_group(gs, g.id),
    ensures
        forall|id: Seq<u8>| #[trigger] has_group(gs, id) ==> has_group(gs.push(g), id),
        forall|id: Seq<u8>|
            has_group(gs, id) ==> #[trigger] grp(gs.push(g), id) == grp(gs, id),
{
    let gs2 = gs.push(g);
    assert(distinct_ids(gs2)) by {
        assert forall|a: int, b: int| 0 <= a < b < gs2.len() implies gs2[a].id != gs2[b].id by {
            if b == gs2.len() - 1 {
                assert(gs2[a] == gs[a]);
                if gs[a].id == g.id {
                    assert(has_group(gs, g.id));
                }
            }
        }
    }
    assert forall|id: Seq<u8>| #[trigger] has_group(gs, id) implies has_group(
        gs.push(g),
        id,
    ) && grp(gs.push(g), id) == grp(gs, id) by {
        let j = choose|j: int| 0 <= j < gs.len() && gs[j].id == id;
        lemma_gidx(gs, id, j);
        assert(gs2[j] == gs[j]);
        assert(gs2[j].id == id);
        lemma_gidx(gs2, id, j);
        assert(grp(gs2, id) == gs[j]);
        assert(grp(gs, id) == gs[j]);
    }
}

/// A successful group creation touches no existing group.
pub proof fn lemma_create_group_preserves_groups(
    s: SessionView,
    nm: Seq<char>,
    dc: Seq<char>,
    ch: Seq<u8>,
    mh: Seq<Seq<u8>>,
    kh: Seq<Seq<u8>>,
    ah: Seq<Seq<u8>>,
    rl: Seq<Seq<char>>,
)
    requires
        s.swf(),
        cg_err(s, ch, mh, kh, ah, rl) is None,
    ensures
        forall|id: Seq<u8>|
            has_group(s.groups, id) ==> #[trigger] grp(
                cg_state(s, nm, dc, ch, mh, kh, ah, rl).groups,
                id,
            ) == grp(s.groups, id),
{
    lemma_push_preserves_groups(s.groups, crate::session::cg_group(s, nm, dc, ch, mh, ah, rl));
}

/// A successful join touches no existing group.
pub proof fn lemma_join_preserves_groups(s: SessionView, wid: Seq<u8>, w: WelcomeView)
    requires
        s.swf(),
        jw_err(s, wid, w) is None,
    ensures
        forall|id: Seq<u8>|
            has_group(s.groups, id) ==> #[trigger] grp(jw_state(s, wid, w).groups, id) == grp(
                s.groups,
                id,
            ),
{
    if !has_group(s.groups, w.group_id) {
        lemma_push_preserves_groups(s.groups, group_of_welcome(w));
    }
}

/// Group creation records every supplied key-package reference as
/// consumed.
pub proof fn lemma_create_group_consumes(
    s: SessionView,
    nm: Seq<char>,
    dc: Seq<char>,
    ch: Seq<u8>,
    mh: Seq<Seq<u8>>,
    kh: Seq<Seq<u8>>,
    ah: Seq<Seq<u8>>,
    rl: Seq<Seq<char>>,
    i: int,
)
    requires
        cg_err(s, ch, mh, kh, ah, rl) is None,
        0 <= i < kh.len(),
    ensures
        cg_state(s, nm, dc, ch, mh, kh, ah, rl).consumed.contains(refs_of(kps_of(kh))[i]),
{
    let s2 = cg_state(s, nm, dc, ch, mh, kh, ah, rl);
    assert(s2.consumed[s.consumed.len() + i] == refs_of(kps_of(kh))[i]);
}

/// Adding members records every supplied key-package reference as
/// consumed.
pub proof fn lemma_add_members_consumes(s: SessionView, gid: Seq<u8>, kh: Seq<Seq<u8>>, i: int)
    requires
        am_err(s, gid, kh) is None,
        0 <= i < kh.len(),
    ensures
        am_state(s, gid, kh).consumed.contains(refs_of(kps_of(kh))[i]),
{
    let s2 = am_state(s, gid, kh);
    assert(s2.consumed[s.consumed.len() + i] == refs_of(kps_of(kh))[i]);
}

/// Key-package single use: once a reference is on the consumed record, an
/// admission naming it always fails — and fails with `InvalidKeyPackage`
/// whenever the call is otherwise acceptable.
pub proof fn lemma_consumed_ref_rejected(s: SessionView, gid: Seq<u8>, kh: Seq<Seq<u8>>, j: int)
    requires
        0 <= j < kh.len(),
        s.consumed.contains(refs_of(kps_of(kh))[j]),
    ensures
        am_err(s, gid, kh) is Some,
        (gid.len() == ID_LEN && has_group(s.groups, gid)) ==> am_err(s, gid, kh) == Some(
            Error::InvalidKeyPackage,
        ),
{
    if gid.len() == ID_LEN && has_group(s.groups, gid) {
        if all_kp_valid(s.ciphersuite, s.extensions, kh) && distinct_seq(refs_of(kps_of(kh))) {
            assert(crate::session::any_consumed(s, refs_of(kps_of(kh))));
        }
    }
}

/// The admin subset invariant: in a well-formed session, every group's
/// admins are members of that group. Every operation's contract keeps the
/// session well formed, so this holds at every reachable state.
pub proof fn lemma_admins_are_members(s: SessionView, gid: Seq<u8>)
    requires
        s.swf(),
        has_group(s.groups, gid),
    ensures
        subset_seq(grp(s.groups, gid).admins, grp(s.groups, gid).members),
{
    let i = gidx(s.groups, gid);
    assert(s.groups[i].wf());
}

/// Welcome idempotence: after a successful join, joining again with the
/// same welcome succeeds and changes nothing — the same group state is
/// returned and no second record is created.
pub proof fn lemma_join_idempotent(s: SessionView, wid: Seq<u8>, w: WelcomeView)
    requires
        s.swf(),
        jw_err(s, wid, w) is None,
    ensures
        jw_err(jw_state(s, wid, w), wid, w) is None,
        jw_state(jw_state(s, wid, w), wid, w) == jw_state(s, wid, w),
        has_group(jw_state(s, wid, w).groups, w.group_id),
        grp(jw_state(s, wid, w).groups, w.group_id) == group_of_welcome(w),
{
    let s2 = jw_state(s, wid, w);
    if has_group(s.groups, w.group_id) {
        assert(s2 == s);
        assert(grp(s.groups, w.group_id) == group_of_welcome(w));
    } else {
        let n = s.groups.len() as int;
        assert(s2.groups == s.groups.push(group_of_welcome(w)));
        assert(s2.groups[n].id == w.group_id);
        assert(distinct_ids(s2.groups)) by {
            assert forall|a: int, b: int|
                0 <= a < b < s2.groups.len() implies s2.groups[a].id != s2.groups[b].id by {
                if b == n {
                    assert(s2.groups[a] == s.groups[a]);
                }
            }
        }
        lemma_gidx(s2.groups, w.group_id, n);
        assert(s2.owned == s.owned);
        assert(pw_err(s2, wid, w) is None);
    }
}

/// Previews are side-effect free: `preview_welcome` borrows the session
/// immutably, so no state can change; consequently a group only previewed
/// and never joined is still unknown, and `get_group` reports
/// `GroupNotFound` for it.
pub proof fn lemma_preview_leaves_group_unknown(s: SessionView, w: WelcomeView)
    requires
        w.group_id.len() == ID_LEN,
        !has_group(s.groups, w.group_id),
    ensures
        !Session::lookup_ok(s, w.group_id),
        Session::lookup_err(s, w.group_id) == Error::GroupNotFound,
{
}

/// Round trip: a message protected by a current member at the group's
/// current epoch is accepted by `process_message_for_group` on the same
/// state, yields exactly the original payload (by that operation's
/// contract), and changes nothing.
pub proof fn lemma_protect_process_round_trip(s: SessionView, gid: Seq<u8>, p: Seq<u8>)
    requires
        s.swf(),
        cm_err(s, gid) is None,
    ensures
        pm_err(s, cm_wire(s, gid, p)) is None,
        pm_state(s, cm_wire(s, gid, p)) == s,
        cm_wire(s, gid, p).body == BodyView::Application(p),
{
}

/// A non-member cannot decrypt: processing any message for a group the
/// session's identity has been removed from (or never joined as a member)
/// fails with `NotAMember` once the epoch matches.
pub proof fn lemma_nonmember_cannot_process(s: SessionView, w: WireView)
    requires
        has_group(s.groups, w.group_id),
        w.epoch == grp(s.groups, w.group_id).epoch,
        !grp(s.groups, w.group_id).members.contains(s.identity),
    ensures
        pm_err(s, w) == Some(Error::NotAMember),
{
}

/// Exported secrets are epoch-fresh: two different epochs of one group
/// never export the same secret, so a value cached across an epoch
/// transition is stale.
pub proof fn lemma_export_secret_epoch_fresh(base: Seq<u8>, e1: u64, e2: u64)
    requires
        base.len() >= 8,
        e1 != e2,
    ensures
        crate::group::mix_secret(base, e1) != crate::group::mix_secret(base, e2),
{
    assert(exists|j: int| 0 <= j < 8 && crate::group::u64_byte(e1, j) != crate::group::u64_byte(
        e2,
        j,
    )) by {
        if forall|j: int|
            0 <= j < 8 ==> #[trigger] crate::group::u64_byte(e1, j) == crate::group::u64_byte(
                e2,
                j,
            ) {
            assert(crate::group::u64_byte(e1, 0) == crate::group::u64_byte(e2, 0));
            assert(crate::group::u64_byte(e1, 1) == crate::group::u64_byte(e2, 1));
            assert(crate::group::u64_byte(e1, 2) == crate::group::u64_byte(e2, 2));
            assert(crate::group::u64_byte(e1, 3) == crate::group::u64_byte(e2, 3));
            assert(crate::group::u64_byte(e1, 4) == crate::group::u64_byte(e2, 4));
            assert(crate::group::u64_byte(e1, 5) == crate::group::u64_byte(e2, 5));
            assert(crate::group::u64_byte(e1, 6) == crate::group::u64_byte(e2, 6));
            assert(crate::group::u64_byte(e1, 7) == crate::group::u64_byte(e2, 7));
            assert(e1 == e2) by (bit_vector)
                requires
                    (e1 >> 0) as u8 == (e2 >> 0) as u8,
                    (e1 >> 8) as u8 == (e2 >> 8) as u8,
                    (e1 >> 16) as u8 == (e2 >> 16) as u8,
                    (e1 >> 24) as u8 == (e2 >> 24) as u8,
                    (e1 >> 32) as u8 == (e2 >> 32) as u8,
                    (e1 >> 40) as u8 == (e2 >> 40) as u8,
                    (e1 >> 48) as u8 == (e2 >> 48) as u8,
                    (e1 >> 56) as u8 == (e2 >> 56) as u8,
            ;
            assert(false);
        }
    }
    let j = choose|j: int|
        0 <= j < 8 && crate::group::u64_byte(e1, j) != crate::group::u64_byte(e2, j);
    let b = base[j];
    let v1 = crate::group::u64_byte(e1, j);
    let v2 = crate::group::u64_byte(e2, j);
    assert(b ^ v1 != b ^ v2) by (bit_vector)
        requires
            v1 != v2,
    ;
    assert(j % 8 == j);
    assert(crate::group::mix_secret(base, e1)[j] != crate::group::mix_secret(base, e2)[j]);
}

/// A message from a superseded or future epoch is rejected as
/// `EpochMismatch`, never silently dropped: after a commit advances the
/// group, a message protected at the old epoch no longer processes.
pub proof fn lemma_stale_epoch_rejected(s: SessionView, w: WireView)
    requires
        has_group(s.groups, w.group_id),
        w.epoch != grp(s.groups, w.group_id).epoch,
    ensures
        pm_err(s, w) == Some(Error::EpochMismatch),
{
}

} // verus!
