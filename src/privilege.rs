//! Identity lookup and the one-way privilege drop.
use vstd::prelude::*;

use crate::maildir_path::spells;

verus! {

/// A system account that mail may be delivered as.
#[derive(Debug, Clone, Copy, PartialEq, Eq, Structural)]
pub struct Identity {
    pub uid: u32,
    pub gid: u32,
}

/// Why an account cannot be used.
#[derive(Debug, Clone, Copy, PartialEq, Eq, Structural)]
pub enum IdentityError {
    /// No account has that name.
    UnknownUser,
    /// The account database could not be read.
    IdentityLookupFailed,
    /// The account is the superuser.
    ForbiddenIdentity,
}

/// The identity for the result of an account lookup by name: `Err` when the
/// lookup itself failed, `Ok(None)` when no account matched, and otherwise
/// the account's user and group ids.
pub open spec fn identity_for(lookup: Result<Option<(u32, u32)>, i32>) -> Result<(u32, u32), IdentityError> {
    match lookup {
        Err(_) => Err(IdentityError::IdentityLookupFailed),
        Ok(None) => Err(IdentityError::UnknownUser),
        Ok(Some((uid, gid))) => if uid == 0 {
            Err(IdentityError::ForbiddenIdentity)
        } else {
            Ok((uid, gid))
        },
    }
}

/// Turns the result of an account lookup into an identity, refusing the
/// superuser.
pub fn identity_from_lookup(lookup: Result<Option<(u32, u32)>, i32>) -> (r: Result<Identity, IdentityError>)
    ensures
        r matches Ok(id) ==> identity_for(lookup) == Ok::<(u32, u32), IdentityError>((id.uid, id.gid)),
        r matches Err(e) ==> identity_for(lookup) == Err::<(u32, u32), IdentityError>(e),
{
    match lookup {
        Err(_) => Err(IdentityError::IdentityLookupFailed),
        Ok(None) => Err(IdentityError::UnknownUser),
        Ok(Some((uid, gid))) => if uid == 0 {
            Err(IdentityError::ForbiddenIdentity)
        } else {
            Ok(Identity { uid, gid })
        },
    }
}

/// Looks up the account called `name` and returns its identity; `root`
/// and any other account of the superuser are refused.
pub fn resolve_identity(name: &str) -> (r: Result<Identity, IdentityError>)
    ensures
        name@ == "root"@ ==> r == Err::<Identity, IdentityError>(IdentityError::ForbiddenIdentity),
        r matches Ok(id) ==> id.uid != 0,
{
    let n = name.unicode_len();
    assert(name@.subrange(0, n as int) =~= name@);
    if spells(name, 0, n, "root") {
        return Err(IdentityError::ForbiddenIdentity);
    }
    identity_from_lookup(user_ids_by_name(name))
}

/// Relies on nix's `User::from_name` (getpwnam_r): `Ok(None)` when no
/// account has that name, the user and group ids of the account otherwise,
/// and the errno when the lookup failed.
#[verifier::external_body]
fn user_ids_by_name(name: &str) -> (r: Result<Option<(u32, u32)>, i32>) {
    match nix::unistd::User::from_name(name) {
        Ok(found) => Ok(found.map(|u| (u.uid.as_raw(), u.gid.as_raw()))),
        Err(e) => Err(e as i32),
    }
}

/// Relies on nix's `Uid::current` (getuid): the real user id of the process.
#[verifier::external_body]
fn current_uid() -> (r: u32) {
    nix::unistd::Uid::current().as_raw()
}

/// Relies on nix's `User::from_uid` (getpwuid_r): the account's name,
/// `Ok(None)` when no account has that id, the errno when the lookup failed.
#[verifier::external_body]
fn user_name_by_uid(uid: u32) -> (r: Result<Option<String>, i32>) {
    match nix::unistd::User::from_uid(nix::unistd::Uid::from_raw(uid)) {
        Ok(found) => Ok(found.map(|u| u.name)),
        Err(e) => Err(e as i32),
    }
}

/// The account name that a lookup by user id gives: the name of the account
/// found, none when no account has that id or the lookup failed.
pub open spec fn name_from_lookup(lookup: Result<Option<String>, i32>) -> Option<Seq<char>> {
    match lookup {
        Ok(Some(name)) => Some(name@),
        _ => None,
    }
}

pub open spec fn name_view(r: Option<String>) -> Option<Seq<char>> {
    match r {
        Some(name) => Some(name@),
        None => None,
    }
}

/// Turns the result of an account lookup by user id into the account's
/// name, or `None` when the lookup failed or found no account.
pub fn account_name(lookup: Result<Option<String>, i32>) -> (r: Option<String>)
    ensures
        name_view(r) == name_from_lookup(lookup),
{
    match lookup {
        Ok(Some(name)) => Some(name),
        _ => None,
    }
}

/// The name of the account that runs the process (looked up by its real
/// user id), or `None` when it cannot be found.
pub fn get_current_user() -> (r: Option<String>)
    ensures
        exists|lookup: Result<Option<String>, i32>| name_view(r) == name_from_lookup(lookup),
{
    let lookup = user_name_by_uid(current_uid());
    let r = account_name(lookup);
    assert(name_view(r) == name_from_lookup(lookup));
    r
}

/// Why a privilege drop was abandoned.
#[derive(Debug, Clone, Copy, PartialEq, Eq, Structural)]
pub enum PrivilegeError {
    /// The target account is the superuser.
    CannotDropToSuperuser,
    /// The supplementary groups or the group ids could not be set.
    GroupDropFailed,
    /// The user ids could not be set.
    UserDropFailed,
    /// Setting an id back to its original value succeeded: privileges were
    /// not truly given up.
    PrivilegeReacquisitionDetected,
}

/// One system call of the drop protocol.
#[derive(Debug, Clone, Copy, PartialEq, Eq, Structural)]
pub enum PrivOp {
    /// Replace the supplementary groups by this group alone.
    SetGroups(u32),
    /// Set real, effective and saved group id.
    SetResGid(u32),
    /// Set real, effective and saved user id.
    SetResUid(u32),
    /// Try to set all group ids back to the original group; must fail.
    RegainGid(u32),
    /// Try to set all user ids back to the original user; must fail.
    RegainUid(u32),
}

/// The process's ids before and after a drop.
#[derive(Debug, Clone, Copy, PartialEq, Eq, Structural)]
pub struct PrivilegeState {
    pub original_uid: u32,
    pub original_gid: u32,
    pub target_uid: u32,
    pub target_gid: u32,
    pub dropped: bool,
}

/// The calls that drop from `(ou, og)` to `(tu, tg)`, in order: groups,
/// group ids, user ids, then an attempt to regain each original id that
/// differs from its target.
pub open spec fn drop_protocol(ou: u32, og: u32, tu: u32, tg: u32) -> Seq<PrivOp> {
    seq![PrivOp::SetGroups(tg), PrivOp::SetResGid(tg), PrivOp::SetResUid(tu)] + (if tg != og {
        seq![PrivOp::RegainGid(og)]
    } else {
        seq![]
    }) + (if tu != ou {
        seq![PrivOp::RegainUid(ou)]
    } else {
        seq![]
    })
}

/// What it means that call `op` succeeded or not: a failed drop step and a
/// successful attempt to regain are errors; the rest lets the protocol go on.
pub open spec fn verdict(op: PrivOp, succeeded: bool) -> Option<PrivilegeError> {
    match op {
        PrivOp::SetGroups(_) | PrivOp::SetResGid(_) => if succeeded {
            None
        } else {
            Some(PrivilegeError::GroupDropFailed)
        },
        PrivOp::SetResUid(_) => if succeeded {
            None
        } else {
            Some(PrivilegeError::UserDropFailed)
        },
        PrivOp::RegainGid(_) | PrivOp::RegainUid(_) => if succeeded {
            Some(PrivilegeError::PrivilegeReacquisitionDetected)
        } else {
            None
        },
    }
}

/// The first error among the verdicts on the calls made so far, whose
/// outcomes are `outcomes`.
pub open spec fn run_verdict(ops: Seq<PrivOp>, outcomes: Seq<bool>) -> Option<PrivilegeError>
    decreases outcomes.len(),
{
    if outcomes.len() == 0 {
        None
    } else {
        match run_verdict(ops, outcomes.drop_last()) {
            Some(e) => Some(e),
            None => verdict(ops[outcomes.len() - 1], outcomes.last()),
        }
    }
}

/// `outcomes` is a complete run of `ops`: the calls were made in order and
/// stopped at the first error, or after the last call.
pub open spec fn is_run(ops: Seq<PrivOp>, outcomes: Seq<bool>) -> bool {
    &&& outcomes.len() <= ops.len()
    &&& run_verdict(ops, outcomes) is Some || outcomes.len() == ops.len()
    &&& forall|j: int| 0 <= j < outcomes.len() ==> #[trigger] run_verdict(ops, outcomes.take(j)) is None
}

/// The result of a run of the drop protocol.
pub open spec fn drop_result(ou: u32, og: u32, tu: u32, tg: u32, outcomes: Seq<bool>) -> Result<
    PrivilegeState,
    PrivilegeError,
> {
    match run_verdict(drop_protocol(ou, og, tu, tg), outcomes) {
        Some(e) => Err(e),
        None => Ok(
            PrivilegeState {
                original_uid: ou,
                original_gid: og,
                target_uid: tu,
                target_gid: tg,
                dropped: true,
            },
        ),
    }
}

/// The calls of the drop protocol.
pub fn drop_ops(ou: u32, og: u32, tu: u32, tg: u32) -> (r: Vec<PrivOp>)
    ensures
        r@ == drop_protocol(ou, og, tu, tg),
{
    let mut r: Vec<PrivOp> = vec![PrivOp::SetGroups(tg), PrivOp::SetResGid(tg), PrivOp::SetResUid(tu)];
    if tg != og {
        r.push(PrivOp::RegainGid(og));
    }
    if tu != ou {
        r.push(PrivOp::RegainUid(ou));
    }
    assert(r@ =~= drop_protocol(ou, og, tu, tg));
    r
}

/// What the outcome of one call means for the drop; see `verdict`.
pub fn op_verdict(op: PrivOp, succeeded: bool) -> (r: Option<PrivilegeError>)
    ensures
        r == verdict(op, succeeded),
{
    match op {
        PrivOp::SetGroups(_) | PrivOp::SetResGid(_) => if succeeded {
            None
        } else {
            Some(PrivilegeError::GroupDropFailed)
        },
        PrivOp::SetResUid(_) => if succeeded {
            None
        } else {
            Some(PrivilegeError::UserDropFailed)
        },
        PrivOp::RegainGid(_) | PrivOp::RegainUid(_) => if succeeded {
            Some(PrivilegeError::PrivilegeReacquisitionDetected)
        } else {
            None
        },
    }
}

/// Relies on nix's `geteuid`: the effective user id, which never fails.
#[verifier::external_body]
fn effective_uid() -> (r: u32) {
    nix::unistd::geteuid().as_raw()
}

/// Relies on nix's `getegid`: the effective group id, which never fails.
#[verifier::external_body]
fn effective_gid() -> (r: u32) {
    nix::unistd::getegid().as_raw()
}

/// Relies on nix's `setgroups`: whether the supplementary groups were set to
/// `[gid]`.
#[verifier::external_body]
fn set_groups(gid: u32) -> (r: bool) {
    nix::unistd::setgroups(&[nix::unistd::Gid::from_raw(gid)]).is_ok()
}

/// Relies on nix's `setresgid`: whether real, effective and saved group id
/// were all set to `gid`.
#[verifier::external_body]
fn set_res_gid(gid: u32) -> (r: bool) {
    let g = nix::unistd::Gid::from_raw(gid);
    nix::unistd::setresgid(g, g, g).is_ok()
}

/// Relies on nix's `setresuid`: whether real, effective and saved user id
/// were all set to `uid`.
#[verifier::external_body]
fn set_res_uid(uid: u32) -> (r: bool) {
    let u = nix::unistd::Uid::from_raw(uid);
    nix::unistd::setresuid(u, u, u).is_ok()
}

/// Makes the system call that `op` stands for; returns whether it succeeded.
fn perform(op: PrivOp) -> (r: bool) {
    match op {
        PrivOp::SetGroups(g) => set_groups(g),
        PrivOp::SetResGid(g) | PrivOp::RegainGid(g) => set_res_gid(g),
        PrivOp::SetResUid(u) | PrivOp::RegainUid(u) => set_res_uid(u),
    }
}

/// Runs the drop protocol from the ids `(ou, og)` read before the drop to
/// `target`: supplementary groups, then group ids, then user ids; then an
/// attempt to take back each original id that differs from its target,
/// which must fail. The first failing step ends the run with its error.
pub fn run_drop_protocol(ou: u32, og: u32, target: &Identity) -> (r: Result<PrivilegeState, PrivilegeError>)
    requires
        target.uid != 0,
    ensures
        exists|outcomes: Seq<bool>|
            is_run(drop_protocol(ou, og, target.uid, target.gid), outcomes) && r == drop_result(
                ou,
                og,
                target.uid,
                target.gid,
                outcomes,
            ),
{
    let tu = target.uid;
    let tg = target.gid;
    let ops = drop_ops(ou, og, tu, tg);
    let ghost mut outcomes: Seq<bool> = seq![];
    let mut i: usize = 0;
    while i < ops.len()
        invariant
            tu == target.uid,
            tg == target.gid,
            ops@ == drop_protocol(ou, og, tu, tg),
            i <= ops@.len(),
            outcomes.len() == i,
            run_verdict(ops@, outcomes) is None,
            forall|j: int| 0 <= j < outcomes.len() ==> #[trigger] run_verdict(ops@, outcomes.take(j)) is None,
        decreases ops@.len() - i,
    {
        let op = ops[i];
        let ok = perform(op);
        let v = op_verdict(op, ok);
        proof {
            let next = outcomes.push(ok);
            assert(next.drop_last() =~= outcomes);
            assert forall|j: int| 0 <= j < next.len() implies #[trigger] run_verdict(ops@, next.take(j)) is None by {
                if j < outcomes.len() {
                    assert(next.take(j) =~= outcomes.take(j));
                } else {
                    assert(next.take(j) =~= outcomes);
                }
            }
            outcomes = next;
        }
        if let Some(e) = v {
            assert(is_run(ops@, outcomes));
            assert(Err::<PrivilegeState, PrivilegeError>(e) == drop_result(ou, og, tu, tg, outcomes));
            return Err(e);
        }
        i = i + 1;
    }
    assert(is_run(ops@, outcomes));
    assert(drop_result(ou, og, tu, tg, outcomes) is Ok);
    Ok(PrivilegeState { original_uid: ou, original_gid: og, target_uid: tu, target_gid: tg, dropped: true })
}

/// Drops the process's privileges for good to `target`, starting from the
/// process's effective ids; see `run_drop_protocol`. The superuser is
/// refused before any call is made.
pub fn drop_privileges(target: &Identity) -> (r: Result<PrivilegeState, PrivilegeError>)
    ensures
        target.uid == 0 ==> r == Err::<PrivilegeState, PrivilegeError>(
            PrivilegeError::CannotDropToSuperuser,
        ),
        target.uid != 0 ==> exists|ou: u32, og: u32, outcomes: Seq<bool>|
            is_run(drop_protocol(ou, og, target.uid, target.gid), outcomes) && r == drop_result(
                ou,
                og,
                target.uid,
                target.gid,
                outcomes,
            ),
{
    if target.uid == 0 {
        return Err(PrivilegeError::CannotDropToSuperuser);
    }
    let ou = effective_uid();
    let og = effective_gid();
    run_drop_protocol(ou, og, target)
}

pub open spec fn is_regain(op: PrivOp) -> bool {
    op is RegainGid || op is RegainUid
}

proof fn lemma_no_verdict_each(ops: Seq<PrivOp>, outcomes: Seq<bool>)
    requires
        outcomes.len() <= ops.len(),
        run_verdict(ops, outcomes) is None,
    ensures
        forall|i: int| 0 <= i < outcomes.len() ==> verdict(ops[i], #[trigger] outcomes[i]) is None,
    decreases outcomes.len(),
{
    if outcomes.len() > 0 {
        let prev = outcomes.drop_last();
        lemma_no_verdict_each(ops, prev);
        assert forall|i: int| 0 <= i < outcomes.len() implies verdict(ops[i], #[trigger] outcomes[i]) is None by {
            if i < prev.len() {
                assert(outcomes[i] == prev[i]);
            }
        }
    }
}

proof fn lemma_error_is_last(ops: Seq<PrivOp>, outcomes: Seq<bool>, i: int)
    requires
        is_run(ops, outcomes),
        0 <= i < outcomes.len(),
        verdict(ops[i], outcomes[i]) is Some,
    ensures
        i == outcomes.len() - 1,
        run_verdict(ops, outcomes) == verdict(ops[i], outcomes[i]),
{
    let pre = outcomes.take(i);
    let upto = outcomes.take(i + 1);
    assert(run_verdict(ops, pre) is None);
    assert(upto.drop_last() =~= pre);
    assert(run_verdict(ops, upto) == verdict(ops[i], outcomes[i]));
    if i + 1 < outcomes.len() {
        assert(run_verdict(ops, outcomes.take(i + 1)) is None);
    }
    assert(upto =~= outcomes);
}

/// Once the drop from `(ou, og)` to `(tu, tg)` has succeeded, every original
/// id that differs from its target was tried and could not be taken back;
/// and a successful attempt to take one back always ends the drop with
/// `PrivilegeReacquisitionDetected`, never with success or another error.
pub proof fn lemma_regain_is_fatal(ou: u32, og: u32, tu: u32, tg: u32, outcomes: Seq<bool>)
    requires
        is_run(drop_protocol(ou, og, tu, tg), outcomes),
    ensures
        drop_result(ou, og, tu, tg, outcomes) is Ok ==> outcomes.len() == drop_protocol(
            ou,
            og,
            tu,
            tg,
        ).len() && forall|i: int|
            0 <= i < outcomes.len() && is_regain(drop_protocol(ou, og, tu, tg)[i]) ==> !(
            #[trigger] outcomes[i]),
        drop_result(ou, og, tu, tg, outcomes) is Ok && tu != ou ==> exists|i: int|
            0 <= i < outcomes.len() && drop_protocol(ou, og, tu, tg)[i] == PrivOp::RegainUid(ou)
                && !(#[trigger] outcomes[i]),
        drop_result(ou, og, tu, tg, outcomes) is Ok && tg != og ==> exists|i: int|
            0 <= i < outcomes.len() && drop_protocol(ou, og, tu, tg)[i] == PrivOp::RegainGid(og)
                && !(#[trigger] outcomes[i]),
        forall|i: int|
            0 <= i < outcomes.len() && is_regain(drop_protocol(ou, og, tu, tg)[i]) && #[trigger] outcomes[i]
                ==> drop_result(ou, og, tu, tg, outcomes) == Err::<PrivilegeState, PrivilegeError>(
                PrivilegeError::PrivilegeReacquisitionDetected,
            ),
{
    let ops = drop_protocol(ou, og, tu, tg);
    if drop_result(ou, og, tu, tg, outcomes) is Ok {
        lemma_no_verdict_each(ops, outcomes);
        assert forall|i: int| 0 <= i < outcomes.len() && is_regain(ops[i]) implies !(
        #[trigger] outcomes[i]) by {
            assert(verdict(ops[i], outcomes[i]) is None);
        }
        let ig: int = 3;
        let iu: int = if tg != og { 4 } else { 3 };
        if tg != og {
            assert(ops[ig] == PrivOp::RegainGid(og));
            assert(!outcomes[ig]);
        }
        if tu != ou {
            assert(ops[iu] == PrivOp::RegainUid(ou));
            assert(!outcomes[iu]);
        }
    }
    assert forall|i: int|
        0 <= i < outcomes.len() && is_regain(ops[i]) && #[trigger] outcomes[i] implies drop_result(
        ou,
        og,
        tu,
        tg,
        outcomes,
    ) == Err::<PrivilegeState, PrivilegeError>(PrivilegeError::PrivilegeReacquisitionDetected) by {
        lemma_error_is_last(ops, outcomes, i);
    }
}

} // verus!
