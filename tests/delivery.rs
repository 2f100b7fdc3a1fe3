use rattomail::{
    destination_fits, drop_ops, identity_from_lookup, is_plausible_string, logfile_target,
    normalize_prog_name, op_verdict, parse_maildir_new_path, resolve_address, resolve_identity,
    AddressError, Identity, IdentityError, MessageDestination, PathError, PrivOp,
    PrivilegeError,
};

#[test]
fn plausible_addresses() {
    assert!(is_plausible_string("user@host"));
    assert!(!is_plausible_string(""));
    assert!(!is_plausible_string("a b"));
    assert!(!is_plausible_string("a\tb"));
    assert!(!is_plausible_string("caf\u{e9}"));
    assert!(!is_plausible_string("a\u{7f}"));
    assert!(is_plausible_string("!~"));
}

#[test]
fn maildir_path_validation() {
    assert_eq!(parse_maildir_new_path("/home/u/Maildir/new"), Ok("/home/u/Maildir".to_string()));
    assert_eq!(parse_maildir_new_path("/home/u/Maildir/old"), Err(PathError::MissingNewComponent));
    assert_eq!(parse_maildir_new_path("relative/Maildir/new"), Err(PathError::PathNotAbsolute));
    assert_eq!(parse_maildir_new_path("/a/new"), Err(PathError::MissingMailboxMarker));
}

#[test]
fn maildir_path_edge_cases() {
    assert_eq!(parse_maildir_new_path(""), Err(PathError::PathNotAbsolute));
    assert_eq!(parse_maildir_new_path("/"), Err(PathError::MissingNewComponent));
    assert_eq!(parse_maildir_new_path("/new"), Err(PathError::MissingMailboxMarker));
    assert_eq!(parse_maildir_new_path("/Maildir/new"), Ok("/Maildir".to_string()));
    assert_eq!(parse_maildir_new_path("/home//u/Maildir/./new/"), Ok("/home/u/Maildir".to_string()));
    assert_eq!(parse_maildir_new_path("/home/u/maildir/new"), Err(PathError::MissingMailboxMarker));
}

#[test]
fn program_names() {
    let valid = ["rattomail", "attomail", "sendmail", "send-mail"];
    assert_eq!(normalize_prog_name(&valid, "/usr/sbin/sendmail"), Some("sendmail".to_string()));
    assert_eq!(normalize_prog_name(&valid, "rattomail"), Some("rattomail".to_string()));
    assert_eq!(normalize_prog_name(&valid, "./send-mail"), Some("send-mail".to_string()));
    assert_eq!(normalize_prog_name(&valid, "/usr/bin/mail"), None);
    assert_eq!(normalize_prog_name(&valid, ""), None);
    assert_eq!(normalize_prog_name(&valid, "/usr/.."), None);
}

#[test]
fn logfile_targets() {
    assert_eq!(logfile_target("-"), Some("/dev/stdout".to_string()));
    assert_eq!(logfile_target("/dev/stderr"), Some("/dev/stderr".to_string()));
    assert_eq!(logfile_target("/tmp/log"), None);
    assert_eq!(logfile_target(""), None);
}

#[test]
fn address_resolution() {
    assert_eq!(resolve_address(Some("a@x".to_string()), Some("u".to_string())), Ok("a@x".to_string()));
    assert_eq!(resolve_address(None, Some("u".to_string())), Ok("u".to_string()));
    assert_eq!(resolve_address(None, None), Err(AddressError::NoAddress));
    assert_eq!(
        resolve_address(Some("a b".to_string()), Some("u".to_string())),
        Err(AddressError::ImplausibleAddress)
    );
}

#[test]
fn destinations() {
    assert!(destination_fits(MessageDestination::Maildir, false));
    assert!(!destination_fits(MessageDestination::Maildir, true));
    assert!(destination_fits(MessageDestination::OutputStream, true));
    assert!(!destination_fits(MessageDestination::OutputStream, false));
}

#[test]
fn identity_lookup_outcomes() {
    assert_eq!(identity_from_lookup(Err(2)), Err(IdentityError::IdentityLookupFailed));
    assert_eq!(identity_from_lookup(Ok(None)), Err(IdentityError::UnknownUser));
    assert_eq!(identity_from_lookup(Ok(Some((0, 5)))), Err(IdentityError::ForbiddenIdentity));
    assert_eq!(identity_from_lookup(Ok(Some((1000, 100)))), Ok(Identity { uid: 1000, gid: 100 }));
    assert_eq!(resolve_identity("root"), Err(IdentityError::ForbiddenIdentity));
}

#[test]
fn drop_protocol_calls() {
    assert_eq!(
        drop_ops(0, 0, 1000, 100),
        vec![
            PrivOp::SetGroups(100),
            PrivOp::SetResGid(100),
            PrivOp::SetResUid(1000),
            PrivOp::RegainGid(0),
            PrivOp::RegainUid(0),
        ]
    );
    assert_eq!(
        drop_ops(1000, 100, 1000, 100),
        vec![PrivOp::SetGroups(100), PrivOp::SetResGid(100), PrivOp::SetResUid(1000)]
    );
    assert_eq!(
        drop_ops(0, 100, 1000, 100),
        vec![PrivOp::SetGroups(100), PrivOp::SetResGid(100), PrivOp::SetResUid(1000), PrivOp::RegainUid(0)]
    );
}

#[test]
fn regain_success_is_the_fault() {
    assert_eq!(op_verdict(PrivOp::RegainUid(0), true), Some(PrivilegeError::PrivilegeReacquisitionDetected));
    assert_eq!(op_verdict(PrivOp::RegainGid(0), true), Some(PrivilegeError::PrivilegeReacquisitionDetected));
    assert_eq!(op_verdict(PrivOp::RegainUid(0), false), None);
    assert_eq!(op_verdict(PrivOp::RegainGid(0), false), None);
    assert_eq!(op_verdict(PrivOp::SetGroups(1), false), Some(PrivilegeError::GroupDropFailed));
    assert_eq!(op_verdict(PrivOp::SetResGid(1), false), Some(PrivilegeError::GroupDropFailed));
    assert_eq!(op_verdict(PrivOp::SetResUid(1), false), Some(PrivilegeError::UserDropFailed));
    assert_eq!(op_verdict(PrivOp::SetResUid(1), true), None);
}

#[test]
fn drop_to_superuser_is_refused() {
    let target = Identity { uid: 0, gid: 0 };
    assert_eq!(rattomail::drop_privileges(&target), Err(PrivilegeError::CannotDropToSuperuser));
}

#[test]
fn account_name_from_lookup() {
    assert_eq!(rattomail::account_name(Ok(Some("alice".to_string()))), Some("alice".to_string()));
    assert_eq!(rattomail::account_name(Ok(None)), None);
    assert_eq!(rattomail::account_name(Err(5)), None);
}
