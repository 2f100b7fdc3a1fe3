//! A local mail-delivery agent: it injects trace headers into a message,
//! validates where the message may go, and drops privileges before it is
//! committed to a mailbox.
use vstd::prelude::*;

pub mod address;
pub mod config;
pub mod delivery;
pub mod maildir_path;
pub mod message;
pub mod privilege;

pub use address::is_plausible_string;
pub use config::{config_from_entries, parse_config, ConfigError};
pub use delivery::{
    delivered_message, destination_fits, logfile_target, normalize_prog_name, resolve_address,
    sender_address, AddressError, Config, CreateMaildirsOption, MainContext, MessageDestination,
    PrivilegeOption,
};
pub use maildir_path::{parse_maildir_new_path, PathError};
pub use message::{
    make_received_header, process_existing_headers, write_body, write_headers, write_message,
    HeaderStatus, MessageInput, ReceivedTime,
};
pub use privilege::{
    account_name, drop_ops, drop_privileges, get_current_user, run_drop_protocol, identity_from_lookup, op_verdict,
    resolve_identity, Identity, IdentityError, PrivOp, PrivilegeError, PrivilegeState,
};
