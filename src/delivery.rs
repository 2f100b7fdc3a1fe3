//! The decisions of one delivery: who may invoke it, where it logs, which
//! addresses it uses, where the message goes, and what is stored.
use vstd::prelude::*;

use crate::address::{is_plausible_string, plausible};
use crate::maildir_path::{component_ranges, components, spans, spells};
use crate::message::{delivered, rfc2822_of, write_message, MessageInput, ReceivedTime};

verus! {

/// What the configuration yields.
///
/// - `mailDir` is the path of a mailbox's `new` directory.
/// - `userName` is the account whose privileges delivery runs with.
#[derive(Debug, PartialEq, Eq)]
#[allow(non_snake_case)]
pub struct Config {
    pub mailDir: String,
    pub userName: String,
}

/// Whether to drop privileges to the configured account. Production always
/// does; a test run might not.
#[derive(Debug, PartialEq, Eq, Copy, Clone, Structural)]
pub enum PrivilegeOption {
    NoDropPrivileges,
    DropPrivileges,
}

/// Whether to create the mailbox directories when they are missing.
#[derive(Debug, PartialEq, Eq, Copy, Clone, Structural)]
pub enum CreateMaildirsOption {
    NoCreateMaildirs,
    CreateMaildirs,
}

/// Where the delivered message goes: the mailbox, or an output stream for
/// inspection.
#[derive(Debug, PartialEq, Eq, Copy, Clone, Structural)]
pub enum MessageDestination {
    Maildir,
    OutputStream,
}

/// What one invocation is run with.
///
/// - `args`: the command line, program name first
/// - `config_path`: where the configuration is read from
/// - `should_drop_privs`, `should_create_maildirs`, `message_destination`:
///   see their types
/// - `received_time`: when the program was invoked; it dates the trace
///   header and, where one is missing, the `Date:` header
#[derive(Debug)]
pub struct MainContext {
    pub args: Vec<String>,
    pub config_path: String,
    pub should_drop_privs: PrivilegeOption,
    pub should_create_maildirs: CreateMaildirsOption,
    pub message_destination: MessageDestination,
    pub received_time: ReceivedTime,
}

/// Why an address was refused.
#[derive(Debug, Clone, Copy, PartialEq, Eq, Structural)]
pub enum AddressError {
    /// Neither an explicit address nor a fallback was available.
    NoAddress,
    /// The address is empty or holds a character that is not graphic ASCII.
    ImplausibleAddress,
}

/// The last component of a path, as a file name; none for a path without
/// components or one that ends in `..`.
pub open spec fn file_name_of(s: Seq<char>) -> Option<Seq<char>> {
    let cs = components(s);
    if cs.len() == 0 || cs.last() == ".."@ {
        None
    } else {
        Some(cs.last())
    }
}

/// The name the program was invoked under: the last component of
/// `prog_name`, provided that it is one of `valid_names`.
pub fn normalize_prog_name(valid_names: &[&str], prog_name: &str) -> (r: Option<String>)
    ensures
        r matches Some(n) ==> file_name_of(prog_name@) == Some(n@) && exists|k: int|
            0 <= k < valid_names@.len() && (#[trigger] valid_names@[k])@ == n@,
        r is None ==> (file_name_of(prog_name@) matches Some(n) ==> forall|k: int|
            0 <= k < valid_names@.len() ==> (#[trigger] valid_names@[k])@ != n),
{
    let ranges = component_ranges(prog_name);
    let ghost cs = components(prog_name@);
    let m = ranges.len();
    if m == 0 {
        return None;
    }
    let (a, b) = ranges[m - 1];
    assert(prog_name@.subrange(a as int, b as int) == cs.last());
    if spells(prog_name, a, b, "..") {
        return None;
    }
    let mut k: usize = 0;
    while k < valid_names.len()
        invariant
            a <= b <= prog_name@.len(),
            prog_name@.subrange(a as int, b as int) == cs.last(),
            file_name_of(prog_name@) == Some(cs.last()),
            k <= valid_names@.len(),
            forall|j: int| 0 <= j < k ==> (#[trigger] valid_names@[j])@ != cs.last(),
        decreases valid_names@.len() - k,
    {
        if spells(prog_name, a, b, valid_names[k]) {
            let name = String::from_str(prog_name.substring_char(a, b));
            return Some(name);
        }
        k = k + 1;
    }
    None
}

/// Where log output goes for a requested log file: `-` and `/dev/stderr`
/// are the only ones accepted, and `-` stands for standard output.
pub open spec fn log_target_of(path: Seq<char>) -> Option<Seq<char>> {
    if path == "-"@ {
        Some("/dev/stdout"@)
    } else if path == "/dev/stderr"@ {
        Some("/dev/stderr"@)
    } else {
        None
    }
}

/// The file that log output is written to for a requested log file, or
/// `None` when that log file is not accepted.
pub fn logfile_target(logfile_path: &str) -> (r: Option<String>)
    ensures
        r matches Some(t) ==> log_target_of(logfile_path@) == Some(t@),
        r is None ==> log_target_of(logfile_path@) is None,
{
    let n = logfile_path.unicode_len();
    assert(logfile_path@.subrange(0, n as int) =~= logfile_path@);
    if spells(logfile_path, 0, n, "-") {
        Some(String::from_str("/dev/stdout"))
    } else if spells(logfile_path, 0, n, "/dev/stderr") {
        Some(String::from_str("/dev/stderr"))
    } else {
        None
    }
}

/// The address chosen from an explicit one and a fallback: the explicit one
/// when given, else the fallback; it must be plausible.
pub open spec fn chosen_address(explicit: Option<Seq<char>>, fallback: Option<Seq<char>>) -> Result<Seq<char>, AddressError> {
    let a = if explicit is Some { explicit } else { fallback };
    match a {
        None => Err(AddressError::NoAddress),
        Some(s) => if plausible(s) {
            Ok(s)
        } else {
            Err(AddressError::ImplausibleAddress)
        },
    }
}

pub open spec fn opt_view(o: Option<String>) -> Option<Seq<char>> {
    match o {
        Some(s) => Some(s@),
        None => None,
    }
}

/// Picks the explicit address when there is one, else the fallback, and
/// refuses it unless it is plausible.
pub fn resolve_address(explicit: Option<String>, fallback: Option<String>) -> (r: Result<String, AddressError>)
    ensures
        r matches Ok(a) ==> chosen_address(opt_view(explicit), opt_view(fallback)) == Ok::<Seq<char>, AddressError>(a@),
        r matches Err(e) ==> chosen_address(opt_view(explicit), opt_view(fallback)) == Err::<Seq<char>, AddressError>(e),
{
    let a = match explicit {
        Some(s) => Some(s),
        None => fallback,
    };
    match a {
        None => Err(AddressError::NoAddress),
        Some(s) => if is_plausible_string(s.as_str()) {
            Ok(s)
        } else {
            Err(AddressError::ImplausibleAddress)
        },
    }
}

/// The envelope sender: the explicit one when given, else the account that
/// runs the process; it must be plausible.
pub fn sender_address(explicit: Option<String>) -> (r: Result<String, AddressError>)
    ensures
        explicit matches Some(s) ==> chosen_address(Some(s@), None) == match r {
            Ok(a) => Ok::<Seq<char>, AddressError>(a@),
            Err(e) => Err(e),
        },
        r matches Ok(a) ==> plausible(a@),
{
    match explicit {
        Some(s) => resolve_address(Some(s), None),
        None => resolve_address(None, crate::privilege::get_current_user()),
    }
}

/// Whether a destination fits the output at hand: the mailbox takes no
/// output stream, an output stream destination needs one.
pub fn destination_fits(dest: MessageDestination, has_output: bool) -> (r: bool)
    ensures
        r == (dest == MessageDestination::Maildir && !has_output || dest
            == MessageDestination::OutputStream && has_output),
{
    match dest {
        MessageDestination::Maildir => !has_output,
        MessageDestination::OutputStream => has_output,
    }
}

/// The delivered form of a raw message, ready to be stored: trace header,
/// the message's headers with `Date:` and `From:` filled in, the blank line,
/// and the body.
pub fn delivered_message(message: Vec<u8>, from_addr: &str, to_addr: &str, received_time: &ReceivedTime) -> (r: Vec<u8>)
    requires
        received_time.wf(),
    ensures
        r@ == delivered(
            message@,
            to_addr@,
            from_addr@,
            rfc2822_of(received_time.secs(), received_time.offset_secs()),
        ),
{
    let mut input = MessageInput::new(message);
    let mut out: Vec<u8> = Vec::new();
    write_message(&mut input, &mut out, to_addr, from_addr, received_time);
    assert(out@ =~= seq![] + out@);
    out
}

} // verus!
