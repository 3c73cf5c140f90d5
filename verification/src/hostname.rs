//! Choosing the hostname that the agent reports, from the places where
//! the system keeps it.
use vstd::prelude::*;
use vstd::string::StringExecFns;
use crate::text::{self, chars_of, decode_lossy, string_of, trim_bounds, trimmed};

verus! {

/// The text of an optional string.
pub open spec fn opt_view(o: Option<String>) -> Option<Seq<char>> {
    match o {
        Some(s) => Some(s@),
        None => None,
    }
}

/// The hostname that a hostname file holds: its content trimmed, when that
/// is not empty.
pub open spec fn file_hostname(content: Seq<char>) -> Option<Seq<char>> {
    let t = text::trim(content);
    if t.len() > 0 {
        Some(t)
    } else {
        None
    }
}

/// The hostname found in the first of two hostname files (the kernel's, then
/// `/etc/hostname`) that holds one; `None` stands for a file that could not
/// be read.
pub open spec fn files_hostname(first: Option<Seq<char>>, second: Option<Seq<char>>) -> Option<
    Seq<char>,
> {
    let from_first = match first {
        Some(c) => file_hostname(c),
        None => None,
    };
    if from_first is Some {
        from_first
    } else {
        match second {
            Some(c) => file_hostname(c),
            None => None,
        }
    }
}

/// The reported hostname: the one found on the system, else the
/// `COMPUTERNAME` variable, else the `HOSTNAME` variable, else `unknown`.
pub open spec fn chosen_hostname(
    local: Option<Seq<char>>,
    computername: Option<Seq<char>>,
    hostname_var: Option<Seq<char>>,
) -> Seq<char> {
    match local {
        Some(h) => h,
        None => match computername {
            Some(h) => h,
            None => match hostname_var {
                Some(h) => h,
                None => "unknown"@,
            },
        },
    }
}

/// The hostname held by the content of a hostname file, if any.
pub fn hostname_from_file(content: &str) -> (r: Option<String>)
    ensures
        opt_view(r) == file_hostname(content@),
        r matches Some(h) ==> h@.len() > 0 && text::trim(h@) == h@,
{
    let chars = chars_of(content);
    let (a, b) = trim_bounds(chars.as_slice(), 0, chars.len());
    assert(chars@.subrange(0, chars@.len() as int) =~= content@);
    if a < b {
        let h = string_of(chars.as_slice(), a, b);
        proof {
            text::lemma_trim_idempotent(content@);
        }
        Some(h)
    } else {
        None
    }
}

/// The hostname found in the kernel's hostname file or, failing that, in
/// `/etc/hostname` (`None` for a file that could not be read).
pub fn hostname_from_files(kernel_file: Option<&str>, etc_file: Option<&str>) -> (r: Option<
    String,
>)
    ensures
        opt_view(r) == files_hostname(
            match kernel_file {
                Some(c) => Some(c@),
                None => None,
            },
            match etc_file {
                Some(c) => Some(c@),
                None => None,
            },
        ),
{
    if let Some(c) = kernel_file {
        let h = hostname_from_file(c);
        if h.is_some() {
            return h;
        }
    }
    match etc_file {
        Some(c) => hostname_from_file(c),
        None => None,
    }
}

/// The hostname printed by the `hostname` command: its output, read as
/// UTF-8 with invalid sequences replaced, trimmed.
pub fn hostname_from_command(stdout: &[u8]) -> (r: String)
    ensures
        r@ == text::trim(text::utf8_lossy(stdout@)),
{
    let out = decode_lossy(stdout);
    trimmed(out.as_str())
}

/// Chooses the reported hostname from the one found on the system and the
/// `COMPUTERNAME` and `HOSTNAME` environment variables.
pub fn select_hostname(
    local: Option<String>,
    computername: Option<String>,
    hostname_var: Option<String>,
) -> (r: String)
    ensures
        r@ == chosen_hostname(opt_view(local), opt_view(computername), opt_view(hostname_var)),
{
    match local {
        Some(h) => h,
        None => match computername {
            Some(h) => h,
            None => match hostname_var {
                Some(h) => h,
                None => String::from_str("unknown"),
            },
        },
    }
}

/// A hostname file gives its content trimmed, exactly when that is not empty.
pub proof fn lemma_file_hostname(content: Seq<char>)
    ensures
        file_hostname(content) matches Some(h) ==> h == text::trim(content) && h.len() > 0,
        text::trim(content).len() > 0 ==> file_hostname(content) is Some,
        text::trim(content).len() == 0 ==> file_hostname(content) is None,
{
}

/// The kernel's hostname file decides whenever it holds a hostname, whatever
/// `/etc/hostname` holds or whether it could be read; otherwise
/// `/etc/hostname` decides.
pub proof fn lemma_kernel_file_decides(kernel: Option<Seq<char>>, etc: Option<Seq<char>>)
    ensures
        kernel is Some && file_hostname(kernel->0) is Some ==> files_hostname(kernel, etc)
            == file_hostname(kernel->0),
        (kernel is None || file_hostname(kernel->0) is None) ==> files_hostname(kernel, etc)
            == match etc {
            Some(e) => file_hostname(e),
            None => None,
        },
{
}

/// The hostname found on the system wins; then `COMPUTERNAME`, then
/// `HOSTNAME` (each as it stands, even empty); `unknown` only when none of
/// them is there.
pub proof fn lemma_hostname_order(
    local: Option<Seq<char>>,
    computername: Option<Seq<char>>,
    hostname_var: Option<Seq<char>>,
)
    ensures
        local matches Some(h) ==> chosen_hostname(local, computername, hostname_var) == h,
        local is None && computername is Some ==> chosen_hostname(
            local,
            computername,
            hostname_var,
        ) == computername->0,
        local is None && computername is None && hostname_var is Some ==> chosen_hostname(
            local,
            computername,
            hostname_var,
        ) == hostname_var->0,
        local is None && computername is None && hostname_var is None ==> chosen_hostname(
            local,
            computername,
            hostname_var,
        ) == "unknown"@,
{
}

} // verus!
