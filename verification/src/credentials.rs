//! The credential-negotiation state machine.
//!
//! When a clone needs authentication, the transport asks for one credential
//! per attempt. The resolver is a pure function of the attempt number, of
//! whether the transport accepts a plain user/password credential, and of the
//! key candidates that were enumerated up front: first a default credential
//! where plain user/password is acceptable, then the SSH agent on the first
//! attempt, then the key candidates in turn, and — whatever else holds — a
//! hard stop after `MAX_ATTEMPTS` attempts, so that a transport that keeps
//! asking can never loop forever.

use vstd::prelude::*;
use vstd::string::StrSliceExecFns;
use vstd::string::StringExecFns;

use crate::text::spec_starts_with;
use crate::text::starts_with;

verus! {

/// The hard cap on authentication attempts for one clone.
pub const MAX_ATTEMPTS: u64 = 6;

/// One SSH key candidate: the private key path, and the public key path where
/// a sibling was found.
#[derive(Debug, Clone)]
pub struct KeyCandidate {
    /// Path of the private key file.
    pub key_path: String,
    /// Path of the matching public key file, if any.
    pub pub_key_path: Option<String>,
}

/// What to offer the transport for one attempt.
#[derive(Debug, Clone, Copy, PartialEq, Eq, Structural)]
pub enum CredentialChoice {
    /// A default, anonymous credential (plain user/password transport).
    UserPassDefault,
    /// A credential taken from the running SSH agent.
    SshAgent,
    /// The key pair at this position of the candidate list.
    SshKey(usize),
    /// Nothing left to offer: stop, so the transport gives up.
    Exhausted,
}

/// The resolver policy, first match wins: a hard stop from attempt
/// `MAX_ATTEMPTS` on; a default credential where plain user/password is
/// acceptable; the SSH agent on attempt 0; then candidate
/// `(attempt - 1) mod n`, or a stop when no candidate exists.
pub open spec fn spec_resolve(attempt: u64, allow_user_pass: bool, n: nat) -> CredentialChoice {
    if attempt >= MAX_ATTEMPTS {
        CredentialChoice::Exhausted
    } else if allow_user_pass {
        CredentialChoice::UserPassDefault
    } else if attempt == 0 {
        CredentialChoice::SshAgent
    } else if n == 0 {
        CredentialChoice::Exhausted
    } else {
        CredentialChoice::SshKey((((attempt - 1) as int % n as int) as usize))
    }
}

/// Picks the credential to try on attempt `attempt`, against a candidate list
/// of `candidate_count` keys.
pub fn resolve(attempt: u64, allow_user_pass: bool, candidate_count: usize) -> (r:
    CredentialChoice)
    ensures
        r == spec_resolve(attempt, allow_user_pass, candidate_count as nat),
        r matches CredentialChoice::SshKey(i) ==> i < candidate_count,
{
    if attempt >= MAX_ATTEMPTS {
        CredentialChoice::Exhausted
    } else if allow_user_pass {
        CredentialChoice::UserPassDefault
    } else if attempt == 0 {
        CredentialChoice::SshAgent
    } else if candidate_count == 0 {
        CredentialChoice::Exhausted
    } else {
        CredentialChoice::SshKey(((attempt - 1) % (candidate_count as u64)) as usize)
    }
}

/// Law: the resolver terminates. From attempt `MAX_ATTEMPTS` on the answer is
/// `Exhausted` whatever the transport allows and however many candidates
/// exist; and with no candidates and no plain user/password mode, every
/// attempt after the single agent attempt is `Exhausted` too.
pub proof fn lemma_resolver_termination(attempt: u64, allow_user_pass: bool, n: nat)
    ensures
        attempt >= MAX_ATTEMPTS ==> spec_resolve(attempt, allow_user_pass, n)
            == CredentialChoice::Exhausted,
        n == 0 && !allow_user_pass && attempt >= 1 ==> spec_resolve(attempt, allow_user_pass, n)
            == CredentialChoice::Exhausted,
{
}

/// Where the username of `url` ends: the first `@` or `:` at or after
/// position `i`, or the end of `url`.
pub open spec fn scan_name_end(url: Seq<char>, i: int) -> int
    decreases url.len() - i,
{
    if i < 0 || i >= url.len() {
        url.len() as int
    } else if url[i] == '@' || url[i] == ':' {
        i
    } else {
        scan_name_end(url, i + 1)
    }
}

/// The username the transport should authenticate as, read off the URL: for an
/// SSH-style `git@host:path` URL, the run after the leading `git@` up to the
/// next `@` or `:`; for anything else, `git`.
pub open spec fn spec_infer_username(url: Seq<char>) -> Seq<char> {
    if !spec_starts_with(url, "git@"@) {
        "git"@
    } else {
        url.subrange(4, scan_name_end(url, 4))
    }
}

/// Reads the username to authenticate as off `url`.
pub fn infer_username(url: &str) -> (r: String)
    ensures
        r@ == spec_infer_username(url@),
{
    if !starts_with(url, "git@") {
        return String::from_str("git");
    }
    let n: usize = url.unicode_len();
    proof {
        reveal_strlit("git@");
        assert("git@"@.len() == 4);
    }
    let mut i: usize = 4;
    while i < n
        invariant
            4 <= i <= n,
            n == url@.len(),
            spec_starts_with(url@, "git@"@),
            scan_name_end(url@, 4) == scan_name_end(url@, i as int),
        decreases n - i,
    {
        let c = url.get_char(i);
        if c == '@' || c == ':' {
            assert(scan_name_end(url@, i as int) == i);
            let sub = url.substring_char(4, i);
            return String::from_str(sub);
        }
        i = i + 1;
    }
    assert(scan_name_end(url@, n as int) == n);
    let sub = url.substring_char(4, n);
    String::from_str(sub)
}

} // verus!
