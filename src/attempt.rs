//! One authentication attempt as a state machine: load the allowlist, make a
//! challenge, reach the agent, then challenge each allowlisted identity in turn
//! until one proves possession of its key. The caller performs each `Step`
//! (file, agent and signature work) and hands the outcome back as an `Event`.
use vstd::prelude::*;

use crate::keys::{file_ok, file_records, parse_key_file, KeyEntry};
use crate::nonce::{generate_nonce, NONCE_LEN};
use crate::AuthError;

verus! {

/// What became of one identity that the agent offered.
#[derive(Debug, Clone, Copy, PartialEq, Eq, Structural)]
pub enum IdentityOutcome {
    /// Not in the allowlist: never asked to sign.
    Skipped,
    /// The agent did not sign with it.
    SignFailed,
    /// Its signature did not verify.
    VerifyFailed,
    /// Its signature verified.
    Verified,
}

/// Where an attempt stands.
#[derive(Debug, Clone, Copy)]
pub enum Phase {
    AwaitKeyFile,
    AwaitKeyCheck,
    AwaitConnection,
    AwaitIdentities,
    AwaitSignature,
    AwaitVerification,
    Decided(Result<bool, AuthError>),
}

/// What the caller is to do next.
#[derive(Debug, Clone, Copy, PartialEq, Eq)]
pub enum Step {
    /// Read the file at `path`, line by line.
    ReadKeyFile,
    /// Check that the key material of every entry of `allowed` is a key of
    /// a supported algorithm.
    CheckKeys,
    /// Connect to the agent.
    Connect,
    /// Ask the agent for its identities.
    ListIdentities,
    /// Ask the agent to sign `nonce` with the identity of this index.
    RequestSignature(usize),
    /// Verify `signature` over `nonce` with the identity of this index.
    CheckSignature(usize),
    /// The attempt is over: accepted, denied, or failed.
    Done(Result<bool, AuthError>),
}

/// What came of the last step.
#[derive(Debug)]
pub enum Event {
    /// The lines of the key file, or `None` where it could not be read.
    KeyFileRead(Option<Vec<Vec<u8>>>),
    /// For each entry of `allowed`, whether its key material was accepted.
    KeysChecked(Vec<bool>),
    /// Whether the agent could be reached.
    AgentConnected(bool),
    /// The wire encodings of the agent's identities, in the agent's order,
    /// or `None` where the agent did not list them.
    IdentitiesListed(Option<Vec<Vec<u8>>>),
    /// The signature that the agent returned, or `None` where it refused.
    SignatureReceived(Option<Vec<u8>>),
    /// Whether the signature verified.
    SignatureChecked(bool),
}

/// Whether the allowlist holds a key with exactly these encoded bytes.
pub open spec fn key_allowed(allowed: Seq<KeyEntry>, blob: Seq<u8>) -> bool {
    exists|j: int| 0 <= j < allowed.len() && (#[trigger] allowed[j]).blob@ == blob
}

/// `c` is the first identity at or after `from` that the allowlist holds, or
/// the end where none is.
pub open spec fn first_allowed_from(
    allowed: Seq<KeyEntry>,
    ids: Seq<Vec<u8>>,
    from: int,
    c: int,
) -> bool {
    &&& from <= c <= ids.len()
    &&& c < ids.len() ==> key_allowed(allowed, ids[c]@)
    &&& forall|k: int| from <= k < c ==> !key_allowed(allowed, #[trigger] ids[k]@)
}

/// The state of one attempt.
pub struct Attempt {
    pub phase: Phase,
    /// The authorized-keys file.
    pub path: String,
    /// The allowlist, once loaded.
    pub allowed: Vec<KeyEntry>,
    /// The challenge, once made.
    pub nonce: Vec<u8>,
    /// The agent's identities, once listed.
    pub identities: Vec<Vec<u8>>,
    /// The identity being challenged.
    pub current: usize,
    /// The signature awaiting verification.
    pub signature: Vec<u8>,
    /// The outcome of each identity dealt with so far, in order.
    pub outcomes: Vec<IdentityOutcome>,
}

impl Attempt {
    /// The step that the caller is to perform in this state.
    pub open spec fn spec_step(&self) -> Step {
        match self.phase {
            Phase::AwaitKeyFile => Step::ReadKeyFile,
            Phase::AwaitKeyCheck => Step::CheckKeys,
            Phase::AwaitConnection => Step::Connect,
            Phase::AwaitIdentities => Step::ListIdentities,
            Phase::AwaitSignature => Step::RequestSignature(self.current),
            Phase::AwaitVerification => Step::CheckSignature(self.current),
            Phase::Decided(res) => Step::Done(res),
        }
    }

    pub open spec fn is_decided(&self) -> bool {
        self.phase is Decided
    }

    /// The invariant of an attempt.
    pub open spec fn wf(&self) -> bool {
        let ids = self.identities@;
        let out = self.outcomes@;
        &&& out.len() <= ids.len()
        &&& forall|k: int|
            0 <= k < out.len() ==> ((#[trigger] out[k] == IdentityOutcome::Skipped) <==> !key_allowed(
                self.allowed@,
                ids[k]@,
            ))
        &&& forall|k: int|
            0 <= k < out.len() && #[trigger] out[k] == IdentityOutcome::Verified ==> k == out.len()
                - 1 && self.phase == Phase::Decided(Ok(true))
        &&& match self.phase {
            Phase::AwaitKeyFile | Phase::AwaitKeyCheck => ids.len() == 0,
            Phase::AwaitConnection | Phase::AwaitIdentities => ids.len() == 0 && self.nonce@.len()
                == NONCE_LEN,
            Phase::AwaitSignature | Phase::AwaitVerification => {
                &&& self.nonce@.len() == NONCE_LEN
                &&& self.current == out.len()
                &&& self.current < ids.len()
                &&& key_allowed(self.allowed@, ids[self.current as int]@)
            },
            Phase::Decided(Ok(true)) => out.len() >= 1 && out.last() == IdentityOutcome::Verified,
            Phase::Decided(Ok(false)) => out.len() == ids.len(),
            Phase::Decided(Err(_)) => out.len() == 0,
        }
    }

    /// `self` went on from the outcomes `done`: the identities after them
    /// that the allowlist does not hold were skipped, up to the next one that
    /// it holds, which is now challenged; where none is left, the attempt is
    /// denied.
    pub open spec fn advanced_from(&self, done: Seq<IdentityOutcome>) -> bool {
        let from = done.len() as int;
        let c = self.outcomes@.len() as int;
        &&& first_allowed_from(self.allowed@, self.identities@, from, c)
        &&& self.outcomes@ == done + Seq::new((c - from) as nat, |k: int| IdentityOutcome::Skipped)
        &&& c < self.identities@.len() ==> self.phase == Phase::AwaitSignature
        &&& c == self.identities@.len() ==> self.phase == Phase::Decided(Ok(false))
    }

    /// `self` is what `before` becomes on `event`.
    pub open spec fn follows(&self, before: Attempt, event: Event) -> bool {
        let keep_keys = self.allowed == before.allowed && self.nonce == before.nonce;
        let keep_ids = keep_keys && self.identities == before.identities;
        match (before.phase, event) {
            (Phase::AwaitKeyFile, Event::KeyFileRead(None)) => self.phase == Phase::Decided(
                Err(AuthError::KeyFile),
            ),
            (Phase::AwaitKeyFile, Event::KeyFileRead(Some(lines))) => {
                let text = lines@.map_values(|l: Vec<u8>| l@);
                if file_ok(text) {
                    &&& self.phase == Phase::AwaitKeyCheck
                    &&& self.allowed@.map_values(|e: KeyEntry| e@) == file_records(text)
                } else {
                    self.phase == Phase::Decided(Err(AuthError::KeyFile))
                }
            },
            (Phase::AwaitKeyCheck, Event::KeysChecked(accepted)) => {
                if accepted@.len() == before.allowed@.len() && forall|j: int|
                    0 <= j < accepted@.len() ==> #[trigger] accepted@[j] {
                    &&& self.phase == Phase::AwaitConnection
                    &&& self.allowed == before.allowed
                    &&& self.nonce@.len() == NONCE_LEN
                } else {
                    self.phase == Phase::Decided(Err(AuthError::KeyFile))
                }
            },
            (Phase::AwaitConnection, Event::AgentConnected(up)) => {
                if up {
                    self.phase == Phase::AwaitIdentities && keep_keys
                } else {
                    self.phase == Phase::Decided(Err(AuthError::AgentConnection))
                }
            },
            (Phase::AwaitIdentities, Event::IdentitiesListed(None)) => self.phase
                == Phase::Decided(Err(AuthError::AgentConnection)),
            (Phase::AwaitIdentities, Event::IdentitiesListed(Some(ids))) => {
                &&& keep_keys
                &&& self.identities@ == ids@
                &&& self.advanced_from(Seq::empty())
            },
            (Phase::AwaitSignature, Event::SignatureReceived(None)) => {
                &&& keep_ids
                &&& self.advanced_from(before.outcomes@.push(IdentityOutcome::SignFailed))
            },
            (Phase::AwaitSignature, Event::SignatureReceived(Some(sig))) => {
                &&& keep_ids
                &&& self.phase == Phase::AwaitVerification
                &&& self.current == before.current
                &&& self.outcomes == before.outcomes
                &&& self.signature@ == sig@
            },
            (Phase::AwaitVerification, Event::SignatureChecked(true)) => {
                &&& keep_ids
                &&& self.phase == Phase::Decided(Ok(true))
                &&& self.outcomes@ == before.outcomes@.push(IdentityOutcome::Verified)
            },
            (Phase::AwaitVerification, Event::SignatureChecked(false)) => {
                &&& keep_ids
                &&& self.advanced_from(before.outcomes@.push(IdentityOutcome::VerifyFailed))
            },
            _ => *self == before,
        }
    }
}

fn same_bytes(a: &Vec<u8>, b: &Vec<u8>) -> (r: bool)
    ensures
        r == (a@ == b@),
{
    if a.len() != b.len() {
        return false;
    }
    let mut i: usize = 0;
    while i < a.len()
        invariant
            a@.len() == b@.len(),
            i <= a@.len(),
            forall|k: int| 0 <= k < i ==> a@[k] == b@[k],
        decreases a@.len() - i,
    {
        if a[i] != b[i] {
            return false;
        }
        i = i + 1;
    }
    assert(a@ =~= b@);
    true
}

/// Whether the allowlist holds a key with exactly the encoded bytes `blob`.
pub fn is_allowed(allowed: &Vec<KeyEntry>, blob: &Vec<u8>) -> (r: bool)
    ensures
        r == key_allowed(allowed@, blob@),
{
    let mut j: usize = 0;
    while j < allowed.len()
        invariant
            j <= allowed@.len(),
            forall|k: int| 0 <= k < j ==> (#[trigger] allowed@[k]).blob@ != blob@,
        decreases allowed@.len() - j,
    {
        if same_bytes(&allowed[j].blob, blob) {
            return true;
        }
        j = j + 1;
    }
    false
}

impl Attempt {
    /// Starts an attempt. `args` must name exactly one authorized-keys file;
    /// any other number of arguments ends the attempt with `Err(Config)`.
    pub fn new(args: Vec<String>) -> (r: Attempt)
        ensures
            r.wf(),
            r.outcomes@.len() == 0,
            args@.len() == 1 ==> r.phase == Phase::AwaitKeyFile && r.path@ == args@[0]@,
            args@.len() != 1 ==> r.phase == Phase::Decided(Err(AuthError::Config)),
    {
        let mut args = args;
        let (phase, path) = if args.len() == 1 {
            (Phase::AwaitKeyFile, args.remove(0))
        } else {
            (Phase::Decided(Err(AuthError::Config)), String::new())
        };
        Attempt {
            phase,
            path,
            allowed: Vec::new(),
            nonce: Vec::new(),
            identities: Vec::new(),
            current: 0,
            signature: Vec::new(),
            outcomes: Vec::new(),
        }
    }

    /// The step that the caller is to perform now.
    pub fn step(&self) -> (r: Step)
        ensures
            r == self.spec_step(),
    {
        match self.phase {
            Phase::AwaitKeyFile => Step::ReadKeyFile,
            Phase::AwaitKeyCheck => Step::CheckKeys,
            Phase::AwaitConnection => Step::Connect,
            Phase::AwaitIdentities => Step::ListIdentities,
            Phase::AwaitSignature => Step::RequestSignature(self.current),
            Phase::AwaitVerification => Step::CheckSignature(self.current),
            Phase::Decided(res) => Step::Done(res),
        }
    }

    /// Skips the identities from `from` on that the allowlist does not hold,
    /// and challenges the next one that it does; denies where none is left.
    fn advance(&mut self, from: usize)
        requires
            from == old(self).outcomes@.len(),
            from <= old(self).identities@.len(),
            old(self).nonce@.len() == NONCE_LEN,
            forall|k: int|
                0 <= k < from ==> ((#[trigger] old(self).outcomes@[k] == IdentityOutcome::Skipped)
                    <==> !key_allowed(old(self).allowed@, old(self).identities@[k]@)),
            forall|k: int|
                0 <= k < from ==> #[trigger] old(self).outcomes@[k] != IdentityOutcome::Verified,
        ensures
            final(self).wf(),
            final(self).advanced_from(old(self).outcomes@),
            final(self).allowed == old(self).allowed,
            final(self).nonce == old(self).nonce,
            final(self).identities == old(self).identities,
            final(self).path == old(self).path,
    {
        let ghost before = *self;
        let mut i: usize = from;
        while i < self.identities.len() && !is_allowed(&self.allowed, &self.identities[i])
            invariant
                from <= i <= self.identities@.len(),
                self.outcomes@.len() == i,
                self.allowed == before.allowed,
                self.nonce == before.nonce,
                self.identities == before.identities,
                self.path == before.path,
                self.phase == before.phase,
                forall|k: int| from <= k < i ==> !key_allowed(self.allowed@, #[trigger] self.identities@[k]@),
                self.outcomes@ == before.outcomes@ + Seq::new(
                    (i - from) as nat,
                    |k: int| IdentityOutcome::Skipped,
                ),
            decreases self.identities@.len() - i,
        {
            self.outcomes.push(IdentityOutcome::Skipped);
            i = i + 1;
            assert(self.outcomes@ =~= before.outcomes@ + Seq::new(
                (i - from) as nat,
                |k: int| IdentityOutcome::Skipped,
            ));
        }
        if i == self.identities.len() {
            self.phase = Phase::Decided(Ok(false));
        } else {
            self.current = i;
            self.phase = Phase::AwaitSignature;
        }
        assert forall|k: int| 0 <= k < self.outcomes@.len() implies ((
        #[trigger] self.outcomes@[k] == IdentityOutcome::Skipped) <==> !key_allowed(
            self.allowed@,
            self.identities@[k]@,
        )) && self.outcomes@[k] != IdentityOutcome::Verified by {
            if k >= from {
                assert(self.outcomes@[k] == IdentityOutcome::Skipped);
            }
        }
    }
}

fn all_accepted(accepted: &Vec<bool>, n: usize) -> (r: bool)
    ensures
        r == (accepted@.len() == n && forall|j: int| 0 <= j < accepted@.len() ==> #[trigger] accepted@[j]),
{
    if accepted.len() != n {
        return false;
    }
    let mut j: usize = 0;
    while j < accepted.len()
        invariant
            j <= accepted@.len(),
            forall|k: int| 0 <= k < j ==> #[trigger] accepted@[k],
        decreases accepted@.len() - j,
    {
        if !accepted[j] {
            return false;
        }
        j = j + 1;
    }
    true
}

impl Attempt {
    /// Takes the outcome of the last step and decides the next one. An event
    /// that does not answer the pending step changes nothing, and a decided
    /// attempt stays decided.
    pub fn handle(&mut self, event: Event) -> (r: Step)
        requires
            old(self).wf(),
        ensures
            final(self).wf(),
            final(self).follows(*old(self), event),
            r == final(self).spec_step(),
            old(self).is_decided() ==> *final(self) == *old(self),
            r matches Step::RequestSignature(i) ==> key_allowed(
                final(self).allowed@,
                final(self).identities@[i as int]@,
            ),
    {
        let ghost before = *self;
        match event {
            Event::KeyFileRead(read) => {
                if let Phase::AwaitKeyFile = self.phase {
                    match read {
                        None => {
                            self.phase = Phase::Decided(Err(AuthError::KeyFile));
                        },
                        Some(lines) => match parse_key_file(&lines) {
                            Ok(entries) => {
                                self.allowed = entries;
                                self.phase = Phase::AwaitKeyCheck;
                            },
                            Err(err) => {
                                self.phase = Phase::Decided(Err(err));
                            },
                        },
                    }
                }
            },
            Event::KeysChecked(accepted) => {
                if let Phase::AwaitKeyCheck = self.phase {
                    if all_accepted(&accepted, self.allowed.len()) {
                        self.nonce = generate_nonce();
                        self.phase = Phase::AwaitConnection;
                    } else {
                        self.phase = Phase::Decided(Err(AuthError::KeyFile));
                    }
                }
            },
            Event::AgentConnected(up) => {
                if let Phase::AwaitConnection = self.phase {
                    if up {
                        self.phase = Phase::AwaitIdentities;
                    } else {
                        self.phase = Phase::Decided(Err(AuthError::AgentConnection));
                    }
                }
            },
            Event::IdentitiesListed(listed) => {
                if let Phase::AwaitIdentities = self.phase {
                    match listed {
                        None => {
                            self.phase = Phase::Decided(Err(AuthError::AgentConnection));
                        },
                        Some(ids) => {
                            self.identities = ids;
                            self.advance(0);
                        },
                    }
                }
            },
            Event::SignatureReceived(received) => {
                if let Phase::AwaitSignature = self.phase {
                    match received {
                        None => {
                            self.outcomes.push(IdentityOutcome::SignFailed);
                            let next = self.outcomes.len();
                            self.advance(next);
                        },
                        Some(sig) => {
                            self.signature = sig;
                            self.phase = Phase::AwaitVerification;
                        },
                    }
                }
            },
            Event::SignatureChecked(valid) => {
                if let Phase::AwaitVerification = self.phase {
                    if valid {
                        self.outcomes.push(IdentityOutcome::Verified);
                        self.phase = Phase::Decided(Ok(true));
                    } else {
                        self.outcomes.push(IdentityOutcome::VerifyFailed);
                        let next = self.outcomes.len();
                        self.advance(next);
                    }
                }
            },
        }
        self.step()
    }
}

/// An identity that the allowlist does not hold is never asked to sign: each
/// such identity dealt with so far was skipped, and the identity that the
/// attempt asks the agent about is one that the allowlist holds.
pub proof fn lemma_only_allowlisted_identities_sign(a: Attempt)
    requires
        a.wf(),
    ensures
        forall|k: int|
            0 <= k < a.outcomes@.len() && !key_allowed(a.allowed@, #[trigger] a.identities@[k]@)
                ==> a.outcomes@[k] == IdentityOutcome::Skipped,
        a.spec_step() matches Step::RequestSignature(i) ==> key_allowed(
            a.allowed@,
            a.identities@[i as int]@,
        ),
        a.spec_step() matches Step::CheckSignature(i) ==> key_allowed(
            a.allowed@,
            a.identities@[i as int]@,
        ),
{
}

/// Once an identity has verified, the attempt is accepted and over: that
/// identity is the last one dealt with, and no step remains.
pub proof fn lemma_success_is_final(a: Attempt, k: int)
    requires
        a.wf(),
        0 <= k < a.outcomes@.len(),
        a.outcomes@[k] == IdentityOutcome::Verified,
    ensures
        k == a.outcomes@.len() - 1,
        a.phase == Phase::Decided(Ok(true)),
        a.spec_step() == Step::Done(Ok(true)),
{
}

/// An attempt is accepted exactly when one identity has verified; it is
/// denied only after every identity was dealt with and none verified.
pub proof fn lemma_decision_matches_outcomes(a: Attempt)
    requires
        a.wf(),
    ensures
        a.phase == Phase::Decided(Ok(true)) <==> exists|k: int|
            0 <= k < a.outcomes@.len() && #[trigger] a.outcomes@[k] == IdentityOutcome::Verified,
        a.phase == Phase::Decided(Ok(false)) ==> {
            &&& a.outcomes@.len() == a.identities@.len()
            &&& forall|k: int|
                0 <= k < a.outcomes@.len() ==> #[trigger] a.outcomes@[k]
                    != IdentityOutcome::Verified
        },
{
    if a.phase == Phase::Decided(Ok(true)) {
        assert(a.outcomes@[a.outcomes@.len() - 1] == IdentityOutcome::Verified);
    }
}

} // verus!
