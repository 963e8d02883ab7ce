//! Proof of existence: a registry of claims, each a bounded byte string, owned
//! by the account that created it and stamped with the block number at which
//! it was created or last transferred.
use vstd::prelude::*;

verus! {

/// Identifies an account.
pub type AccountId = u64;

/// Numbers the blocks of the chain.
pub type BlockNumber = u64;

/// The parameters of the registry.
#[derive(Clone, Copy, Debug, PartialEq, Eq)]
pub struct Config {
    /// The longest claim that can be registered, in bytes.
    pub max_claim_length: u32,
}

/// Who dispatched a call.
#[derive(Clone, Copy, Debug, PartialEq, Eq)]
pub enum Origin {
    /// An account that signed the call.
    Signed(AccountId),
    /// The chain itself.
    Root,
    /// Nobody in particular.
    Unsigned,
}

/// What a successful call announces.
#[derive(Clone, Debug, PartialEq, Eq)]
pub enum Event {
    /// The owner and the claim.
    ClaimCreated(AccountId, Vec<u8>),
    /// The former owner and the claim.
    ClaimRevoked(AccountId, Vec<u8>),
    /// The former owner, the claim and the new owner.
    ClaimTransferred(AccountId, Vec<u8>, AccountId),
}

/// Why a call was refused.
#[derive(Clone, Copy, Debug, PartialEq, Eq)]
pub enum Error {
    /// The call was not signed by an account.
    BadOrigin,
    /// The claim is already registered.
    ProofAlreadyExist,
    /// The claim is longer than the configured bound.
    ClaimTooLang,
    /// The claim is not registered.
    ClaimNotExist,
    /// The caller does not own the claim.
    NotClaimOwner,
}

/// An event, with its byte strings as sequences.
pub open spec fn event_view(e: Event) -> (u8, AccountId, Seq<u8>, AccountId) {
    match e {
        Event::ClaimCreated(who, c) => (0u8, who, c@, 0u64),
        Event::ClaimRevoked(who, c) => (1u8, who, c@, 0u64),
        Event::ClaimTransferred(who, c, to) => (2u8, who, c@, to),
    }
}

/// The error that a call on `claim` from `origin` meets before it looks the
/// claim up, if any.
pub open spec fn origin_or_length_error(origin: Origin, claim: Seq<u8>, max: u32) -> Option<Error> {
    if !(origin is Signed) {
        Some(Error::BadOrigin)
    } else if claim.len() > max {
        Some(Error::ClaimTooLang)
    } else {
        None
    }
}

/// The account that signed a call from `origin`.
pub open spec fn signer(origin: Origin) -> AccountId {
    match origin {
        Origin::Signed(who) => who,
        _ => 0,
    }
}

/// What creating `claim` from `origin` comes to, given the registered claims `m`.
pub open spec fn create_outcome(
    origin: Origin,
    claim: Seq<u8>,
    max: u32,
    m: Map<Seq<u8>, (AccountId, BlockNumber)>,
) -> Result<(), Error> {
    match origin_or_length_error(origin, claim, max) {
        Some(e) => Err(e),
        None => if m.contains_key(claim) {
            Err(Error::ProofAlreadyExist)
        } else {
            Ok(())
        },
    }
}

/// What revoking or transferring `claim` from `origin` comes to, given the
/// registered claims `m`: only the claim's owner may do either.
pub open spec fn owner_outcome(
    origin: Origin,
    claim: Seq<u8>,
    max: u32,
    m: Map<Seq<u8>, (AccountId, BlockNumber)>,
) -> Result<(), Error> {
    match origin_or_length_error(origin, claim, max) {
        Some(e) => Err(e),
        None => if !m.contains_key(claim) {
            Err(Error::ClaimNotExist)
        } else if m[claim].0 != signer(origin) {
            Err(Error::NotClaimOwner)
        } else {
            Ok(())
        },
    }
}

/// Whether two byte strings are equal.
pub fn bytes_eq(a: &Vec<u8>, b: &Vec<u8>) -> (r: bool)
    ensures
        r == (a@ == b@),
{
    if a.len() != b.len() {
        return false;
    }
    let mut i: usize = 0;
    while i < a.len()
        invariant
            a@.len() == b@.len(),
            i <= a@.len(),
            forall|j: int| 0 <= j < i ==> a@[j] == b@[j],
        decreases a@.len() - i,
    {
        if a[i] != b[i] {
            return false;
        }
        i = i + 1;
    }
    assert(a@ =~= b@);
    true
}

/// Copies a byte string.
fn copy_bytes(a: &Vec<u8>) -> (r: Vec<u8>)
    ensures
        r@ == a@,
{
    let mut r: Vec<u8> = Vec::new();
    let mut i: usize = 0;
    while i < a.len()
        invariant
            i <= a@.len(),
            r@ == a@.subrange(0, i as int),
        decreases a@.len() - i,
    {
        r.push(a[i]);
        i = i + 1;
        assert(r@ =~= a@.subrange(0, i as int));
    }
    assert(a@.subrange(0, a@.len() as int) =~= a@);
    r
}

/// The registry, with the number of the block being executed and the events
/// announced so far.
pub struct Pallet {
    config: Config,
    proofs: Vec<(Vec<u8>, (AccountId, BlockNumber))>,
    block_number: BlockNumber,
    events: Vec<Event>,
    model: Ghost<Map<Seq<u8>, (AccountId, BlockNumber)>>,
}

impl Pallet {
    /// The registered claims, each with its owner and block number.
    pub closed spec fn view(&self) -> Map<Seq<u8>, (AccountId, BlockNumber)> {
        self.model@
    }

    /// The registry's parameters.
    pub closed spec fn config_spec(&self) -> Config {
        self.config
    }

    /// The number of the block being executed.
    pub closed spec fn block_number_spec(&self) -> BlockNumber {
        self.block_number
    }

    /// The events announced so far, oldest first.
    pub closed spec fn events_spec(&self) -> Seq<(u8, AccountId, Seq<u8>, AccountId)> {
        self.events@.map_values(|e: Event| event_view(e))
    }

    /// Each claim is listed once, and the list holds exactly the model's claims.
    pub closed spec fn wf(&self) -> bool {
        &&& forall|i: int, j: int|
            0 <= i < j < self.proofs@.len() ==> #[trigger] self.proofs@[i].0@
                != #[trigger] self.proofs@[j].0@
        &&& forall|i: int|
            0 <= i < self.proofs@.len() ==> #[trigger] self.model@.contains_key(
                self.proofs@[i].0@,
            ) && self.model@[self.proofs@[i].0@] == self.proofs@[i].1
        &&& forall|c: Seq<u8>|
            #[trigger] self.model@.contains_key(c) ==> exists|i: int|
                0 <= i < self.proofs@.len() && #[trigger] self.proofs@[i].0@ == c
    }

    /// An empty registry at block 0.
    pub fn new(config: Config) -> (r: Self)
        ensures
            r.wf(),
            r@ == Map::<Seq<u8>, (AccountId, BlockNumber)>::empty(),
            r.config_spec() == config,
            r.block_number_spec() == 0,
            r.events_spec() == Seq::<(u8, AccountId, Seq<u8>, AccountId)>::empty(),
    {
        let r = Pallet {
            config,
            proofs: Vec::new(),
            block_number: 0,
            events: Vec::new(),
            model: Ghost(Map::empty()),
        };
        assert(r.events_spec() =~= Seq::<(u8, AccountId, Seq<u8>, AccountId)>::empty());
        r
    }

    /// The number of the block being executed.
    pub fn block_number(&self) -> (r: BlockNumber)
        ensures
            r == self.block_number_spec(),
    {
        self.block_number
    }

    /// Moves execution to block `n`.
    pub fn set_block_number(&mut self, n: BlockNumber)
        requires
            old(self).wf(),
        ensures
            final(self).wf(),
            final(self).block_number_spec() == n,
            final(self)@ == old(self)@,
            final(self).config_spec() == old(self).config_spec(),
            final(self).events_spec() == old(self).events_spec(),
    {
        self.block_number = n;
        assert(self.proofs@ == old(self).proofs@ && self.model@ == old(self).model@);
    }

    /// The events announced so far, oldest first.
    pub fn events(&self) -> (r: &Vec<Event>)
        ensures
            r@.map_values(|e: Event| event_view(e)) == self.events_spec(),
    {
        &self.events
    }

    /// Where `claim` stands in the list, if it is registered.
    fn position(&self, claim: &Vec<u8>) -> (r: Option<usize>)
        requires
            self.wf(),
        ensures
            match r {
                Some(i) => i < self.proofs@.len() && self.proofs@[i as int].0@ == claim@,
                None => !self@.contains_key(claim@),
            },
    {
        let mut i: usize = 0;
        while i < self.proofs.len()
            invariant
                self.wf(),
                i <= self.proofs@.len(),
                forall|j: int| 0 <= j < i ==> #[trigger] self.proofs@[j].0@ != claim@,
            decreases self.proofs@.len() - i,
        {
            if bytes_eq(&self.proofs[i].0, claim) {
                return Some(i);
            }
            i = i + 1;
        }
        None
    }

    /// The owner of `claim` and the block at which it was recorded, if the
    /// claim is registered.
    pub fn proofs(&self, claim: &Vec<u8>) -> (r: Option<(AccountId, BlockNumber)>)
        requires
            self.wf(),
        ensures
            r == (if self@.contains_key(claim@) {
                Some(self@[claim@])
            } else {
                None::<(AccountId, BlockNumber)>
            }),
    {
        match self.position(claim) {
            Some(i) => Some(self.proofs[i].1),
            None => None,
        }
    }

    /// Records `value` for `claim`, replacing what was recorded for it.
    fn put(&mut self, claim: Vec<u8>, value: (AccountId, BlockNumber))
        requires
            old(self).wf(),
        ensures
            final(self).wf(),
            final(self)@ == old(self)@.insert(claim@, value),
            final(self).config_spec() == old(self).config_spec(),
            final(self).block_number_spec() == old(self).block_number_spec(),
            final(self).events == old(self).events,
    {
        let pos = self.position(&claim);
        let ghost old_proofs = self.proofs@;
        let ghost c = claim@;
        match pos {
            Some(i) => {
                self.proofs.set(i, (claim, value));
            },
            None => {
                self.proofs.push((claim, value));
            },
        }
        self.model = Ghost(self.model@.insert(c, value));
        assert forall|k: Seq<u8>| #[trigger] self.model@.contains_key(k) implies exists|i: int|
            0 <= i < self.proofs@.len() && #[trigger] self.proofs@[i].0@ == k by {
            if k == c {
                match pos {
                    Some(i) => assert(self.proofs@[i as int].0@ == k),
                    None => assert(self.proofs@[old_proofs.len() as int].0@ == k),
                }
            } else {
                let i = choose|i: int| 0 <= i < old_proofs.len() && #[trigger] old_proofs[i].0@ == k;
                assert(self.proofs@[i].0@ == k);
            }
        }
    }

    /// Removes the entry at position `i`.
    fn remove_at(&mut self, i: usize)
        requires
            old(self).wf(),
            i < old(self).proofs@.len(),
        ensures
            final(self).wf(),
            final(self)@ == old(self)@.remove(old(self).proofs@[i as int].0@),
            final(self).config_spec() == old(self).config_spec(),
            final(self).block_number_spec() == old(self).block_number_spec(),
            final(self).events == old(self).events,
    {
        let ghost old_proofs = self.proofs@;
        let ghost old_model = self.model@;
        let ghost c = old_proofs[i as int].0@;
        assert(old_model.contains_key(c));
        let _ = self.proofs.remove(i);
        self.model = Ghost(self.model@.remove(c));
        let ghost e = self.proofs@;
        assert forall|a: int, b: int| 0 <= a < b < e.len() implies #[trigger] e[a].0@
            != #[trigger] e[b].0@ by {
            let a0 = if a < i { a } else { a + 1 };
            let b0 = if b < i { b } else { b + 1 };
            assert(e[a] == old_proofs[a0]);
            assert(e[b] == old_proofs[b0]);
            assert(old_proofs[a0].0@ != old_proofs[b0].0@);
        }
        assert forall|a: int| 0 <= a < e.len() implies #[trigger] self.model@.contains_key(e[a].0@)
            && self.model@[e[a].0@] == e[a].1 by {
            let a0 = if a < i { a } else { a + 1 };
            assert(e[a] == old_proofs[a0]);
            assert(old_model.contains_key(old_proofs[a0].0@));
            if a0 < i {
                assert(old_proofs[a0].0@ != old_proofs[i as int].0@);
            } else {
                assert(old_proofs[i as int].0@ != old_proofs[a0].0@);
            }
        }
        assert forall|k: Seq<u8>| #[trigger] self.model@.contains_key(k) implies exists|a: int|
            0 <= a < e.len() && #[trigger] e[a].0@ == k by {
            let a0 = choose|a0: int| 0 <= a0 < old_proofs.len() && #[trigger] old_proofs[a0].0@ == k;
            let a = if a0 < i { a0 } else { a0 - 1 };
            assert(e[a].0@ == k);
        }
    }

    /// Announces `e`.
    fn deposit_event(&mut self, e: Event)
        requires
            old(self).wf(),
        ensures
            final(self).wf(),
            final(self)@ == old(self)@,
            final(self).config_spec() == old(self).config_spec(),
            final(self).block_number_spec() == old(self).block_number_spec(),
            final(self).events_spec() == old(self).events_spec().push(event_view(e)),
    {
        self.events.push(e);
        assert(self.proofs@ == old(self).proofs@ && self.model@ == old(self).model@);
        assert(self.events_spec() =~= old(self).events_spec().push(event_view(e)));
    }

    /// Checks the origin and the length of a claim, and gives the signer.
    fn check_origin(&self, origin: Origin, claim: &Vec<u8>) -> (r: Result<AccountId, Error>)
        ensures
            match r {
                Ok(who) => origin_or_length_error(origin, claim@, self.config.max_claim_length)
                    is None && who == signer(origin),
                Err(e) => origin_or_length_error(origin, claim@, self.config.max_claim_length)
                    == Some(e),
            },
    {
        let who = match origin {
            Origin::Signed(who) => who,
            _ => {
                return Err(Error::BadOrigin);
            },
        };
        if claim.len() as u64 > self.config.max_claim_length as u64 {
            return Err(Error::ClaimTooLang);
        }
        Ok(who)
    }

    /// Registers `bounded_claim` for the signer of the call, stamped with the
    /// current block number, unless it is registered already.
    pub fn created_claim(&mut self, origin: Origin, bounded_claim: Vec<u8>) -> (r: Result<(), Error>)
        requires
            old(self).wf(),
        ensures
            final(self).wf(),
            r == create_outcome(
                origin,
                bounded_claim@,
                old(self).config_spec().max_claim_length,
                old(self)@,
            ),
            final(self).config_spec() == old(self).config_spec(),
            final(self).block_number_spec() == old(self).block_number_spec(),
            r is Ok ==> {
                &&& final(self)@ == old(self)@.insert(
                    bounded_claim@,
                    (signer(origin), old(self).block_number_spec()),
                )
                &&& final(self).events_spec() == old(self).events_spec().push(
                    (0u8, signer(origin), bounded_claim@, 0u64),
                )
            },
            r is Err ==> {
                &&& final(self)@ == old(self)@
                &&& final(self).events_spec() == old(self).events_spec()
            },
    {
        let sender = match self.check_origin(origin, &bounded_claim) {
            Ok(who) => who,
            Err(e) => {
                return Err(e);
            },
        };
        if self.position(&bounded_claim).is_some() {
            return Err(Error::ProofAlreadyExist);
        }
        let key = copy_bytes(&bounded_claim);
        let block = self.block_number;
        self.put(key, (sender, block));
        self.deposit_event(Event::ClaimCreated(sender, bounded_claim));
        Ok(())
    }

    /// Removes `bounded_claim`, which the signer of the call must own.
    pub fn revoke_claim(&mut self, origin: Origin, bounded_claim: Vec<u8>) -> (r: Result<(), Error>)
        requires
            old(self).wf(),
        ensures
            final(self).wf(),
            r == owner_outcome(
                origin,
                bounded_claim@,
                old(self).config_spec().max_claim_length,
                old(self)@,
            ),
            final(self).config_spec() == old(self).config_spec(),
            final(self).block_number_spec() == old(self).block_number_spec(),
            r is Ok ==> {
                &&& final(self)@ == old(self)@.remove(bounded_claim@)
                &&& final(self).events_spec() == old(self).events_spec().push(
                    (1u8, signer(origin), bounded_claim@, 0u64),
                )
            },
            r is Err ==> {
                &&& final(self)@ == old(self)@
                &&& final(self).events_spec() == old(self).events_spec()
            },
    {
        let sender = match self.check_origin(origin, &bounded_claim) {
            Ok(who) => who,
            Err(e) => {
                return Err(e);
            },
        };
        let i = match self.position(&bounded_claim) {
            Some(i) => i,
            None => {
                return Err(Error::ClaimNotExist);
            },
        };
        proof {
            assert(self.model@.contains_key(self.proofs@[i as int].0@));
        }
        if (self.proofs[i].1).0 != sender {
            return Err(Error::NotClaimOwner);
        }
        self.remove_at(i);
        self.deposit_event(Event::ClaimRevoked(sender, bounded_claim));
        Ok(())
    }

    /// Hands `bounded_claim`, which the signer of the call must own, to `to`,
    /// stamped with the current block number.
    pub fn transfer_claim(&mut self, origin: Origin, bounded_claim: Vec<u8>, to: AccountId) -> (r:
        Result<(), Error>)
        requires
            old(self).wf(),
        ensures
            final(self).wf(),
            r == owner_outcome(
                origin,
                bounded_claim@,
                old(self).config_spec().max_claim_length,
                old(self)@,
            ),
            final(self).config_spec() == old(self).config_spec(),
            final(self).block_number_spec() == old(self).block_number_spec(),
            r is Ok ==> {
                &&& final(self)@ == old(self)@.insert(
                    bounded_claim@,
                    (to, old(self).block_number_spec()),
                )
                &&& final(self).events_spec() == old(self).events_spec().push(
                    (2u8, signer(origin), bounded_claim@, to),
                )
            },
            r is Err ==> {
                &&& final(self)@ == old(self)@
                &&& final(self).events_spec() == old(self).events_spec()
            },
    {
        let sender = match self.check_origin(origin, &bounded_claim) {
            Ok(who) => who,
            Err(e) => {
                return Err(e);
            },
        };
        let i = match self.position(&bounded_claim) {
            Some(i) => i,
            None => {
                return Err(Error::ClaimNotExist);
            },
        };
        proof {
            assert(self.model@.contains_key(self.proofs@[i as int].0@));
        }
        if (self.proofs[i].1).0 != sender {
            return Err(Error::NotClaimOwner);
        }
        let key = copy_bytes(&bounded_claim);
        let block = self.block_number;
        self.put(key, (to, block));
        self.deposit_event(Event::ClaimTransferred(sender, bounded_claim, to));
        Ok(())
    }
}

/// Reading a claim back after a call that succeeded: after a creation it holds
/// the creator and the block of creation, after a revocation it is absent, and
/// after a transfer it holds the recipient and the block of the transfer. A
/// creator may revoke or transfer the claim just created.
pub proof fn lemma_claim_round_trip(
    m: Map<Seq<u8>, (AccountId, BlockNumber)>,
    origin: Origin,
    claim: Seq<u8>,
    max: u32,
    block: BlockNumber,
    to: AccountId,
)
    ensures
        create_outcome(origin, claim, max, m) is Ok ==> {
            let after = m.insert(claim, (signer(origin), block));
            &&& after.contains_key(claim)
            &&& after[claim] == (signer(origin), block)
            &&& owner_outcome(origin, claim, max, after) is Ok
        },
        owner_outcome(origin, claim, max, m) is Ok ==> !m.remove(claim).contains_key(claim),
        owner_outcome(origin, claim, max, m) is Ok ==> {
            let after = m.insert(claim, (to, block));
            &&& after.contains_key(claim)
            &&& after[claim] == (to, block)
        },
{
}

} // verus!
