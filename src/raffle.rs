use vstd::prelude::*;

verus! {

/// Amount of the ledger's minor unit in one whole base unit.
pub const ONE_NEAR: u128 = 1_000_000_000_000_000_000_000_000;

/// Identifier of a raffle in the registry.
pub type Id = u64;

/// Identifier of a prize asset at its custodian.
pub type TokenId = String;

/// A prize held by an outside custodian service.
#[allow(clippy::upper_case_acronyms)]
pub struct NFT {
    /// Account of the custodian that holds the asset.
    pub smart_contract: String,
    /// Asset identifier at the custodian.
    pub id: TokenId,
}

/// Lifecycle of a raffle: `Opened` until its quota is met, then `Closed` for good.
#[derive(Clone, Copy, Debug, PartialEq, Eq, Structural)]
pub enum Status {
    Opened,
    Closed,
}

/// One raffle: the prize, its ticket terms, the entries so far and the outcome.
pub struct Raffle {
    pub creator: String,
    pub prize: NFT,
    /// Number of entries that triggers the draw.
    pub participants_number: u32,
    /// Entries in the order they were accepted; an account may enter more than once.
    pub participants: Vec<String>,
    /// Price of one ticket in the ledger's minor unit.
    pub ticket_price: u128,
    pub status: Status,
    pub winner: Option<String>,
}

/// Event recorded when a raffle is opened; carries the new raffle's identifier.
#[derive(Clone, Copy, Debug, PartialEq, Eq, Structural)]
pub struct Event(pub u64);

impl NFT {
    /// A copy of this prize record.
    pub fn duplicate(&self) -> (r: NFT)
        ensures
            r == *self,
    {
        NFT { smart_contract: self.smart_contract.clone(), id: self.id.clone() }
    }
}

impl Raffle {
    /// The raffle's invariant: at least two entries are required, a ticket costs
    /// something, an open raffle is below its quota, a winner exists exactly when
    /// the raffle is closed, and a closed raffle is full and its winner is one of
    /// its entries.
    pub open spec fn wf(&self) -> bool {
        &&& self.participants_number >= 2
        &&& self.ticket_price > 0
        &&& self.participants@.len() <= self.participants_number
        &&& self.status == Status::Opened ==> self.participants@.len() < self.participants_number
        &&& (self.status == Status::Closed) == self.winner.is_some()
        &&& self.status == Status::Closed ==> {
            &&& self.participants@.len() == self.participants_number
            &&& self.participants@.contains(self.winner.unwrap())
        }
    }

    /// Total proceeds of a full raffle.
    pub open spec fn proceeds(&self) -> int {
        self.participants_number as int * self.ticket_price as int
    }

    /// A copy of this raffle with the same fields.
    pub fn duplicate(&self) -> (r: Raffle)
        ensures
            r.creator == self.creator,
            r.prize == self.prize,
            r.participants_number == self.participants_number,
            r.participants@ == self.participants@,
            r.ticket_price == self.ticket_price,
            r.status == self.status,
            r.winner == self.winner,
    {
        let participants = self.participants.clone();
        proof {
            assert(participants@ =~= self.participants@);
        }
        let winner = match &self.winner {
            Some(w) => Some(w.clone()),
            None => None,
        };
        Raffle {
            creator: self.creator.clone(),
            prize: self.prize.duplicate(),
            participants_number: self.participants_number,
            participants,
            ticket_price: self.ticket_price,
            status: self.status,
            winner,
        }
    }
}

} // verus!
