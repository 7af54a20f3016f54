use vstd::prelude::*;

use crate::entropy::{index_from_seed, perturbed, seed_for, EntropyState};
use crate::raffle::{Id, Raffle, Status, NFT};
use crate::terms::{raffle_terms, read_terms};

verus! {

/// Why a raffle call was refused; a refused call changes nothing.
#[derive(Clone, Copy, Debug, PartialEq, Eq, Structural)]
pub enum RaffleError {
    /// No raffle has the given identifier.
    NotFound,
    /// The raffle no longer sells tickets.
    RaffleClosed,
    /// The creator tried to enter their own raffle.
    SelfEntry,
    /// The payment is below the ticket price.
    InsufficientPayment,
    /// The proceeds of the full raffle do not fit in the ledger's amount type.
    ProceedsOverflow,
}

/// Settlement of a drawn raffle: proceeds to the creator and the prize to the
/// winner. The prize transfer is an outside call that nothing here observes.
pub struct Settlement {
    pub raffle_id: Id,
    pub creator: String,
    pub payout: u128,
    pub winner: String,
    pub prize: NFT,
}

/// What an accepted entry asks the ledger to do.
pub struct JoinOutcome {
    /// Amount paid beyond the ticket price, to be sent back to the entrant.
    pub refund: Option<u128>,
    /// Present when this entry filled the raffle and the draw took place.
    pub settlement: Option<Settlement>,
}

/// The raffle engine: the registry of raffles, keyed by their position, and the
/// entropy state used by draws.
pub struct Contract {
    pub raffles: Vec<Raffle>,
    pub next_id: Id,
    pub entropy: EntropyState,
}

/// Identifiers of the open raffles of `rs`, in increasing order.
pub open spec fn open_ids(rs: Seq<Raffle>) -> Seq<Id>
    decreases rs.len(),
{
    if rs.len() == 0 {
        Seq::empty()
    } else if rs.last().status == Status::Opened {
        open_ids(rs.drop_last()).push((rs.len() - 1) as Id)
    } else {
        open_ids(rs.drop_last())
    }
}

/// Whether `a` and `b` hold the same field values.
pub open spec fn same_raffle(a: Raffle, b: Raffle) -> bool {
    &&& a.creator == b.creator
    &&& a.prize == b.prize
    &&& a.participants_number == b.participants_number
    &&& a.participants@ == b.participants@
    &&& a.ticket_price == b.ticket_price
    &&& a.status == b.status
    &&& a.winner == b.winner
}

/// The reason an entry by `caller` paying `deposit` into raffle `id` of `rs` is
/// refused, checked in this order; `None` where it is accepted.
pub open spec fn join_error(rs: Seq<Raffle>, id: Id, caller: Seq<char>, deposit: u128) -> Option<
    RaffleError,
> {
    if id >= rs.len() {
        Some(RaffleError::NotFound)
    } else if rs[id as int].status != Status::Opened {
        Some(RaffleError::RaffleClosed)
    } else if caller == rs[id as int].creator@ {
        Some(RaffleError::SelfEntry)
    } else if deposit < rs[id as int].ticket_price {
        Some(RaffleError::InsufficientPayment)
    } else if rs[id as int].participants@.len() + 1 == rs[id as int].participants_number
        && rs[id as int].proceeds() > u128::MAX {
        Some(RaffleError::ProceedsOverflow)
    } else {
        None
    }
}

/// Refund owed on a payment of `deposit` for a ticket of `price`.
pub open spec fn refund_of(deposit: u128, price: u128) -> Option<u128> {
    if deposit > price {
        Some((deposit - price) as u128)
    } else {
        None
    }
}

impl Contract {
    /// The registry's invariant: identifiers are positions, every raffle keeps
    /// its own invariant.
    pub open spec fn wf(&self) -> bool {
        &&& self.next_id as int == self.raffles@.len()
        &&& forall|i: int| 0 <= i < self.raffles@.len() ==> (#[trigger] self.raffles@[i]).wf()
    }

    /// The registry's invariant, except for raffle `id`.
    pub open spec fn wf_except(&self, id: Id) -> bool {
        &&& self.next_id as int == self.raffles@.len()
        &&& forall|i: int|
            0 <= i < self.raffles@.len() && i != id ==> (#[trigger] self.raffles@[i]).wf()
    }

    /// An empty registry with fresh entropy.
    pub fn new() -> (r: Contract)
        ensures
            r.wf(),
            r.raffles@.len() == 0,
            r.entropy.last_height == 0,
    {
        Contract { raffles: Vec::new(), next_id: 0, entropy: EntropyState::new() }
    }

    /// Handles the custodian's notice that `token_id` was deposited by
    /// `previous_owner_id` on the terms in `msg`; `predecessor_id` is the custodian
    /// account that calls. Returns `false` where a raffle was opened and the
    /// prize is kept, `true` where the prize must go back: the caller is the
    /// sender itself, the terms are malformed or refused, or the registry is full.
    pub fn nft_on_transfer(
        &mut self,
        predecessor_id: String,
        sender_id: String,
        previous_owner_id: String,
        token_id: String,
        msg: String,
    ) -> (r: bool)
        requires
            old(self).wf(),
        ensures
            final(self).wf(),
            final(self).entropy == old(self).entropy,
            r == !(sender_id@ != predecessor_id@ && raffle_terms(msg@) is Some && old(
                self,
            ).next_id < u64::MAX),
            r ==> final(self).raffles@ == old(self).raffles@,
            !r ==> {
                let (capacity, price) = raffle_terms(msg@).unwrap();
                let n = final(self).raffles@.last();
                &&& final(self).raffles@.len() == old(self).raffles@.len() + 1
                &&& final(self).raffles@.drop_last() == old(self).raffles@
                &&& n.creator == previous_owner_id
                &&& n.prize == NFT { smart_contract: predecessor_id, id: token_id }
                &&& n.participants_number == capacity
                &&& n.participants@.len() == 0
                &&& n.ticket_price == price
                &&& n.status == Status::Opened
                &&& n.winner is None
            },
    {
        if sender_id == predecessor_id {
            return true;
        }
        let terms = read_terms(msg.as_str());
        let (participants_number, ticket_price) = match terms {
            Some(t) => t,
            None => {
                return true;
            },
        };
        if self.next_id == u64::MAX {
            return true;
        }
        let raffle = Raffle {
            creator: previous_owner_id,
            prize: NFT { smart_contract: predecessor_id, id: token_id },
            participants_number,
            participants: Vec::new(),
            ticket_price,
            status: Status::Opened,
            winner: None,
        };
        self.raffles.push(raffle);
        self.next_id = self.next_id + 1;
        proof {
            assert(self.raffles@.drop_last() =~= old(self).raffles@);
            assert forall|i: int| 0 <= i < self.raffles@.len() implies (
            #[trigger] self.raffles@[i]).wf() by {
                if i < old(self).raffles@.len() {
                    assert(self.raffles@[i] == old(self).raffles@[i]);
                }
            }
        }
        false
    }

    /// Draws the winner of the full raffle `raffle_id`, closes it and returns the
    /// settlement that pays its proceeds and releases its prize.
    fn draw(&mut self, raffle_id: Id, height: u64, ledger_seed: [u8; 32]) -> (s: Settlement)
        requires
            old(self).wf_except(raffle_id),
            raffle_id < old(self).raffles@.len(),
            old(self).raffles@[raffle_id as int].participants_number >= 2,
            old(self).raffles@[raffle_id as int].ticket_price > 0,
            old(self).raffles@[raffle_id as int].status == Status::Opened,
            old(self).raffles@[raffle_id as int].participants@.len()
                == old(self).raffles@[raffle_id as int].participants_number,
            old(self).raffles@[raffle_id as int].proceeds() <= u128::MAX,
        ensures
            final(self).wf(),
            final(self).next_id == old(self).next_id,
            final(self).raffles@.len() == old(self).raffles@.len(),
            forall|j: int|
                0 <= j < old(self).raffles@.len() && j != raffle_id ==> final(self).raffles@[j]
                    == old(self).raffles@[j],
            ({
                let before = old(self).raffles@[raffle_id as int];
                let after = final(self).raffles@[raffle_id as int];
                let index = index_from_seed(
                    seed_for(
                        old(self).entropy.last_height,
                        old(self).entropy.seed@,
                        height,
                        ledger_seed@,
                    ),
                    before.participants_number,
                );
                &&& after.creator == before.creator
                &&& after.prize == before.prize
                &&& after.participants_number == before.participants_number
                &&& after.participants@ == before.participants@
                &&& after.ticket_price == before.ticket_price
                &&& after.status == Status::Closed
                &&& index < before.participants_number
                &&& after.winner == Some(before.participants@[index as int])
                &&& s.raffle_id == raffle_id
                &&& s.creator == before.creator
                &&& s.payout == before.proceeds()
                &&& s.winner == before.participants@[index as int]
                &&& s.prize == before.prize
            }),
            final(self).entropy.last_height == height,
            final(self).entropy.seed@ == perturbed(
                seed_for(old(self).entropy.last_height, old(self).entropy.seed@, height, ledger_seed@),
            ),
    {
        proof {
            assert(self.raffles@.len() == self.raffles.len());
        }
        let i = raffle_id as usize;
        let capacity = self.raffles[i].participants_number;
        let index = self.entropy.draw(capacity, height, ledger_seed);
        proof {
            assert(self.raffles@[i as int] == old(self).raffles@[i as int]);
        }
        let winner = self.raffles[i].participants[index as usize].clone();
        let price = self.raffles[i].ticket_price;
        proof {
            assert(capacity as int * price as int <= u128::MAX);
        }
        let payout = capacity as u128 * price;
        let creator = self.raffles[i].creator.clone();
        let prize = self.raffles[i].prize.duplicate();
        self.raffles[i].winner = Some(winner.clone());
        self.raffles[i].status = Status::Closed;
        proof {
            assert(self.raffles@[i as int].participants@.contains(winner));
            assert forall|j: int| 0 <= j < self.raffles@.len() implies (
            #[trigger] self.raffles@[j]).wf() by {
                if j != i {
                    assert(self.raffles@[j] == old(self).raffles@[j]);
                }
            }
        }
        Settlement { raffle_id, creator, payout, winner, prize }
    }

    /// Enters `caller`, who pays `deposit`, into raffle `raffle_id`; `height` and
    /// `ledger_seed` are the ledger's current height and randomness, used only
    /// when this entry fills the raffle and the draw takes place.
    pub fn join_raffle(
        &mut self,
        raffle_id: Id,
        caller: String,
        deposit: u128,
        height: u64,
        ledger_seed: [u8; 32],
    ) -> (r: Result<JoinOutcome, RaffleError>)
        requires
            old(self).wf(),
        ensures
            final(self).wf(),
            final(self).next_id == old(self).next_id,
            final(self).raffles@.len() == old(self).raffles@.len(),
            forall|j: int|
                0 <= j < old(self).raffles@.len() && j != raffle_id ==> final(self).raffles@[j]
                    == old(self).raffles@[j],
            forall|j: int|
                0 <= j < old(self).raffles@.len() && old(self).raffles@[j].status == Status::Closed
                    ==> final(self).raffles@[j] == old(self).raffles@[j],
            match join_error(old(self).raffles@, raffle_id, caller@, deposit) {
                Some(e) => {
                    &&& r == Err::<JoinOutcome, RaffleError>(e)
                    &&& final(self).raffles@ == old(self).raffles@
                    &&& final(self).entropy == old(self).entropy
                },
                None => match r {
                    Ok(out) => {
                        let before = old(self).raffles@[raffle_id as int];
                        let after = final(self).raffles@[raffle_id as int];
                        let seed = seed_for(
                            old(self).entropy.last_height,
                            old(self).entropy.seed@,
                            height,
                            ledger_seed@,
                        );
                        let index = index_from_seed(seed, before.participants_number);
                        &&& out.refund == refund_of(deposit, before.ticket_price)
                        &&& after.creator == before.creator
                        &&& after.prize == before.prize
                        &&& after.participants_number == before.participants_number
                        &&& after.ticket_price == before.ticket_price
                        &&& after.participants@ == before.participants@.push(caller)
                        &&& (out.settlement is Some) == (after.participants@.len()
                            == before.participants_number)
                        &&& out.settlement is None ==> {
                            &&& after.status == Status::Opened
                            &&& after.winner is None
                            &&& final(self).entropy == old(self).entropy
                        }
                        &&& out.settlement is Some ==> {
                            let s = out.settlement.unwrap();
                            &&& index < before.participants_number
                            &&& after.status == Status::Closed
                            &&& after.winner == Some(after.participants@[index as int])
                            &&& s.raffle_id == raffle_id
                            &&& s.creator == before.creator
                            &&& s.payout == before.proceeds()
                            &&& s.winner == after.participants@[index as int]
                            &&& s.prize == before.prize
                            &&& final(self).entropy.last_height == height
                            &&& final(self).entropy.seed@ == perturbed(seed)
                        }
                    },
                    Err(_) => false,
                },
            },
    {
        if raffle_id >= self.next_id {
            return Err(RaffleError::NotFound);
        }
        proof {
            assert(self.raffles@.len() == self.raffles.len());
        }
        let i = raffle_id as usize;
        if self.raffles[i].status != Status::Opened {
            return Err(RaffleError::RaffleClosed);
        }
        if caller == self.raffles[i].creator {
            return Err(RaffleError::SelfEntry);
        }
        let price = self.raffles[i].ticket_price;
        if deposit < price {
            return Err(RaffleError::InsufficientPayment);
        }
        let capacity = self.raffles[i].participants_number;
        let entries = self.raffles[i].participants.len() as u64;
        let fills = entries + 1 == capacity as u64;
        if fills && (capacity as u128).checked_mul(price).is_none() {
            return Err(RaffleError::ProceedsOverflow);
        }
        let refund = deposit - price;
        let refund = if refund != 0 {
            Some(refund)
        } else {
            None
        };
        self.raffles[i].participants.push(caller);
        proof {
            assert forall|j: int| 0 <= j < self.raffles@.len() && j != i implies (
            #[trigger] self.raffles@[j]).wf() by {
                assert(self.raffles@[j] == old(self).raffles@[j]);
            }
        }
        if fills {
            let settlement = self.draw(raffle_id, height, ledger_seed);
            Ok(JoinOutcome { refund, settlement: Some(settlement) })
        } else {
            proof {
                assert(self.raffles@[i as int].wf());
            }
            Ok(JoinOutcome { refund, settlement: None })
        }
    }

    /// The open raffles, each with its identifier, in increasing identifier order.
    pub fn active_raffles(&self) -> (r: Vec<(Id, Raffle)>)
        requires
            self.wf(),
        ensures
            r@.len() == open_ids(self.raffles@).len(),
            forall|k: int|
                0 <= k < r@.len() ==> {
                    &&& (#[trigger] r@[k]).0 == open_ids(self.raffles@)[k]
                    &&& r@[k].0 < self.raffles@.len()
                    &&& same_raffle(r@[k].1, self.raffles@[r@[k].0 as int])
                },
    {
        let mut r: Vec<(Id, Raffle)> = Vec::new();
        let n = self.raffles.len();
        let mut i: usize = 0;
        while i < n
            invariant
                n == self.raffles@.len(),
                n == self.next_id,
                i <= n,
                r@.len() == open_ids(self.raffles@.subrange(0, i as int)).len(),
                forall|k: int|
                    0 <= k < r@.len() ==> {
                        &&& (#[trigger] r@[k]).0 == open_ids(self.raffles@.subrange(0, i as int))[k]
                        &&& r@[k].0 < i
                        &&& same_raffle(r@[k].1, self.raffles@[r@[k].0 as int])
                    },
            decreases n - i,
        {
            let ghost prev = r@;
            proof {
                assert(self.raffles@.subrange(0, i + 1).drop_last() =~= self.raffles@.subrange(
                    0,
                    i as int,
                ));
            }
            if self.raffles[i].status == Status::Opened {
                r.push((i as Id, self.raffles[i].duplicate()));
                proof {
                    assert forall|k: int| 0 <= k < r@.len() implies {
                        &&& (#[trigger] r@[k]).0 == open_ids(self.raffles@.subrange(0, i + 1))[k]
                        &&& r@[k].0 < i + 1
                        &&& same_raffle(r@[k].1, self.raffles@[r@[k].0 as int])
                    } by {
                        if k < prev.len() {
                            assert(r@[k] == prev[k]);
                        }
                    }
                }
            }
            i = i + 1;
        }
        proof {
            assert(self.raffles@.subrange(0, n as int) =~= self.raffles@);
        }
        r
    }

    /// The raffle with identifier `raffle_id`.
    pub fn get_raffle_by_id(&self, raffle_id: Id) -> (r: Result<Raffle, RaffleError>)
        requires
            self.wf(),
        ensures
            raffle_id >= self.raffles@.len() ==> r == Err::<Raffle, RaffleError>(
                RaffleError::NotFound,
            ),
            raffle_id < self.raffles@.len() ==> match r {
                Ok(v) => same_raffle(v, self.raffles@[raffle_id as int]),
                Err(_) => false,
            },
    {
        if raffle_id >= self.next_id {
            return Err(RaffleError::NotFound);
        }
        proof {
            assert(self.raffles@.len() == self.raffles.len());
        }
        Ok(self.raffles[raffle_id as usize].duplicate())
    }

    /// Identifier that the next raffle opened will get; also the number of raffles.
    pub fn next_id(&self) -> (r: Id)
        requires
            self.wf(),
        ensures
            r as int == self.raffles@.len(),
    {
        self.next_id
    }
}

/// In a well-formed registry every raffle has a winner exactly when it is closed.
pub proof fn lemma_winner_iff_closed(c: Contract, id: Id)
    requires
        c.wf(),
        id < c.raffles@.len(),
    ensures
        c.raffles@[id as int].winner is Some <==> c.raffles@[id as int].status == Status::Closed,
{
    assert(c.raffles@[id as int].wf());
}

/// In a well-formed registry no raffle holds more entries than its capacity.
pub proof fn lemma_entries_within_capacity(c: Contract, id: Id)
    requires
        c.wf(),
        id < c.raffles@.len(),
    ensures
        c.raffles@[id as int].participants@.len() <= c.raffles@[id as int].participants_number,
{
    assert(c.raffles@[id as int].wf());
}

/// A closed raffle refuses every entry: the draw of a raffle happens once.
pub proof fn lemma_closed_raffle_refuses_entries(
    rs: Seq<Raffle>,
    id: Id,
    caller: Seq<char>,
    deposit: u128,
)
    requires
        id < rs.len(),
        rs[id as int].status == Status::Closed,
    ensures
        join_error(rs, id, caller, deposit) == Some(RaffleError::RaffleClosed),
{
}

} // verus!
