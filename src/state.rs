use vstd::prelude::*;

verus! {

/// A 32-byte account identity; two identities are the same when their bytes are.
#[derive(Clone, Copy, Debug)]
pub struct Pubkey {
    pub bytes: [u8; 32],
}

impl View for Pubkey {
    type V = Seq<u8>;

    open spec fn view(&self) -> Seq<u8> {
        self.bytes@
    }
}

impl Pubkey {
    pub fn new(bytes: [u8; 32]) -> (r: Pubkey)
        ensures
            r@ == bytes@,
    {
        Pubkey { bytes }
    }

    /// Byte-wise identity comparison.
    pub fn same_as(&self, other: &Pubkey) -> (r: bool)
        ensures
            r == (self@ == other@),
    {
        let mut i: usize = 0;
        while i < 32
            invariant
                0 <= i <= 32,
                self@.len() == 32,
                other@.len() == 32,
                forall|j: int| 0 <= j < i ==> self@[j] == other@[j],
            decreases 32 - i,
        {
            if self.bytes[i] != other.bytes[i] {
                return false;
            }
            i = i + 1;
        }
        proof {
            assert(self@ =~= other@);
        }
        true
    }
}

/// One participant of the current round.
#[derive(Clone, Copy, Debug)]
pub struct Player {
    pub key: Pubkey,
    pub deposit: u64,
    pub trading_score: u32,
    pub last_active: i64,
}

/// The round record.
#[derive(Clone, Debug)]
pub struct GameState {
    pub total_deposits: u64,
    pub prize_pool: u64,
    pub active: bool,
    pub players: Vec<Player>,
    pub winners: Vec<Player>,
    pub game_id: Pubkey,
}

/// Emitted by an accepted deposit.
#[derive(Clone, Copy, Debug)]
pub struct DepositEvent {
    pub player: Pubkey,
    pub amount: u64,
    pub timestamp: i64,
}

/// Emitted once per call that records scores.
#[derive(Clone, Copy, Debug)]
pub struct TradingEvaluationEvent {
    pub game_id: Pubkey,
    pub timestamp: i64,
}

/// Emitted by a settlement: who won, what each is paid, what is burned.
#[derive(Clone, Debug)]
pub struct WinnersSelectedEvent {
    pub game_id: Pubkey,
    pub winners: Vec<Pubkey>,
    pub prize_per_winner: u64,
    pub buyback_amount: u64,
    pub timestamp: i64,
}

/// Emitted by a reset.
#[derive(Clone, Copy, Debug)]
pub struct GameResetEvent {
    pub game_id: Pubkey,
    pub timestamp: i64,
}

#[derive(Clone, Copy, Debug, PartialEq, Eq, Structural)]
pub enum RumbleError {
    /// A deposit of zero.
    InvalidAmount,
    /// Settlement attempted with an empty pool.
    NoDeposits,
    /// Settlement attempted on a round that is already settled.
    RoundAlreadyActive,
    /// An addition of deposits would exceed `u64`.
    Overflow,
    /// Defensive guard on the per-winner division.
    DivisionByZero,
    /// A winner's receiving account was not supplied.
    WinnerAccountNotFound,
    /// Reset attempted on a round that is not settled.
    RoundNotActive,
    /// The burn of the buyback share was rejected.
    BurnFailed,
}

/// Sum of the deposits held by `s`.
pub open spec fn sum_deposits(s: Seq<Player>) -> int
    decreases s.len(),
{
    if s.len() == 0 {
        0
    } else {
        sum_deposits(s.drop_last()) + s.last().deposit
    }
}

/// No identity occurs twice.
pub open spec fn keys_unique(s: Seq<Player>) -> bool {
    forall|i: int, j: int| 0 <= i < j < s.len() ==> s[i].key@ != s[j].key@
}

/// Some entry of `s` has identity `k`.
pub open spec fn has_key(s: Seq<Player>, k: Seq<u8>) -> bool {
    exists|i: int| 0 <= i < s.len() && s[i].key@ == k
}

impl GameState {
    /// The round invariant: identities unique, the pool mirrors the deposit
    /// total, and while the round is open the total is the sum of the
    /// participants' deposits and no winners are recorded.
    pub open spec fn wf(&self) -> bool {
        &&& keys_unique(self.players@)
        &&& self.prize_pool == self.total_deposits
        &&& !self.active ==> self.total_deposits == sum_deposits(self.players@)
        &&& !self.active ==> self.winners@.len() == 0
    }
}

impl GameState {
    /// Decides the round invariant, for records that come from storage.
    pub fn is_well_formed(&self) -> (r: bool)
        ensures
            r == self.wf(),
    {
        if self.prize_pool != self.total_deposits {
            return false;
        }
        if !self.active {
            if self.winners.len() != 0 {
                return false;
            }
            let mut acc: u128 = 0;
            let mut i: usize = 0;
            while i < self.players.len()
                invariant
                    0 <= i <= self.players@.len(),
                    acc == sum_deposits(self.players@.take(i as int)),
                    acc <= i * 0xFFFF_FFFF_FFFF_FFFFu128,
                decreases self.players@.len() - i,
            {
                proof {
                    assert(self.players@.take(i + 1).drop_last() =~= self.players@.take(i as int));
                }
                acc = acc + self.players[i].deposit as u128;
                i = i + 1;
            }
            proof {
                assert(self.players@.take(self.players@.len() as int) =~= self.players@);
            }
            if acc != self.total_deposits as u128 {
                return false;
            }
        }
        let n = self.players.len();
        let mut i: usize = 0;
        while i < n
            invariant
                0 <= i <= n,
                n == self.players@.len(),
                forall|a: int, b: int| 0 <= a < i && a < b < n ==> self.players@[a].key@ != self.players@[b].key@,
            decreases n - i,
        {
            let mut j: usize = i + 1;
            while j < n
                invariant
                    i < n,
                    i + 1 <= j <= n,
                    n == self.players@.len(),
                    forall|a: int, b: int| 0 <= a < i && a < b < n ==> self.players@[a].key@ != self.players@[b].key@,
                    forall|b: int| i < b < j ==> self.players@[i as int].key@ != self.players@[b].key@,
                decreases n - j,
            {
                if self.players[i].key.same_as(&self.players[j].key) {
                    return false;
                }
                j = j + 1;
            }
            i = i + 1;
        }
        true
    }
}

pub proof fn lemma_sum_push(s: Seq<Player>, p: Player)
    ensures
        sum_deposits(s.push(p)) == sum_deposits(s) + p.deposit,
{
    assert(s.push(p).drop_last() =~= s);
}

pub proof fn lemma_sum_update(s: Seq<Player>, i: int, p: Player)
    requires
        0 <= i < s.len(),
    ensures
        sum_deposits(s.update(i, p)) == sum_deposits(s) - s[i].deposit + p.deposit,
    decreases s.len(),
{
    let t = s.update(i, p);
    if i == s.len() - 1 {
        assert(t.drop_last() =~= s.drop_last());
    } else {
        assert(t.drop_last() =~= s.drop_last().update(i, p));
        lemma_sum_update(s.drop_last(), i, p);
    }
}

pub proof fn lemma_sum_same_deposits(s: Seq<Player>, t: Seq<Player>)
    requires
        s.len() == t.len(),
        forall|i: int| 0 <= i < s.len() ==> (#[trigger] s[i]).deposit == t[i].deposit,
    ensures
        sum_deposits(s) == sum_deposits(t),
    decreases s.len(),
{
    if s.len() > 0 {
        lemma_sum_same_deposits(s.drop_last(), t.drop_last());
    }
}

pub proof fn lemma_sum_positive_nonempty(s: Seq<Player>)
    requires
        sum_deposits(s) > 0,
    ensures
        s.len() > 0,
{
}

} // verus!
