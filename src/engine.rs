use vstd::prelude::*;
use crate::payout::{burn_share_spec, split_prize, winner_count, winner_count_spec, winner_share_spec};
use crate::ranking::{lemma_ranked_len, rank_by_score, ranked};
use crate::state::{
    has_key, keys_unique, lemma_sum_positive_nonempty, lemma_sum_push, lemma_sum_same_deposits,
    lemma_sum_update, DepositEvent, GameResetEvent, GameState, Player, Pubkey,
    RumbleError, TradingEvaluationEvent, WinnersSelectedEvent,
};

verus! {

/// The winners of a settlement: the first tenth (rounded up) of the stable
/// descending ranking by score.
pub open spec fn selected(players: Seq<Player>) -> Seq<Player> {
    ranked(players).take(winner_count_spec(players.len() as int))
}

/// Some entry of `accounts` has identity `key`.
pub open spec fn has_account(accounts: Seq<Pubkey>, key: Seq<u8>) -> bool {
    exists|j: int| 0 <= j < accounts.len() && (#[trigger] accounts[j])@ == key
}

/// Every winner has a receiving account among `accounts`.
pub open spec fn accounts_known(winners: Seq<Player>, accounts: Seq<Pubkey>) -> bool {
    forall|i: int| 0 <= i < winners.len() ==> has_account(accounts, (#[trigger] winners[i]).key@)
}

fn contains_key(accounts: &Vec<Pubkey>, key: &Pubkey) -> (r: bool)
    ensures
        r == has_account(accounts@, key@),
{
    let mut j: usize = 0;
    while j < accounts.len()
        invariant
            0 <= j <= accounts.len(),
            forall|m: int| 0 <= m < j ==> (#[trigger] accounts@[m])@ != key@,
        decreases accounts.len() - j,
    {
        if accounts[j].same_as(key) {
            return true;
        }
        j = j + 1;
    }
    false
}

/// Settles an open round. The winners are the first `ceil(n / 10)` of the
/// stable descending ranking by score; each is paid an equal part of nine
/// tenths of the pool and a tenth is set aside for burning. Every winner's
/// receiving account must be among `winner_accounts`, checked before anything
/// changes; on any error the round is left exactly as it was.
pub fn select_winners(
    game_state: &mut GameState,
    winner_accounts: &Vec<Pubkey>,
    now: i64,
) -> (r: Result<WinnersSelectedEvent, RumbleError>)
    requires
        old(game_state).wf(),
    ensures
        final(game_state).wf(),
        old(game_state).total_deposits == 0 ==> r == Err::<WinnersSelectedEvent, RumbleError>(
            RumbleError::NoDeposits,
        ),
        old(game_state).total_deposits > 0 && old(game_state).active ==> r == Err::<
            WinnersSelectedEvent,
            RumbleError,
        >(RumbleError::RoundAlreadyActive),
        old(game_state).total_deposits > 0 && !old(game_state).active && !accounts_known(
            selected(old(game_state).players@),
            winner_accounts@,
        ) ==> r == Err::<WinnersSelectedEvent, RumbleError>(RumbleError::WinnerAccountNotFound),
        old(game_state).total_deposits > 0 && !old(game_state).active && accounts_known(
            selected(old(game_state).players@),
            winner_accounts@,
        ) ==> r is Ok,
        r is Err ==> *final(game_state) == *old(game_state),
        r is Ok ==> {
            let n = old(game_state).players@.len() as int;
            let w = selected(old(game_state).players@);
            let e = r->Ok_0;
            &&& final(game_state).winners@ == w
            &&& w.len() == winner_count_spec(n)
            &&& final(game_state).players@ == old(game_state).players@
            &&& final(game_state).total_deposits == 0
            &&& final(game_state).prize_pool == 0
            &&& final(game_state).active
            &&& final(game_state).game_id == old(game_state).game_id
            &&& e.game_id == old(game_state).game_id
            &&& e.winners@ == w.map_values(|p: Player| p.key)
            &&& e.prize_per_winner == winner_share_spec(old(game_state).prize_pool as int)
                / winner_count_spec(n)
            &&& e.buyback_amount == burn_share_spec(old(game_state).prize_pool as int)
            &&& e.timestamp == now
        },
{
    if game_state.total_deposits == 0 {
        return Err(RumbleError::NoDeposits);
    }
    if game_state.active {
        return Err(RumbleError::RoundAlreadyActive);
    }
    let ghost players = game_state.players@;
    proof {
        lemma_sum_positive_nonempty(players);
        lemma_ranked_len(players);
    }
    let total_players = game_state.players.len();
    let num_winners = winner_count(total_players);
    let sorted = rank_by_score(&game_state.players);

    let mut winners: Vec<Player> = Vec::new();
    let mut keys: Vec<Pubkey> = Vec::new();
    let mut i: usize = 0;
    while i < num_winners
        invariant
            0 <= i <= num_winners <= sorted@.len(),
            *game_state == *old(game_state),
            old(game_state).wf(),
            old(game_state).total_deposits > 0,
            !old(game_state).active,
            players == old(game_state).players@,
            winners@ == sorted@.take(i as int),
            keys@ == sorted@.take(i as int).map_values(|p: Player| p.key),
        decreases num_winners - i,
    {
        let p = sorted[i];
        winners.push(p);
        keys.push(p.key);
        proof {
            assert(sorted@.take(i + 1) =~= sorted@.take(i as int).push(p));
            assert(sorted@.take(i + 1).map_values(|p: Player| p.key) =~= sorted@.take(
                i as int,
            ).map_values(|p: Player| p.key).push(p.key));
        }
        i = i + 1;
    }

    let (prize_for_winners, buyback_amount) = split_prize(game_state.prize_pool);
    if num_winners == 0 {
        return Err(RumbleError::DivisionByZero);
    }
    let prize_per_winner = prize_for_winners / (num_winners as u64);

    let mut k: usize = 0;
    while k < num_winners
        invariant
            0 <= k <= num_winners,
            *game_state == *old(game_state),
            old(game_state).wf(),
            old(game_state).total_deposits > 0,
            !old(game_state).active,
            players == old(game_state).players@,
            winners@ == selected(players),
            winners@.len() == num_winners,
            forall|m: int| 0 <= m < k ==> has_account(winner_accounts@, (#[trigger] winners@[m]).key@),
        decreases num_winners - k,
    {
        if !contains_key(winner_accounts, &winners[k].key) {
            assert(!has_account(winner_accounts@, winners@[k as int].key@));
            return Err(RumbleError::WinnerAccountNotFound);
        }
        k = k + 1;
    }

    game_state.winners = winners;
    game_state.total_deposits = 0;
    game_state.prize_pool = 0;
    game_state.active = true;
    Ok(
        WinnersSelectedEvent {
            game_id: game_state.game_id,
            winners: keys,
            prize_per_winner,
            buyback_amount,
            timestamp: now,
        },
    )
}


/// A fresh round: no deposits, no participants, no winners, not settled.
pub fn initialize(game_id: Pubkey) -> (r: GameState)
    ensures
        r.wf(),
        r.total_deposits == 0,
        r.prize_pool == 0,
        !r.active,
        r.players@.len() == 0,
        r.winners@.len() == 0,
        r.game_id == game_id,
{
    GameState {
        total_deposits: 0,
        prize_pool: 0,
        active: false,
        players: Vec::new(),
        winners: Vec::new(),
        game_id,
    }
}

/// The index of the entry of `s` with identity `k`, given that there is one.
pub open spec fn key_index(s: Seq<Player>, k: Seq<u8>) -> int {
    choose|i: int| 0 <= i < s.len() && s[i].key@ == k
}

/// Whether a deposit of `amount` by `k` would take the total, or `k`'s own
/// deposit, past `u64::MAX`.
pub open spec fn deposit_overflows(g: GameState, k: Pubkey, amount: u64) -> bool {
    ||| g.total_deposits + amount > u64::MAX
    ||| has_key(g.players@, k@) && g.players@[key_index(g.players@, k@)].deposit + amount > u64::MAX
}

/// The participants after `k` deposits `amount` at time `now`: an existing
/// entry has its deposit raised, otherwise a new unscored entry is appended.
pub open spec fn deposited(s: Seq<Player>, k: Pubkey, amount: u64, now: i64) -> Seq<Player> {
    if has_key(s, k@) {
        let i = key_index(s, k@);
        s.update(i, Player { deposit: (s[i].deposit + amount) as u64, ..s[i] })
    } else {
        s.push(Player { key: k, deposit: amount, trading_score: 0, last_active: now })
    }
}

fn find_player(players: &Vec<Player>, key: &Pubkey) -> (r: Option<usize>)
    ensures
        r is Some ==> r->Some_0 < players@.len() && players@[r->Some_0 as int].key@ == key@,
        r is None ==> !has_key(players@, key@),
{
    let mut i: usize = 0;
    while i < players.len()
        invariant
            0 <= i <= players.len(),
            forall|j: int| 0 <= j < i ==> players@[j].key@ != key@,
        decreases players.len() - i,
    {
        if players[i].key.same_as(key) {
            return Some(i);
        }
        i = i + 1;
    }
    None
}

/// Records a deposit of `amount` by `player` at time `now`. The total and the
/// pool grow by `amount`; a zero amount or an addition past `u64::MAX` is
/// refused and leaves the round unchanged.
pub fn deposit(game_state: &mut GameState, player: Pubkey, amount: u64, now: i64) -> (r: Result<
    DepositEvent,
    RumbleError,
>)
    requires
        old(game_state).wf(),
    ensures
        final(game_state).wf(),
        amount == 0 ==> r == Err::<DepositEvent, RumbleError>(RumbleError::InvalidAmount),
        amount > 0 && deposit_overflows(*old(game_state), player, amount) ==> r == Err::<
            DepositEvent,
            RumbleError,
        >(RumbleError::Overflow),
        amount > 0 && !deposit_overflows(*old(game_state), player, amount) ==> r == Ok::<
            DepositEvent,
            RumbleError,
        >((DepositEvent { player, amount, timestamp: now })),
        r is Err ==> *final(game_state) == *old(game_state),
        r is Ok ==> {
            &&& final(game_state).players@ == deposited(old(game_state).players@, player, amount, now)
            &&& final(game_state).total_deposits == old(game_state).total_deposits + amount
            &&& final(game_state).prize_pool == final(game_state).total_deposits
            &&& final(game_state).active == old(game_state).active
            &&& final(game_state).winners == old(game_state).winners
            &&& final(game_state).game_id == old(game_state).game_id
        },
{
    if amount == 0 {
        return Err(RumbleError::InvalidAmount);
    }
    if game_state.total_deposits > u64::MAX - amount {
        return Err(RumbleError::Overflow);
    }
    let ghost s = game_state.players@;
    match find_player(&game_state.players, &player) {
        Some(i) => {
            proof {
                assert(key_index(s, player@) == i);
            }
            let mut existing = game_state.players[i];
            if existing.deposit > u64::MAX - amount {
                return Err(RumbleError::Overflow);
            }
            existing.deposit = existing.deposit + amount;
            proof {
                lemma_sum_update(s, i as int, existing);
                assert(existing == (Player { deposit: (s[i as int].deposit + amount) as u64, ..s[i as int] }));
            }
            game_state.players.set(i, existing);
            proof {
                assert forall|a: int, b: int| 0 <= a < b < game_state.players@.len() implies game_state.players@[a].key@ != game_state.players@[b].key@ by {
                    assert(game_state.players@[a].key@ == s[a].key@);
                    assert(game_state.players@[b].key@ == s[b].key@);
                }
            }
        },
        None => {
            let p = Player { key: player, deposit: amount, trading_score: 0, last_active: now };
            proof {
                lemma_sum_push(s, p);
            }
            game_state.players.push(p);
            proof {
                assert forall|a: int, b: int| 0 <= a < b < game_state.players@.len() implies game_state.players@[a].key@ != game_state.players@[b].key@ by {
                    if b == s.len() {
                        assert(s[a].key@ != player@);
                    }
                }
            }
        },
    }
    game_state.total_deposits = game_state.total_deposits + amount;
    game_state.prize_pool = game_state.total_deposits;
    Ok(DepositEvent { player, amount, timestamp: now })
}

/// The score last given to identity `k` in `scores`, if any.
pub open spec fn last_score(k: Seq<u8>, scores: Seq<(Pubkey, u32)>) -> Option<u32>
    decreases scores.len(),
{
    if scores.len() == 0 {
        None
    } else if scores.last().0@ == k {
        Some(scores.last().1)
    } else {
        last_score(k, scores.drop_last())
    }
}

/// `p` after `scores` are recorded at time `now`: if `scores` names it, its
/// score becomes the last one given and it is marked active at `now`.
pub open spec fn scored(p: Player, scores: Seq<(Pubkey, u32)>, now: i64) -> Player {
    match last_score(p.key@, scores) {
        Some(v) => Player { trading_score: v, last_active: now, ..p },
        None => p,
    }
}

/// Recording the same scores a second time leaves every score, identity and
/// deposit as the first recording left it; only activity times may move.
pub proof fn lemma_scoring_idempotent(
    s: Seq<Player>,
    scores: Seq<(Pubkey, u32)>,
    first: i64,
    second: i64,
)
    ensures
        ({
            let once = s.map_values(|p: Player| scored(p, scores, first));
            let twice = once.map_values(|p: Player| scored(p, scores, second));
            &&& twice.len() == once.len()
            &&& forall|i: int|
                0 <= i < once.len() ==> {
                    &&& (#[trigger] twice[i]).trading_score == once[i].trading_score
                    &&& twice[i].key == once[i].key
                    &&& twice[i].deposit == once[i].deposit
                }
        }),
{
}

/// Records off-chain scores at time `now`. Each participant named in `scores`
/// takes the last score given to it there; names of non-participants are
/// ignored. Nothing else in the round changes.
pub fn evaluate_trading_activity(
    game_state: &mut GameState,
    scores: &Vec<(Pubkey, u32)>,
    now: i64,
) -> (r: TradingEvaluationEvent)
    requires
        old(game_state).wf(),
    ensures
        final(game_state).wf(),
        final(game_state).players@ == old(game_state).players@.map_values(
            |p: Player| scored(p, scores@, now),
        ),
        final(game_state).total_deposits == old(game_state).total_deposits,
        final(game_state).prize_pool == old(game_state).prize_pool,
        final(game_state).active == old(game_state).active,
        final(game_state).winners == old(game_state).winners,
        final(game_state).game_id == old(game_state).game_id,
        r == (TradingEvaluationEvent { game_id: old(game_state).game_id, timestamp: now }),
{
    let ghost s = game_state.players@;
    let n = game_state.players.len();
    let mut i: usize = 0;
    while i < n
        invariant
            0 <= i <= n,
            n == s.len(),
            game_state.players@.len() == n,
            forall|j: int| 0 <= j < i ==> game_state.players@[j] == scored(s[j], scores@, now),
            forall|j: int| i <= j < n ==> game_state.players@[j] == s[j],
            game_state.total_deposits == old(game_state).total_deposits,
            game_state.prize_pool == old(game_state).prize_pool,
            game_state.active == old(game_state).active,
            game_state.winners == old(game_state).winners,
            game_state.game_id == old(game_state).game_id,
            s == old(game_state).players@,
        decreases n - i,
    {
        let mut p = game_state.players[i];
        let mut found: Option<u32> = None;
        let mut j: usize = 0;
        while j < scores.len()
            invariant
                0 <= j <= scores@.len(),
                p == s[i as int],
                found == last_score(p.key@, scores@.take(j as int)),
            decreases scores@.len() - j,
        {
            let (k, v) = scores[j];
            proof {
                assert(scores@.take(j + 1).drop_last() =~= scores@.take(j as int));
            }
            if k.same_as(&p.key) {
                found = Some(v);
            }
            j = j + 1;
        }
        proof {
            assert(scores@.take(scores@.len() as int) =~= scores@);
        }
        if let Some(v) = found {
            p.trading_score = v;
            p.last_active = now;
        }
        game_state.players.set(i, p);
        i = i + 1;
    }
    proof {
        assert(game_state.players@ =~= s.map_values(|p: Player| scored(p, scores@, now)));
        lemma_sum_same_deposits(s, game_state.players@);
        assert forall|a: int, b: int| 0 <= a < b < game_state.players@.len() implies game_state.players@[a].key@ != game_state.players@[b].key@ by {
            assert(keys_unique(s));
        }
    }
    TradingEvaluationEvent { game_id: game_state.game_id, timestamp: now }
}

/// Reopens a settled round: participants and winners are cleared and the
/// totals zeroed; the round identity is kept. Refused on a round that is not
/// settled, which is then left unchanged.
pub fn reset_game(game_state: &mut GameState, now: i64) -> (r: Result<GameResetEvent, RumbleError>)
    requires
        old(game_state).wf(),
    ensures
        final(game_state).wf(),
        !old(game_state).active ==> r == Err::<GameResetEvent, RumbleError>(
            RumbleError::RoundNotActive,
        ) && *final(game_state) == *old(game_state),
        old(game_state).active ==> {
            &&& r == Ok::<GameResetEvent, RumbleError>(
                (GameResetEvent { game_id: old(game_state).game_id, timestamp: now }),
            )
            &&& !final(game_state).active
            &&& final(game_state).players@.len() == 0
            &&& final(game_state).winners@.len() == 0
            &&& final(game_state).total_deposits == 0
            &&& final(game_state).prize_pool == 0
            &&& final(game_state).game_id == old(game_state).game_id
        },
{
    if !game_state.active {
        return Err(RumbleError::RoundNotActive);
    }
    game_state.active = false;
    game_state.players = Vec::new();
    game_state.winners = Vec::new();
    game_state.total_deposits = 0;
    game_state.prize_pool = 0;
    Ok(GameResetEvent { game_id: game_state.game_id, timestamp: now })
}

} // verus!
