use rumble::{
    deposit, evaluate_trading_activity, initialize, rank_by_score, reset_game, select_winners,
    split_prize, winner_count, GameState, Player, Pubkey, RumbleError,
};

fn key(b: u8) -> Pubkey {
    Pubkey::new([b; 32])
}

fn fresh() -> GameState {
    initialize(key(200))
}

fn keys_of(players: &[Player]) -> Vec<[u8; 32]> {
    players.iter().map(|p| p.key.bytes).collect()
}

#[test]
fn initialize_starts_empty() {
    let g = fresh();
    assert_eq!(g.total_deposits, 0);
    assert_eq!(g.prize_pool, 0);
    assert!(!g.active);
    assert!(g.players.is_empty());
    assert!(g.winners.is_empty());
    assert_eq!(g.game_id.bytes, [200; 32]);
}

#[test]
fn deposits_aggregate_into_total_and_pool() {
    let mut g = fresh();
    deposit(&mut g, key(1), 10, 5).unwrap();
    deposit(&mut g, key(2), 20, 6).unwrap();
    let ev = deposit(&mut g, key(1), 5, 7).unwrap();
    assert_eq!(ev.amount, 5);
    assert_eq!(ev.timestamp, 7);
    assert_eq!(ev.player.bytes, [1; 32]);
    assert_eq!(g.total_deposits, 35);
    assert_eq!(g.prize_pool, 35);
    assert_eq!(g.players.len(), 2);
    assert_eq!(g.players[0].deposit, 15);
    assert_eq!(g.players[0].last_active, 5);
    assert_eq!(g.players[1].deposit, 20);
    assert_eq!(g.players[1].trading_score, 0);
    let sum: u64 = g.players.iter().map(|p| p.deposit).sum();
    assert_eq!(sum, g.total_deposits);
}

#[test]
fn zero_deposit_is_refused() {
    let mut g = fresh();
    assert_eq!(deposit(&mut g, key(1), 0, 1).unwrap_err(), RumbleError::InvalidAmount);
    assert!(g.players.is_empty());
    assert_eq!(g.total_deposits, 0);
}

#[test]
fn overflowing_deposit_is_refused_and_changes_nothing() {
    let mut g = fresh();
    deposit(&mut g, key(1), u64::MAX - 1, 1).unwrap();
    assert_eq!(deposit(&mut g, key(2), 2, 2).unwrap_err(), RumbleError::Overflow);
    assert_eq!(g.players.len(), 1);
    assert_eq!(g.total_deposits, u64::MAX - 1);
    assert_eq!(g.prize_pool, u64::MAX - 1);
    deposit(&mut g, key(2), 1, 3).unwrap();
    assert_eq!(g.total_deposits, u64::MAX);
}

#[test]
fn scoring_sets_last_score_and_ignores_strangers() {
    let mut g = fresh();
    deposit(&mut g, key(1), 10, 1).unwrap();
    deposit(&mut g, key(2), 10, 1).unwrap();
    let ev = evaluate_trading_activity(&mut g, &vec![(key(1), 4), (key(9), 7), (key(1), 6)], 50);
    assert_eq!(ev.timestamp, 50);
    assert_eq!(ev.game_id.bytes, [200; 32]);
    assert_eq!(g.players.len(), 2);
    assert_eq!(g.players[0].trading_score, 6);
    assert_eq!(g.players[0].last_active, 50);
    assert_eq!(g.players[1].trading_score, 0);
    assert_eq!(g.players[1].last_active, 1);
    assert_eq!(g.total_deposits, 20);
}

#[test]
fn scoring_twice_keeps_scores() {
    let mut g = fresh();
    deposit(&mut g, key(1), 10, 1).unwrap();
    deposit(&mut g, key(2), 10, 1).unwrap();
    let scores = vec![(key(1), 3), (key(2), 8)];
    evaluate_trading_activity(&mut g, &scores, 10);
    let first: Vec<u32> = g.players.iter().map(|p| p.trading_score).collect();
    evaluate_trading_activity(&mut g, &scores, 20);
    let second: Vec<u32> = g.players.iter().map(|p| p.trading_score).collect();
    assert_eq!(first, vec![3, 8]);
    assert_eq!(first, second);
    assert_eq!(g.players[0].last_active, 20);
}

#[test]
fn winner_count_is_a_tenth_rounded_up() {
    assert_eq!(winner_count(0), 0);
    assert_eq!(winner_count(1), 1);
    assert_eq!(winner_count(9), 1);
    assert_eq!(winner_count(10), 1);
    assert_eq!(winner_count(11), 2);
    assert_eq!(winner_count(25), 3);
    assert_eq!(winner_count(70), 7);
}

#[test]
fn settlement_selects_a_tenth_of_participants() {
    let mut g = fresh();
    let mut accounts = Vec::new();
    for b in 1..=11u8 {
        deposit(&mut g, key(b), 1, 0).unwrap();
        accounts.push(key(b));
    }
    let ev = select_winners(&mut g, &accounts, 9).unwrap();
    assert_eq!(ev.winners.len(), 2);
    assert_eq!(g.winners.len(), 2);
}

#[test]
fn equal_scores_keep_insertion_order() {
    let mut g = fresh();
    deposit(&mut g, key(1), 10, 0).unwrap();
    deposit(&mut g, key(2), 10, 0).unwrap();
    deposit(&mut g, key(3), 10, 0).unwrap();
    evaluate_trading_activity(&mut g, &vec![(key(1), 5), (key(2), 5), (key(3), 3)], 1);
    let ranked = rank_by_score(&g.players);
    assert_eq!(keys_of(&ranked[..2]), vec![[1; 32], [2; 32]]);
    assert_eq!(keys_of(&ranked), vec![[1; 32], [2; 32], [3; 32]]);
}

#[test]
fn ranking_orders_by_descending_score() {
    let mut g = fresh();
    for b in 1..=4u8 {
        deposit(&mut g, key(b), 1, 0).unwrap();
    }
    evaluate_trading_activity(&mut g, &vec![(key(1), 1), (key(2), 9), (key(3), 4), (key(4), 9)], 1);
    let ranked = rank_by_score(&g.players);
    assert_eq!(keys_of(&ranked), vec![[2; 32], [4; 32], [3; 32], [1; 32]]);
}

#[test]
fn payout_of_a_thousand_among_three() {
    assert_eq!(split_prize(1000), (900, 100));
    let mut g = fresh();
    let mut accounts = Vec::new();
    for b in 1..=25u8 {
        deposit(&mut g, key(b), 40, 0).unwrap();
        accounts.push(key(b));
    }
    assert_eq!(g.prize_pool, 1000);
    let ev = select_winners(&mut g, &accounts, 3).unwrap();
    assert_eq!(ev.winners.len(), 3);
    assert_eq!(ev.prize_per_winner, 300);
    assert_eq!(ev.buyback_amount, 100);
    assert_eq!(ev.prize_per_winner * ev.winners.len() as u64, 900);
    assert_eq!(ev.timestamp, 3);
}

#[test]
fn truncated_split_leaves_a_residual() {
    let (winners, burn) = split_prize(101);
    assert_eq!(winners, 90);
    assert_eq!(burn, 10);
    assert_eq!(101 - winners - burn, 1);
    let mut g = fresh();
    deposit(&mut g, key(1), 101, 0).unwrap();
    let ev = select_winners(&mut g, &vec![key(1)], 1).unwrap();
    assert_eq!(ev.prize_per_winner, 90);
    assert_eq!(ev.buyback_amount, 10);
}

#[test]
fn split_of_the_largest_pool() {
    let (winners, burn) = split_prize(u64::MAX);
    assert_eq!(winners as u128, (u64::MAX as u128) * 90 / 100);
    assert_eq!(burn as u128, (u64::MAX as u128) * 10 / 100);
}

#[test]
fn settlement_zeroes_totals_and_activates() {
    let mut g = fresh();
    deposit(&mut g, key(1), 30, 0).unwrap();
    deposit(&mut g, key(2), 70, 0).unwrap();
    evaluate_trading_activity(&mut g, &vec![(key(2), 9)], 1);
    let ev = select_winners(&mut g, &vec![key(2)], 2).unwrap();
    assert!(g.active);
    assert_eq!(g.total_deposits, 0);
    assert_eq!(g.prize_pool, 0);
    assert_eq!(keys_of(&g.winners), vec![[2; 32]]);
    assert_eq!(ev.winners.iter().map(|k| k.bytes).collect::<Vec<_>>(), vec![[2; 32]]);
    assert_eq!(ev.game_id.bytes, [200; 32]);
    assert_eq!(g.players.len(), 2);
}

#[test]
fn settlement_without_deposits_is_refused() {
    let mut g = fresh();
    assert_eq!(select_winners(&mut g, &vec![], 1).unwrap_err(), RumbleError::NoDeposits);
    assert!(!g.active);
}

#[test]
fn settlement_on_settled_round_is_refused() {
    let mut g = fresh();
    deposit(&mut g, key(1), 10, 0).unwrap();
    select_winners(&mut g, &vec![key(1)], 1).unwrap();
    deposit(&mut g, key(2), 5, 2).unwrap();
    let before = g.clone();
    assert_eq!(
        select_winners(&mut g, &vec![key(1), key(2)], 3).unwrap_err(),
        RumbleError::RoundAlreadyActive
    );
    assert_eq!(g.active, before.active);
    assert_eq!(g.total_deposits, before.total_deposits);
    assert_eq!(g.prize_pool, before.prize_pool);
    assert_eq!(keys_of(&g.winners), keys_of(&before.winners));
    assert_eq!(keys_of(&g.players), keys_of(&before.players));
}

#[test]
fn reset_on_open_round_is_refused() {
    let mut g = fresh();
    deposit(&mut g, key(1), 10, 0).unwrap();
    assert_eq!(reset_game(&mut g, 1).unwrap_err(), RumbleError::RoundNotActive);
    assert_eq!(g.players.len(), 1);
    assert_eq!(g.total_deposits, 10);
}

#[test]
fn reset_clears_the_round_and_keeps_its_identity() {
    let mut g = fresh();
    deposit(&mut g, key(1), 10, 0).unwrap();
    deposit(&mut g, key(2), 10, 0).unwrap();
    select_winners(&mut g, &vec![key(1), key(2)], 1).unwrap();
    let ev = reset_game(&mut g, 4).unwrap();
    assert_eq!(ev.timestamp, 4);
    assert_eq!(ev.game_id.bytes, [200; 32]);
    assert!(!g.active);
    assert!(g.players.is_empty());
    assert!(g.winners.is_empty());
    assert_eq!(g.total_deposits, 0);
    assert_eq!(g.prize_pool, 0);
    assert_eq!(g.game_id.bytes, [200; 32]);
    deposit(&mut g, key(3), 8, 5).unwrap();
    assert_eq!(g.prize_pool, 8);
}

#[test]
fn missing_account_of_second_winner_changes_nothing() {
    let mut g = fresh();
    for b in 1..=30u8 {
        deposit(&mut g, key(b), 10, 0).unwrap();
    }
    evaluate_trading_activity(&mut g, &vec![(key(1), 9), (key(2), 8), (key(3), 7)], 1);
    let err = select_winners(&mut g, &vec![key(1), key(3)], 2).unwrap_err();
    assert_eq!(err, RumbleError::WinnerAccountNotFound);
    assert!(!g.active);
    assert_eq!(g.total_deposits, 300);
    assert_eq!(g.prize_pool, 300);
    assert!(g.winners.is_empty());
    let ev = select_winners(&mut g, &vec![key(1), key(2), key(3)], 3).unwrap();
    assert_eq!(ev.prize_per_winner, 90);
    assert_eq!(ev.buyback_amount, 30);
}

#[test]
fn identities_compare_by_bytes() {
    let mut a = [7u8; 32];
    let b = Pubkey::new(a);
    assert!(b.same_as(&Pubkey::new(a)));
    a[31] = 8;
    assert!(!b.same_as(&Pubkey::new(a)));
}

#[test]
fn well_formedness_is_decided() {
    let mut g = fresh();
    deposit(&mut g, key(1), 10, 0).unwrap();
    deposit(&mut g, key(2), 5, 0).unwrap();
    assert!(g.is_well_formed());
    let mut bad_total = g.clone();
    bad_total.total_deposits = 14;
    bad_total.prize_pool = 14;
    assert!(!bad_total.is_well_formed());
    let mut bad_pool = g.clone();
    bad_pool.prize_pool = 3;
    assert!(!bad_pool.is_well_formed());
    let mut dup = g.clone();
    dup.players[1].key = key(1);
    assert!(!dup.is_well_formed());
    select_winners(&mut g, &vec![key(1), key(2)], 1).unwrap();
    assert!(g.is_well_formed());
}
