//! A pooled-stake competition round: deposits aggregate into a prize pool,
//! participants are scored, the best tenth (rounded up) share nine tenths of
//! the pool, a tenth is set aside for burning, and the round is reset for reuse.
pub mod state;
pub mod payout;
pub mod ranking;
pub mod engine;

pub use state::{
    DepositEvent, GameResetEvent, GameState, Player, Pubkey, RumbleError,
    TradingEvaluationEvent, WinnersSelectedEvent,
};
pub use payout::{split_prize, winner_count};
pub use ranking::rank_by_score;
pub use engine::{deposit, evaluate_trading_activity, initialize, reset_game, select_winners};

