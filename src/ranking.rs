use vstd::prelude::*;
use crate::state::Player;

verus! {

/// Inserts `p` into `s` (ordered by descending score) after every entry whose
/// score is at least `p`'s, so that equal scores keep their arrival order.
pub open spec fn insert_by_score(s: Seq<Player>, p: Player) -> Seq<Player>
    decreases s.len(),
{
    if s.len() == 0 {
        seq![p]
    } else if s[0].trading_score < p.trading_score {
        seq![p] + s
    } else {
        seq![s[0]] + insert_by_score(s.drop_first(), p)
    }
}

/// The stable ordering of `s` by descending score: entries with equal scores
/// appear in the order they have in `s`.
pub open spec fn ranked(s: Seq<Player>) -> Seq<Player>
    decreases s.len(),
{
    if s.len() == 0 {
        Seq::empty()
    } else {
        insert_by_score(ranked(s.drop_last()), s.last())
    }
}

pub proof fn lemma_insert_at(s: Seq<Player>, p: Player, pos: int)
    requires
        0 <= pos <= s.len(),
        forall|j: int| 0 <= j < pos ==> s[j].trading_score >= p.trading_score,
        pos < s.len() ==> s[pos].trading_score < p.trading_score,
    ensures
        insert_by_score(s, p) == s.insert(pos, p),
    decreases pos,
{
    if pos == 0 {
        assert(insert_by_score(s, p) =~= s.insert(0, p));
    } else {
        let t = s.drop_first();
        lemma_insert_at(t, p, pos - 1);
        assert(insert_by_score(s, p) =~= s.insert(pos, p));
    }
}

pub proof fn lemma_ranked_len(s: Seq<Player>)
    ensures
        ranked(s).len() == s.len(),
    decreases s.len(),
{
    if s.len() > 0 {
        lemma_ranked_len(s.drop_last());
        lemma_insert_len(ranked(s.drop_last()), s.last());
    }
}

pub proof fn lemma_insert_len(s: Seq<Player>, p: Player)
    ensures
        insert_by_score(s, p).len() == s.len() + 1,
    decreases s.len(),
{
    if s.len() > 0 {
        lemma_insert_len(s.drop_first(), p);
    }
}

/// A copy of `players` in stable descending order of score.
pub fn rank_by_score(players: &Vec<Player>) -> (r: Vec<Player>)
    ensures
        r@ == ranked(players@),
{
    let mut out: Vec<Player> = Vec::new();
    let mut i: usize = 0;
    while i < players.len()
        invariant
            0 <= i <= players.len(),
            out@ == ranked(players@.subrange(0, i as int)),
        decreases players.len() - i,
    {
        let p = players[i];
        let mut pos: usize = 0;
        while pos < out.len() && out[pos].trading_score >= p.trading_score
            invariant
                0 <= pos <= out.len(),
                forall|j: int| 0 <= j < pos ==> out@[j].trading_score >= p.trading_score,
            decreases out.len() - pos,
        {
            pos = pos + 1;
        }
        proof {
            lemma_insert_at(out@, p, pos as int);
            assert(players@.subrange(0, i + 1).drop_last() =~= players@.subrange(0, i as int));
        }
        out.insert(pos, p);
        i = i + 1;
    }
    assert(players@.subrange(0, players@.len() as int) =~= players@);
    out
}

} // verus!
