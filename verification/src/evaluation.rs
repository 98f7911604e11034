//! Static evaluation of a position, from the first player's side.
use vstd::prelude::*;
use crate::cost::{Tokens, zero_tokens};
use crate::card::Card;
use crate::player::{card_score_of, token_score_of, token_score_fits, PlayerView};
use crate::state::{State, StateView, Score, SCORE_TO_WIN};

verus! {

/// For each color, the largest amount any of the nobles asks for.
pub open spec fn noble_demand(nobles: Seq<Card>) -> Tokens
    decreases nobles.len(),
{
    if nobles.len() == 0 {
        zero_tokens()
    } else {
        noble_demand(nobles.drop_last()).max_spec(nobles.last().cost)
    }
}

/// The bonus for winning or losing: a million for a win of the first player,
/// minus a million for a loss.
pub open spec fn outcome_bonus(player_score: int, adversary_score: int) -> int {
    if player_score >= SCORE_TO_WIN {
        if player_score < adversary_score {
            -1000000
        } else {
            1000000
        }
    } else if adversary_score >= SCORE_TO_WIN {
        -1000000
    } else {
        0
    }
}

/// The evaluation of a position from the first player's side: 3000 per point
/// of prestige lead, the outcome bonus, the difference of card scores (against
/// the nobles' demand) and of token scores, and 20 per card the adversary
/// holds in reserve beyond the player.
pub open spec fn score_spec(s: StateView) -> int {
    let mult = noble_demand(s.nobles);
    let ps = s.player.points() as int;
    let ads = s.adversary.points() as int;
    (ps - ads) * 3000 + outcome_bonus(ps, ads) + card_score_of(s.player.cards, mult) - card_score_of(
        s.adversary.cards,
        mult,
    ) + token_score_of(s.player.tokens) - token_score_of(s.adversary.tokens) - s.player.reserved.len()
        * 20 + s.adversary.reserved.len() * 20
}

/// A player's holdings stay within the limits under which evaluation is
/// computed; the card limits (2^40 cards) lie beyond any memory.
pub open spec fn player_fits(p: PlayerView) -> bool {
    &&& p.points() <= u8::MAX
    &&& token_score_fits(p.tokens)
    &&& p.cards.len() <= 0x100_0000_0000int
    &&& p.reserved.len() <= 0x100_0000_0000int
}

proof fn lemma_card_score_bound(cards: Seq<Card>, nb: Tokens)
    ensures
        0 <= card_score_of(cards, nb) <= cards.len() * 26250,
    decreases cards.len(),
{
    if cards.len() > 0 {
        lemma_card_score_bound(cards.drop_last(), nb);
        let c = cards.last().color;
        assert(nb.of(c) <= 255);
    }
}

impl State {
    /// The evaluation of the position from the first player's side.
    pub fn score(&self) -> (r: Score)
        requires
            player_fits(self.player@),
            player_fits(self.adversary@),
        ensures
            r == score_spec(self@),
    {
        let mut card_multiplier = Tokens::empty();
        let mut i: usize = 0;
        while i < self.nobles.len()
            invariant
                i <= self.nobles@.len(),
                card_multiplier == noble_demand(self.nobles@.take(i as int)),
            decreases self.nobles@.len() - i,
        {
            assert(self.nobles@.take(i + 1).drop_last() =~= self.nobles@.take(i as int));
            card_multiplier = card_multiplier.max(&self.nobles[i].cost);
            i = i + 1;
        }
        assert(self.nobles@.take(i as int) =~= self.nobles@);
        proof {
            lemma_card_score_bound(self.player@.cards, card_multiplier);
            lemma_card_score_bound(self.adversary@.cards, card_multiplier);
        }
        let player_score = self.player.score();
        let adversary_score = self.adversary.score();
        let mut score: Score = (player_score as Score - adversary_score as Score) * 3000;
        if player_score >= SCORE_TO_WIN {
            if player_score < adversary_score {
                score = score - 1000000;
            } else {
                score = score + 1000000;
            }
        } else if adversary_score >= SCORE_TO_WIN {
            score = score - 1000000;
        }
        score = score + self.player.card_score(&card_multiplier);
        score = score - self.adversary.card_score(&card_multiplier);
        score = score + self.player.token_score();
        score = score - self.adversary.token_score();
        score = score - self.player.reserved.len() as Score * 20;
        score = score + self.adversary.reserved.len() as Score * 20;
        score
    }
}

} // verus!
