//! Cards and the canonical, unshuffled deck.

use vstd::prelude::*;

verus! {

broadcast use vstd::seq_lib::group_to_multiset_ensures;

/// Number of distinct ranks (1 = Ace .. 13 = King).
pub const RANKS: u8 = 13;

/// Copies of each rank in a deck (one per suit; suits are not modelled).
pub const COPIES_PER_RANK: u8 = 4;

/// Number of cards in a full deck.
pub const DECK_SIZE: usize = 52;

/// A playing card. Only its rank matters; equality and order are by rank.
#[derive(Debug, Clone, Copy, PartialEq, Eq, Structural, PartialOrd, Ord)]
pub struct Card(pub u8);

impl Card {
    /// The card's rank lies in `1..=13`.
    pub open spec fn wf(self) -> bool {
        1 <= self.0 <= RANKS
    }
}

/// The deck in rank-major order: four copies of rank 1, then of rank 2, and
/// so on up to rank 13.
pub open spec fn canonical_deck() -> Seq<Card> {
    Seq::new(DECK_SIZE as nat, |i: int| Card((i / 4 + 1) as u8))
}

/// How many copies of `rank` stand among the first `n` cards of the
/// canonical deck.
spec fn copies_in_prefix(n: int, rank: int) -> int {
    if n <= 4 * (rank - 1) {
        0
    } else if n >= 4 * rank {
        4
    } else {
        n - 4 * (rank - 1)
    }
}

proof fn lemma_prefix_count(n: int, rank: u8)
    requires
        0 <= n <= DECK_SIZE,
        1 <= rank <= RANKS,
    ensures
        canonical_deck().take(n).to_multiset().count(Card(rank)) == copies_in_prefix(n, rank as int),
    decreases n,
{
    let d = canonical_deck();
    if n == 0 {
        assert(d.take(0) =~= Seq::<Card>::empty());
    } else {
        lemma_prefix_count(n - 1, rank);
        assert(d.take(n) =~= d.take(n - 1).push(d[n - 1]));
        assert(d[n - 1] == Card(((n - 1) / 4 + 1) as u8));
    }
}

/// The canonical deck holds 52 well-formed cards, exactly four of each rank
/// from 1 to 13.
pub proof fn lemma_canonical_deck()
    ensures
        canonical_deck().len() == DECK_SIZE,
        forall|i: int| 0 <= i < DECK_SIZE ==> (#[trigger] canonical_deck()[i]).wf(),
        forall|rank: u8|
            1 <= rank <= RANKS ==> #[trigger] canonical_deck().to_multiset().count(Card(rank))
                == COPIES_PER_RANK,
{
    assert forall|rank: u8| 1 <= rank <= RANKS implies #[trigger] canonical_deck().to_multiset().count(
        Card(rank),
    ) == COPIES_PER_RANK by {
        lemma_prefix_count(DECK_SIZE as int, rank);
        assert(canonical_deck().take(DECK_SIZE as int) =~= canonical_deck());
    }
}

/// Builds the unshuffled deck, in rank-major order.
pub fn create_deck() -> (r: Vec<Card>)
    ensures
        r@ == canonical_deck(),
{
    let mut out: Vec<Card> = Vec::new();
    let mut rank: u8 = 1;
    while rank <= RANKS
        invariant
            1 <= rank <= RANKS + 1,
            out@ == canonical_deck().take(4 * (rank - 1)),
        decreases RANKS + 1 - rank,
    {
        let mut copies: u8 = 0;
        while copies < COPIES_PER_RANK
            invariant
                1 <= rank <= RANKS,
                copies <= COPIES_PER_RANK,
                out@ == canonical_deck().take(4 * (rank - 1) + copies),
            decreases COPIES_PER_RANK - copies,
        {
            let ghost k: int = 4 * (rank - 1) + copies;
            assert(canonical_deck()[k] == Card(rank));
            out.push(Card(rank));
            assert(out@ =~= canonical_deck().take(k + 1));
            copies += 1;
        }
        rank += 1;
    }
    assert(out@ =~= canonical_deck());
    out
}

} // verus!
