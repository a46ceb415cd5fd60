use vstd::prelude::*;
use crate::card::{Card, Rank, lemma_previous_is_one_lower};

verus! {

/// Category of five-card hand; each variant holds its cards in the order they were supplied.
#[derive(Clone, Copy, Debug, PartialEq, Eq, Structural)]
pub enum Trick {
    /// ranks in sequence
    Straight(Card, Card, Card, Card, Card),
    /// one suit
    Flush(Card, Card, Card, Card, Card),
    /// three of one rank over two of another
    FullHouse(Card, Card, Card, Card, Card),
    /// four of one rank, one of another
    FourOfAKind(Card, Card, Card, Card, Card),
    /// ranks in sequence, one suit
    StraightFlush(Card, Card, Card, Card, Card),
    /// five of one rank
    FiveOfAKind(Card, Card, Card, Card, Card),
}

/// A play; each variant holds the cards that make it up, in the order they were supplied.
#[derive(Clone, Copy, Debug, PartialEq, Eq, Structural)]
pub enum Move {
    /// no cards
    Pass,
    /// one card
    Single(Card),
    /// two cards of one rank
    Pair(Card, Card),
    /// three cards of one rank
    Prial(Card, Card, Card),
    /// a five-card hand
    FiveCardTrick(Trick),
}

/// Strict lexicographic order on integer sequences (a proper prefix comes first).
pub open spec fn seq_lt(a: Seq<int>, b: Seq<int>) -> bool
    decreases a.len(),
{
    if a.len() == 0 {
        b.len() > 0
    } else if b.len() == 0 {
        false
    } else if a[0] != b[0] {
        a[0] < b[0]
    } else {
        seq_lt(a.drop_first(), b.drop_first())
    }
}

pub open spec fn card_keys(c: Seq<Card>) -> Seq<int> {
    c.map_values(|x: Card| x.spec_key())
}

impl Trick {
    /// Position of the variant in declaration order.
    pub open spec fn kind(self) -> int {
        match self {
            Trick::Straight(..) => 0,
            Trick::Flush(..) => 1,
            Trick::FullHouse(..) => 2,
            Trick::FourOfAKind(..) => 3,
            Trick::StraightFlush(..) => 4,
            Trick::FiveOfAKind(..) => 5,
        }
    }

    pub open spec fn cards(self) -> Seq<Card> {
        match self {
            Trick::Straight(a, b, c, d, e) => seq![a, b, c, d, e],
            Trick::Flush(a, b, c, d, e) => seq![a, b, c, d, e],
            Trick::FullHouse(a, b, c, d, e) => seq![a, b, c, d, e],
            Trick::FourOfAKind(a, b, c, d, e) => seq![a, b, c, d, e],
            Trick::StraightFlush(a, b, c, d, e) => seq![a, b, c, d, e],
            Trick::FiveOfAKind(a, b, c, d, e) => seq![a, b, c, d, e],
        }
    }
}

impl Move {
    /// Position of the category in the order `Pass < Single < Pair < Prial < FiveCardTrick`.
    pub open spec fn category(self) -> int {
        match self {
            Move::Pass => 0,
            Move::Single(..) => 1,
            Move::Pair(..) => 2,
            Move::Prial(..) => 3,
            Move::FiveCardTrick(..) => 4,
        }
    }

    /// The cards of the move, in the order they were supplied.
    pub open spec fn cards(self) -> Seq<Card> {
        match self {
            Move::Pass => seq![],
            Move::Single(a) => seq![a],
            Move::Pair(a, b) => seq![a, b],
            Move::Prial(a, b, c) => seq![a, b, c],
            Move::FiveCardTrick(t) => t.cards(),
        }
    }

    /// Ordering key: the category, the trick kind for a five-card hand, then the card keys.
    pub open spec fn spec_key(self) -> Seq<int> {
        match self {
            Move::FiveCardTrick(t) => seq![4int, t.kind()] + card_keys(t.cards()),
            _ => seq![self.category()] + card_keys(self.cards()),
        }
    }

    /// `self` comes strictly before `other` in the order of moves.
    pub open spec fn spec_lt(self, other: Move) -> bool {
        seq_lt(self.spec_key(), other.spec_key())
    }
}


pub open spec fn ints(s: Seq<u8>) -> Seq<int> {
    s.map_values(|x: u8| x as int)
}

/// Compares two byte sequences by the lexicographic order of their values.
fn lex_less(a: &Vec<u8>, b: &Vec<u8>) -> (r: bool)
    ensures
        r == seq_lt(ints(a@), ints(b@)),
{
    let mut i: usize = 0;
    assert(ints(a@).skip(0) =~= ints(a@));
    assert(ints(b@).skip(0) =~= ints(b@));
    while i < a.len() && i < b.len()
        invariant
            i <= a.len(),
            i <= b.len(),
            seq_lt(ints(a@), ints(b@)) == seq_lt(ints(a@).skip(i as int), ints(b@).skip(i as int)),
        decreases a.len() - i,
    {
        if a[i] != b[i] {
            assert(ints(a@).skip(i as int)[0] == a@[i as int] as int);
            assert(ints(b@).skip(i as int)[0] == b@[i as int] as int);
            return a[i] < b[i];
        }
        proof {
            assert(ints(a@).skip(i as int).drop_first() =~= ints(a@).skip(i + 1));
            assert(ints(b@).skip(i as int).drop_first() =~= ints(b@).skip(i + 1));
        }
        i += 1;
    }
    a.len() < b.len()
}

impl Trick {
    pub fn kind_code(&self) -> (r: u8)
        ensures
            r as int == self.kind(),
    {
        match self {
            Trick::Straight(..) => 0,
            Trick::Flush(..) => 1,
            Trick::FullHouse(..) => 2,
            Trick::FourOfAKind(..) => 3,
            Trick::StraightFlush(..) => 4,
            Trick::FiveOfAKind(..) => 5,
        }
    }

    pub fn card_list(&self) -> (r: Vec<Card>)
        ensures
            r@ == self.cards(),
    {
        let r = match *self {
            Trick::Straight(a, b, c, d, e) => vec![a, b, c, d, e],
            Trick::Flush(a, b, c, d, e) => vec![a, b, c, d, e],
            Trick::FullHouse(a, b, c, d, e) => vec![a, b, c, d, e],
            Trick::FourOfAKind(a, b, c, d, e) => vec![a, b, c, d, e],
            Trick::StraightFlush(a, b, c, d, e) => vec![a, b, c, d, e],
            Trick::FiveOfAKind(a, b, c, d, e) => vec![a, b, c, d, e],
        };
        assert(r@ =~= self.cards());
        r
    }
}

impl Move {
    pub fn category_code(&self) -> (r: u8)
        ensures
            r as int == self.category(),
    {
        match self {
            Move::Pass => 0,
            Move::Single(..) => 1,
            Move::Pair(..) => 2,
            Move::Prial(..) => 3,
            Move::FiveCardTrick(..) => 4,
        }
    }

    pub fn card_list(&self) -> (r: Vec<Card>)
        ensures
            r@ == self.cards(),
    {
        match *self {
            Move::Pass => Vec::new(),
            Move::Single(a) => vec![a],
            Move::Pair(a, b) => vec![a, b],
            Move::Prial(a, b, c) => vec![a, b, c],
            Move::FiveCardTrick(t) => t.card_list(),
        }
    }

    /// The ordering key of the move, as bytes.
    pub fn key(&self) -> (r: Vec<u8>)
        ensures
            ints(r@) == self.spec_key(),
    {
        let mut k: Vec<u8> = Vec::new();
        k.push(self.category_code());
        if let Move::FiveCardTrick(t) = self {
            k.push(t.kind_code());
        }
        let cards = self.card_list();
        let ghost head = ints(k@);
        assert(self.spec_key() == head + card_keys(cards@));
        let mut i: usize = 0;
        while i < cards.len()
            invariant
                i <= cards.len(),
                ints(k@) == head + card_keys(cards@.subrange(0, i as int)),
            decreases cards.len() - i,
        {
            let c = cards[i];
            let ghost prev = k@;
            k.push(c.key());
            proof {
                assert(ints(k@) =~= ints(prev).push(c.spec_key()));
                assert(card_keys(cards@.subrange(0, i + 1)) =~= card_keys(cards@.subrange(0, i as int)).push(c.spec_key()));
                assert(ints(k@) =~= head + card_keys(cards@.subrange(0, i + 1)));
            }
            i += 1;
        }
        assert(cards@.subrange(0, cards.len() as int) =~= cards@);
        k
    }

    /// Whether `self` comes strictly after `other` in the order of moves.
    pub fn exceeds(&self, other: &Move) -> (r: bool)
        ensures
            r == other.spec_lt(*self),
    {
        let mine = self.key();
        let theirs = other.key();
        lex_less(&theirs, &mine)
    }

    /// Whether the two moves are of one category.
    pub fn same_category(&self, other: &Move) -> (r: bool)
        ensures
            r == (self.category() == other.category()),
    {
        self.category_code() == other.category_code()
    }
}


/// Number of cards of the given rank.
pub open spec fn count_rank(s: Seq<Card>, r: Rank) -> nat
    decreases s.len(),
{
    if s.len() == 0 {
        0
    } else {
        count_rank(s.drop_last(), r) + if s.last().rank == r { 1nat } else { 0nat }
    }
}

/// Every card has the given rank.
pub open spec fn all_of_rank(s: Seq<Card>, r: Rank) -> bool {
    forall|k: int| 0 <= k < s.len() ==> #[trigger] s[k].rank == r
}

/// Exactly two ranks occur among the cards.
pub open spec fn two_ranks(s: Seq<Card>) -> bool {
    exists|j: int|
        0 <= j < s.len() && #[trigger] s[j].rank != s[0].rank && forall|k: int|
            0 <= k < s.len() ==> #[trigger] s[k].rank == s[0].rank || s[k].rank == s[j].rank
}

/// No rank occurs twice among the cards.
pub open spec fn distinct_ranks(s: Seq<Card>) -> bool {
    forall|i: int, j: int| 0 <= i < j < s.len() ==> #[trigger] s[i].rank != #[trigger] s[j].rank
}

/// Each card after the first is one rank above the card before it, in the order supplied.
pub open spec fn is_straight(s: Seq<Card>) -> bool {
    forall|i: int| 1 <= i < s.len() ==> #[trigger] s[i].rank.spec_previous() == Some(s[i - 1].rank)
}

/// All cards share the first card's suit.
pub open spec fn is_flush(s: Seq<Card>) -> bool {
    forall|i: int| 0 <= i < s.len() ==> #[trigger] s[i].suit == s[0].suit
}

/// The hand that five cards of exactly two ranks form: three over two or four over one.
pub open spec fn two_rank_trick(s: Seq<Card>) -> Option<Trick> {
    let n = count_rank(s, s[0].rank);
    if n == 2 || n == 3 {
        Some(Trick::FullHouse(s[0], s[1], s[2], s[3], s[4]))
    } else if n == 1 || n == 4 {
        Some(Trick::FourOfAKind(s[0], s[1], s[2], s[3], s[4]))
    } else {
        None
    }
}

/// The hand that five cards of five distinct ranks form, if any.
pub open spec fn distinct_rank_trick(s: Seq<Card>) -> Option<Trick> {
    if is_straight(s) && is_flush(s) {
        Some(Trick::StraightFlush(s[0], s[1], s[2], s[3], s[4]))
    } else if is_straight(s) {
        Some(Trick::Straight(s[0], s[1], s[2], s[3], s[4]))
    } else if is_flush(s) {
        Some(Trick::Flush(s[0], s[1], s[2], s[3], s[4]))
    } else {
        None
    }
}

/// The five-card hand that five cards form, if any.
pub open spec fn five_card_trick(s: Seq<Card>) -> Option<Trick> {
    if all_of_rank(s, s[0].rank) {
        Some(Trick::FiveOfAKind(s[0], s[1], s[2], s[3], s[4]))
    } else if two_ranks(s) {
        two_rank_trick(s)
    } else if distinct_ranks(s) {
        distinct_rank_trick(s)
    } else {
        None
    }
}

/// Wraps a five-card hand as a move.
pub open spec fn as_move(t: Option<Trick>) -> Option<Move> {
    match t {
        Some(t) => Some(Move::FiveCardTrick(t)),
        None => None,
    }
}

/// The move that the cards constitute, if any.
pub open spec fn classify(s: Seq<Card>) -> Option<Move> {
    if s.len() == 0 {
        Some(Move::Pass)
    } else if s.len() == 1 {
        Some(Move::Single(s[0]))
    } else if s.len() == 2 {
        if all_of_rank(s, s[0].rank) {
            Some(Move::Pair(s[0], s[1]))
        } else {
            None
        }
    } else if s.len() == 3 {
        if all_of_rank(s, s[0].rank) {
            Some(Move::Prial(s[0], s[1], s[2]))
        } else {
            None
        }
    } else if s.len() == 5 {
        as_move(five_card_trick(s))
    } else {
        None
    }
}

/// Builds the move that the cards constitute, or `None` where they form no legal move.
pub fn build_move(cards: Vec<Card>) -> (r: Option<Move>)
    ensures
        r == classify(cards@),
{
    match cards.len() {
        0 => Some(Move::Pass),
        1 => Some(Move::Single(cards[0])),
        2 => check_valid_pair(&cards),
        3 => check_valid_prial(&cards),
        5 => check_valid_fct(&cards),
        _ => None,
    }
}

fn check_valid_pair(cards: &Vec<Card>) -> (r: Option<Move>)
    requires
        cards.len() == 2,
    ensures
        r == classify(cards@),
{
    if has_only_rank(cards, cards[0].rank) {
        Some(Move::Pair(cards[0], cards[1]))
    } else {
        None
    }
}

fn check_valid_prial(cards: &Vec<Card>) -> (r: Option<Move>)
    requires
        cards.len() == 3,
    ensures
        r == classify(cards@),
{
    if has_only_rank(cards, cards[0].rank) {
        Some(Move::Prial(cards[0], cards[1], cards[2]))
    } else {
        None
    }
}

fn has_only_rank(cards: &Vec<Card>, rank: Rank) -> (r: bool)
    ensures
        r == all_of_rank(cards@, rank),
{
    let mut i: usize = 0;
    while i < cards.len()
        invariant
            i <= cards.len(),
            all_of_rank(cards@.subrange(0, i as int), rank),
        decreases cards.len() - i,
    {
        if cards[i].rank != rank {
            assert(cards@[i as int].rank != rank);
            return false;
        }
        assert(all_of_rank(cards@.subrange(0, i + 1), rank)) by {
            assert forall|k: int| 0 <= k < i + 1 implies #[trigger] cards@.subrange(0, i + 1)[k].rank == rank by {
                if k < i {
                    assert(cards@.subrange(0, i + 1)[k] == cards@.subrange(0, i as int)[k]);
                }
            }
        }
        i += 1;
    }
    assert(cards@.subrange(0, cards.len() as int) =~= cards@);
    true
}

/// Every card has one of the two given ranks.
fn has_only_ranks(cards: &Vec<Card>, a: Rank, b: Rank) -> (r: bool)
    ensures
        r == forall|k: int| 0 <= k < cards@.len() ==> #[trigger] cards@[k].rank == a || cards@[k].rank == b,
{
    let mut i: usize = 0;
    while i < cards.len()
        invariant
            i <= cards.len(),
            forall|k: int| 0 <= k < i ==> #[trigger] cards@[k].rank == a || cards@[k].rank == b,
        decreases cards.len() - i,
    {
        if cards[i].rank != a && cards[i].rank != b {
            return false;
        }
        i += 1;
    }
    true
}

/// Counts the cards of the given rank.
fn get_counts(cards: &Vec<Card>, rank: Rank) -> (r: usize)
    ensures
        r == count_rank(cards@, rank),
{
    let mut n: usize = 0;
    let mut i: usize = 0;
    while i < cards.len()
        invariant
            i <= cards.len(),
            n == count_rank(cards@.subrange(0, i as int), rank),
            n <= i,
        decreases cards.len() - i,
    {
        assert(cards@.subrange(0, i + 1).drop_last() =~= cards@.subrange(0, i as int));
        if cards[i].rank == rank {
            n += 1;
        }
        i += 1;
    }
    assert(cards@.subrange(0, cards.len() as int) =~= cards@);
    n
}

fn has_distinct_ranks(cards: &Vec<Card>) -> (r: bool)
    ensures
        r == distinct_ranks(cards@),
{
    let mut j: usize = 0;
    while j < cards.len()
        invariant
            j <= cards.len(),
            forall|a: int, b: int| 0 <= a < b < j ==> #[trigger] cards@[a].rank != #[trigger] cards@[b].rank,
        decreases cards.len() - j,
    {
        let mut i: usize = 0;
        while i < j
            invariant
                i <= j < cards.len(),
                forall|a: int, b: int| 0 <= a < b < j ==> #[trigger] cards@[a].rank != #[trigger] cards@[b].rank,
                forall|a: int| 0 <= a < i ==> #[trigger] cards@[a].rank != cards@[j as int].rank,
            decreases j - i,
        {
            if cards[i].rank == cards[j].rank {
                return false;
            }
            i += 1;
        }
        j += 1;
    }
    true
}

fn in_sequence(cards: &Vec<Card>) -> (r: bool)
    ensures
        r == is_straight(cards@),
{
    let mut i: usize = 1;
    while i < cards.len()
        invariant
            1 <= i,
            i <= cards.len() || cards.len() == 0,
            forall|k: int| 1 <= k < i && k < cards@.len() ==> #[trigger] cards@[k].rank.spec_previous() == Some(cards@[k - 1].rank),
        decreases cards.len() - i,
    {
        match cards[i].previous_rank() {
            Some(p) => {
                if p != cards[i - 1].rank {
                    return false;
                }
            },
            None => {
                return false;
            },
        }
        i += 1;
    }
    true
}

fn of_one_suit(cards: &Vec<Card>) -> (r: bool)
    requires
        cards.len() > 0,
    ensures
        r == is_flush(cards@),
{
    let suit = cards[0].suit;
    let mut i: usize = 0;
    while i < cards.len()
        invariant
            i <= cards.len(),
            suit == cards@[0].suit,
            forall|k: int| 0 <= k < i ==> #[trigger] cards@[k].suit == suit,
        decreases cards.len() - i,
    {
        if cards[i].suit != suit {
            return false;
        }
        i += 1;
    }
    true
}

fn check_valid_fct(cards: &Vec<Card>) -> (r: Option<Move>)
    requires
        cards.len() == 5,
    ensures
        r == classify(cards@),
{
    let first = cards[0].rank;
    if has_only_rank(cards, first) {
        return build_five_of_a_kind(cards);
    }
    let mut j: usize = 1;
    while cards[j].rank == first
        invariant
            1 <= j < 5,
            cards.len() == 5,
            first == cards@[0].rank,
            !all_of_rank(cards@, first),
            forall|k: int| 0 <= k < j ==> #[trigger] cards@[k].rank == first,
        decreases 5 - j,
    {
        j += 1;
        if j == 5 {
            assert(all_of_rank(cards@, first));
        }
    }
    let other = cards[j].rank;
    if has_only_ranks(cards, first, other) {
        assert(two_ranks(cards@));
        check_two_ranks(cards)
    } else {
        assert(!two_ranks(cards@)) by {
            if two_ranks(cards@) {
                let w = choose|w: int|
                    0 <= w < cards@.len() && #[trigger] cards@[w].rank != cards@[0].rank && forall|k: int|
                        0 <= k < cards@.len() ==> #[trigger] cards@[k].rank == cards@[0].rank || cards@[k].rank == cards@[w].rank;
                assert(cards@[j as int].rank == cards@[w].rank);
            }
        }
        if has_distinct_ranks(cards) {
            check_distinct_ranks(cards)
        } else {
            None
        }
    }
}

fn check_two_ranks(cards: &Vec<Card>) -> (r: Option<Move>)
    requires
        cards.len() == 5,
    ensures
        r == as_move(two_rank_trick(cards@)),
{
    let n = get_counts(cards, cards[0].rank);
    if n == 2 || n == 3 {
        build_full_house(cards)
    } else if n == 1 || n == 4 {
        build_four_of_a_kind(cards)
    } else {
        None
    }
}

fn check_distinct_ranks(cards: &Vec<Card>) -> (r: Option<Move>)
    requires
        cards.len() == 5,
    ensures
        r == as_move(distinct_rank_trick(cards@)),
{
    let straight = in_sequence(cards);
    let flush = of_one_suit(cards);
    if straight && flush {
        build_straight_flush(cards)
    } else if straight {
        build_straight(cards)
    } else if flush {
        build_flush(cards)
    } else {
        None
    }
}

fn build_four_of_a_kind(cards: &Vec<Card>) -> (r: Option<Move>)
    ensures
        r == if cards@.len() == 5 {
            Some(Move::FiveCardTrick(Trick::FourOfAKind(cards@[0], cards@[1], cards@[2], cards@[3], cards@[4])))
        } else {
            None
        },
{
    if cards.len() == 5 {
        Some(Move::FiveCardTrick(Trick::FourOfAKind(cards[0], cards[1], cards[2], cards[3], cards[4])))
    } else {
        None
    }
}

fn build_five_of_a_kind(cards: &Vec<Card>) -> (r: Option<Move>)
    ensures
        r == if cards@.len() == 5 {
            Some(Move::FiveCardTrick(Trick::FiveOfAKind(cards@[0], cards@[1], cards@[2], cards@[3], cards@[4])))
        } else {
            None
        },
{
    if cards.len() == 5 {
        Some(Move::FiveCardTrick(Trick::FiveOfAKind(cards[0], cards[1], cards[2], cards[3], cards[4])))
    } else {
        None
    }
}

fn build_full_house(cards: &Vec<Card>) -> (r: Option<Move>)
    ensures
        r == if cards@.len() == 5 {
            Some(Move::FiveCardTrick(Trick::FullHouse(cards@[0], cards@[1], cards@[2], cards@[3], cards@[4])))
        } else {
            None
        },
{
    if cards.len() == 5 {
        Some(Move::FiveCardTrick(Trick::FullHouse(cards[0], cards[1], cards[2], cards[3], cards[4])))
    } else {
        None
    }
}

fn build_flush(cards: &Vec<Card>) -> (r: Option<Move>)
    ensures
        r == if cards@.len() == 5 {
            Some(Move::FiveCardTrick(Trick::Flush(cards@[0], cards@[1], cards@[2], cards@[3], cards@[4])))
        } else {
            None
        },
{
    if cards.len() == 5 {
        Some(Move::FiveCardTrick(Trick::Flush(cards[0], cards[1], cards[2], cards[3], cards[4])))
    } else {
        None
    }
}

fn build_straight(cards: &Vec<Card>) -> (r: Option<Move>)
    ensures
        r == if cards@.len() == 5 {
            Some(Move::FiveCardTrick(Trick::Straight(cards@[0], cards@[1], cards@[2], cards@[3], cards@[4])))
        } else {
            None
        },
{
    if cards.len() == 5 {
        Some(Move::FiveCardTrick(Trick::Straight(cards[0], cards[1], cards[2], cards[3], cards[4])))
    } else {
        None
    }
}

fn build_straight_flush(cards: &Vec<Card>) -> (r: Option<Move>)
    ensures
        r == if cards@.len() == 5 {
            Some(Move::FiveCardTrick(Trick::StraightFlush(cards@[0], cards@[1], cards@[2], cards@[3], cards@[4])))
        } else {
            None
        },
{
    if cards.len() == 5 {
        Some(Move::FiveCardTrick(Trick::StraightFlush(cards[0], cards[1], cards[2], cards[3], cards[4])))
    } else {
        None
    }
}


proof fn lemma_count_two_ranks(s: Seq<Card>, r1: Rank, r2: Rank)
    requires
        r1 != r2,
    ensures
        count_rank(s, r1) + count_rank(s, r2) <= s.len(),
        count_rank(s, r1) + count_rank(s, r2) == s.len() ==> forall|k: int|
            0 <= k < s.len() ==> #[trigger] s[k].rank == r1 || s[k].rank == r2,
    decreases s.len(),
{
    if s.len() > 0 {
        lemma_count_two_ranks(s.drop_last(), r1, r2);
        if count_rank(s, r1) + count_rank(s, r2) == s.len() {
            assert forall|k: int| 0 <= k < s.len() implies #[trigger] s[k].rank == r1 || s[k].rank == r2 by {
                if k < s.len() - 1 {
                    assert(s.drop_last()[k] == s[k]);
                }
            }
        }
    }
}

proof fn lemma_count_witness(s: Seq<Card>, r: Rank)
    requires
        count_rank(s, r) > 0,
    ensures
        exists|j: int| 0 <= j < s.len() && #[trigger] s[j].rank == r,
    decreases s.len(),
{
    if s.last().rank != r {
        lemma_count_witness(s.drop_last(), r);
        let j = choose|j: int| 0 <= j < s.drop_last().len() && #[trigger] s.drop_last()[j].rank == r;
        assert(s[j].rank == r);
    } else {
        assert(s[s.len() - 1].rank == r);
    }
}

/// Five cards drawn from exactly two ranks, both present, are classified by the split.
proof fn lemma_two_rank_split(s: Seq<Card>, r1: Rank, r2: Rank)
    requires
        s.len() == 5,
        r1 != r2,
        count_rank(s, r1) > 0,
        count_rank(s, r2) > 0,
        count_rank(s, r1) + count_rank(s, r2) == 5,
    ensures
        classify(s) == as_move(two_rank_trick(s)),
        s[0].rank == r1 || s[0].rank == r2,
{
    lemma_count_two_ranks(s, r1, r2);
    lemma_count_witness(s, r1);
    lemma_count_witness(s, r2);
    let j1 = choose|j: int| 0 <= j < s.len() && #[trigger] s[j].rank == r1;
    let j2 = choose|j: int| 0 <= j < s.len() && #[trigger] s[j].rank == r2;
    assert(s[0].rank == r1 || s[0].rank == r2);
    let j = if s[0].rank == r1 { j2 } else { j1 };
    assert(s[j].rank != s[0].rank);
    assert(!all_of_rank(s, s[0].rank));
    assert(two_ranks(s));
}

/// Two cards form a pair exactly when they share a rank; otherwise they form no move.
pub proof fn lemma_two_cards(s: Seq<Card>)
    requires
        s.len() == 2,
    ensures
        s[0].rank == s[1].rank ==> classify(s) == Some(Move::Pair(s[0], s[1])),
        s[0].rank != s[1].rank ==> classify(s) is None,
{
    if s[0].rank != s[1].rank {
        assert(!all_of_rank(s, s[0].rank));
    }
}

/// Five cards of one rank form five of a kind.
pub proof fn lemma_five_of_one_rank(s: Seq<Card>)
    requires
        s.len() == 5,
        forall|k: int| 0 <= k < 5 ==> #[trigger] s[k].rank == s[0].rank,
    ensures
        classify(s) == Some(Move::FiveCardTrick(Trick::FiveOfAKind(s[0], s[1], s[2], s[3], s[4]))),
{
}

/// Five cards split four to one between two ranks form four of a kind.
pub proof fn lemma_four_one_split(s: Seq<Card>, r1: Rank, r2: Rank)
    requires
        s.len() == 5,
        r1 != r2,
        count_rank(s, r1) == 4,
        count_rank(s, r2) == 1,
    ensures
        classify(s) == Some(Move::FiveCardTrick(Trick::FourOfAKind(s[0], s[1], s[2], s[3], s[4]))),
{
    lemma_two_rank_split(s, r1, r2);
}

/// Five cards split three to two between two ranks form a full house.
pub proof fn lemma_three_two_split(s: Seq<Card>, r1: Rank, r2: Rank)
    requires
        s.len() == 5,
        r1 != r2,
        count_rank(s, r1) == 3,
        count_rank(s, r2) == 2,
    ensures
        classify(s) == Some(Move::FiveCardTrick(Trick::FullHouse(s[0], s[1], s[2], s[3], s[4]))),
{
    lemma_two_rank_split(s, r1, r2);
}

proof fn lemma_distinct_five(s: Seq<Card>)
    requires
        s.len() == 5,
        distinct_ranks(s),
    ensures
        classify(s) == as_move(distinct_rank_trick(s)),
{
    assert(s[1].rank != s[0].rank);
    assert(!all_of_rank(s, s[0].rank));
    if two_ranks(s) {
        let j = choose|j: int|
            0 <= j < s.len() && #[trigger] s[j].rank != s[0].rank && forall|k: int|
                0 <= k < s.len() ==> #[trigger] s[k].rank == s[0].rank || s[k].rank == s[j].rank;
        assert(s[1].rank == s[j].rank);
        assert(s[2].rank == s[j].rank);
        assert(s[1].rank != s[2].rank);
    }
}

/// Each card one rank above the card before it.
pub open spec fn ascending_by_one(s: Seq<Card>) -> bool {
    forall|i: int| 1 <= i < s.len() ==> #[trigger] s[i].rank.spec_level() == s[i - 1].rank.spec_level() + 1
}

proof fn lemma_ascending_is_straight(s: Seq<Card>)
    requires
        s.len() == 5,
        ascending_by_one(s),
    ensures
        is_straight(s),
        distinct_ranks(s),
{
    assert forall|i: int| 1 <= i < s.len() implies #[trigger] s[i].rank.spec_previous() == Some(s[i - 1].rank) by {
        lemma_previous_is_one_lower(s[i].rank, s[i - 1].rank);
    }
    assert(s[1].rank.spec_level() == s[0].rank.spec_level() + 1);
    assert(s[2].rank.spec_level() == s[1].rank.spec_level() + 1);
    assert(s[3].rank.spec_level() == s[2].rank.spec_level() + 1);
    assert(s[4].rank.spec_level() == s[3].rank.spec_level() + 1);
}

/// Five cards of one suit, each one rank above the one before, form a straight flush.
pub proof fn lemma_ascending_one_suit(s: Seq<Card>)
    requires
        s.len() == 5,
        ascending_by_one(s),
        is_flush(s),
    ensures
        classify(s) == Some(Move::FiveCardTrick(Trick::StraightFlush(s[0], s[1], s[2], s[3], s[4]))),
{
    lemma_ascending_is_straight(s);
    lemma_distinct_five(s);
}

/// Five cards of mixed suits, each one rank above the one before, form a straight.
pub proof fn lemma_ascending_mixed_suits(s: Seq<Card>)
    requires
        s.len() == 5,
        ascending_by_one(s),
        !is_flush(s),
    ensures
        classify(s) == Some(Move::FiveCardTrick(Trick::Straight(s[0], s[1], s[2], s[3], s[4]))),
{
    lemma_ascending_is_straight(s);
    lemma_distinct_five(s);
}

/// Five cards of distinct ranks and mixed suits with some card not one rank above the
/// card before it form no move: the order supplied is what counts, not a sorted one.
pub proof fn lemma_out_of_order_rejected(s: Seq<Card>, i: int)
    requires
        s.len() == 5,
        distinct_ranks(s),
        !is_flush(s),
        1 <= i < 5,
        s[i].rank.spec_level() != s[i - 1].rank.spec_level() + 1,
    ensures
        classify(s) is None,
{
    lemma_previous_is_one_lower(s[i].rank, s[i - 1].rank);
    assert(!is_straight(s));
    lemma_distinct_five(s);
}

/// A move of a lower category comes before a move of a higher one, whatever the cards.
pub proof fn lemma_category_order(a: Move, b: Move)
    requires
        a.category() < b.category(),
    ensures
        a.spec_lt(b),
{
    assert(a.spec_key()[0] == a.category());
    assert(b.spec_key()[0] == b.category());
}


proof fn lemma_seq_lt_common_head(x: Seq<int>, a: Seq<int>, b: Seq<int>)
    ensures
        seq_lt(x + a, x + b) == seq_lt(a, b),
    decreases x.len(),
{
    if x.len() > 0 {
        assert((x + a).drop_first() =~= x.drop_first() + a);
        assert((x + b).drop_first() =~= x.drop_first() + b);
        lemma_seq_lt_common_head(x.drop_first(), a, b);
    } else {
        assert(x + a =~= a);
        assert(x + b =~= b);
    }
}

/// Moves of one category (and, for five-card hands, of one kind of trick) are ordered
/// lexicographically by their cards, in the order the cards were supplied.
pub proof fn lemma_same_category_by_cards(a: Move, b: Move)
    requires
        a.category() == b.category(),
        a is FiveCardTrick ==> a->FiveCardTrick_0.kind() == b->FiveCardTrick_0.kind(),
    ensures
        a.spec_lt(b) == seq_lt(card_keys(a.cards()), card_keys(b.cards())),
{
    match a {
        Move::FiveCardTrick(t) => {
            let u = b->FiveCardTrick_0;
            assert(seq![4int, t.kind()] =~= seq![4int, u.kind()]);
            lemma_seq_lt_common_head(seq![4int, t.kind()], card_keys(t.cards()), card_keys(u.cards()));
        },
        _ => {
            lemma_seq_lt_common_head(seq![a.category()], card_keys(a.cards()), card_keys(b.cards()));
        },
    }
}

/// Within one category (and one kind of trick), a move whose first card has the higher
/// rank comes after the other.
pub proof fn lemma_higher_rank_beats(a: Move, b: Move)
    requires
        a.category() == b.category(),
        a is FiveCardTrick ==> a->FiveCardTrick_0.kind() == b->FiveCardTrick_0.kind(),
        a !is Pass,
        a.cards()[0].rank.spec_level() < b.cards()[0].rank.spec_level(),
    ensures
        a.spec_lt(b),
{
    lemma_same_category_by_cards(a, b);
    let ka = card_keys(a.cards());
    let kb = card_keys(b.cards());
    assert(ka[0] == a.cards()[0].spec_key());
    assert(kb[0] == b.cards()[0].spec_key());
}


proof fn lemma_seq_lt_irreflexive(a: Seq<int>)
    ensures
        !seq_lt(a, a),
    decreases a.len(),
{
    if a.len() > 0 {
        lemma_seq_lt_irreflexive(a.drop_first());
    }
}

proof fn lemma_seq_lt_transitive(a: Seq<int>, b: Seq<int>, c: Seq<int>)
    requires
        seq_lt(a, b),
        seq_lt(b, c),
    ensures
        seq_lt(a, c),
    decreases a.len(),
{
    if a.len() > 0 && b.len() > 0 && c.len() > 0 && a[0] == b[0] && b[0] == c[0] {
        lemma_seq_lt_transitive(a.drop_first(), b.drop_first(), c.drop_first());
    }
}

proof fn lemma_seq_lt_total(a: Seq<int>, b: Seq<int>)
    requires
        a != b,
    ensures
        seq_lt(a, b) || seq_lt(b, a),
    decreases a.len(),
{
    if a.len() > 0 && b.len() > 0 && a[0] == b[0] {
        if a.drop_first() == b.drop_first() {
            assert(a =~= seq![a[0]] + a.drop_first());
            assert(b =~= seq![b[0]] + b.drop_first());
        }
        lemma_seq_lt_total(a.drop_first(), b.drop_first());
    } else if a.len() == 0 && b.len() == 0 {
        assert(a =~= b);
    }
}

proof fn lemma_card_key_injective(x: Card, y: Card)
    requires
        x.spec_key() == y.spec_key(),
    ensures
        x == y,
{
    assert(x.rank.spec_level() == y.rank.spec_level());
    assert(x.suit.spec_level() == y.suit.spec_level());
}

proof fn lemma_card_keys_injective(a: Seq<Card>, b: Seq<Card>)
    requires
        card_keys(a) == card_keys(b),
    ensures
        a == b,
{
    assert(a.len() == card_keys(a).len());
    assert(b.len() == card_keys(b).len());
    assert forall|i: int| 0 <= i < a.len() implies a[i] == b[i] by {
        assert(card_keys(a)[i] == a[i].spec_key());
        assert(card_keys(b)[i] == b[i].spec_key());
        lemma_card_key_injective(a[i], b[i]);
    }
    assert(a =~= b);
}

proof fn lemma_move_key_injective(a: Move, b: Move)
    requires
        a.spec_key() == b.spec_key(),
    ensures
        a == b,
{
    assert(a.spec_key()[0] == a.category());
    assert(b.spec_key()[0] == b.category());
    match a {
        Move::FiveCardTrick(t) => {
            let u = b->FiveCardTrick_0;
            assert(a.spec_key()[1] == t.kind());
            assert(b.spec_key()[1] == u.kind());
            assert(card_keys(t.cards()) =~= a.spec_key().skip(2));
            assert(card_keys(u.cards()) =~= b.spec_key().skip(2));
            lemma_card_keys_injective(t.cards(), u.cards());
            assert(t.cards()[0] == u.cards()[0]);
            assert(t.cards()[4] == u.cards()[4]);
        },
        _ => {
            assert(card_keys(a.cards()) =~= a.spec_key().skip(1));
            assert(card_keys(b.cards()) =~= b.spec_key().skip(1));
            lemma_card_keys_injective(a.cards(), b.cards());
            if a.cards().len() > 0 {
                assert(a.cards()[0] == b.cards()[0]);
            }
            if a.cards().len() > 2 {
                assert(a.cards()[2] == b.cards()[2]);
            }
        },
    }
}

/// The order of moves is a strict total order: no move comes before itself, the order
/// is transitive, and of two different moves one comes before the other.
pub proof fn lemma_moves_totally_ordered(a: Move, b: Move, c: Move)
    ensures
        !a.spec_lt(a),
        a.spec_lt(b) && b.spec_lt(c) ==> a.spec_lt(c),
        a != b ==> a.spec_lt(b) || b.spec_lt(a),
{
    lemma_seq_lt_irreflexive(a.spec_key());
    if a.spec_lt(b) && b.spec_lt(c) {
        lemma_seq_lt_transitive(a.spec_key(), b.spec_key(), c.spec_key());
    }
    if a != b {
        if a.spec_key() == b.spec_key() {
            lemma_move_key_injective(a, b);
        }
        lemma_seq_lt_total(a.spec_key(), b.spec_key());
    }
}

} // verus!
