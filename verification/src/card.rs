//! The card model: suits, values and cards, with their two-character text form.

use crate::hand::groups::count_suit;
use crate::hand::sorting::{by_rank_descending, sort_by_rank_descending};
use vstd::prelude::*;

verus! {

/// One of the four suits. Suits carry no strength; they only group cards.
#[derive(Debug, Clone, Copy, PartialEq, Eq, Hash, PartialOrd, Ord, Structural)]
pub enum Suit {
    Hearts,
    Diamonds,
    Clubs,
    Spades,
}

/// The value of a card, from `Two` (lowest) to `Ace` (highest).
#[derive(Debug, Clone, Copy, PartialEq, Eq, Hash, PartialOrd, Ord, Structural)]
pub enum Value {
    Two,
    Three,
    Four,
    Five,
    Six,
    Seven,
    Eight,
    Nine,
    Ten,
    Jack,
    Queen,
    King,
    Ace,
}

/// A playing card.
#[derive(Debug, Clone, Copy, PartialEq, Eq, Hash, Structural)]
pub struct Card {
    pub suit: Suit,
    pub value: Value,
}

impl Suit {
    /// Position of the suit in the fixed order hearts, diamonds, clubs, spades.
    pub open spec fn index(self) -> int {
        match self {
            Suit::Hearts => 0,
            Suit::Diamonds => 1,
            Suit::Clubs => 2,
            Suit::Spades => 3,
        }
    }

    /// The letter that stands for the suit in a card's text form.
    pub open spec fn symbol(self) -> char {
        match self {
            Suit::Hearts => 'h',
            Suit::Diamonds => 'd',
            Suit::Clubs => 'c',
            Suit::Spades => 's',
        }
    }

    /// The suit at a position of the fixed order, if there is one.
    pub fn from_index(i: usize) -> (r: Option<Suit>)
        ensures
            match r {
                Some(s) => s.index() == i,
                None => i >= 4,
            },
    {
        match i {
            0 => Some(Suit::Hearts),
            1 => Some(Suit::Diamonds),
            2 => Some(Suit::Clubs),
            3 => Some(Suit::Spades),
            _ => None,
        }
    }

    /// Position of the suit in the fixed order.
    pub fn to_index(&self) -> (i: usize)
        ensures
            i == self.index(),
    {
        match self {
            Suit::Hearts => 0,
            Suit::Diamonds => 1,
            Suit::Clubs => 2,
            Suit::Spades => 3,
        }
    }
}

impl Value {
    /// The numeric rank of the value: 2 for `Two` up to 14 for `Ace`.
    pub open spec fn rank(self) -> int {
        match self {
            Value::Two => 2,
            Value::Three => 3,
            Value::Four => 4,
            Value::Five => 5,
            Value::Six => 6,
            Value::Seven => 7,
            Value::Eight => 8,
            Value::Nine => 9,
            Value::Ten => 10,
            Value::Jack => 11,
            Value::Queen => 12,
            Value::King => 13,
            Value::Ace => 14,
        }
    }

    /// The character that stands for the value in a card's text form.
    pub open spec fn symbol(self) -> char {
        match self {
            Value::Two => '2',
            Value::Three => '3',
            Value::Four => '4',
            Value::Five => '5',
            Value::Six => '6',
            Value::Seven => '7',
            Value::Eight => '8',
            Value::Nine => '9',
            Value::Ten => 'T',
            Value::Jack => 'J',
            Value::Queen => 'Q',
            Value::King => 'K',
            Value::Ace => 'A',
        }
    }

    /// The numeric rank of the value.
    pub fn to_u8(&self) -> (r: u8)
        ensures
            r == self.rank(),
            2 <= r <= 14,
    {
        match self {
            Value::Two => 2,
            Value::Three => 3,
            Value::Four => 4,
            Value::Five => 5,
            Value::Six => 6,
            Value::Seven => 7,
            Value::Eight => 8,
            Value::Nine => 9,
            Value::Ten => 10,
            Value::Jack => 11,
            Value::Queen => 12,
            Value::King => 13,
            Value::Ace => 14,
        }
    }

    /// The value with a given numeric rank, if the rank is one of 2 to 14.
    pub fn from_u8(rank: u8) -> (r: Option<Value>)
        ensures
            match r {
                Some(v) => v.rank() == rank,
                None => rank < 2 || rank > 14,
            },
    {
        match rank {
            2 => Some(Value::Two),
            3 => Some(Value::Three),
            4 => Some(Value::Four),
            5 => Some(Value::Five),
            6 => Some(Value::Six),
            7 => Some(Value::Seven),
            8 => Some(Value::Eight),
            9 => Some(Value::Nine),
            10 => Some(Value::Ten),
            11 => Some(Value::Jack),
            12 => Some(Value::Queen),
            13 => Some(Value::King),
            14 => Some(Value::Ace),
            _ => None,
        }
    }
}

/// The value that has a given rank; for a number that is no rank, the
/// nearest value.
pub open spec fn value_of_rank(rank: int) -> Value {
    if rank <= 2 {
        Value::Two
    } else if rank == 3 {
        Value::Three
    } else if rank == 4 {
        Value::Four
    } else if rank == 5 {
        Value::Five
    } else if rank == 6 {
        Value::Six
    } else if rank == 7 {
        Value::Seven
    } else if rank == 8 {
        Value::Eight
    } else if rank == 9 {
        Value::Nine
    } else if rank == 10 {
        Value::Ten
    } else if rank == 11 {
        Value::Jack
    } else if rank == 12 {
        Value::Queen
    } else if rank == 13 {
        Value::King
    } else {
        Value::Ace
    }
}

/// Every value has a rank from 2 to 14, and the rank determines the value.
pub proof fn lemma_rank_determines_value(a: Value, b: Value)
    ensures
        2 <= a.rank() <= 14,
        a.rank() == b.rank() <==> a == b,
        value_of_rank(a.rank()) == a,
{
}

/// Every number from 2 to 14 is the rank of a value.
pub proof fn lemma_value_of_rank(rank: int)
    requires
        2 <= rank <= 14,
    ensures
        value_of_rank(rank).rank() == rank,
{
}

impl Card {
    /// The numeric rank of the card's value.
    pub open spec fn rank(self) -> int {
        self.value.rank()
    }

    /// Creates a card.
    pub fn new(suit: Suit, value: Value) -> (card: Card)
        ensures
            card.suit == suit,
            card.value == value,
    {
        Card { suit, value }
    }

    /// The card's suit.
    pub fn suit(&self) -> (suit: Suit)
        ensures
            suit == self.suit,
    {
        self.suit
    }

    /// The card's value.
    pub fn value(&self) -> (value: Value)
        ensures
            value == self.value,
    {
        self.value
    }
}

/// The suit that a letter stands for.
pub open spec fn suit_of_symbol(c: char) -> Option<Suit> {
    if c == 'h' {
        Some(Suit::Hearts)
    } else if c == 'd' {
        Some(Suit::Diamonds)
    } else if c == 'c' {
        Some(Suit::Clubs)
    } else if c == 's' {
        Some(Suit::Spades)
    } else {
        None
    }
}

/// The value that a character stands for.
pub open spec fn value_of_symbol(c: char) -> Option<Value> {
    if c == '2' {
        Some(Value::Two)
    } else if c == '3' {
        Some(Value::Three)
    } else if c == '4' {
        Some(Value::Four)
    } else if c == '5' {
        Some(Value::Five)
    } else if c == '6' {
        Some(Value::Six)
    } else if c == '7' {
        Some(Value::Seven)
    } else if c == '8' {
        Some(Value::Eight)
    } else if c == '9' {
        Some(Value::Nine)
    } else if c == 'T' {
        Some(Value::Ten)
    } else if c == 'J' {
        Some(Value::Jack)
    } else if c == 'Q' {
        Some(Value::Queen)
    } else if c == 'K' {
        Some(Value::King)
    } else if c == 'A' {
        Some(Value::Ace)
    } else {
        None
    }
}

/// The suit that a text of one letter stands for.
pub open spec fn suit_of_text(text: Seq<char>) -> Option<Suit> {
    if text.len() == 1 {
        suit_of_symbol(text[0])
    } else {
        None
    }
}

/// The value that a text of one character stands for.
pub open spec fn value_of_text(text: Seq<char>) -> Option<Value> {
    if text.len() == 1 {
        value_of_symbol(text[0])
    } else {
        None
    }
}

/// A symbol stands for the suit or value whose symbol it is, and for no
/// other.
pub proof fn lemma_symbols(suit: Suit, value: Value, c: char)
    ensures
        suit_of_symbol(suit.symbol()) == Some(suit),
        value_of_symbol(value.symbol()) == Some(value),
        suit_of_symbol(c) == Some(suit) ==> c == suit.symbol(),
        value_of_symbol(c) == Some(value) ==> c == value.symbol(),
{
}

/// Reading failed, with this message.
pub open spec fn fails_with<T>(parsed: Result<T, String>, message: Seq<char>) -> bool {
    match parsed {
        Ok(_) => false,
        Err(text) => text@ == message,
    }
}

impl Suit {
    /// The suit that a letter stands for: `h`, `d`, `c` or `s`.
    pub fn from_char(c: char) -> (suit: Option<Suit>)
        ensures
            suit == suit_of_symbol(c),
    {
        if c == 'h' {
            Some(Suit::Hearts)
        } else if c == 'd' {
            Some(Suit::Diamonds)
        } else if c == 'c' {
            Some(Suit::Clubs)
        } else if c == 's' {
            Some(Suit::Spades)
        } else {
            None
        }
    }

    /// Reads a suit from its text form, one of the letters `h`, `d`, `c` and
    /// `s`. Any other text is refused with a message that names it.
    pub fn from_str(s: &str) -> (parsed: Result<Suit, String>)
        ensures
            match suit_of_text(s@) {
                Some(suit) => parsed == Ok::<Suit, String>(suit),
                None => fails_with(parsed, "Invalid suit: "@ + s@),
            },
            parsed matches Err(message) ==> names(message@, s@),
    {
        proof {
            lemma_refusal(s);
        }
        if s.unicode_len() == 1 {
            if let Some(suit) = Suit::from_char(s.get_char(0)) {
                return Ok(suit);
            }
        }
        Err(String::from_str("Invalid suit: ").concat(s))
    }

    /// The text form of the suit: its letter.
    pub fn to_string(&self) -> (text: String)
        ensures
            text@ == seq![self.symbol()],
            suit_of_text(text@) == Some(*self),
    {
        let text = match self {
            Suit::Hearts => {
                proof {
                    reveal_strlit("h");
                }
                String::from_str("h")
            },
            Suit::Diamonds => {
                proof {
                    reveal_strlit("d");
                }
                String::from_str("d")
            },
            Suit::Clubs => {
                proof {
                    reveal_strlit("c");
                }
                String::from_str("c")
            },
            Suit::Spades => {
                proof {
                    reveal_strlit("s");
                }
                String::from_str("s")
            },
        };
        proof {
            assert(text@ =~= seq![self.symbol()]);
        }
        text
    }
}

impl Value {
    /// The value that a character stands for: a digit from `2` to `9`, or
    /// `T`, `J`, `Q`, `K`, `A`.
    pub fn from_char(c: char) -> (value: Option<Value>)
        ensures
            value == value_of_symbol(c),
    {
        if c == '2' {
            Some(Value::Two)
        } else if c == '3' {
            Some(Value::Three)
        } else if c == '4' {
            Some(Value::Four)
        } else if c == '5' {
            Some(Value::Five)
        } else if c == '6' {
            Some(Value::Six)
        } else if c == '7' {
            Some(Value::Seven)
        } else if c == '8' {
            Some(Value::Eight)
        } else if c == '9' {
            Some(Value::Nine)
        } else if c == 'T' {
            Some(Value::Ten)
        } else if c == 'J' {
            Some(Value::Jack)
        } else if c == 'Q' {
            Some(Value::Queen)
        } else if c == 'K' {
            Some(Value::King)
        } else if c == 'A' {
            Some(Value::Ace)
        } else {
            None
        }
    }

    /// Reads a value from its text form, one character: a digit from `2` to
    /// `9`, or `T`, `J`, `Q`, `K`, `A`. Any other text is refused with a
    /// message that names it.
    pub fn from_str(s: &str) -> (parsed: Result<Value, String>)
        ensures
            match value_of_text(s@) {
                Some(value) => parsed == Ok::<Value, String>(value),
                None => fails_with(parsed, "Invalid value: "@ + s@),
            },
            parsed matches Err(message) ==> names(message@, s@),
    {
        proof {
            lemma_refusal(s);
        }
        if s.unicode_len() == 1 {
            if let Some(value) = Value::from_char(s.get_char(0)) {
                return Ok(value);
            }
        }
        Err(String::from_str("Invalid value: ").concat(s))
    }

    /// The text form of the value: its character.
    pub fn to_string(&self) -> (text: String)
        ensures
            text@ == seq![self.symbol()],
            value_of_text(text@) == Some(*self),
    {
        proof {
            reveal_strlit("2");
            reveal_strlit("3");
            reveal_strlit("4");
            reveal_strlit("5");
            reveal_strlit("6");
            reveal_strlit("7");
            reveal_strlit("8");
            reveal_strlit("9");
            reveal_strlit("T");
            reveal_strlit("J");
            reveal_strlit("Q");
            reveal_strlit("K");
            reveal_strlit("A");
        }
        let text = match self {
            Value::Two => String::from_str("2"),
            Value::Three => String::from_str("3"),
            Value::Four => String::from_str("4"),
            Value::Five => String::from_str("5"),
            Value::Six => String::from_str("6"),
            Value::Seven => String::from_str("7"),
            Value::Eight => String::from_str("8"),
            Value::Nine => String::from_str("9"),
            Value::Ten => String::from_str("T"),
            Value::Jack => String::from_str("J"),
            Value::Queen => String::from_str("Q"),
            Value::King => String::from_str("K"),
            Value::Ace => String::from_str("A"),
        };
        proof {
            assert(text@ =~= seq![self.symbol()]);
        }
        text
    }
}

/// A text has the length of a card's text form: two characters of one byte
/// each.
pub open spec fn has_card_length(s: &str) -> bool {
    s.len() == 2 && s@.len() == 2
}

/// The card that a text stands for: two characters, that of a value and then
/// that of a suit. No card for any other text.
pub open spec fn card_of_text(text: Seq<char>) -> Option<Card> {
    if text.len() == 2 {
        match (suit_of_symbol(text[1]), value_of_symbol(text[0])) {
            (Some(suit), Some(value)) => Some(Card { suit, value }),
            _ => None,
        }
    } else {
        None
    }
}

/// What is said of a text that stands for no card. A text that is not two
/// characters of one byte each is no card text. Else the suit is looked at,
/// and then the value, and the first of them that is not recognised is
/// named. Whatever the fault, the message ends with the whole text.
pub open spec fn refusal(s: &str) -> Seq<char> {
    if !has_card_length(s) {
        "Invalid card string: "@ + s@
    } else if suit_of_symbol(s@[1]).is_none() {
        "Invalid suit: "@ + seq![s@[1]] + " in card string: "@ + s@
    } else {
        "Invalid value: "@ + seq![s@[0]] + " in card string: "@ + s@
    }
}

/// The message ends with the text `input`.
pub open spec fn names(message: Seq<char>, input: Seq<char>) -> bool {
    message.len() >= input.len() && message.skip(message.len() - input.len()) == input
}

/// A message that ends with a text names it.
pub proof fn lemma_names(before: Seq<char>, input: Seq<char>)
    ensures
        names(before + input, input),
{
    assert((before + input).skip(before.len() as int) =~= input);
}

/// Every refusal names the text that was refused, and a text that stands for
/// a card has the length of a card text.
pub proof fn lemma_refusal(s: &str)
    ensures
        names(refusal(s), s@),
        names("Invalid suit: "@ + s@, s@),
        names("Invalid value: "@ + s@, s@),
        card_of_text(s@).is_some() ==> has_card_length(s),
{
    lemma_names("Invalid card string: "@, s@);
    lemma_names("Invalid suit: "@ + seq![s@[1]] + " in card string: "@, s@);
    lemma_names("Invalid value: "@ + seq![s@[0]] + " in card string: "@, s@);
    lemma_names("Invalid suit: "@, s@);
    lemma_names("Invalid value: "@, s@);
    if card_of_text(s@).is_some() {
        assert(vstd::string::is_ascii(s)) by {
            assert forall|i: int| 0 <= i < s@.len() implies '\0' <= #[trigger] s@[i]
                <= '\u{7f}' by {
                if i == 0 {
                    assert(value_of_symbol(s@[0]).is_some());
                } else {
                    assert(suit_of_symbol(s@[1]).is_some());
                }
            }
        }
        vstd::string::is_ascii_spec_bytes(s);
    }
}

/// `count` times the suit `suit`.
pub open spec fn repeated(suit: Suit, count: nat) -> Seq<Suit> {
    Seq::new(count, |i: int| suit)
}

/// The suits of the cards with the hearts first, then the diamonds, the
/// clubs and the spades.
pub open spec fn suits_in_order(cards: Seq<Card>) -> Seq<Suit> {
    repeated(Suit::Hearts, count_suit(cards, Suit::Hearts)) + repeated(
        Suit::Diamonds,
        count_suit(cards, Suit::Diamonds),
    ) + repeated(Suit::Clubs, count_suit(cards, Suit::Clubs)) + repeated(
        Suit::Spades,
        count_suit(cards, Suit::Spades),
    )
}

/// The ranks of the cards in ascending order.
pub open spec fn ranks_ascending(cards: Seq<Card>) -> Seq<i32> {
    Seq::new(
        cards.len(),
        |i: int| by_rank_descending(cards)[cards.len() - 1 - i].rank() as i32,
    )
}

impl Card {
    /// Reads a card from its text form: the character of the value, then the
    /// letter of the suit, as in `As` for the ace of spades.
    ///
    /// The text is read exactly when it is two characters, the first that of
    /// a value and the second that of a suit. Any other text is refused with
    /// a message that names the whole text. A text that is not two
    /// characters of one byte each is refused as no card text. Else the suit
    /// is looked at, and then the value, and the first of them that is not
    /// recognised is named too.
    pub fn from_str(s: &str) -> (parsed: Result<Card, String>)
        ensures
            match card_of_text(s@) {
                Some(card) => parsed == Ok::<Card, String>(card),
                None => fails_with(parsed, refusal(s)),
            },
            parsed matches Err(message) ==> names(message@, s@),
    {
        proof {
            lemma_refusal(s);
        }
        if s.len() != 2 || s.unicode_len() != 2 {
            return Err(String::from_str("Invalid card string: ").concat(s));
        }
        let suit = match Suit::from_char(s.get_char(1)) {
            Some(suit) => suit,
            None => {
                proof {
                    assert(s@.subrange(1, 2) =~= seq![s@[1]]);
                }
                return Err(
                    String::from_str("Invalid suit: ").concat(s.substring_char(1, 2)).concat(
                        " in card string: ",
                    ).concat(s),
                );
            },
        };
        let value = match Value::from_char(s.get_char(0)) {
            Some(value) => value,
            None => {
                proof {
                    assert(s@.subrange(0, 1) =~= seq![s@[0]]);
                }
                return Err(
                    String::from_str("Invalid value: ").concat(s.substring_char(0, 1)).concat(
                        " in card string: ",
                    ).concat(s),
                );
            },
        };
        Ok(Card { suit, value })
    }

    /// The text form of the card: the character of its value, then the
    /// letter of its suit.
    pub fn to_string(&self) -> (text: String)
        ensures
            text@ == seq![self.value.symbol(), self.suit.symbol()],
    {
        let suit = self.suit.to_string();
        let text = self.value.to_string().concat(suit.as_str());
        proof {
            assert(text@ =~= seq![self.value.symbol(), self.suit.symbol()]);
        }
        text
    }

    /// The suits of the cards, sorted: the hearts first, then the diamonds,
    /// the clubs and the spades.
    pub fn sorted_suits(cards: &[Card]) -> (suits: Vec<Suit>)
        ensures
            suits@ == suits_in_order(cards@),
    {
        let counts = crate::hand::groups::count_suits(cards);
        let mut suits: Vec<Suit> = Vec::new();
        proof {
            assert(counts@[Suit::Hearts.index()] == count_suit(cards@, Suit::Hearts));
            assert(counts@[Suit::Diamonds.index()] == count_suit(cards@, Suit::Diamonds));
            assert(counts@[Suit::Clubs.index()] == count_suit(cards@, Suit::Clubs));
            assert(counts@[Suit::Spades.index()] == count_suit(cards@, Suit::Spades));
        }
        push_repeated(&mut suits, Suit::Hearts, counts[0]);
        push_repeated(&mut suits, Suit::Diamonds, counts[1]);
        push_repeated(&mut suits, Suit::Clubs, counts[2]);
        push_repeated(&mut suits, Suit::Spades, counts[3]);
        proof {
            assert(suits@ =~= suits_in_order(cards@));
        }
        suits
    }

    /// The ranks of the cards, sorted in ascending order.
    pub fn sorted_values(cards: &[Card]) -> (values: Vec<i32>)
        ensures
            values@ == ranks_ascending(cards@),
            forall|i: int, j: int| 0 <= i < j < values@.len() ==> values@[i] <= values@[j],
    {
        let sorted = sort_by_rank_descending(cards);
        let mut values: Vec<i32> = Vec::new();
        let mut left: usize = sorted.len();
        while left > 0
            invariant
                left <= sorted@.len(),
                sorted@.len() == cards@.len(),
                sorted@ == by_rank_descending(cards@),
                values@.len() == sorted@.len() - left,
                forall|i: int|
                    0 <= i < values@.len() ==> values@[i] == ranks_ascending(cards@)[i],
            decreases left,
        {
            left -= 1;
            values.push(sorted[left].value.to_u8() as i32);
        }
        proof {
            assert(values@ =~= ranks_ascending(cards@));
        }
        values
    }
}

/// Adds `count` times the suit `suit` to the end of `suits`.
fn push_repeated(suits: &mut Vec<Suit>, suit: Suit, count: usize)
    ensures
        final(suits)@ == old(suits)@ + repeated(suit, count as nat),
{
    let mut done: usize = 0;
    proof {
        assert(suits@ =~= old(suits)@ + repeated(suit, 0));
    }
    while done < count
        invariant
            done <= count,
            suits@ == old(suits)@ + repeated(suit, done as nat),
        decreases count - done,
    {
        suits.push(suit);
        done += 1;
        proof {
            assert(suits@ =~= old(suits)@ + repeated(suit, done as nat));
        }
    }
}

} // verus!
