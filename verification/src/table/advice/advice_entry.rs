use vstd::prelude::*;
use vstd::std_specs::convert::FromSpecImpl;

use crate::types::{
    decimal, decimal_text, decimal_value, lemma_decimal_form, lemma_decimal_read_back, Limb, Word,
    WordSum,
};

verus! {

/// What a cell of the advice area holds: nothing, a limb, a word, or a sum of words.
#[derive(Copy, Clone, Debug, PartialEq, Eq, Structural)]
pub enum AdviceEntry {
    Mpty,
    Limb(Limb),
    Word(Word),
    WSum(WordSum),
}

impl Default for AdviceEntry {
    fn default() -> (e: AdviceEntry)
        ensures
            e == AdviceEntry::Mpty,
    {
        AdviceEntry::Mpty
    }
}

/// How an entry reads in the rendered table: nothing for an empty cell, the value in decimal
/// otherwise.
pub open spec fn entry_text(e: AdviceEntry) -> Seq<char> {
    match e {
        AdviceEntry::Mpty => Seq::empty(),
        AdviceEntry::Limb(limb) => decimal(limb as nat),
        AdviceEntry::Word(word) => decimal(word as nat),
        AdviceEntry::WSum(sum) => decimal(sum as nat),
    }
}

impl AdviceEntry {
    /// The entry as it reads in the rendered table.
    pub fn text(&self) -> (s: String)
        ensures
            s@ == entry_text(*self),
    {
        match self {
            AdviceEntry::Mpty => String::new(),
            AdviceEntry::Limb(limb) => decimal_text(*limb as u64),
            AdviceEntry::Word(word) => decimal_text(*word as u64),
            AdviceEntry::WSum(sum) => decimal_text(*sum),
        }
    }

    /// The limb held, if the entry holds a limb.
    pub open spec fn as_limb(self) -> Option<Limb> {
        match self {
            AdviceEntry::Limb(limb) => Some(limb),
            _ => None,
        }
    }

    /// The word held, if the entry holds a word.
    pub open spec fn as_word(self) -> Option<Word> {
        match self {
            AdviceEntry::Word(word) => Some(word),
            _ => None,
        }
    }

    /// The sum held, if the entry holds a sum of words.
    pub open spec fn as_word_sum(self) -> Option<WordSum> {
        match self {
            AdviceEntry::WSum(word_sum) => Some(word_sum),
            _ => None,
        }
    }

    /// The limb held by an entry that holds a limb.
    pub fn limb(&self) -> (limb: Limb)
        requires
            self is Limb,
        ensures
            self.as_limb() == Some(limb),
    {
        match self {
            AdviceEntry::Limb(limb) => *limb,
            _ => 0,
        }
    }

    /// The word held by an entry that holds a word.
    pub fn word(&self) -> (word: Word)
        requires
            self is Word,
        ensures
            self.as_word() == Some(word),
    {
        match self {
            AdviceEntry::Word(word) => *word,
            _ => 0,
        }
    }

    /// The sum held by an entry that holds a sum of words.
    pub fn word_sum(&self) -> (word_sum: WordSum)
        requires
            self is WSum,
        ensures
            self.as_word_sum() == Some(word_sum),
    {
        match self {
            AdviceEntry::WSum(word_sum) => *word_sum,
            _ => 0,
        }
    }

    /// The limb held, if the entry holds a limb.
    pub fn try_limb(&self) -> (limb: Option<Limb>)
        ensures
            limb == self.as_limb(),
    {
        match self {
            AdviceEntry::Limb(limb) => Some(*limb),
            _ => None,
        }
    }

    /// The word held, if the entry holds a word.
    pub fn try_word(&self) -> (word: Option<Word>)
        ensures
            word == self.as_word(),
    {
        match self {
            AdviceEntry::Word(word) => Some(*word),
            _ => None,
        }
    }

    /// The sum held, if the entry holds a sum of words.
    pub fn try_word_sum(&self) -> (word_sum: Option<WordSum>)
        ensures
            word_sum == self.as_word_sum(),
    {
        match self {
            AdviceEntry::WSum(word_sum) => Some(*word_sum),
            _ => None,
        }
    }
}

impl From<Limb> for AdviceEntry {
    fn from(limb: Limb) -> (e: AdviceEntry) {
        AdviceEntry::Limb(limb)
    }
}

impl FromSpecImpl<Limb> for AdviceEntry {
    open spec fn obeys_from_spec() -> bool {
        true
    }

    open spec fn from_spec(v: Limb) -> AdviceEntry {
        AdviceEntry::Limb(v)
    }
}

impl From<Word> for AdviceEntry {
    fn from(word: Word) -> (e: AdviceEntry) {
        AdviceEntry::Word(word)
    }
}

impl FromSpecImpl<Word> for AdviceEntry {
    open spec fn obeys_from_spec() -> bool {
        true
    }

    open spec fn from_spec(v: Word) -> AdviceEntry {
        AdviceEntry::Word(v)
    }
}

impl From<WordSum> for AdviceEntry {
    fn from(wordsum: WordSum) -> (e: AdviceEntry) {
        AdviceEntry::WSum(wordsum)
    }
}

impl FromSpecImpl<WordSum> for AdviceEntry {
    open spec fn obeys_from_spec() -> bool {
        true
    }

    open spec fn from_spec(v: WordSum) -> AdviceEntry {
        AdviceEntry::WSum(v)
    }
}

/// The text of an entry is empty exactly when the entry is empty; an entry that holds a
/// value reads as that value in decimal, with digits only and no leading zeros.
pub proof fn lemma_entry_text_reads_back(e: AdviceEntry)
    ensures
        entry_text(e).len() == 0 <==> e == AdviceEntry::Mpty,
        forall|i: int|
            0 <= i < entry_text(e).len() ==> '0' as int <= #[trigger] entry_text(e)[i] as int
                <= '9' as int,
        entry_text(e).len() > 1 ==> entry_text(e)[0] != '0',
        match e {
            AdviceEntry::Mpty => true,
            AdviceEntry::Limb(limb) => decimal_value(entry_text(e)) == limb,
            AdviceEntry::Word(word) => decimal_value(entry_text(e)) == word,
            AdviceEntry::WSum(sum) => decimal_value(entry_text(e)) == sum,
        },
{
    match e {
        AdviceEntry::Mpty => {},
        AdviceEntry::Limb(limb) => {
            lemma_decimal_form(limb as nat);
            lemma_decimal_read_back(limb as nat);
            lemma_single_digit(limb as nat);
        },
        AdviceEntry::Word(word) => {
            lemma_decimal_form(word as nat);
            lemma_decimal_read_back(word as nat);
            lemma_single_digit(word as nat);
        },
        AdviceEntry::WSum(sum) => {
            lemma_decimal_form(sum as nat);
            lemma_decimal_read_back(sum as nat);
            lemma_single_digit(sum as nat);
        },
    }
}

/// The numeral of zero is the single digit '0'.
proof fn lemma_single_digit(n: nat)
    ensures
        n == 0 ==> decimal(n).len() == 1,
{
}

} // verus!
