//! The auxiliary vector: kernel-supplied (type, value) pairs that follow
//! the environment pointer array on the initial stack, terminated by a
//! pair whose type is `AT_NULL`.

use vstd::prelude::*;
use crate::start::environment_variables::EnvironmentIterator;

verus! {

pub const AT_NULL: usize = 0;

pub const AT_PHDR: usize = 3;

pub const AT_PHENT: usize = 4;

pub const AT_PHNUM: usize = 5;

pub const AT_PAGE_SIZE: usize = 6;

pub const AT_BASE: usize = 7;

pub const AT_ENTRY: usize = 9;

pub const AT_RANDOM: usize = 25;

/// One auxiliary pair, decoded at scan time: the type tag and the value
/// word (an integer or an address, resolved by the tag).
#[derive(Clone, Copy, Debug, PartialEq, Eq, Structural)]
pub struct AuxiliaryIteratorItem {
    pub kind: usize,
    pub value: usize,
}

/// The pair at word position `p`.
pub open spec fn item_at(words: Seq<usize>, p: int) -> AuxiliaryIteratorItem {
    AuxiliaryIteratorItem { kind: words[p], value: words[p + 1] }
}

/// The number of real pairs from word position `p` before the first
/// `AT_NULL` pair (or before the words run out).
pub open spec fn entry_count(words: Seq<usize>, p: int) -> nat
    decreases words.len() - p,
{
    if p < 0 || p + 2 > words.len() {
        0
    } else if words[p] == AT_NULL {
        0
    } else {
        (1 + entry_count(words, p + 2)) as nat
    }
}

/// The real pairs from word position `p`, in stack order.
pub open spec fn entries_from(words: Seq<usize>, p: int) -> Seq<AuxiliaryIteratorItem> {
    Seq::new(entry_count(words, p), |k: int| item_at(words, p + 2 * k))
}

/// A single-pass, non-restartable iterator over the auxiliary pairs held
/// in the stack words from `position` on.
pub struct AuxiliaryIterator {
    pub words: Vec<usize>,
    pub position: usize,
}

impl AuxiliaryIterator {
    /// Start iterating at word position `position` of `words`.
    pub fn new(words: Vec<usize>, position: usize) -> (r: AuxiliaryIterator)
        ensures
            r.words@ == words@,
            r.position == position,
    {
        AuxiliaryIterator { words, position }
    }

    /// Extract the backing words and the current position, consuming the
    /// iterator.
    pub fn into_inner(self) -> (r: (Vec<usize>, usize))
        ensures
            r.0@ == self.words@,
            r.1 == self.position,
    {
        (self.words, self.position)
    }

    /// Start right after the environment array's own terminator: scan the
    /// environment words to their null terminator and begin at the word
    /// after it.
    pub fn from_environment_iterator(environment_iterator: EnvironmentIterator) -> (r:
        AuxiliaryIterator)
        ensures
            r.words@ == environment_iterator.words@,
            ({
                let e = crate::start::environment_variables::environment_end(
                    environment_iterator.words@,
                    environment_iterator.position as int,
                );
                r.position == if e < environment_iterator.words@.len() {
                    e + 1
                } else {
                    e
                }
            }),
    {
        let (words, start) = environment_iterator.into_inner();
        let mut position: usize = start;
        while position < words.len() && words[position] != 0
            invariant
                start <= position <= words@.len() || position == start,
                position <= words@.len() || position == start,
                crate::start::environment_variables::environment_end(words@, start as int)
                    == crate::start::environment_variables::environment_end(
                    words@,
                    position as int,
                ),
            decreases words@.len() - position,
        {
            position = position + 1;
        }
        if position < words.len() {
            position = position + 1;
        }
        AuxiliaryIterator { words, position }
    }

    /// Drain the iterator: the yielded pairs are exactly the real pairs
    /// before the first `AT_NULL` sentinel, in stack order, each once.
    pub fn collect_entries(self) -> (r: Vec<AuxiliaryIteratorItem>)
        ensures
            r@ == entries_from(self.words@, self.position as int),
    {
        let ghost words = self.words@;
        let ghost start = self.position as int;
        let ghost entries = entries_from(words, start);
        let mut cursor = self;
        let mut collected: Vec<AuxiliaryIteratorItem> = Vec::new();
        loop
            invariant_except_break
                words == self.words@,
                start == self.position as int,
                entries == entries_from(words, start),
                cursor.words@ == words,
                collected@.len() <= entries.len(),
                cursor.position == start + 2 * collected@.len(),
                entry_count(words, start) == collected@.len() + entry_count(
                    words,
                    cursor.position as int,
                ),
                forall|j: int| 0 <= j < collected@.len() ==> collected@[j] == entries[j],
            ensures
                collected@ == entries,
            decreases entries.len() - collected@.len(),
        {
            let ghost n = collected@.len() as int;
            match cursor.next() {
                None => {
                    proof {
                        assert(entry_count(words, cursor.position as int) == 0);
                        assert(collected@ =~= entries);
                    }
                    break ;
                },
                Some(item) => {
                    proof {
                        assert(entry_count(words, start + 2 * n) > 0);
                        assert(n < entries.len());
                        assert(item == entries[n]);
                    }
                    collected.push(item);
                },
            }
        }
        collected
    }

    /// Yield the next real pair and advance; yield nothing, and stay put,
    /// at the `AT_NULL` sentinel or past the end of the words.
    pub fn next(&mut self) -> (r: Option<AuxiliaryIteratorItem>)
        ensures
            final(self).words == old(self).words,
            match r {
                Some(item) => {
                    &&& old(self).position + 2 <= old(self).words@.len()
                    &&& old(self).words@[old(self).position as int] != AT_NULL
                    &&& item == item_at(old(self).words@, old(self).position as int)
                    &&& final(self).position == old(self).position + 2
                },
                None => {
                    &&& (old(self).position + 2 > old(self).words@.len() || old(self).words@[old(
                        self,
                    ).position as int] == AT_NULL)
                    &&& final(self).position == old(self).position
                },
            },
    {
        let length: usize = self.words.len();
        if length < 2 || self.position > length - 2 {
            return None;
        }
        let kind: usize = self.words[self.position];
        if kind == AT_NULL {
            return None;
        }
        let value: usize = self.words[self.position + 1];
        self.position = self.position + 2;
        Some(AuxiliaryIteratorItem { kind, value })
    }
}

} // verus!
