//! The environment: a null-terminated array of pointer words on the
//! initial stack, each pointing at a "NAME=value" string.

use vstd::prelude::*;

verus! {

/// The word position of the environment array's null terminator at or
/// after `p` (or the end of the words, for an unterminated array).
pub open spec fn environment_end(words: Seq<usize>, p: int) -> int
    decreases words.len() - p,
{
    if p < 0 || p >= words.len() {
        p
    } else if words[p] == 0 {
        p
    } else {
        environment_end(words, p + 1)
    }
}

/// A single-pass iterator over the environment pointer words from
/// `position` on, up to their null terminator.
pub struct EnvironmentIterator {
    pub words: Vec<usize>,
    pub position: usize,
}

impl EnvironmentIterator {
    /// Start iterating at word position `position` of `words`.
    pub fn new(words: Vec<usize>, position: usize) -> (r: EnvironmentIterator)
        ensures
            r.words@ == words@,
            r.position == position,
    {
        EnvironmentIterator { words, position }
    }

    /// Extract the backing words and the current position, consuming the
    /// iterator.
    pub fn into_inner(self) -> (r: (Vec<usize>, usize))
        ensures
            r.0@ == self.words@,
            r.1 == self.position,
    {
        (self.words, self.position)
    }

    /// Yield the next environment pointer word and advance; yield
    /// nothing, and stay put, at the null terminator or past the end.
    pub fn next(&mut self) -> (r: Option<usize>)
        ensures
            final(self).words == old(self).words,
            match r {
                Some(word) => {
                    &&& old(self).position < old(self).words@.len()
                    &&& word == old(self).words@[old(self).position as int]
                    &&& word != 0
                    &&& final(self).position == old(self).position + 1
                },
                None => {
                    &&& (old(self).position >= old(self).words@.len() || old(self).words@[old(
                        self,
                    ).position as int] == 0)
                    &&& final(self).position == old(self).position
                },
            },
    {
        if self.position >= self.words.len() {
            return None;
        }
        let word: usize = self.words[self.position];
        if word == 0 {
            return None;
        }
        self.position = self.position + 1;
        Some(word)
    }
}

/// The position of the first `=` in `s` at or after `i`; negative when
/// none occurs.
pub open spec fn equals_position(s: Seq<u8>, i: int) -> int
    decreases s.len() - i,
{
    if i < 0 || i >= s.len() {
        -1
    } else if s[i] == 61 {
        i
    } else {
        equals_position(s, i + 1)
    }
}

/// The value part of a "NAME=value" entry: what follows the first `=`.
pub open spec fn entry_value(entry: Seq<u8>) -> Seq<u8> {
    entry.skip(equals_position(entry, 0) + 1)
}

/// Whether a "NAME=value" entry carries exactly the name `name`.
pub open spec fn entry_has_name(entry: Seq<u8>, name: Seq<u8>) -> bool {
    equals_position(entry, 0) >= 0 && entry.take(equals_position(entry, 0)) == name
}

/// Split one "NAME=value" entry at its first `=` into name and value.
/// Fails exactly when the entry holds no `=`.
pub fn split_environment_entry(entry: &Vec<u8>) -> (r: Option<(Vec<u8>, Vec<u8>)>)
    ensures
        match r {
            Some(pair) => {
                &&& equals_position(entry@, 0) >= 0
                &&& pair.0@ == entry@.take(equals_position(entry@, 0))
                &&& pair.1@ == entry_value(entry@)
            },
            None => equals_position(entry@, 0) < 0,
        },
{
    let length: usize = entry.len();
    let mut i: usize = 0;
    while i < length && entry[i] != 61
        invariant
            i <= length,
            length == entry@.len(),
            equals_position(entry@, 0) == equals_position(entry@, i as int),
        decreases length - i,
    {
        i = i + 1;
    }
    if i >= length {
        return None;
    }
    let mut name: Vec<u8> = Vec::new();
    let mut k: usize = 0;
    while k < i
        invariant
            k <= i,
            i < entry@.len(),
            name@.len() == k,
            forall|j: int| 0 <= j < k ==> name@[j] == entry@[j],
        decreases i - k,
    {
        name.push(entry[k]);
        k = k + 1;
    }
    let mut value: Vec<u8> = Vec::new();
    let mut v: usize = i + 1;
    while v < length
        invariant
            i + 1 <= v <= length,
            length == entry@.len(),
            value@.len() == v - i - 1,
            forall|j: int| 0 <= j < value@.len() ==> value@[j] == entry@[i + 1 + j],
        decreases length - v,
    {
        value.push(entry[v]);
        v = v + 1;
    }
    proof {
        assert(name@ =~= entry@.take(equals_position(entry@, 0)));
        assert(value@ =~= entry_value(entry@));
    }
    Some((name, value))
}

/// Whether two byte strings hold the same bytes.
pub fn bytes_equal(a: &Vec<u8>, b: &Vec<u8>) -> (r: bool)
    ensures
        r == (a@ == b@),
{
    if a.len() != b.len() {
        return false;
    }
    let length: usize = a.len();
    let mut i: usize = 0;
    while i < length
        invariant
            i <= length,
            length == a@.len(),
            length == b@.len(),
            forall|j: int| 0 <= j < i ==> a@[j] == b@[j],
        decreases length - i,
    {
        if a[i] != b[i] {
            return false;
        }
        i = i + 1;
    }
    proof {
        assert(a@ =~= b@);
    }
    true
}

/// Look `name` up among "NAME=value" entries: the value of the first
/// entry whose name part matches, if any.
pub fn environment_lookup(entries: &Vec<Vec<u8>>, name: &Vec<u8>) -> (r: Option<Vec<u8>>)
    ensures
        match r {
            Some(value) => exists|i: int|
                {
                    &&& 0 <= i < entries@.len()
                    &&& entry_has_name(#[trigger] entries@[i]@, name@)
                    &&& value@ == entry_value(entries@[i]@)
                    &&& forall|j: int| 0 <= j < i ==> !entry_has_name(#[trigger] entries@[j]@, name@)
                },
            None => forall|i: int|
                0 <= i < entries@.len() ==> !entry_has_name(#[trigger] entries@[i]@, name@),
        },
{
    let count: usize = entries.len();
    let mut i: usize = 0;
    while i < count
        invariant
            i <= count,
            count == entries@.len(),
            forall|j: int| 0 <= j < i ==> !entry_has_name(#[trigger] entries@[j]@, name@),
        decreases count - i,
    {
        match split_environment_entry(&entries[i]) {
            None => {
            },
            Some(pair) => {
                let (entry_name, entry_val) = pair;
                if bytes_equal(&entry_name, name) {
                    proof {
                        assert(entry_has_name(entries@[i as int]@, name@));
                    }
                    return Some(entry_val);
                }
            },
        }
        i = i + 1;
    }
    None
}

} // verus!
