//! Reading the kernel-supplied initial stack: argument count and
//! pointers, the environment array, and the auxiliary vector, in one
//! forward pass; then the checks that no later bootstrap step can do
//! without.

use vstd::prelude::*;
use vstd::arithmetic::power2::is_pow2;
use crate::elf::program_header::PROGRAM_HEADER_SIZE;
use crate::linux::auxiliary_iterator::{
    entries_from, entry_count, AuxiliaryIterator, AuxiliaryIteratorItem, AT_BASE, AT_ENTRY,
    AT_PAGE_SIZE, AT_PHDR, AT_PHENT, AT_PHNUM, AT_RANDOM,
};
use crate::static_pie::BootstrapError;
use crate::utils::{aligned, check_power_of_two, lemma_pow2_positive};

pub mod environment_variables;

verus! {

/// Where the pieces of the initial stack lie, by word position: the
/// argument count is the first word, the argument pointers follow it, and
/// the environment array begins right after the arguments' null
/// terminator. The argument count is trusted only after the terminator it
/// predicts has been checked.
#[derive(Clone, Copy, Debug, PartialEq, Eq, Structural)]
pub struct InitialStackLayout {
    pub argument_count: usize,
    pub arguments_start: usize,
    pub environment_start: usize,
}

/// Read the initial stack's fixed prefix: the argument count and the
/// position of the environment array. Fails exactly when the stack is too
/// short for the count it declares or the arguments' null terminator is
/// missing.
pub fn parse_initial_stack(stack: &Vec<usize>) -> (r: Result<InitialStackLayout, BootstrapError>)
    ensures
        match r {
            Ok(layout) => {
                &&& stack@.len() >= 2
                &&& layout.argument_count == stack@[0]
                &&& layout.arguments_start == 1
                &&& layout.argument_count + 2 <= stack@.len()
                &&& stack@[1 + layout.argument_count] == 0
                &&& layout.environment_start == layout.argument_count + 2
            },
            Err(e) => e == BootstrapError::InvariantViolation && (stack@.len() < 2 || stack@[0] + 2
                > stack@.len() || stack@[1 + stack@[0]] != 0),
        },
{
    if stack.len() < 2 {
        return Err(BootstrapError::InvariantViolation);
    }
    let argument_count = stack[0];
    if argument_count > stack.len() - 2 {
        return Err(BootstrapError::InvariantViolation);
    }
    if stack[1 + argument_count] != 0 {
        return Err(BootstrapError::InvariantViolation);
    }
    Ok(
        InitialStackLayout {
            argument_count,
            arguments_start: 1,
            environment_start: argument_count + 2,
        },
    )
}

/// The argument pointer words, recovered once the layout's terminator
/// check has vouched for the count.
pub fn argument_pointers(stack: &Vec<usize>, layout: &InitialStackLayout) -> (r: Vec<usize>)
    requires
        layout.arguments_start == 1,
        layout.argument_count + 2 <= stack@.len(),
    ensures
        r@ == stack@.subrange(1, 1 + layout.argument_count),
{
    let mut pointers: Vec<usize> = Vec::new();
    let mut i: usize = 0;
    while i < layout.argument_count
        invariant
            i <= layout.argument_count,
            layout.argument_count + 2 <= stack@.len(),
            pointers@.len() == i,
            forall|j: int| 0 <= j < i ==> pointers@[j] == stack@[1 + j],
        decreases layout.argument_count - i,
    {
        pointers.push(stack[1 + i]);
        i = i + 1;
    }
    proof {
        assert(pointers@ =~= stack@.subrange(1, 1 + layout.argument_count));
    }
    pointers
}

/// Everything the bootstrap reads from the auxiliary vector in its one
/// scan. A field that the vector does not mention stays null.
#[derive(Clone, Copy, Debug, PartialEq, Eq, Structural)]
pub struct AuxiliaryValues {
    /// The interpreter load base, null when the kernel passed none.
    pub base: usize,
    /// The executable's entry point.
    pub entry: usize,
    /// The page size.
    pub page_size: usize,
    /// The address of 16 bytes of kernel randomness.
    pub random: usize,
    /// The address of the executable's program header table.
    pub program_header_pointer: usize,
    /// How many entries that table holds.
    pub program_header_count: usize,
}

/// The last value the entries give for `kind`, or `default_value` when
/// none does: a forward scan that overwrites keeps the last one.
pub open spec fn last_value_for(
    entries: Seq<AuxiliaryIteratorItem>,
    kind: usize,
    default_value: usize,
) -> usize
    decreases entries.len(),
{
    if entries.len() == 0 {
        default_value
    } else if entries.last().kind == kind {
        entries.last().value
    } else {
        last_value_for(entries.drop_last(), kind, default_value)
    }
}

/// Every `AT_PHENT` entry declares the expected program header entry size.
pub open spec fn phent_values_ok(entries: Seq<AuxiliaryIteratorItem>) -> bool {
    forall|i: int|
        0 <= i < entries.len() && (#[trigger] entries[i]).kind == AT_PHENT ==> entries[i].value
            == PROGRAM_HEADER_SIZE
}

/// Consume the auxiliary vector in one scan and pick out every field of
/// interest, ignoring unrecognized tags. Fails exactly when some
/// `AT_PHENT` entry contradicts the expected program header entry size.
pub fn collect_auxiliary_values(iterator: AuxiliaryIterator) -> (r: Result<
    AuxiliaryValues,
    BootstrapError,
>)
    ensures
        ({
            let entries = entries_from(iterator.words@, iterator.position as int);
            match r {
                Ok(values) => {
                    &&& phent_values_ok(entries)
                    &&& values.base == last_value_for(entries, AT_BASE, 0)
                    &&& values.entry == last_value_for(entries, AT_ENTRY, 0)
                    &&& values.page_size == last_value_for(entries, AT_PAGE_SIZE, 0)
                    &&& values.random == last_value_for(entries, AT_RANDOM, 0)
                    &&& values.program_header_pointer == last_value_for(entries, AT_PHDR, 0)
                    &&& values.program_header_count == last_value_for(entries, AT_PHNUM, 0)
                },
                Err(e) => e == BootstrapError::InvariantViolation && !phent_values_ok(entries),
            }
        }),
{
    let ghost words = iterator.words@;
    let ghost start = iterator.position as int;
    let ghost entries = entries_from(words, start);
    let mut cursor = iterator;
    let mut values = AuxiliaryValues {
        base: 0,
        entry: 0,
        page_size: 0,
        random: 0,
        program_header_pointer: 0,
        program_header_count: 0,
    };
    let ghost mut n: int = 0;
    loop
        invariant_except_break
            words == iterator.words@,
            start == iterator.position as int,
            cursor.words@ == words,
            0 <= n <= entries.len(),
            cursor.position == start + 2 * n,
            entries == entries_from(words, start),
            entry_count(words, start) == n + entry_count(words, cursor.position as int),
            phent_values_ok(entries.take(n)),
            values.base == last_value_for(entries.take(n), AT_BASE, 0),
            values.entry == last_value_for(entries.take(n), AT_ENTRY, 0),
            values.page_size == last_value_for(entries.take(n), AT_PAGE_SIZE, 0),
            values.random == last_value_for(entries.take(n), AT_RANDOM, 0),
            values.program_header_pointer == last_value_for(entries.take(n), AT_PHDR, 0),
            values.program_header_count == last_value_for(entries.take(n), AT_PHNUM, 0),
        ensures
            phent_values_ok(entries),
            values.base == last_value_for(entries, AT_BASE, 0),
            values.entry == last_value_for(entries, AT_ENTRY, 0),
            values.page_size == last_value_for(entries, AT_PAGE_SIZE, 0),
            values.random == last_value_for(entries, AT_RANDOM, 0),
            values.program_header_pointer == last_value_for(entries, AT_PHDR, 0),
            values.program_header_count == last_value_for(entries, AT_PHNUM, 0),
        decreases entries.len() - n,
    {
        let item = match cursor.next() {
            None => {
                proof {
                    assert(entry_count(words, cursor.position as int) == 0);
                    assert(n == entries.len());
                    assert(entries.take(n) =~= entries);
                }
                break ;
            },
            Some(item) => item,
        };
        proof {
            assert(entry_count(words, start + 2 * n) > 0);
            assert(n < entries.len());
            assert(item == entries[n]);
        }
        if item.kind == AT_BASE {
            values.base = item.value;
        } else if item.kind == AT_ENTRY {
            values.entry = item.value;
        } else if item.kind == AT_PAGE_SIZE {
            values.page_size = item.value;
        } else if item.kind == AT_RANDOM {
            values.random = item.value;
        } else if item.kind == AT_PHDR {
            values.program_header_pointer = item.value;
        } else if item.kind == AT_PHNUM {
            values.program_header_count = item.value;
        } else if item.kind == AT_PHENT {
            if item.value != PROGRAM_HEADER_SIZE {
                proof {
                    assert(0 <= n < entries.len());
                    assert(entries[n].kind == AT_PHENT);
                    assert(entries[n].value != PROGRAM_HEADER_SIZE);
                    assert(!phent_values_ok(entries));
                }
                return Err(BootstrapError::InvariantViolation);
            }
        }
        proof {
            assert(entries.take(n + 1).drop_last() =~= entries.take(n));
            assert(entries.take(n + 1).last() == entries[n]);
            n = n + 1;
        }
    }
    Ok(values)
}

/// The checks no later step can do without: a power-of-two page size and
/// a load base that lies on a page boundary. Fails exactly when one of
/// them does not hold.
pub fn validate_bootstrap_values(values: &AuxiliaryValues) -> (r: Result<(), BootstrapError>)
    ensures
        match r {
            Ok(()) => is_pow2(values.page_size as int) && aligned(
                values.base as nat,
                values.page_size as nat,
            ),
            Err(e) => e == BootstrapError::InvariantViolation && !(is_pow2(values.page_size as int)
                && aligned(values.base as nat, values.page_size as nat)),
        },
{
    if !check_power_of_two(values.page_size) {
        return Err(BootstrapError::InvariantViolation);
    }
    proof {
        lemma_pow2_positive(values.page_size as int);
    }
    if values.base % values.page_size != 0 {
        return Err(BootstrapError::InvariantViolation);
    }
    Ok(())
}

} // verus!
