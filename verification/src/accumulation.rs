//! The arithmetic of the accumulation benchmark: batches, buffers, keys and
//! counts.
use crate::text;
use vstd::prelude::*;
use vstd::string::*;

verus! {

/// The number of keys that samples are counted under.
pub const NUM_KEYS: usize = 192;

/// The batch size where none is configured.
pub const DEFAULT_MAX_BATCH_SIZE: usize = 65_536;

/// The number of buffers per worker where none is configured.
pub const DEFAULT_BUFFER_POOL_MULTIPLIER: usize = 2;

/// A sample's key has no place in the tables.
#[derive(Clone, Copy, Debug, PartialEq, Eq, Structural)]
pub enum ExampleError {
    KeyOutOfRange { key: u8, max: usize },
}

impl ExampleError {
    pub fn describe(self) -> (text: String)
        ensures
            text@ == match self {
                ExampleError::KeyOutOfRange { key, max } => "key "@ + text::decimal(key as nat)
                    + " is out of range (max is "@ + text::decimal(max as nat) + ")"@,
            },
    {
        match self {
            ExampleError::KeyOutOfRange { key, max } => {
                let mut words = "key ".to_string();
                text::push_decimal(&mut words, key as u64);
                words.append(" is out of range (max is ");
                text::push_decimal(&mut words, max as u64);
                words.append(")");
                words
            },
        }
    }
}

/// The place of a key in the tables.
pub fn key_place(key: u8) -> (place: Result<usize, ExampleError>)
    ensures
        place == if key < NUM_KEYS {
            Ok::<usize, ExampleError>(key as usize)
        } else {
            Err(ExampleError::KeyOutOfRange { key, max: NUM_KEYS })
        },
{
    let place: usize = key as usize;
    if place >= NUM_KEYS {
        Err(ExampleError::KeyOutOfRange { key, max: NUM_KEYS })
    } else {
        Ok(place)
    }
}

/// The batch size: the configured one, where it is a number above zero.
pub fn configured_max_batch_size(configured: Option<usize>) -> (size: usize)
    ensures
        size == match configured {
            Some(value) => if value > 0 {
                value
            } else {
                DEFAULT_MAX_BATCH_SIZE
            },
            None => DEFAULT_MAX_BATCH_SIZE,
        },
{
    match configured {
        Some(value) if value > 0 => value,
        _ => DEFAULT_MAX_BATCH_SIZE,
    }
}

/// The number of buffers: the configured one, where it is a number above zero,
/// and otherwise two for each worker.
pub fn configured_buffer_pool_size(configured: Option<usize>, num_workers: usize) -> (size: usize)
    requires
        !(configured matches Some(value) && value > 0) ==> num_workers * 2 <= usize::MAX,
    ensures
        size > 0,
        configured matches Some(value) && value > 0 ==> size == configured->0,
        !(configured matches Some(value) && value > 0) ==> size == if num_workers == 0 {
            1int
        } else {
            num_workers * 2
        },
{
    match configured {
        Some(value) if value > 0 => value,
        _ => {
            let size: usize = num_workers * DEFAULT_BUFFER_POOL_MULTIPLIER;
            if size == 0 {
                1
            } else {
                size
            }
        },
    }
}

/// The number of batches that some values fill.
pub fn channel_batch_count(value_count: u64, max_batch_size: usize) -> (batches: u64)
    requires
        max_batch_size > 0,
    ensures
        batches * max_batch_size >= value_count,
        value_count > 0 ==> (batches - 1) * max_batch_size < value_count,
        value_count == 0 ==> batches == 0,
{
    let size: u64 = max_batch_size as u64;
    let whole: u64 = value_count / size;
    let rest: u64 = value_count % size;
    assert(value_count == whole * size + rest && rest < size) by (nonlinear_arith)
        requires
            size > 0,
            whole == value_count / size,
            rest == value_count % size,
    ;
    if rest > 0 {
        assert(whole < value_count) by (nonlinear_arith)
            requires
                value_count == whole * size + rest,
                rest > 0,
                size > 0,
        ;
        assert((whole + 1) * size == whole * size + size) by (nonlinear_arith);
        whole + 1
    } else {
        assert((whole - 1) * size == whole * size - size) by (nonlinear_arith);
        if value_count == 0 {
            assert(whole == 0) by (nonlinear_arith)
                requires
                    whole * size == 0,
                    size > 0,
            ;
        }
        whole
    }
}

/// The sum of some counts.
pub open spec fn sum_of(counts: Seq<u64>) -> nat
    decreases counts.len(),
{
    if counts.len() == 0 {
        0
    } else {
        sum_of(counts.drop_last()) + counts.last() as nat
    }
}

proof fn lemma_sum_grows(counts: Seq<u64>, end: int)
    requires
        0 <= end <= counts.len(),
    ensures
        sum_of(counts.take(end)) <= sum_of(counts),
    decreases counts.len() - end,
{
    if end < counts.len() {
        lemma_sum_grows(counts, end + 1);
        assert(counts.take(end + 1).drop_last() =~= counts.take(end));
    } else {
        assert(counts.take(end) =~= counts);
    }
}

/// The number of values that a worker counted under its keys.
pub fn worker_message_count(counts: &Vec<u64>) -> (total: u64)
    requires
        sum_of(counts@) <= u64::MAX,
    ensures
        total == sum_of(counts@),
{
    let mut total: u64 = 0;
    let mut index: usize = 0;
    while index < counts.len()
        invariant
            index <= counts@.len(),
            sum_of(counts@) <= u64::MAX,
            total == sum_of(counts@.take(index as int)),
        decreases counts@.len() - index,
    {
        proof {
            lemma_sum_grows(counts@, index + 1);
            assert(counts@.take(index + 1).drop_last() =~= counts@.take(index as int));
        }
        total = total + counts[index];
        index += 1;
    }
    assert(counts@.take(index as int) =~= counts@);
    total
}

/// The least and the greatest of some counts, and how far they are apart.
#[derive(Clone, Copy, Debug, PartialEq, Eq, Structural)]
pub struct CountRange {
    pub min: u64,
    pub max: u64,
    pub spread: u64,
}

/// The range of some counts; of none, all zeros.
pub fn count_range(counts: &Vec<u64>) -> (range: CountRange)
    ensures
        range.spread == range.max - range.min,
        counts@.len() == 0 ==> range.min == 0 && range.max == 0,
        counts@.len() > 0 ==> counts@.contains(range.min) && counts@.contains(range.max),
        forall|i: int|
            0 <= i < counts@.len() ==> range.min <= #[trigger] counts@[i] <= range.max,
{
    if counts.len() == 0 {
        return CountRange { min: 0, max: 0, spread: 0 };
    }
    let mut min: u64 = counts[0];
    let mut max: u64 = counts[0];
    let mut index: usize = 1;
    while index < counts.len()
        invariant
            1 <= index <= counts@.len(),
            min <= max,
            counts@.contains(min),
            counts@.contains(max),
            forall|i: int| 0 <= i < index ==> min <= #[trigger] counts@[i] <= max,
        decreases counts@.len() - index,
    {
        let count: u64 = counts[index];
        assert(counts@.contains(count));
        if count < min {
            min = count;
        }
        if count > max {
            max = count;
        }
        index += 1;
    }
    CountRange { min, max, spread: max - min }
}

/// How a run with some consumers is titled.
pub fn consumers_label(consumers: usize) -> (label: String)
    ensures
        label@ == if consumers == 1 {
            "1 consumer"@
        } else {
            text::decimal(consumers as nat) + " consumers"@
        },
{
    if consumers == 1 {
        "1 consumer".to_string()
    } else {
        text::decimal_text(consumers as u64).concat(" consumers")
    }
}

/// Batches cover their values: one batch less would not hold them, and the count
/// is the only one with both properties.
pub proof fn law_batch_count_is_exact(value_count: int, size: int, a: int, b: int)
    requires
        size > 0,
        value_count > 0,
        a * size >= value_count,
        (a - 1) * size < value_count,
        b * size >= value_count,
        (b - 1) * size < value_count,
    ensures
        a == b,
{
    if a < b {
        assert(a * size <= (b - 1) * size) by (nonlinear_arith)
            requires
                a <= b - 1,
                size > 0,
        ;
    } else if b < a {
        assert(b * size <= (a - 1) * size) by (nonlinear_arith)
            requires
                b <= a - 1,
                size > 0,
        ;
    }
}

/// Each of the keys has a place of its own, and no other key has one.
pub proof fn law_key_has_its_own_place(key: u8, place: Result<usize, ExampleError>)
    requires
        call_ensures(key_place, (key,), place),
    ensures
        place is Ok <==> key < 192,
        place is Ok ==> place->Ok_0 == key,
        place is Err ==> place->Err_0 == (ExampleError::KeyOutOfRange { key, max: 192 }),
{
}

/// A configured size above zero is taken; otherwise batches hold 65536 values, and each
/// worker has two buffers, with one at least.
pub proof fn law_sizes_are_as_configured(
    configured: Option<usize>,
    num_workers: usize,
    batch: usize,
    pool: usize,
)
    requires
        num_workers * 2 <= usize::MAX,
        call_ensures(configured_max_batch_size, (configured,), batch),
        call_ensures(configured_buffer_pool_size, (configured, num_workers), pool),
    ensures
        configured is Some && configured->0 > 0 ==> batch == configured->0 && pool == configured->0,
        !(configured is Some && configured->0 > 0) ==> batch == 65_536,
        !(configured is Some && configured->0 > 0) && num_workers > 0 ==> pool == 2 * num_workers,
        !(configured is Some && configured->0 > 0) && num_workers == 0 ==> pool == 1,
{
}

/// The batches hold all values, and one batch less would not.
pub proof fn law_batches_hold_the_values(value_count: u64, max_batch_size: usize, batches: u64)
    requires
        max_batch_size > 0,
        call_ensures(channel_batch_count, (value_count, max_batch_size), batches),
    ensures
        batches * max_batch_size >= value_count,
        batches > 0 ==> (batches - 1) * max_batch_size < value_count,
        batches == 0 <==> value_count == 0,
{
    if value_count > 0 && batches == 0 {
        assert(batches * max_batch_size == 0) by (nonlinear_arith)
            requires
                batches == 0,
        ;
    }
}

/// Every count is counted once: one more count adds itself to the sum.
pub proof fn law_every_count_is_counted(
    fewer: Vec<u64>,
    counts: Vec<u64>,
    total_of_fewer: u64,
    total: u64,
)
    requires
        sum_of(counts@) <= u64::MAX,
        sum_of(fewer@) <= u64::MAX,
        call_ensures(worker_message_count, (&fewer,), total_of_fewer),
        call_ensures(worker_message_count, (&counts,), total),
    ensures
        counts@.len() == 0 ==> total == 0,
        counts@.len() > 0 && fewer@ == counts@.drop_last() ==> total == total_of_fewer
            + counts@.last(),
{
}

/// The range of some counts reaches from the least to the greatest of them.
pub proof fn law_range_holds_every_count(counts: Vec<u64>, range: CountRange, i: int)
    requires
        call_ensures(count_range, (&counts,), range),
    ensures
        range.min + range.spread == range.max,
        0 <= i < counts@.len() ==> range.min <= counts@[i] <= range.max,
        counts@.len() > 0 ==> counts@.contains(range.min) && counts@.contains(range.max),
        counts@.len() == 0 ==> range.max == 0,
{
}

/// One consumer is titled in the singular and any other number in the plural.
pub proof fn law_consumers_are_titled(consumers: usize, label: String)
    requires
        call_ensures(consumers_label, (consumers,), label),
    ensures
        consumers == 1 ==> label@ == "1 consumer"@,
        consumers != 1 ==> label@ == text::decimal(consumers as nat) + " consumers"@,
{
}

/// A key that is out of range is worded with itself and the number of keys.
pub proof fn law_key_error_is_worded(key: u8, max: usize, text: String)
    requires
        call_ensures(
            ExampleError::describe,
            (ExampleError::KeyOutOfRange { key, max },),
            text,
        ),
    ensures
        text@ == "key "@ + text::decimal(key as nat) + " is out of range (max is "@
            + text::decimal(max as nat) + ")"@,
{
}

} // verus!
