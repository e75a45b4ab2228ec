//! The codec of `Option` and of `Vec`, from the codec of what they hold.

use crate::bytes::error::BytesError;
use crate::bytes::impls::{tail_of, write_at};
use crate::bytes::traits::{reported, Codec, FromBytes, ToBytes};
use vstd::bytes::{
    lemma_auto_spec_u64_to_from_le_bytes,
    spec_u64_from_le_bytes,
    spec_u64_to_le_bytes,
};
use vstd::prelude::*;

verus! {

impl<T: ToBytes> ToBytes for Option<T> {
    open spec fn encoding(&self) -> Seq<u8> {
        match self {
            None => seq![0u8],
            Some(value) => seq![1u8] + value.encoding(),
        }
    }

    open spec fn size_bound() -> Option<nat> {
        match T::size_bound() {
            Some(bound) => if bound < usize::MAX {
                Some(bound + 1)
            } else {
                None
            },
            None => None,
        }
    }

    open spec fn reports(&self, len: Option<usize>) -> bool {
        false
    }

    fn max_size() -> (size: Option<usize>) {
        proof {
            assert(<Option<T> as ToBytes>::size_bound() == match T::size_bound() {
                Some(bound) => if bound < usize::MAX {
                    Some(bound + 1)
                } else {
                    None
                },
                None => None,
            });
        }
        match T::max_size() {
            Some(bound) => if bound < usize::MAX {
                Some(bound + 1)
            } else {
                None
            },
            None => None,
        }
    }

    fn to_bytes(&self, buf: &mut [u8]) -> (res: Result<usize, BytesError>) {
        if buf.len() == 0 {
            return Err(BytesError::BufferTooSmall { needed: 1, available: 0 });
        }
        match self {
            None => {
                buf[0] = 0;
                proof {
                    assert(buf@ =~= self.encoding() + old(buf)@.skip(1));
                }
                Ok(1)
            },
            Some(value) => {
                buf[0] = 1;
                let ghost marked = buf@;
                match write_at(value, buf, 1) {
                    Ok(written) => {
                        proof {
                            assert(marked.take(1) =~= seq![1u8]);
                            assert(buf@ =~= self.encoding() + old(buf)@.skip(1 + written));
                        }
                        Ok(1 + written)
                    },
                    Err(error) => Err(error),
                }
            },
        }
    }

}

impl<T: FromBytes> FromBytes for Option<T> {
    open spec fn outcome(bytes: Seq<u8>) -> Result<nat, BytesError> {
        if bytes.len() < 1 {
            Err(BytesError::UnexpectedEof { needed: 1, available: 0 })
        } else if bytes[0] == 0 {
            Ok(1)
        } else if bytes[0] == 1 {
            match T::outcome(bytes.skip(1)) {
                Ok(used) => Ok(used + 1),
                Err(error) => Err(error),
            }
        } else {
            Err(BytesError::InvalidData { message: "Option discriminant must be 0 or 1" })
        }
    }

    open spec fn decodes(bytes: Seq<u8>, value: Self) -> bool {
        &&& bytes.len() >= 1
        &&& match value {
            None => bytes[0] == 0,
            Some(inner) => bytes[0] == 1 && T::decodes(bytes.skip(1), inner),
        }
    }

    fn from_bytes(buf: &[u8]) -> (res: Result<(Self, usize), BytesError>) {
        if buf.len() == 0 {
            return Err(BytesError::UnexpectedEof { needed: 1, available: 0 });
        }
        let tag = buf[0];
        if tag == 0 {
            Ok((None, 1))
        } else if tag == 1 {
            match T::from_bytes(tail_of(buf, 1)) {
                Ok((value, used)) => Ok((Some(value), 1 + used)),
                Err(error) => Err(error),
            }
        } else {
            Err(BytesError::InvalidData { message: "Option discriminant must be 0 or 1" })
        }
    }
}

impl<T: Codec> Codec for Option<T> {
    proof fn lemma_roundtrip(&self, rest: Seq<u8>) {
        match self {
            None => {},
            Some(value) => {
                value.lemma_roundtrip(rest);
                assert((self.encoding() + rest).skip(1) =~= value.encoding() + rest);
            },
        }
    }
}

/// The encodings of `items`, one after the other.
pub open spec fn encode_all<T: ToBytes>(items: Seq<T>) -> Seq<u8>
    decreases items.len(),
{
    if items.len() == 0 {
        Seq::empty()
    } else {
        encode_all(items.drop_last()) + items.last().encoding()
    }
}

/// How reading `count` values, one after the other, from the start of
/// `bytes` ends: with the number of bytes that they take together, or with
/// the error of the first value that cannot be read.
pub open spec fn outcome_of_all<T: FromBytes>(bytes: Seq<u8>, count: nat) -> Result<
    nat,
    BytesError,
>
    decreases count,
{
    if count == 0 {
        Ok(0)
    } else {
        match outcome_of_all::<T>(bytes, (count - 1) as nat) {
            Ok(used) => match T::outcome(bytes.skip(used as int)) {
                Ok(more) => Ok(used + more),
                Err(error) => Err(error),
            },
            Err(error) => Err(error),
        }
    }
}

/// Where the value `index` starts in `bytes` when the values before it have
/// been read.
pub open spec fn start_of<T: FromBytes>(bytes: Seq<u8>, index: nat) -> int {
    match outcome_of_all::<T>(bytes, index) {
        Ok(used) => used as int,
        Err(_) => 0,
    }
}

/// Whether `items` are what the start of `bytes` stands for, one after the
/// other.
pub open spec fn decodes_all<T: FromBytes>(bytes: Seq<u8>, items: Seq<T>) -> bool {
    forall|i: int|
        0 <= i < items.len() ==> T::decodes(
            bytes.skip(start_of::<T>(bytes, i as nat)),
            #[trigger] items[i],
        )
}

/// Once a value cannot be read, reading more values ends with the same
/// error.
pub proof fn lemma_outcome_stays_error<T: FromBytes>(bytes: Seq<u8>, failed: nat, count: nat)
    requires
        failed <= count,
        outcome_of_all::<T>(bytes, failed) is Err,
    ensures
        outcome_of_all::<T>(bytes, count) == outcome_of_all::<T>(bytes, failed),
    decreases count,
{
    if failed < count {
        lemma_outcome_stays_error::<T>(bytes, failed, (count - 1) as nat);
    }
}

/// The size that a vector works out from the sizes `lens` that its items
/// report: the eight bytes of the count and the sizes of the items, or `None`
/// where an item reports none.
pub open spec fn total_of(lens: Seq<Option<usize>>) -> Option<nat>
    decreases lens.len(),
{
    if lens.len() == 0 {
        Some(8)
    } else {
        match (total_of(lens.drop_last()), lens.last()) {
            (Some(total), Some(len)) => Some((total + len) as nat),
            _ => None,
        }
    }
}

/// Whether a size that was worked out is one that `byte_len` can return.
pub open spec fn fits(total: Option<nat>) -> bool {
    total is Some && total.unwrap() <= usize::MAX
}

/// Whether `lens` are what the first items of `items` report, one for one.
pub open spec fn all_reported<T: ToBytes>(items: Seq<T>, lens: Seq<Option<usize>>) -> bool {
    &&& lens.len() <= items.len()
    &&& forall|i: int| 0 <= i < lens.len() ==> reported(items[i], #[trigger] lens[i])
}

/// Whether `len` is what a vector of `items` reports when its items report
/// `lens`: the total, where every item has reported and the total fits; and
/// `None` where the total of the reports so far does not fit or an item has
/// reported none, at which the vector stops asking.
pub open spec fn vec_reports<T: ToBytes>(
    items: Seq<T>,
    lens: Seq<Option<usize>>,
    len: Option<usize>,
) -> bool {
    &&& all_reported(items, lens)
    &&& if fits(total_of(lens)) {
        lens.len() == items.len() && len == Some(total_of(lens).unwrap() as usize)
    } else {
        len is None
    }
}

impl<T: ToBytes> ToBytes for Vec<T> {
    open spec fn encoding(&self) -> Seq<u8> {
        spec_u64_to_le_bytes(self@.len() as u64) + encode_all(self@)
    }

    open spec fn size_bound() -> Option<nat> {
        None
    }

    /// A vector reports the eight bytes of its count and what its items
    /// report, as far as that fits, and `None` where an item reports none.
    open spec fn reports(&self, len: Option<usize>) -> bool {
        exists|lens: Seq<Option<usize>>| #[trigger] vec_reports(self@, lens, len)
    }

    fn max_size() -> (size: Option<usize>) {
        proof {
            assert(<Vec<T> as ToBytes>::size_bound() == None::<nat>);
        }
        None
    }

    fn to_bytes(&self, buf: &mut [u8]) -> (res: Result<usize, BytesError>) {
        proof {
            lemma_auto_spec_u64_to_from_le_bytes();
        }
        let count = self.len();
        let limit = buf.len();
        let wide = count as u64;
        let mut offset: usize = match write_at(&wide, buf, 0) {
            Ok(written) => written,
            Err(error) => {
                return Err(error);
            },
        };
        let ghost head = spec_u64_to_le_bytes(wide);
        proof {
            assert(encode_all(self@.take(0)) =~= Seq::<u8>::empty());
            assert(buf@ =~= head + encode_all(self@.take(0)) + old(buf)@.skip(offset as int));
        }
        let mut index: usize = 0;
        while index < count
            invariant
                index <= count,
                count == self@.len(),
                head.len() == 8,
                head == spec_u64_to_le_bytes(self@.len() as u64),
                buf@.len() == old(buf)@.len(),
                limit == buf@.len(),
                offset <= buf@.len(),
                offset == 8 + encode_all(self@.take(index as int)).len(),
                buf@ == head + encode_all(self@.take(index as int)) + old(buf)@.skip(offset as int),
            decreases count - index,
        {
            let ghost before = buf@;
            let ghost done = encode_all(self@.take(index as int));
            proof {
                assert(self@.take(index + 1).drop_last() == self@.take(index as int));
                assert(self@.take(index + 1).last() == self@[index as int]);
                lemma_encode_all_grows(self@, index as int);
            }
            match write_at(&self[index], buf, offset) {
                Ok(written) => {
                    proof {
                        assert(before.take(offset as int) =~= head + done);
                        assert(before.skip(offset + written) =~= old(buf)@.skip(offset + written));
                        assert(buf@ =~= head + encode_all(self@.take(index + 1)) + old(buf)@.skip(
                            offset + written,
                        ));
                        assert(offset + written <= buf@.len());
                    }
                    offset = offset + written;
                },
                Err(error) => {
                    proof {
                        assert(self@.take(count as int) == self@);
                        lemma_encode_all_monotone(self@, index + 1, count as int);
                    }
                    return Err(error);
                },
            }
            index += 1;
        }
        proof {
            assert(self@.take(count as int) == self@);
            assert(buf@ =~= self.encoding() + old(buf)@.skip(offset as int));
        }
        Ok(offset)
    }

    fn byte_len(&self) -> (len: Option<usize>)
        ensures
            self.reports(len),
    {
        let count = self.len();
        let mut total: usize = 8;
        let mut index: usize = 0;
        let ghost mut lens: Seq<Option<usize>> = Seq::empty();
        proof {
            lemma_auto_spec_u64_to_from_le_bytes();
            assert(encode_all(self@.take(0)) =~= Seq::<u8>::empty());
        }
        while index < count
            invariant
                index <= count,
                count == self@.len(),
                8 + encode_all(self@.take(index as int)).len() <= total,
                lens.len() == index,
                all_reported(self@, lens),
                total_of(lens) == Some(total as nat),
            decreases count - index,
        {
            proof {
                assert(self@.take(index + 1).drop_last() == self@.take(index as int));
                assert(self@.take(index + 1).last() == self@[index as int]);
            }
            let reported_len = self[index].byte_len();
            proof {
                let before = lens;
                lens = lens.push(reported_len);
                assert(lens.drop_last() == before);
                assert forall|i: int| 0 <= i < lens.len() implies reported(
                    self@[i],
                    #[trigger] lens[i],
                ) by {
                    if i < index {
                        assert(lens[i] == before[i]);
                    }
                }
            }
            match reported_len {
                Some(len) => {
                    if len > usize::MAX - total {
                        proof {
                            assert(vec_reports(self@, lens, None));
                        }
                        return None;
                    }
                    total = total + len;
                },
                None => {
                    proof {
                        assert(vec_reports(self@, lens, None));
                    }
                    return None;
                },
            }
            index += 1;
        }
        proof {
            assert(self@.take(count as int) == self@);
            assert(vec_reports(self@, lens, Some(total)));
        }
        Some(total)
    }
}

/// Items that all report the size `each` add up to the eight bytes of the
/// count and so many times `each`.
pub proof fn lemma_total_of_uniform(lens: Seq<Option<usize>>, each: usize)
    requires
        forall|i: int| 0 <= i < lens.len() ==> #[trigger] lens[i] == Some(each),
    ensures
        total_of(lens) == Some((8 + lens.len() * each) as nat),
    decreases lens.len(),
{
    if lens.len() > 0 {
        lemma_total_of_uniform(lens.drop_last(), each);
        assert(lens.last() == Some(each));
        assert(lens.len() * each == (lens.len() - 1) * each + each) by (nonlinear_arith);
    } else {
        assert(lens.len() * each == 0) by (nonlinear_arith)
            requires
                lens.len() == 0,
        ;
    }
}

/// A vector of items of a type that reports its bound for every value
/// reports the eight bytes of its count and so many times the bound, where
/// that fits, and `None` where it does not.
pub proof fn lemma_vec_reports_bounded<T: ToBytes>(items: Vec<T>, len: Option<usize>, bound: usize)
    requires
        items.reports(len),
        T::size_bound() == Some(bound as nat),
        forall|item: T, size: Option<usize>| !#[trigger] item.reports(size),
    ensures
        8 + items@.len() * bound <= usize::MAX ==> len == Some((8 + items@.len() * bound) as usize),
        8 + items@.len() * bound > usize::MAX ==> len is None,
{
    let lens = choose|lens: Seq<Option<usize>>| #[trigger] vec_reports(items@, lens, len);
    assert forall|i: int| 0 <= i < lens.len() implies #[trigger] lens[i] == Some(bound) by {
        assert(reported(items@[i], lens[i]));
    }
    lemma_total_of_uniform(lens, bound);
    assert(lens.len() * bound <= items@.len() * bound) by (nonlinear_arith)
        requires
            lens.len() <= items@.len(),
    ;
}

/// The encodings of the first `index + 1` items are those of the first
/// `index` and then that of the item `index`.
pub proof fn lemma_encode_all_grows<T: ToBytes>(items: Seq<T>, index: int)
    requires
        0 <= index < items.len(),
    ensures
        encode_all(items.take(index + 1)) == encode_all(items.take(index))
            + items[index].encoding(),
{
    assert(items.take(index + 1).drop_last() == items.take(index));
    assert(items.take(index + 1).last() == items[index]);
}

/// More items do not have a shorter encoding.
pub proof fn lemma_encode_all_monotone<T: ToBytes>(items: Seq<T>, fewer: int, more: int)
    requires
        0 <= fewer <= more <= items.len(),
    ensures
        encode_all(items.take(fewer)).len() <= encode_all(items.take(more)).len(),
    decreases more - fewer,
{
    if fewer < more {
        lemma_encode_all_monotone(items, fewer, more - 1);
        lemma_encode_all_grows(items, more - 1);
    }
}

impl<T: FromBytes> FromBytes for Vec<T> {
    open spec fn outcome(bytes: Seq<u8>) -> Result<nat, BytesError> {
        if bytes.len() < 8 {
            Err(BytesError::UnexpectedEof { needed: 8, available: bytes.len() as usize })
        } else {
            match outcome_of_all::<T>(
                bytes.skip(8),
                spec_u64_from_le_bytes(bytes.take(8)) as nat,
            ) {
                Ok(used) => Ok(used + 8),
                Err(error) => Err(error),
            }
        }
    }

    open spec fn decodes(bytes: Seq<u8>, value: Self) -> bool {
        &&& bytes.len() >= 8
        &&& value@.len() == spec_u64_from_le_bytes(bytes.take(8))
        &&& decodes_all::<T>(bytes.skip(8), value@)
    }

    fn from_bytes(buf: &[u8]) -> (res: Result<(Self, usize), BytesError>) {
        let (count, start) = match u64::from_bytes(buf) {
            Ok(read) => read,
            Err(error) => {
                return Err(error);
            },
        };
        let ghost body = buf@.skip(8);
        let limit = buf.len();
        let mut items: Vec<T> = Vec::new();
        let mut offset: usize = start;
        let mut index: u64 = 0;
        while index < count
            invariant
                index <= count,
                count == spec_u64_from_le_bytes(buf@.take(8)),
                buf@.len() >= 8,
                limit == buf@.len(),
                body == buf@.skip(8),
                8 <= offset <= buf@.len(),
                items@.len() == index,
                outcome_of_all::<T>(body, index as nat) == Ok::<nat, BytesError>(
                    (offset - 8) as nat,
                ),
                decodes_all::<T>(body, items@),
            decreases count - index,
        {
            let ghost so_far = items@;
            match T::from_bytes(tail_of(buf, offset)) {
                Ok((item, used)) => {
                    proof {
                        assert(buf@.skip(offset as int) =~= body.skip(offset - 8));
                    }
                    items.push(item);
                    proof {
                        assert(used <= buf@.skip(offset as int).len());
                        assert forall|i: int| 0 <= i < items@.len() implies T::decodes(
                            body.skip(start_of::<T>(body, i as nat)),
                            #[trigger] items@[i],
                        ) by {
                            if i < index {
                                assert(items@[i] == so_far[i]);
                            }
                        }
                    }
                    offset = offset + used;
                },
                Err(error) => {
                    proof {
                        assert(buf@.skip(offset as int) =~= body.skip(offset - 8));
                        lemma_outcome_stays_error::<T>(body, (index + 1) as nat, count as nat);
                    }
                    return Err(error);
                },
            }
            index += 1;
        }
        Ok((items, offset))
    }
}

impl<T: Codec> Codec for Vec<T> {
    proof fn lemma_roundtrip(&self, rest: Seq<u8>) {
        lemma_auto_spec_u64_to_from_le_bytes();
        let bytes = self.encoding() + rest;
        let body = encode_all(self@) + rest;
        assert(self@.len() == self.len());
        assert(bytes.take(8) =~= spec_u64_to_le_bytes(self@.len() as u64));
        assert(bytes.skip(8) =~= body);
        lemma_roundtrip_all(self@, self@.len() as int, rest);
        assert(self@.take(self@.len() as int) == self@);
        assert forall|i: int| 0 <= i < self@.len() implies T::decodes(
            body.skip(start_of::<T>(body, i as nat)),
            #[trigger] self@[i],
        ) by {
            lemma_roundtrip_all(self@, i, rest);
            lemma_encode_all_split(self@, i);
            let after = encode_all(self@).skip(encode_all(self@.take(i + 1)).len() as int);
            self@[i].lemma_roundtrip(after + rest);
            assert(body.skip(encode_all(self@.take(i)).len() as int) =~= self@[i].encoding() + (
            after + rest));
        }
    }
}

/// The encodings of all items are those of the items before `index`, that
/// of the item `index`, and those of the items after it.
pub proof fn lemma_encode_all_split<T: ToBytes>(items: Seq<T>, index: int)
    requires
        0 <= index < items.len(),
    ensures
        encode_all(items.take(index + 1)).len() <= encode_all(items).len(),
        encode_all(items) == encode_all(items.take(index)) + items[index].encoding() + encode_all(
            items,
        ).skip(encode_all(items.take(index + 1)).len() as int),
{
    let all = encode_all(items);
    let upto = encode_all(items.take(index + 1)).len() as int;
    lemma_encode_all_grows(items, index);
    lemma_encode_all_prefix(items, index + 1);
    lemma_encode_all_monotone(items, index + 1, items.len() as int);
    assert(items.take(items.len() as int) == items);
    assert(all =~= all.take(upto) + all.skip(upto));
}

/// The encodings of the first `count` items are the start of the encodings
/// of all.
pub proof fn lemma_encode_all_prefix<T: ToBytes>(items: Seq<T>, count: int)
    requires
        0 <= count <= items.len(),
    ensures
        encode_all(items.take(count)) == encode_all(items).take(
            encode_all(items.take(count)).len() as int,
        ),
    decreases items.len() - count,
{
    if count < items.len() {
        lemma_encode_all_prefix(items, count + 1);
        lemma_encode_all_grows(items, count);
        lemma_encode_all_monotone(items, count + 1, items.len() as int);
        assert(items.take(items.len() as int) == items);
        assert(encode_all(items.take(count)) =~= encode_all(items).take(
            encode_all(items.take(count)).len() as int,
        ));
    } else {
        assert(items.take(count) == items);
        assert(encode_all(items) =~= encode_all(items).take(encode_all(items).len() as int));
    }
}

/// From the encodings of `items`, whatever follows them, the first `count`
/// items are read, and their encodings are what they take.
pub proof fn lemma_roundtrip_all<T: Codec>(items: Seq<T>, count: int, rest: Seq<u8>)
    requires
        0 <= count <= items.len(),
    ensures
        outcome_of_all::<T>(encode_all(items) + rest, count as nat) == Ok::<nat, BytesError>(
            encode_all(items.take(count)).len(),
        ),
    decreases count,
{
    let body = encode_all(items) + rest;
    if count == 0 {
        assert(encode_all(items.take(0)) =~= Seq::<u8>::empty());
    } else {
        lemma_roundtrip_all(items, count - 1, rest);
        lemma_encode_all_grows(items, count - 1);
        lemma_encode_all_split(items, count - 1);
        let done = encode_all(items.take(count - 1)).len() as int;
        let after = encode_all(items).skip(encode_all(items.take(count)).len() as int);
        items[count - 1].lemma_roundtrip(after + rest);
        assert(body.skip(done) =~= items[count - 1].encoding() + (after + rest));
    }
}

} // verus!
