//! Epochs and their omap encoding.

use crate::errno;
use crate::error::{Rejected, RejectedView};
use vstd::prelude::*;

verus! {

/// The number that `bytes` write in base 256, the most significant byte first.
pub open spec fn big_endian_value(bytes: Seq<u8>) -> nat
    decreases bytes.len(),
{
    if bytes.len() == 0 {
        0
    } else {
        big_endian_value(bytes.drop_last()) * 256 + bytes.last() as nat
    }
}

/// The last `len` digits of `n` in base 256, the most significant one first.
pub open spec fn big_endian(n: nat, len: nat) -> Seq<u8>
    decreases len,
{
    if len == 0 {
        Seq::empty()
    } else {
        big_endian(n / 256, (len - 1) as nat).push((n % 256) as u8)
    }
}

/// The omap encoding of an epoch: big-endian, 8 bytes.
pub open spec fn epoch_encoding(epoch: u64) -> Seq<u8> {
    big_endian(epoch as nat, 8)
}

/// The epoch that an omap value stands for: epoch 0 where there is none.
pub open spec fn decoded_epoch(raw: Seq<u8>) -> Result<u64, RejectedView> {
    if raw.len() == 0 {
        Ok(0)
    } else if raw.len() == 8 {
        Ok(big_endian_value(raw) as u64)
    } else {
        Err(RejectedView::Rados(errno::EINVAL))
    }
}

/// The epoch after `epoch`.
pub open spec fn incremented_epoch(epoch: u64) -> Result<u64, RejectedView> {
    if epoch < u64::MAX {
        Ok((epoch + 1) as u64)
    } else {
        Err(RejectedView::Rados(errno::EOVERFLOW))
    }
}

/// An epoch or why there is none, by its bytes and characters.
pub open spec fn epoch_result_view(result: Result<u64, Rejected>) -> Result<u64, RejectedView> {
    match result {
        Ok(epoch) => Ok(epoch),
        Err(rejected) => Err(rejected@),
    }
}

/// The omap encoding of an epoch: `u64` big-endian, 8 bytes. Acquiring writes the epoch, so
/// this crate owns the encoding; callers compare against it in their own guards.
pub fn epoch_bytes(epoch: u64) -> (bytes: [u8; 8])
    ensures
        bytes@ == epoch_encoding(epoch),
{
    let mut bytes: [u8; 8] = [0u8; 8];
    let mut rest: u64 = epoch;
    let mut i: usize = 8;
    assert(epoch_encoding(epoch) =~= big_endian(rest as nat, 8) + bytes@.skip(8));
    while i > 0
        invariant
            i <= 8,
            bytes@.len() == 8,
            epoch_encoding(epoch) == big_endian(rest as nat, i as nat) + bytes@.skip(i as int),
        decreases i,
    {
        let ghost before = bytes@;
        let byte: u8 = (rest % 256) as u8;
        i -= 1;
        bytes[i] = byte;
        proof {
            assert(before.skip(i + 1) =~= bytes@.skip(i + 1));
            assert(bytes@.skip(i as int) =~= seq![byte] + bytes@.skip(i + 1));
            assert(big_endian(rest as nat, (i + 1) as nat) =~= big_endian(
                (rest / 256) as nat,
                i as nat,
            ).push(byte));
            assert(epoch_encoding(epoch) =~= big_endian((rest / 256) as nat, i as nat)
                + bytes@.skip(i as int));
        }
        rest = rest / 256;
    }
    assert(epoch_encoding(epoch) =~= bytes@);
    bytes
}

/// Decodes what `epoch_bytes` writes. A missing key reads as the empty value, which is
/// epoch 0.
pub fn decode_epoch(raw: &[u8]) -> (result: Result<u64, Rejected>)
    ensures
        epoch_result_view(result) == decoded_epoch(raw@),
{
    if raw.len() == 0 {
        return Ok(0);
    }
    if raw.len() != 8 {
        return Err(Rejected::Rados(errno::EINVAL));
    }
    let mut value: u64 = 0;
    let mut i: usize = 0;
    while i < 8
        invariant
            i <= 8,
            raw@.len() == 8,
            value == big_endian_value(raw@.take(i as int)),
        decreases 8 - i,
    {
        proof {
            lemma_value_bound(raw@.take(i as int));
            lemma_powers();
            assert(raw@.take(i + 1).drop_last() =~= raw@.take(i as int));
        }
        value = value * 256 + raw[i] as u64;
        i += 1;
    }
    assert(raw@.take(8) =~= raw@);
    Ok(value)
}

/// The epoch after `epoch`, if there is one.
pub fn increment_epoch(epoch: u64) -> (result: Result<u64, Rejected>)
    ensures
        epoch_result_view(result) == incremented_epoch(epoch),
{
    match epoch.checked_add(1) {
        Some(next) => Ok(next),
        None => Err(Rejected::Rados(errno::EOVERFLOW)),
    }
}

/// 256 to the power of `n`.
spec fn power(n: nat) -> nat
    decreases n,
{
    if n == 0 {
        1
    } else {
        256 * power((n - 1) as nat)
    }
}

/// The powers up to the eighth.
proof fn lemma_powers()
    ensures
        forall|n: nat| n < 8 ==> #[trigger] power(n) <= 0x100_0000_0000_0000,
        power(8) == 0x1_0000_0000_0000_0000,
{
    reveal_with_fuel(power, 9);
    assert forall|n: nat| n < 8 implies #[trigger] power(n) <= 0x100_0000_0000_0000 by {
        assert(n == 0 || n == 1 || n == 2 || n == 3 || n == 4 || n == 5 || n == 6 || n == 7);
    }
}

/// A number has no more digits than it is written with.
proof fn lemma_value_bound(bytes: Seq<u8>)
    ensures
        big_endian_value(bytes) < power(bytes.len()),
    decreases bytes.len(),
{
    if bytes.len() > 0 {
        lemma_value_bound(bytes.drop_last());
    }
}

/// Writing a number and reading it back gives the number.
proof fn lemma_write_then_read(n: nat, len: nat)
    requires
        n < power(len),
    ensures
        big_endian(n, len).len() == len,
        big_endian_value(big_endian(n, len)) == n,
    decreases len,
{
    if len > 0 {
        lemma_write_then_read(n / 256, (len - 1) as nat);
        let front = big_endian(n / 256, (len - 1) as nat);
        assert(big_endian(n, len).drop_last() =~= front);
    }
}

/// Reading a number and writing it again gives the bytes.
proof fn lemma_read_then_write(bytes: Seq<u8>)
    ensures
        big_endian(big_endian_value(bytes), bytes.len()) == bytes,
    decreases bytes.len(),
{
    if bytes.len() > 0 {
        lemma_read_then_write(bytes.drop_last());
        let value = big_endian_value(bytes.drop_last());
        let last = bytes.last() as nat;
        assert((value * 256 + last) / 256 == value);
        assert((value * 256 + last) % 256 == last);
        assert(bytes =~= bytes.drop_last().push(bytes.last()));
    }
}

/// Decoding gives back the epoch that was encoded, for every epoch.
pub proof fn law_decoding_undoes_encoding(epoch: u64)
    ensures
        epoch_encoding(epoch).len() == 8,
        decoded_epoch(epoch_encoding(epoch)) == Ok::<u64, RejectedView>(epoch),
{
    lemma_powers();
    lemma_write_then_read(epoch as nat, 8);
}

/// Epochs are written big-endian, in eight bytes: the first byte counts most. The empty value is
/// epoch 0, and every other length is invalid.
pub proof fn law_epochs_are_big_endian(raw: Seq<u8>)
    ensures
        raw.len() == 8 ==> (decoded_epoch(raw) matches Ok(epoch) && epoch == raw[0]
            * 0x100_0000_0000_0000 + raw[1] * 0x1_0000_0000_0000 + raw[2] * 0x100_0000_0000 + raw[3]
            * 0x1_0000_0000 + raw[4] * 0x100_0000 + raw[5] * 0x1_0000 + raw[6] * 0x100 + raw[7]),
        raw.len() == 0 ==> decoded_epoch(raw) == Ok::<u64, RejectedView>(0),
        raw.len() != 0 && raw.len() != 8 ==> decoded_epoch(raw) == Err::<u64, RejectedView>(
            RejectedView::Rados(22),
        ),
{
    if raw.len() == 8 {
        assert(raw.take(0) =~= Seq::empty());
        assert(raw.take(1).drop_last() =~= raw.take(0));
        assert(raw.take(2).drop_last() =~= raw.take(1));
        assert(raw.take(3).drop_last() =~= raw.take(2));
        assert(raw.take(4).drop_last() =~= raw.take(3));
        assert(raw.take(5).drop_last() =~= raw.take(4));
        assert(raw.take(6).drop_last() =~= raw.take(5));
        assert(raw.take(7).drop_last() =~= raw.take(6));
        assert(raw.drop_last() =~= raw.take(7));
        assert(big_endian_value(raw.take(0)) == 0);
        assert(big_endian_value(raw.take(1)) == raw[0]);
        assert(big_endian_value(raw.take(2)) == big_endian_value(raw.take(1)) * 256 + raw[1]);
        assert(big_endian_value(raw.take(3)) == big_endian_value(raw.take(2)) * 256 + raw[2]);
        assert(big_endian_value(raw.take(4)) == big_endian_value(raw.take(3)) * 256 + raw[3]);
        assert(big_endian_value(raw.take(5)) == big_endian_value(raw.take(4)) * 256 + raw[4]);
        assert(big_endian_value(raw.take(6)) == big_endian_value(raw.take(5)) * 256 + raw[5]);
        assert(big_endian_value(raw.take(7)) == big_endian_value(raw.take(6)) * 256 + raw[6]);
        assert(big_endian_value(raw) == big_endian_value(raw.take(7)) * 256 + raw[7]);
    }
}

/// The epoch after one is greater by one, up to the last, after which there is none.
pub proof fn law_epochs_do_not_wrap(epoch: u64)
    ensures
        incremented_epoch(epoch) matches Ok(next) ==> next - epoch == 1,
        incremented_epoch(epoch) is Err <==> epoch == u64::MAX,
        incremented_epoch(epoch) matches Err(rejected) ==> rejected == RejectedView::Rados(75),
{
}

/// Encoding gives back a value that decodes, unless it is the empty one.
pub proof fn law_encoding_undoes_decoding(raw: Seq<u8>)
    requires
        raw.len() > 0,
        decoded_epoch(raw) is Ok,
    ensures
        epoch_encoding(decoded_epoch(raw)->Ok_0) == raw,
{
    lemma_value_bound(raw);
    lemma_powers();
    lemma_read_then_write(raw);
}

/// Two epochs have the same encoding only if they are the same epoch, so that a guard on one
/// does not hold on the other.
pub proof fn law_encoding_tells_epochs_apart(a: u64, b: u64)
    requires
        epoch_encoding(a) == epoch_encoding(b),
    ensures
        a == b,
{
    law_decoding_undoes_encoding(a);
    law_decoding_undoes_encoding(b);
}

/// The next epoch fences every writer before it: neither the value that it was counted from,
/// nor the encoding of any epoch up to there, nor the empty value of before the first epoch
/// equals what is written for it.
pub proof fn law_next_epoch_fences_those_before(raw: Seq<u8>, earlier: u64)
    requires
        decoded_epoch(raw) matches Ok(epoch) && earlier <= epoch,
    ensures
        incremented_epoch(decoded_epoch(raw)->Ok_0) matches Ok(next) ==> {
            &&& next == decoded_epoch(raw)->Ok_0 + 1
            &&& epoch_encoding(next) != raw
            &&& epoch_encoding(next) != epoch_encoding(earlier)
            &&& epoch_encoding(next) != Seq::<u8>::empty()
        },
{
    if let Ok(next) = incremented_epoch(decoded_epoch(raw)->Ok_0) {
        law_decoding_undoes_encoding(next);
        law_decoding_undoes_encoding(earlier);
    }
}

} // verus!
