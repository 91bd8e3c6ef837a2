//! The ID3v2 tags in front of audio: whether the reader of tags gets past them.

use vstd::prelude::*;

verus! {

/// Whether an ID3v2 tag starts here.
pub open spec fn is_tag(data: Seq<u8>, at: nat) -> bool {
    data[at as int] == 0x49 && data[at as int + 1] == 0x44 && data[at as int + 2] == 0x33
}

/// Whether audio starts here: a FLAC file, or an MPEG frame whose version and
/// layer mean something.
pub open spec fn is_audio(data: Seq<u8>, at: nat) -> bool {
    let second = data[at as int + 1] as nat;
    ||| data[at as int] == 0x66 && second == 0x4c && data[at as int + 2] == 0x61 && data[at as int
        + 3] == 0x43
    ||| data[at as int] == 0xff && second >= 0xe0 && second / 8 % 4 != 1 && second / 2 % 4 != 0
}

/// The number that four bytes write, of which seven bits count each.
pub open spec fn seven_bit_number(data: Seq<u8>, at: nat) -> nat {
    (data[at as int] as nat % 128 * 0x20_0000 + data[at as int + 1] as nat % 128 * 0x4000
        + data[at as int + 2] as nat % 128 * 128 + data[at as int + 3] as nat % 128) as nat
}

/// Where a tag ends.
pub open spec fn tag_end(data: Seq<u8>, at: nat) -> nat {
    at + 10 + seven_bit_number(data, at + 6)
}

/// Whether a bit of a byte is set, by what it is worth.
pub open spec fn is_set(byte: u8, worth: nat) -> bool {
    byte as nat / worth % 2 == 1
}

/// Where the extended header of a version 2.4 tag states the restrictions, with
/// these flags: behind what it states of an update and of a checksum.
pub open spec fn restrictions_at(data: Seq<u8>, at: nat, flags: u8) -> Option<nat> {
    let update = at + 16;
    let sum = if is_set(flags, 0x40) {
        update + 1
    } else {
        update
    };
    let place = if is_set(flags, 0x20) {
        sum + 6
    } else {
        sum
    };
    if place + 2 > data.len() || (is_set(flags, 0x40) && data[update as int] != 1) || (is_set(
        flags,
        0x20,
    ) && data[sum as int] != 5) || data[place as int] != 1 {
        None
    } else {
        Some(place + 1)
    }
}

/// Whether the reader of tags cannot deal with a tag: one of version 2.4 whose
/// extended header restricts its size to 64 frames and 128 KB or to 32 frames and
/// 4 KB. The second bit of the restrictions tells.
pub open spec fn is_unreadable(data: Seq<u8>, at: nat) -> bool {
    let flags = data[at as int + 15];
    &&& data[at as int + 3] == 4 && data[at as int + 4] != 0xff && is_set(data[at as int + 5], 0x40)
    &&& data[at as int + 14] == 1 && is_set(flags, 0x10)
    &&& match restrictions_at(data, at, flags) {
        None => false,
        Some(place) => place < tag_end(data, at) && is_set(data[place as int], 0x40),
    }
}

/// Whether all tags before the audio can be read. They are found one behind the
/// other, with any bytes between them.
pub open spec fn can_be_passed(data: Seq<u8>, at: nat) -> bool
    decreases data.len() - at,
{
    if at + 16 > data.len() {
        true
    } else if is_tag(data, at) {
        !is_unreadable(data, at) && (tag_end(data, at) >= data.len() || can_be_passed(
            data,
            tag_end(data, at),
        ))
    } else if is_audio(data, at) {
        true
    } else {
        can_be_passed(data, at + 1)
    }
}

fn bit_is_set(byte: u8, worth: u8) -> (r: bool)
    requires
        worth > 0,
    ensures
        r == is_set(byte, worth as nat),
{
    byte / worth % 2 == 1
}

fn cannot_be_read(data: &[u8], at: usize, size: usize) -> (r: bool)
    requires
        at + 16 <= data@.len(),
        size == seven_bit_number(data@, (at + 6) as nat),
    ensures
        r == is_unreadable(data@, at as nat),
{
    let left: usize = data.len() - at;
    if data[at + 3] != 4 || data[at + 4] == 0xff || !bit_is_set(data[at + 5], 0x40) {
        return false;
    }
    let flags: u8 = data[at + 15];
    if data[at + 14] != 1 || !bit_is_set(flags, 0x10) {
        return false;
    }
    let updates: bool = bit_is_set(flags, 0x40);
    let sums: bool = bit_is_set(flags, 0x20);
    let sum: usize = if updates {
        17
    } else {
        16
    };
    let place: usize = if sums {
        sum + 6
    } else {
        sum
    };
    if left < place + 2 || (updates && data[at + 16] != 1) || (sums && data[at + sum] != 5)
        || data[at + place] != 1 {
        return false;
    }
    place + 1 - 10 < size && bit_is_set(data[at + place + 1], 0x40)
}

fn tag_size(data: &[u8], at: usize) -> (r: usize)
    requires
        at + 4 <= data@.len(),
    ensures
        r == seven_bit_number(data@, at as nat),
{
    (data[at] % 128) as usize * 0x20_0000 + (data[at + 1] % 128) as usize * 0x4000 + (data[at + 2]
        % 128) as usize * 128 + (data[at + 3] % 128) as usize
}

/// Tells whether all tags before the audio can be read.
pub fn tags_can_be_passed(data: &[u8]) -> (r: bool)
    ensures
        r == can_be_passed(data@, 0),
{
    let n: usize = data.len();
    let mut at: usize = 0;
    while n - at >= 16
        invariant
            n == data@.len(),
            at <= n,
            can_be_passed(data@, 0) == can_be_passed(data@, at as nat),
        decreases n - at,
    {
        let second: u8 = data[at + 1];
        if data[at] == 0x49 && second == 0x44 && data[at + 2] == 0x33 {
            let size: usize = tag_size(data, at + 6);
            if cannot_be_read(data, at, size) {
                return false;
            }
            if size >= n - at - 10 {
                return true;
            }
            at = at + 10 + size;
        } else if (data[at] == 0x66 && second == 0x4c && data[at + 2] == 0x61 && data[at + 3]
            == 0x43) || (data[at] == 0xff && second >= 0xe0 && second / 8 % 4 != 1 && second / 2 % 4
            != 0) {
            return true;
        } else {
            at = at + 1;
        }
    }
    true
}

/// Without a tag nothing keeps the audio from being read, and neither does
/// anything behind the point where audio starts.
pub proof fn bytes_without_tags_can_be_read(data: Seq<u8>, at: nat)
    ensures
        (forall|k: nat| at <= k && k + 16 <= data.len() ==> !#[trigger] is_tag(data, k))
            ==> can_be_passed(data, at),
        at + 16 > data.len() ==> can_be_passed(data, at),
        at + 16 <= data.len() && data[at as int] == 0x66 && data[at as int + 1] == 0x4c && data[at as int
            + 2] == 0x61 && data[at as int + 3] == 0x43 ==> can_be_passed(data, at),
    decreases data.len() - at,
{
    if at + 16 <= data.len() {
        bytes_without_tags_can_be_read(data, at + 1);
    }
}

} // verus!
