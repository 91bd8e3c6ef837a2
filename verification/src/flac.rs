//! The layout of FLAC frames: whether a frame keeps to the stream information
//! that its decoder was set up with.

use vstd::prelude::*;

verus! {

/// The most bytes that a frame can have.
pub const MAX_FRAME_SIZE: usize = 0x100_0000;

/// How far the reading of a frame gets.
pub enum Walk {
    /// It goes on at this bit.
    On(nat),
    /// It ends here, with an error or for want of bits.
    Stops,
    /// The frame asks for more than the stream information or its own header
    /// allows, or a sample leaves 32 bits.
    Breaks,
}

/// How far the reading of samples gets.
pub enum Part {
    /// It goes on at this bit, with these samples.
    On(nat, Seq<i64>),
    /// It ends here, with an error or for want of bits.
    Stops,
    /// The frame asks for more than the stream information or its own header
    /// allows, or a sample leaves 32 bits.
    Breaks,
}

/// How far the reading of samples gets, as numbers.
enum Piece {
    On(u64, Vec<i64>),
    Stops,
    Breaks,
}

impl Piece {
    spec fn model(self) -> Part {
        match self {
            Piece::On(at, samples) => Part::On(at as nat, samples@),
            Piece::Stops => Part::Stops,
            Piece::Breaks => Part::Breaks,
        }
    }
}

/// How far the reading of a frame gets, as numbers.
#[derive(Debug, Clone, Copy, PartialEq, Eq, Structural)]
enum Reading {
    On(u64),
    Stops,
    Breaks,
}

impl Reading {
    spec fn model(self) -> Walk {
        match self {
            Reading::On(at) => Walk::On(at as nat),
            Reading::Stops => Walk::Stops,
            Reading::Breaks => Walk::Breaks,
        }
    }
}

/// The worth of a bit within its byte, the first bit being worth most.
pub open spec fn worth(bit: nat) -> nat {
    if bit == 0 {
        128
    } else if bit == 1 {
        64
    } else if bit == 2 {
        32
    } else if bit == 3 {
        16
    } else if bit == 4 {
        8
    } else if bit == 5 {
        4
    } else if bit == 6 {
        2
    } else {
        1
    }
}

/// One bit of some bytes.
pub open spec fn bit_at(data: Seq<u8>, at: nat) -> nat {
    data[(at / 8) as int] as nat / worth(at % 8) % 2
}

/// The number that some bits write, the first being worth most.
pub open spec fn bits_at(data: Seq<u8>, at: nat, width: nat) -> nat
    decreases width,
{
    if width == 0 {
        0
    } else {
        2 * bits_at(data, at, (width - 1) as nat) + bit_at(data, (at + width - 1) as nat)
    }
}

/// How many bits there are.
pub open spec fn bit_count(data: Seq<u8>) -> nat {
    8 * data.len()
}

/// The position behind the next bit that is set, if there is one.
pub open spec fn behind_one(data: Seq<u8>, at: nat) -> Option<nat>
    decreases bit_count(data) - at,
{
    if at >= bit_count(data) {
        None
    } else if bit_at(data, at) == 1 {
        Some(at + 1)
    } else {
        behind_one(data, at + 1)
    }
}

/// Two to the power of some number.
pub open spec fn two_to(n: nat) -> nat
    decreases n,
{
    if n == 0 {
        1
    } else {
        2 * two_to((n - 1) as nat)
    }
}

/// Whether 32 bits hold a number with its sign.
pub open spec fn in_32_bits(n: int) -> bool {
    -0x8000_0000 <= n <= 0x7fff_ffff
}

/// What the last 32 bits of a number hold.
pub open spec fn last_32_bits(n: int) -> int {
    (n + 0x8000_0000) % 0x1_0000_0000 - 0x8000_0000
}

/// What a number of some bits means where the first bit is its sign.
pub open spec fn signed(n: nat, width: nat) -> int {
    if width > 0 && n >= two_to((width - 1) as nat) {
        n - two_to(width)
    } else {
        n as int
    }
}

/// What a Rice code means: some zeros up to a one, and bits behind it. It is held
/// in 32 bits, the last of which is the sign.
pub open spec fn rice_value(zeros: nat, low: nat, bits: nat) -> int {
    let word = (zeros * two_to(bits) % 0x1_0000_0000 + low) as int;
    if word % 2 == 0 {
        word / 2
    } else {
        -(word / 2) - 1
    }
}

/// Reads signed numbers of the same width.
pub open spec fn with_numbers(
    data: Seq<u8>,
    at: nat,
    count: nat,
    width: nat,
    done: Seq<i64>,
) -> Part
    decreases count,
{
    if count == 0 {
        Part::On(at, done)
    } else if at + width > bit_count(data) {
        Part::Stops
    } else {
        with_numbers(
            data,
            at + width,
            (count - 1) as nat,
            width,
            done.push(signed(bits_at(data, at, width), width) as i64),
        )
    }
}

/// Reads Rice codes.
pub open spec fn with_codes(
    data: Seq<u8>,
    at: nat,
    count: nat,
    bits: nat,
    done: Seq<i64>,
) -> Part
    decreases count,
{
    if count == 0 {
        Part::On(at, done)
    } else {
        match behind_one(data, at) {
            None => Part::Stops,
            Some(next) => if next + bits > bit_count(data) {
                Part::Stops
            } else {
                with_codes(
                    data,
                    next + bits,
                    (count - 1) as nat,
                    bits,
                    done.push(
                        rice_value((next - 1 - at) as nat, bits_at(data, next, bits), bits) as i64,
                    ),
                )
            },
        }
    }
}

/// Reads a partition of residuals: Rice codes, or plain numbers where the
/// parameter has all its bits set.
pub open spec fn with_partition(
    data: Seq<u8>,
    at: nat,
    count: nat,
    width: nat,
    done: Seq<i64>,
) -> Part {
    if at + width > bit_count(data) {
        Part::Stops
    } else if bits_at(data, at, width) < two_to(width) - 1 {
        with_codes(data, at + width, count, bits_at(data, at, width), done)
    } else if at + width + 5 > bit_count(data) {
        Part::Stops
    } else {
        with_numbers(data, at + width + 5, count, bits_at(data, at + width, 5), done)
    }
}

/// Reads partitions of the same size.
pub open spec fn with_partitions(
    data: Seq<u8>,
    at: nat,
    parts: nat,
    count: nat,
    width: nat,
    done: Seq<i64>,
) -> Part
    decreases parts,
{
    if parts == 0 {
        Part::On(at, done)
    } else {
        match with_partition(data, at, count, width, done) {
            Part::On(next, more) => with_partitions(
                data,
                next,
                (parts - 1) as nat,
                count,
                width,
                more,
            ),
            other => other,
        }
    }
}

/// Reads the residuals behind `order` samples of a block.
pub open spec fn with_residuals(
    data: Seq<u8>,
    at: nat,
    order: nat,
    block: nat,
    done: Seq<i64>,
) -> Part {
    let method = bits_at(data, at, 2);
    let parts = two_to(bits_at(data, at + 2, 4));
    let size = block / parts;
    let width: nat = if method == 0 {
        4
    } else {
        5
    };
    if at + 2 > bit_count(data) || method > 1 || at + 6 > bit_count(data) {
        Part::Stops
    } else if order > size || parts * size != block {
        Part::Stops
    } else {
        match with_partition(data, at + 6, (size - order) as nat, width, done) {
            Part::On(next, more) => with_partitions(
                data,
                next,
                (parts - 1) as nat,
                size,
                width,
                more,
            ),
            other => other,
        }
    }
}

/// Reads plain samples. None is wider than 32 bits.
pub open spec fn with_samples(data: Seq<u8>, at: nat, count: nat, width: nat) -> Part {
    if count > 0 && width > 32 {
        Part::Breaks
    } else {
        with_numbers(data, at, count, width, Seq::empty())
    }
}

/// The sum of the last samples, each times its coefficient; the first
/// coefficient is that of the last sample.
pub open spec fn weighted(coefs: Seq<i64>, samples: Seq<i64>) -> int
    decreases coefs.len(),
{
    if coefs.len() == 0 {
        0
    } else {
        weighted(coefs.drop_last(), samples) + coefs.last() * samples[samples.len() - coefs.len()]
    }
}

/// The samples that a predictor makes of residuals behind those that are there:
/// each is its residual and 32 bits of what is predicted of the samples before
/// it. None where a sample leaves 32 bits.
pub open spec fn restored(
    residuals: Seq<i64>,
    coefs: Seq<i64>,
    shift: nat,
    samples: Seq<i64>,
) -> Option<Seq<i64>>
    decreases residuals.len() - samples.len(),
{
    if samples.len() >= residuals.len() {
        Some(samples)
    } else {
        let prediction = last_32_bits(weighted(coefs, samples) / two_to(shift) as int);
        let sample = residuals[samples.len() as int] + prediction;
        if in_32_bits(sample) {
            restored(residuals, coefs, shift, samples.push(sample as i64))
        } else {
            None
        }
    }
}

/// What a predictor makes of residuals behind `order` samples.
pub open spec fn predicted(part: Part, order: nat, coefs: Seq<i64>, shift: nat) -> Part {
    match part {
        Part::On(next, residuals) => match restored(
            residuals,
            coefs,
            shift,
            residuals.take(order as int),
        ) {
            Some(samples) => Part::On(next, samples),
            None => Part::Breaks,
        },
        other => other,
    }
}

/// The coefficients of the predictor that is fixed for an order.
pub open spec fn fixed_coefs(order: nat) -> Seq<i64> {
    if order == 0 {
        seq![]
    } else if order == 1 {
        seq![1i64]
    } else if order == 2 {
        seq![2i64, -1i64]
    } else if order == 3 {
        seq![3i64, -3i64, 1i64]
    } else {
        seq![4i64, -6i64, 4i64, -1i64]
    }
}

/// Reads the content of a subframe behind its header. A predictor has no more
/// samples before it than the block has.
pub open spec fn with_content(
    data: Seq<u8>,
    at: nat,
    kind: nat,
    width: nat,
    block: nat,
) -> Part {
    if kind == 0 {
        match with_samples(data, at, 1, width) {
            Part::On(next, one) => Part::On(next, Seq::new(block, |i: int| one[0])),
            other => other,
        }
    } else if kind == 1 {
        with_samples(data, at, block, width)
    } else if 8 <= kind <= 12 {
        let order = (kind - 8) as nat;
        if order > block {
            Part::Breaks
        } else {
            match with_samples(data, at, order, width) {
                Part::On(next, first) => predicted(
                    with_residuals(data, next, order, block, first),
                    order,
                    fixed_coefs(order),
                    0,
                ),
                other => other,
            }
        }
    } else if kind >= 32 {
        let order = (kind - 31) as nat;
        if order > block {
            Part::Breaks
        } else {
            match with_samples(data, at, order, width) {
                Part::On(next, first) => with_linear(data, next, order, block, first),
                other => other,
            }
        }
    } else {
        Part::Stops
    }
}

/// Reads the coefficients of a linear predictor and the residuals behind them.
pub open spec fn with_linear(
    data: Seq<u8>,
    at: nat,
    order: nat,
    block: nat,
    first: Seq<i64>,
) -> Part {
    let precision = bits_at(data, at, 4) + 1;
    let shift = bits_at(data, at + 4, 5);
    if at + 4 > bit_count(data) || precision > 15 || at + 9 > bit_count(data) || shift >= 16 {
        Part::Stops
    } else {
        match with_numbers(data, at + 9, order, precision, Seq::empty()) {
            Part::On(next, coefs) => predicted(
                with_residuals(data, next, order, block, first),
                order,
                coefs,
                shift,
            ),
            other => other,
        }
    }
}

/// Samples with the bits behind them that were dropped, held in 32 bits.
pub open spec fn with_dropped(part: Part, dropped: nat) -> Part {
    match part {
        Part::On(next, samples) => Part::On(
            next,
            samples.map_values(|n: i64| last_32_bits(n * two_to(dropped % 32)) as i64),
        ),
        other => other,
    }
}

/// Reads a subframe. It drops no more bits than its samples have.
pub open spec fn with_subframe(data: Seq<u8>, at: nat, width: nat, block: nat) -> Part {
    let kind = bits_at(data, at + 1, 6);
    if at + 7 > bit_count(data) || bit_at(data, at) == 1 || !is_kind(kind) || at + 8
        > bit_count(data) {
        Part::Stops
    } else if bit_at(data, at + 7) == 0 {
        with_content(data, at + 8, kind, width, block)
    } else {
        match behind_one(data, at + 8) {
            None => Part::Stops,
            Some(next) => {
                let dropped = (next - (at + 8)) as nat;
                if dropped > width {
                    Part::Breaks
                } else {
                    with_dropped(
                        with_content(data, next, kind, (width - dropped) as nat, block),
                        dropped,
                    )
                }
            },
        }
    }
}

/// Whether there are subframes of this kind.
pub open spec fn is_kind(kind: nat) -> bool {
    kind == 0 || kind == 1 || 8 <= kind <= 12 || kind >= 32
}

/// Reads the subframes from one channel on. There are no more of them than
/// channels.
pub open spec fn behind_channels(
    data: Seq<u8>,
    at: nat,
    channel: nat,
    channels: nat,
    stated: nat,
    width: nat,
    block: nat,
) -> Walk
    decreases channels - channel,
{
    if channel >= channels {
        Walk::On(at)
    } else if channel >= stated {
        Walk::Breaks
    } else {
        match with_subframe(data, at, width, block) {
            Part::On(next, _) => behind_channels(
                data,
                next,
                channel + 1,
                channels,
                stated,
                width,
                block,
            ),
            Part::Stops => Walk::Stops,
            Part::Breaks => Walk::Breaks,
        }
    }
}

/// Whether the left and the right sample stay within 32 bits: where the second
/// is the difference, where the first is the difference, or where the first is
/// the mean and the second the difference.
pub open spec fn can_part(assignment: nat, first: int, second: int) -> bool {
    if assignment == 8 {
        in_32_bits(first - second)
    } else if assignment == 9 {
        in_32_bits(first + second)
    } else {
        let both = last_32_bits(2 * first) + second % 2;
        in_32_bits(both + second) && in_32_bits(both - second)
    }
}

/// Whether all left and right samples stay within 32 bits.
pub open spec fn all_can_part(assignment: nat, first: Seq<i64>, second: Seq<i64>) -> bool {
    forall|i: int|
        0 <= i < first.len() && i < second.len() ==> can_part(
            assignment,
            #[trigger] first[i] as int,
            second[i] as int,
        )
}

/// Reads two subframes, one of which is the difference of the channels.
pub open spec fn behind_pair(
    data: Seq<u8>,
    assignment: nat,
    stated: nat,
    first: nat,
    second: nat,
    block: nat,
) -> Walk {
    if stated < 2 {
        Walk::Breaks
    } else {
        match with_subframe(data, 0, first, block) {
            Part::On(next, a) => match with_subframe(data, next, second, block) {
                Part::On(end, b) => if all_can_part(assignment, a, b) {
                    Walk::On(end)
                } else {
                    Walk::Breaks
                },
                Part::Stops => Walk::Stops,
                Part::Breaks => Walk::Breaks,
            },
            Part::Stops => Walk::Stops,
            Part::Breaks => Walk::Breaks,
        }
    }
}

/// Reads all subframes.
pub open spec fn behind_subframes(
    data: Seq<u8>,
    assignment: nat,
    stated: nat,
    width: nat,
    block: nat,
) -> Walk {
    if assignment < 8 {
        behind_channels(data, 0, 0, assignment + 1, stated, width, block)
    } else if assignment == 9 {
        behind_pair(data, assignment, stated, width + 1, width, block)
    } else {
        behind_pair(data, assignment, stated, width, width + 1, block)
    }
}

/// The position behind the first sync code from `at` on, if there is one.
pub open spec fn behind_sync(data: Seq<u8>, at: nat) -> Option<nat>
    decreases data.len() - at,
{
    if at + 2 > data.len() {
        None
    } else if data[at as int] == 255 && data[at as int + 1] / 4 == 62 {
        Some(at + 2)
    } else {
        behind_sync(data, at + 1)
    }
}

/// How many bytes a frame or sample number has that begins with this one, 0
/// where none begins so.
pub open spec fn number_len(first: u8) -> nat {
    if first < 0x80 {
        1
    } else if first < 0xc0 {
        0
    } else if first < 0xe0 {
        2
    } else if first < 0xf0 {
        3
    } else if first < 0xf8 {
        4
    } else if first < 0xfc {
        5
    } else if first < 0xfe {
        6
    } else if first == 0xfe {
        7
    } else {
        0
    }
}

/// How many bytes behind the frame number state the length of the block.
pub open spec fn block_bytes(code: nat) -> nat {
    if code == 6 {
        1
    } else if code == 7 {
        2
    } else {
        0
    }
}

/// The length of the block, 0 where it is not allowed.
pub open spec fn block_len(code: nat, stated: Seq<u8>) -> nat {
    if code == 0 {
        0
    } else if code == 1 {
        192
    } else if code <= 5 {
        576 * two_to((code - 2) as nat)
    } else if code == 6 {
        stated[0] as nat + 1
    } else if code == 7 {
        let n = 256 * stated[0] as nat + stated[1] as nat;
        if n == 0xffff {
            0
        } else {
            n + 1
        }
    } else {
        256 * two_to((code - 8) as nat)
    }
}

/// How many bytes state the sample rate.
pub open spec fn rate_bytes(code: nat) -> nat {
    if code == 12 {
        1
    } else if code == 13 || code == 14 {
        2
    } else {
        0
    }
}

/// The bits of a sample: those that the frame states, or those of the stream; 0
/// where the code means nothing.
pub open spec fn sample_bits(code: nat, stream: nat) -> nat {
    if code == 0 {
        stream
    } else if code == 1 {
        8
    } else if code == 2 {
        12
    } else if code == 4 {
        16
    } else if code == 5 {
        20
    } else if code == 6 {
        24
    } else {
        0
    }
}

/// The most samples of a block that the stream information allows.
pub open spec fn stream_block(setup: Seq<u8>) -> nat {
    256 * setup[2] as nat + setup[3] as nat
}

/// The channels that the stream information states.
pub open spec fn stream_channels(setup: Seq<u8>) -> nat {
    setup[12] as nat / 2 % 8 + 1
}

/// The bits of a sample that the stream information states.
pub open spec fn stream_bits(setup: Seq<u8>) -> nat {
    setup[12] as nat % 2 * 16 + setup[13] as nat / 16 + 1
}

/// The number that two bytes write.
pub open spec fn two_bytes(data: Seq<u8>, at: int) -> nat {
    256 * data[at] as nat + data[at + 1] as nat
}

/// The number that three bytes write.
pub open spec fn three_bytes(data: Seq<u8>, at: int) -> nat {
    256 * two_bytes(data, at) + data[at + 2] as nat
}

/// Whether stream information is what a decoder works with: it is complete, its
/// blocks have at least 16 samples, no upper bound that is known is below the
/// lower one, the rate is above 0 and not above 655350, and a sample has at
/// least four bits.
pub open spec fn accepts(setup: Seq<u8>) -> bool {
    let rate = three_bytes(setup, 10) / 16;
    &&& setup.len() >= 34
    &&& 16 <= two_bytes(setup, 0) <= two_bytes(setup, 2)
    &&& three_bytes(setup, 4) == 0 || three_bytes(setup, 7) == 0 || three_bytes(setup, 4)
        <= three_bytes(setup, 7)
    &&& 1 <= rate <= 655350
    &&& stream_bits(setup) >= 4
}

/// How far the reading of a frame gets.
pub open spec fn frame_walk(setup: Seq<u8>, data: Seq<u8>) -> Walk {
    match behind_sync(data, 0) {
        None => Walk::Stops,
        Some(at) => if at + 3 > data.len() {
            Walk::Stops
        } else {
            header_walk(setup, data, at)
        },
    }
}

/// How far the reading of a frame gets behind its sync code.
pub open spec fn header_walk(setup: Seq<u8>, data: Seq<u8>, at: nat) -> Walk {
    let block_code = data[at as int] as nat / 16;
    let rate_code = data[at as int] as nat % 16;
    let assignment = data[at as int + 1] as nat / 16;
    let width = sample_bits(data[at as int + 1] as nat / 2 % 8, stream_bits(setup));
    let number = number_len(data[at as int + 2]);
    let stated = at + 2 + number;
    let body = stated + block_bytes(block_code) + rate_bytes(rate_code) + 1;
    if data[at as int + 1] % 2 == 1 || number == 0 || rate_code == 15 || width == 0 || assignment > 10
        || body > data.len() {
        Walk::Stops
    } else {
        let block = block_len(block_code, data.skip(stated as int));
        if block == 0 {
            Walk::Stops
        } else if block > stream_block(setup) {
            Walk::Breaks
        } else {
            behind_subframes(
                data.skip(body as int),
                assignment,
                stream_channels(setup),
                width,
                block,
            )
        }
    }
}

/// Whether a frame keeps to the stream information, to its own header and to
/// samples of 32 bits, as far as it can be read.
#[verifier::opaque]
pub open spec fn fits(setup: Seq<u8>, data: Seq<u8>) -> bool {
    setup.len() >= 14 && data.len() <= 0x100_0000 && !(frame_walk(setup, data) is Breaks)
}

/// A byte of a file, 0 behind its end.
pub open spec fn byte_or_zero(data: Seq<u8>, at: nat) -> u8 {
    if at < data.len() {
        data[at as int]
    } else {
        0
    }
}

/// An 8-bit checksum with one more bit.
pub open spec fn crc8_shift(crc: u8) -> u8 {
    if crc & 0x80 != 0 {
        (crc << 1) ^ 0x07
    } else {
        crc << 1
    }
}

/// An 8-bit checksum with eight more bits.
pub open spec fn crc8_round(crc: u8) -> u8 {
    crc8_shift(
        crc8_shift(
            crc8_shift(crc8_shift(crc8_shift(crc8_shift(crc8_shift(crc8_shift(crc))))))),
    )
}

/// The checksum of a frame header: that of some bytes of a file.
pub open spec fn crc8(data: Seq<u8>, from: nat, count: nat) -> u8
    decreases count,
{
    if count == 0 {
        0
    } else {
        crc8_round(
            crc8(data, from, (count - 1) as nat) ^ byte_or_zero(data, (from + count - 1) as nat),
        )
    }
}

/// A 16-bit checksum with one more bit.
pub open spec fn crc16_shift(crc: u16) -> u16 {
    if crc & 0x8000 != 0 {
        (crc << 1) ^ 0x8005
    } else {
        crc << 1
    }
}

/// A 16-bit checksum with eight more bits.
pub open spec fn crc16_round(crc: u16) -> u16 {
    crc16_shift(
        crc16_shift(
            crc16_shift(crc16_shift(crc16_shift(crc16_shift(crc16_shift(crc16_shift(crc))))))),
    )
}

/// The checksum of a frame: that of some bytes of a file.
pub open spec fn crc16(data: Seq<u8>, from: nat, count: nat) -> u16
    decreases count,
{
    if count == 0 {
        0
    } else {
        crc16_round(
            crc16(data, from, (count - 1) as nat) ^ (256 * data[from + count - 1]) as u16,
        )
    }
}

/// How many bytes the frame header has that starts here, if the file went on
/// with zeros behind its end; 0 where none starts.
pub open spec fn header_len(data: Seq<u8>, at: nat) -> nat {
    let codes = byte_or_zero(data, at + 2) as nat;
    let layout = byte_or_zero(data, at + 3) as nat;
    let number = number_len(byte_or_zero(data, at + 4));
    let len = 5 + number + block_bytes(codes / 16) + rate_bytes(codes % 16);
    if at + 2 <= data.len() && data[at as int] == 255 && data[at as int + 1] / 4 == 62 && codes / 16
        != 0 && codes % 16 != 15 && layout / 16 <= 10 && layout % 2 == 0 && layout / 2 % 8 != 3
        && layout / 2 % 8 != 7 && number != 0 && crc8(data, at, (len - 1) as nat) == byte_or_zero(
        data,
        (at + len - 1) as nat,
    ) {
        len
    } else {
        0
    }
}

/// Whether a frame header starts between two positions.
pub open spec fn header_between(data: Seq<u8>, from: nat, to: nat) -> bool {
    exists|at: nat| from <= at < to && #[trigger] header_len(data, at) > 0
}

/// Whether a frame header that starts here is cut off where a frame seems to
/// end: another header starts within it, or the file ends within it with what
/// would be the checksum of the frame.
pub open spec fn is_cut(data: Seq<u8>, at: nat) -> bool {
    let len = header_len(data, at);
    len > 0 && (header_between(data, at + 1, at + len) || (at + len > data.len() && crc16(
        data,
        at,
        (data.len() - 2 - at) as nat,
    ) == two_bytes(data, data.len() - 2)))
}

/// Whether no frame header of a file is cut off.
#[verifier::opaque]
pub open spec fn is_whole(data: Seq<u8>) -> bool {
    forall|at: nat| at < data.len() ==> !#[trigger] is_cut(data, at)
}

fn byte_at(data: &[u8], from: usize, k: usize) -> (r: u8)
    requires
        from <= data@.len(),
    ensures
        r == byte_or_zero(data@, (from + k) as nat),
{
    if k < data.len() - from {
        data[from + k]
    } else {
        0
    }
}

fn shift8(crc: u8) -> (r: u8)
    ensures
        r == crc8_shift(crc),
{
    if crc & 0x80 != 0 {
        (crc << 1) ^ 0x07
    } else {
        crc << 1
    }
}

fn checksum8(data: &[u8], from: usize, count: usize) -> (r: u8)
    requires
        from <= data@.len(),
    ensures
        r == crc8(data@, from as nat, count as nat),
{
    let mut r: u8 = 0;
    let mut k: usize = 0;
    while k < count
        invariant
            from <= data@.len(),
            k <= count,
            r == crc8(data@, from as nat, k as nat),
        decreases count - k,
    {
        let mixed: u8 = r ^ byte_at(data, from, k);
        r = shift8(shift8(shift8(shift8(shift8(shift8(shift8(shift8(mixed))))))));
        k = k + 1;
    }
    r
}

fn shift16(crc: u16) -> (r: u16)
    ensures
        r == crc16_shift(crc),
{
    if crc & 0x8000 != 0 {
        (crc << 1) ^ 0x8005
    } else {
        crc << 1
    }
}

fn checksum16(data: &[u8], from: usize, count: usize) -> (r: u16)
    requires
        from + count <= data@.len(),
    ensures
        r == crc16(data@, from as nat, count as nat),
{
    let n: usize = data.len();
    let mut r: u16 = 0;
    let mut k: usize = 0;
    while k < count
        invariant
            n == data@.len(),
            from + count <= n,
            k <= count,
            r == crc16(data@, from as nat, k as nat),
        decreases count - k,
    {
        let high: u16 = 256 * data[from + k] as u16;
        let mixed: u16 = r ^ high;
        r = shift16(shift16(shift16(shift16(shift16(shift16(shift16(shift16(mixed))))))));
        k = k + 1;
    }
    r
}

fn header_size(data: &[u8], at: usize) -> (r: usize)
    requires
        at <= data@.len(),
    ensures
        r == header_len(data@, at as nat),
        r <= 16,
{
    if data.len() - at < 2 || data[at] != 255 || data[at + 1] / 4 != 62 {
        return 0;
    }
    let codes: u8 = byte_at(data, at, 2);
    let layout: u8 = byte_at(data, at, 3);
    let number: usize = number_size(byte_at(data, at, 4));
    if codes / 16 == 0 || codes % 16 == 15 || layout / 16 > 10 || layout % 2 != 0 || layout / 2 % 8
        == 3 || layout / 2 % 8 == 7 || number == 0 {
        return 0;
    }
    let stated: usize = if codes / 16 == 6 {
        1
    } else if codes / 16 == 7 {
        2
    } else {
        0
    };
    let rate: usize = if codes % 16 == 12 {
        1
    } else if codes % 16 == 13 || codes % 16 == 14 {
        2
    } else {
        0
    };
    let len: usize = 5 + number + stated + rate;
    if checksum8(data, at, len - 1) == byte_at(data, at, len - 1) {
        len
    } else {
        0
    }
}

fn header_within(data: &[u8], at: usize, len: usize) -> (r: bool)
    requires
        at < data@.len(),
        len <= 16,
    ensures
        r == header_between(data@, (at + 1) as nat, (at + len) as nat),
{
    let mut k: usize = 1;
    while k < len && k < data.len() - at
        invariant
            at < data@.len(),
            1 <= k,
            k <= data@.len() - at,
            forall|q: nat| at + 1 <= q < at + k ==> #[trigger] header_len(data@, q) == 0,
        decreases len - k,
    {
        if header_size(data, at + k) > 0 {
            assert(header_len(data@, (at + k) as nat) > 0);
            return true;
        }
        k = k + 1;
    }
    proof {
        assert forall|q: nat| at + 1 <= q < at + len implies #[trigger] header_len(data@, q) == 0 by {
            if q >= at + k {
                assert(q >= data@.len());
            }
        }
    }
    false
}

/// Tells whether no frame header of a file is cut off.
pub fn file_is_whole(data: &[u8]) -> (r: bool)
    ensures
        r == is_whole(data@),
{
    proof {
        reveal(is_whole);
    }
    let n: usize = data.len();
    let mut at: usize = 0;
    while at < n
        invariant
            n == data@.len(),
            at <= n,
            forall|p: nat| p < at ==> !#[trigger] is_cut(data@, p),
            is_whole(data@) == (forall|p: nat| p < n ==> !#[trigger] is_cut(data@, p)),
        decreases n - at,
    {
        let len: usize = header_size(data, at);
        if len > 0 {
            let inner: bool = header_within(data, at, len);
            let ends: bool = len > n - at && {
                let last: u16 = 256 * data[n - 2] as u16 + data[n - 1] as u16;
                checksum16(data, at, n - 2 - at) == last
            };
            assert((inner || ends) == is_cut(data@, at as nat));
            if inner || ends {
                return false;
            }
        }
        at = at + 1;
    }
    true
}

fn bit_worth(bit: u64) -> (r: u8)
    ensures
        r == worth(bit as nat),
        r > 0,
{
    if bit == 0 {
        128
    } else if bit == 1 {
        64
    } else if bit == 2 {
        32
    } else if bit == 3 {
        16
    } else if bit == 4 {
        8
    } else if bit == 5 {
        4
    } else if bit == 6 {
        2
    } else {
        1
    }
}

/// The bits of a frame behind its header.
struct Bits<'a> {
    data: &'a [u8],
    from: usize,
}

impl<'a> Bits<'a> {
    spec fn rest(self) -> Seq<u8> {
        self.data@.skip(self.from as int)
    }

    spec fn wf(self) -> bool {
        self.from <= self.data@.len() <= 0x100_0000
    }

    fn count(&self) -> (r: u64)
        requires
            self.wf(),
        ensures
            r == bit_count(self.rest()),
            r <= 0x800_0000,
    {
        8 * (self.data.len() - self.from) as u64
    }

    fn bit(&self, at: u64) -> (r: u64)
        requires
            self.wf(),
            at < bit_count(self.rest()),
        ensures
            r == bit_at(self.rest(), at as nat),
            r < 2,
    {
        let byte: u8 = self.data[self.from + (at / 8) as usize];
        assert(byte == self.rest()[(at as nat / 8) as int]);
        (byte / bit_worth(at % 8) % 2) as u64
    }

    fn number(&self, at: u64, width: u64) -> (r: u64)
        requires
            self.wf(),
            width <= 32,
            at + width <= bit_count(self.rest()),
        ensures
            r == bits_at(self.rest(), at as nat, width as nat),
            r < two_to(width as nat),
            r <= 0xffff_ffff,
    {
        let mut r: u64 = 0;
        let mut i: u64 = 0;
        while i < width
            invariant
                self.wf(),
                i <= width <= 32,
                at + width <= bit_count(self.rest()),
                bit_count(self.rest()) <= 0x800_0000,
                r == bits_at(self.rest(), at as nat, i as nat),
                r < two_to(i as nat) <= 0x1_0000_0000,
            decreases width - i,
        {
            r = 2 * r + self.bit(at + i);
            i = i + 1;
            proof {
                lemma_two_to(i as nat, 32);
                lemma_powers();
            }
        }
        r
    }

    fn next_one(&self, at: u64) -> (r: Option<u64>)
        requires
            self.wf(),
            at <= bit_count(self.rest()),
        ensures
            match r {
                Some(next) => behind_one(self.rest(), at as nat) == Some(next as nat) && at < next
                    <= bit_count(self.rest()),
                None => behind_one(self.rest(), at as nat) is None,
            },
    {
        let n: u64 = self.count();
        let mut i: u64 = at;
        while i < n
            invariant
                self.wf(),
                n == bit_count(self.rest()),
                n <= 0x800_0000,
                at <= i <= n,
                behind_one(self.rest(), at as nat) == behind_one(self.rest(), i as nat),
            decreases n - i,
        {
            if self.bit(i) == 1 {
                return Some(i + 1);
            }
            i = i + 1;
        }
        None
    }

    fn numbers(&self, at: u64, count: u64, width: u64, before: Vec<i64>) -> (r: Piece)
        requires
            self.wf(),
            at <= bit_count(self.rest()),
            width <= 32,
            are_in_32_bits(before@),
        ensures
            r.model() == with_numbers(
                self.rest(),
                at as nat,
                count as nat,
                width as nat,
                before@,
            ),
            r matches Piece::On(next, v) ==> next <= bit_count(self.rest()) && v@.len()
                == before@.len() + count && are_in_32_bits(v@) && (width <= 15 && before@.len() == 0
                ==> are_coefs(v@)),
    {
        let n: u64 = self.count();
        let mut done = before;
        let mut i: u64 = 0;
        let mut p: u64 = at;
        while i < count
            invariant
                self.wf(),
                n == bit_count(self.rest()),
                n <= 0x800_0000,
                width <= 32,
                i <= count,
                p <= n,
                done@.len() == before@.len() + i,
                are_in_32_bits(done@),
                width <= 15 && before@.len() == 0 ==> are_coefs(done@),
                with_numbers(self.rest(), at as nat, count as nat, width as nat, before@)
                    == with_numbers(
                    self.rest(),
                    p as nat,
                    (count - i) as nat,
                    width as nat,
                    done@,
                ),
            decreases count - i,
        {
            if p + width > n {
                return Piece::Stops;
            }
            let value: i64 = signed_number(self.number(p, width), width);
            done.push(value);
            p = p + width;
            i = i + 1;
        }
        Piece::On(p, done)
    }

    fn codes(&self, at: u64, count: u64, bits: u64, before: Vec<i64>) -> (r: Piece)
        requires
            self.wf(),
            at <= bit_count(self.rest()),
            bits < 32,
            are_in_32_bits(before@),
        ensures
            r.model() == with_codes(self.rest(), at as nat, count as nat, bits as nat, before@),
            r matches Piece::On(next, v) ==> next <= bit_count(self.rest()) && v@.len()
                >= before@.len() && are_in_32_bits(v@),
    {
        let n: u64 = self.count();
        let mut done = before;
        let mut i: u64 = 0;
        let mut p: u64 = at;
        while i < count
            invariant
                self.wf(),
                n == bit_count(self.rest()),
                n <= 0x800_0000,
                bits < 32,
                i <= count,
                p <= n,
                done@.len() >= before@.len(),
                are_in_32_bits(done@),
                with_codes(self.rest(), at as nat, count as nat, bits as nat, before@) == with_codes(
                    self.rest(),
                    p as nat,
                    (count - i) as nat,
                    bits as nat,
                    done@,
                ),
            decreases count - i,
        {
            match self.next_one(p) {
                None => {
                    return Piece::Stops;
                },
                Some(next) => {
                    if next + bits > n {
                        return Piece::Stops;
                    }
                    let value: i64 = rice_number(next - 1 - p, self.number(next, bits), bits);
                    done.push(value);
                    p = next + bits;
                },
            }
            i = i + 1;
        }
        Piece::On(p, done)
    }

    fn partition(&self, at: u64, count: u64, width: u64, before: Vec<i64>) -> (r: Piece)
        requires
            self.wf(),
            at <= bit_count(self.rest()),
            width == 4 || width == 5,
            are_in_32_bits(before@),
        ensures
            r.model() == with_partition(
                self.rest(),
                at as nat,
                count as nat,
                width as nat,
                before@,
            ),
            r matches Piece::On(next, v) ==> next <= bit_count(self.rest()) && v@.len()
                >= before@.len() && are_in_32_bits(v@),
    {
        let n: u64 = self.count();
        if at + width > n {
            return Piece::Stops;
        }
        let param: u64 = self.number(at, width);
        let escape: u64 = if width == 4 {
            15
        } else {
            31
        };
        proof {
            lemma_powers();
        }
        if param < escape {
            return self.codes(at + width, count, param, before);
        }
        if at + width + 5 > n {
            return Piece::Stops;
        }
        let bits: u64 = self.number(at + width, 5);
        self.numbers(at + width + 5, count, bits, before)
    }

    fn partitions(&self, at: u64, parts: u64, count: u64, width: u64, before: Vec<i64>) -> (r: Piece)
        requires
            self.wf(),
            at <= bit_count(self.rest()),
            width == 4 || width == 5,
            are_in_32_bits(before@),
        ensures
            r.model() == with_partitions(
                self.rest(),
                at as nat,
                parts as nat,
                count as nat,
                width as nat,
                before@,
            ),
            r matches Piece::On(next, v) ==> next <= bit_count(self.rest()) && v@.len()
                >= before@.len() && are_in_32_bits(v@),
    {
        let mut done = before;
        let mut i: u64 = 0;
        let mut p: u64 = at;
        while i < parts
            invariant
                self.wf(),
                width == 4 || width == 5,
                i <= parts,
                p <= bit_count(self.rest()),
                done@.len() >= before@.len(),
                are_in_32_bits(done@),
                with_partitions(
                    self.rest(),
                    at as nat,
                    parts as nat,
                    count as nat,
                    width as nat,
                    before@,
                ) == with_partitions(
                    self.rest(),
                    p as nat,
                    (parts - i) as nat,
                    count as nat,
                    width as nat,
                    done@,
                ),
            decreases parts - i,
        {
            match self.partition(p, count, width, done) {
                Piece::On(next, more) => {
                    p = next;
                    done = more;
                },
                other => {
                    return other;
                },
            }
            i = i + 1;
        }
        Piece::On(p, done)
    }

    fn residuals(&self, at: u64, order: u64, block: u64, first: Vec<i64>) -> (r: Piece)
        requires
            self.wf(),
            at <= bit_count(self.rest()),
            block <= 0xffff,
            are_in_32_bits(first@),
        ensures
            r.model() == with_residuals(
                self.rest(),
                at as nat,
                order as nat,
                block as nat,
                first@,
            ),
            r matches Piece::On(next, v) ==> next <= bit_count(self.rest()) && v@.len()
                >= first@.len() && are_in_32_bits(v@),
    {
        let n: u64 = self.count();
        if at + 2 > n {
            return Piece::Stops;
        }
        proof {
            lemma_powers();
        }
        let method: u64 = self.number(at, 2);
        if method > 1 || at + 6 > n {
            return Piece::Stops;
        }
        let width: u64 = if method == 0 {
            4
        } else {
            5
        };
        let exponent: u64 = self.number(at + 2, 4);
        let parts: u64 = power(exponent);
        let size: u64 = block / parts;
        proof {
            lemma_two_to(exponent as nat, 15);
            assert(size <= block) by (nonlinear_arith)
                requires
                    size == block / parts,
                    parts >= 1,
            ;
            assert(parts * size <= 0x8000 * 0xffff) by (nonlinear_arith)
                requires
                    parts <= 0x8000,
                    size <= 0xffff,
            ;
        }
        if order > size || parts * size != block {
            return Piece::Stops;
        }
        match self.partition(at + 6, size - order, width, first) {
            Piece::On(next, more) => self.partitions(next, parts - 1, size, width, more),
            other => other,
        }
    }

    fn samples(&self, at: u64, count: u64, width: u64) -> (r: Piece)
        requires
            self.wf(),
            at <= bit_count(self.rest()),
        ensures
            r.model() == with_samples(self.rest(), at as nat, count as nat, width as nat),
            r matches Piece::On(next, v) ==> next <= bit_count(self.rest()) && v@.len() == count
                && are_in_32_bits(v@),
    {
        if width > 32 {
            if count > 0 {
                return Piece::Breaks;
            }
            return Piece::On(at, Vec::new());
        }
        self.numbers(at, count, width, Vec::new())
    }

    fn linear(&self, at: u64, order: u64, block: u64, first: Vec<i64>) -> (r: Piece)
        requires
            self.wf(),
            at <= bit_count(self.rest()),
            order <= 32,
            block <= 0xffff,
            first@.len() == order,
            are_in_32_bits(first@),
        ensures
            r.model() == with_linear(
                self.rest(),
                at as nat,
                order as nat,
                block as nat,
                first@,
            ),
            r matches Piece::On(next, v) ==> next <= bit_count(self.rest()) && are_in_32_bits(v@),
    {
        let n: u64 = self.count();
        if at + 4 > n {
            return Piece::Stops;
        }
        proof {
            lemma_powers();
        }
        let precision: u64 = self.number(at, 4) + 1;
        if precision > 15 || at + 9 > n {
            return Piece::Stops;
        }
        let shift: u64 = self.number(at + 4, 5);
        if shift >= 16 {
            return Piece::Stops;
        }
        match self.numbers(at + 9, order, precision, Vec::new()) {
            Piece::On(next, coefs) => predict(
                self.residuals(next, order, block, first),
                order,
                coefs,
                shift,
            ),
            other => other,
        }
    }

    fn content(&self, at: u64, kind: u64, width: u64, block: u64) -> (r: Piece)
        requires
            self.wf(),
            at <= bit_count(self.rest()),
            kind < 64,
            block <= 0xffff,
        ensures
            r.model() == with_content(
                self.rest(),
                at as nat,
                kind as nat,
                width as nat,
                block as nat,
            ),
            r matches Piece::On(next, v) ==> next <= bit_count(self.rest()) && are_in_32_bits(v@),
    {
        if kind == 0 {
            match self.samples(at, 1, width) {
                Piece::On(next, one) => {
                    let v = repeated(one[0], block);
                    assert(v@ =~= Seq::new(block as nat, |i: int| one@[0]));
                    Piece::On(next, v)
                },
                other => other,
            }
        } else if kind == 1 {
            self.samples(at, block, width)
        } else if 8 <= kind && kind <= 12 {
            let order: u64 = kind - 8;
            if order > block {
                return Piece::Breaks;
            }
            match self.samples(at, order, width) {
                Piece::On(next, first) => predict(
                    self.residuals(next, order, block, first),
                    order,
                    coefs_of(order),
                    0,
                ),
                other => other,
            }
        } else if kind >= 32 {
            let order: u64 = kind - 31;
            if order > block {
                return Piece::Breaks;
            }
            match self.samples(at, order, width) {
                Piece::On(next, first) => self.linear(next, order, block, first),
                other => other,
            }
        } else {
            Piece::Stops
        }
    }

    fn subframe(&self, at: u64, width: u64, block: u64) -> (r: Piece)
        requires
            self.wf(),
            at <= bit_count(self.rest()),
            block <= 0xffff,
        ensures
            r.model() == with_subframe(self.rest(), at as nat, width as nat, block as nat),
            r matches Piece::On(next, v) ==> next <= bit_count(self.rest()) && are_in_32_bits(v@),
    {
        let n: u64 = self.count();
        if at + 7 > n || self.bit(at) == 1 {
            return Piece::Stops;
        }
        proof {
            lemma_powers();
        }
        let kind: u64 = self.number(at + 1, 6);
        let known = kind == 0 || kind == 1 || (8 <= kind && kind <= 12) || kind >= 32;
        if !known || at + 8 > n {
            return Piece::Stops;
        }
        if self.bit(at + 7) == 0 {
            return self.content(at + 8, kind, width, block);
        }
        match self.next_one(at + 8) {
            None => Piece::Stops,
            Some(next) => {
                let dropped: u64 = next - (at + 8);
                if dropped > width {
                    return Piece::Breaks;
                }
                match self.content(next, kind, width - dropped, block) {
                    Piece::On(end, samples) => Piece::On(end, shifted(samples, dropped)),
                    other => other,
                }
            },
        }
    }

    fn channels(&self, channels: u64, stated: u64, width: u64, block: u64) -> (r: Reading)
        requires
            self.wf(),
            block <= 0xffff,
        ensures
            r.model() == behind_channels(
                self.rest(),
                0,
                0,
                channels as nat,
                stated as nat,
                width as nat,
                block as nat,
            ),
    {
        let mut i: u64 = 0;
        let mut p: u64 = 0;
        while i < channels
            invariant
                self.wf(),
                block <= 0xffff,
                i <= channels,
                p <= bit_count(self.rest()),
                behind_channels(
                    self.rest(),
                    0,
                    0,
                    channels as nat,
                    stated as nat,
                    width as nat,
                    block as nat,
                ) == behind_channels(
                    self.rest(),
                    p as nat,
                    i as nat,
                    channels as nat,
                    stated as nat,
                    width as nat,
                    block as nat,
                ),
            decreases channels - i,
        {
            if i >= stated {
                return Reading::Breaks;
            }
            match self.subframe(p, width, block) {
                Piece::On(next, _) => {
                    p = next;
                },
                Piece::Stops => {
                    return Reading::Stops;
                },
                Piece::Breaks => {
                    return Reading::Breaks;
                },
            }
            i = i + 1;
        }
        Reading::On(p)
    }

    fn pair(&self, assignment: u64, stated: u64, first: u64, second: u64, block: u64) -> (r: Reading)
        requires
            self.wf(),
            block <= 0xffff,
        ensures
            r.model() == behind_pair(
                self.rest(),
                assignment as nat,
                stated as nat,
                first as nat,
                second as nat,
                block as nat,
            ),
    {
        if stated < 2 {
            return Reading::Breaks;
        }
        match self.subframe(0, first, block) {
            Piece::On(next, a) => match self.subframe(next, second, block) {
                Piece::On(end, b) => {
                    if can_all_part(assignment, &a, &b) {
                        Reading::On(end)
                    } else {
                        Reading::Breaks
                    }
                },
                Piece::Stops => Reading::Stops,
                Piece::Breaks => Reading::Breaks,
            },
            Piece::Stops => Reading::Stops,
            Piece::Breaks => Reading::Breaks,
        }
    }

    fn subframes(&self, assignment: u64, stated: u64, width: u64, block: u64) -> (r: Reading)
        requires
            self.wf(),
            assignment <= 10,
            width <= 32,
            block <= 0xffff,
        ensures
            r.model() == behind_subframes(
                self.rest(),
                assignment as nat,
                stated as nat,
                width as nat,
                block as nat,
            ),
    {
        if assignment < 8 {
            self.channels(assignment + 1, stated, width, block)
        } else if assignment == 9 {
            self.pair(assignment, stated, width + 1, width, block)
        } else {
            self.pair(assignment, stated, width, width + 1, block)
        }
    }
}

spec fn are_in_32_bits(samples: Seq<i64>) -> bool {
    forall|i: int| 0 <= i < samples.len() ==> in_32_bits(#[trigger] samples[i] as int)
}

spec fn are_coefs(coefs: Seq<i64>) -> bool {
    forall|i: int| 0 <= i < coefs.len() ==> -0x4000 <= #[trigger] coefs[i] <= 0x4000
}

proof fn lemma_two_to(a: nat, b: nat)
    requires
        a <= b,
    ensures
        1 <= two_to(a) <= two_to(b),
    decreases b,
{
    if a < b {
        lemma_two_to(a, (b - 1) as nat);
    } else if a > 0 {
        lemma_two_to((a - 1) as nat, (a - 1) as nat);
    }
}

proof fn lemma_powers()
    ensures
        two_to(2) == 4,
        two_to(4) == 16,
        two_to(5) == 32,
        two_to(6) == 64,
        two_to(14) == 0x4000,
        two_to(15) == 0x8000,
        two_to(31) == 0x8000_0000,
        two_to(32) == 0x1_0000_0000,
{
    reveal_with_fuel(two_to, 33);
}

fn power(n: u64) -> (r: u64)
    requires
        n <= 32,
    ensures
        r == two_to(n as nat),
        1 <= r <= 0x1_0000_0000,
{
    let mut r: u64 = 1;
    let mut i: u64 = 0;
    proof {
        lemma_powers();
    }
    while i < n
        invariant
            i <= n <= 32,
            r == two_to(i as nat),
            two_to(32) == 0x1_0000_0000,
            1 <= r <= 0x1_0000_0000,
        decreases n - i,
    {
        proof {
            lemma_two_to((i + 1) as nat, 32);
        }
        r = 2 * r;
        i = i + 1;
    }
    r
}

fn signed_number(n: u64, width: u64) -> (r: i64)
    requires
        width <= 32,
        n < two_to(width as nat),
    ensures
        r == signed(n as nat, width as nat),
        in_32_bits(r as int),
        width <= 15 ==> -0x4000 <= r <= 0x4000,
{
    proof {
        lemma_powers();
        lemma_two_to(width as nat, 32);
        if width > 0 {
            lemma_two_to((width - 1) as nat, 31);
        }
        if 0 < width <= 15 {
            lemma_two_to((width - 1) as nat, 14);
        }
    }
    if width > 0 && n >= power(width - 1) {
        n as i64 - power(width) as i64
    } else {
        n as i64
    }
}

fn rice_number(zeros: u64, low: u64, bits: u64) -> (r: i64)
    requires
        zeros <= 0x800_0000,
        bits < 32,
        low < two_to(bits as nat),
    ensures
        r == rice_value(zeros as nat, low as nat, bits as nat),
        in_32_bits(r as int),
{
    let unit: u64 = power(bits);
    proof {
        lemma_powers();
        lemma_two_to(bits as nat, 31);
        lemma_rice_word(zeros as nat, low as nat, bits as nat);
        assert(zeros * unit <= 0x800_0000 * 0x8000_0000) by (nonlinear_arith)
            requires
                zeros <= 0x800_0000,
                unit <= 0x8000_0000,
        ;
    }
    let word: u64 = zeros * unit % 0x1_0000_0000 + low;
    if word % 2 == 0 {
        (word / 2) as i64
    } else {
        -((word / 2) as i64) - 1
    }
}

/// The bits behind the one fit in behind the zeros.
proof fn lemma_rice_word(zeros: nat, low: nat, bits: nat)
    requires
        bits < 32,
        low < two_to(bits),
    ensures
        zeros * two_to(bits) % 0x1_0000_0000 + low < 0x1_0000_0000,
{
    let unit = two_to(bits);
    let rest = two_to((32 - bits) as nat);
    lemma_powers();
    lemma_two_to_sum(bits, (32 - bits) as nat);
    lemma_two_to(bits, bits);
    lemma_two_to((32 - bits) as nat, (32 - bits) as nat);
    vstd::arithmetic::div_mod::lemma_truncate_middle(zeros as int, unit as int, rest as int);
    let part = zeros as int % rest as int;
    assert(zeros * unit == unit * zeros) by (nonlinear_arith);
    assert(unit * zeros % (unit * rest) == unit * part);
    assert(unit * part + unit <= unit * rest) by (nonlinear_arith)
        requires
            part + 1 <= rest,
            unit >= 1,
    ;
}

proof fn lemma_two_to_sum(a: nat, b: nat)
    ensures
        two_to(a + b) == two_to(a) * two_to(b),
    decreases b,
{
    let unit = two_to(a);
    if b > 0 {
        let rest = two_to((b - 1) as nat);
        lemma_two_to_sum(a, (b - 1) as nat);
        assert(two_to(a + b) == 2 * two_to((a + b - 1) as nat));
        assert(unit * (2 * rest) == 2 * (unit * rest)) by (nonlinear_arith);
    } else {
        assert(unit * 1 == unit) by (nonlinear_arith);
        assert(two_to(b) == 1);
    }
}

fn repeated(sample: i64, count: u64) -> (r: Vec<i64>)
    ensures
        r@.len() == count,
        forall|i: int| 0 <= i < count ==> r@[i] == sample,
{
    let mut r: Vec<i64> = Vec::new();
    let mut i: u64 = 0;
    while i < count
        invariant
            i <= count,
            r@.len() == i,
            forall|j: int| 0 <= j < i ==> r@[j] == sample,
        decreases count - i,
    {
        r.push(sample);
        i = i + 1;
    }
    r
}

/// What the last 32 bits of a number hold.
fn wrapped(n: i64) -> (r: i64)
    requires
        -0x4000_0000_0000_0000 <= n <= 0x4000_0000_0000_0000,
    ensures
        r == last_32_bits(n as int),
        in_32_bits(r as int),
{
    let above: u128 = (n as i128 + 0x4000_0000_8000_0000) as u128;
    (above % 0x1_0000_0000) as i64 - 0x8000_0000
}

fn shifted(samples: Vec<i64>, dropped: u64) -> (r: Vec<i64>)
    requires
        are_in_32_bits(samples@),
    ensures
        r@ == samples@.map_values(
            |n: i64| last_32_bits(n * two_to(dropped as nat % 32)) as i64,
        ),
        are_in_32_bits(r@),
{
    let unit: i64 = power(dropped % 32) as i64;
    let mut r: Vec<i64> = Vec::new();
    let mut i: usize = 0;
    proof {
        lemma_powers();
        lemma_two_to(dropped as nat % 32, 31);
    }
    while i < samples.len()
        invariant
            are_in_32_bits(samples@),
            are_in_32_bits(r@),
            i <= samples@.len(),
            unit == two_to(dropped as nat % 32),
            1 <= unit <= 0x8000_0000,
            r@ == samples@.take(i as int).map_values(
                |n: i64| last_32_bits(n * two_to(dropped as nat % 32)) as i64,
            ),
        decreases samples@.len() - i,
    {
        let n: i64 = samples[i];
        assert(in_32_bits(n as int));
        assert(-0x4000_0000_0000_0000 <= n * unit <= 0x4000_0000_0000_0000) by (nonlinear_arith)
            requires
                -0x8000_0000 <= n <= 0x7fff_ffff,
                1 <= unit <= 0x8000_0000,
        ;
        r.push(wrapped(n * unit));
        i = i + 1;
    }
    assert(samples@.take(i as int) =~= samples@);
    r
}

/// The quotient of two numbers, rounded down.
fn floor_quotient(n: i64, by: u64) -> (r: i64)
    requires
        -0x10_0000_0000_0000 <= n <= 0x10_0000_0000_0000,
        1 <= by <= 0x8000,
    ensures
        r == n as int / by as int,
        -0x10_0000_0000_0000 <= r <= 0x10_0000_0000_0000,
{
    if n >= 0 {
        let r: u64 = n as u64 / by;
        assert(r <= n) by (nonlinear_arith)
            requires
                r == n as int / by as int,
                n >= 0,
                by >= 1,
        ;
        r as i64
    } else {
        let below: u64 = (-n) as u64;
        let r: u64 = (below + (by - 1)) / by;
        proof {
            let rest = n + by * r;
            assert(0 <= rest < by && r <= below) by (nonlinear_arith)
                requires
                    r == (below + (by - 1)) / by as int,
                    rest == by * r - below,
                    by >= 1,
                    below >= 1,
            ;
            assert(n == by * (-r) + rest) by (nonlinear_arith)
                requires
                    rest == n + by * r,
            ;
            vstd::arithmetic::div_mod::lemma_fundamental_div_mod_converse(
                n as int,
                by as int,
                -(r as int),
                rest,
            );
        }
        -(r as i64)
    }
}

fn weigh(coefs: &Vec<i64>, samples: &Vec<i64>) -> (r: i64)
    requires
        coefs@.len() <= samples@.len(),
        coefs@.len() <= 32,
        are_coefs(coefs@),
        are_in_32_bits(samples@),
    ensures
        r == weighted(coefs@, samples@),
        -0x10_0000_0000_0000 <= r <= 0x10_0000_0000_0000,
{
    let n: usize = coefs.len();
    let len: usize = samples.len();
    let mut r: i64 = 0;
    let mut j: usize = 0;
    while j < n
        invariant
            n == coefs@.len(),
            len == samples@.len(),
            n <= len,
            n <= 32,
            j <= n,
            are_coefs(coefs@),
            are_in_32_bits(samples@),
            r == weighted(coefs@.take(j as int), samples@),
            -(j * 0x2000_0000_0000) <= r <= j * 0x2000_0000_0000,
        decreases n - j,
    {
        let c: i64 = coefs[j];
        let x: i64 = samples[len - 1 - j];
        assert(in_32_bits(x as int));
        assert(-0x2000_0000_0000 <= c * x <= 0x2000_0000_0000) by (nonlinear_arith)
            requires
                -0x4000 <= c <= 0x4000,
                -0x8000_0000 <= x <= 0x7fff_ffff,
        ;
        r = r + c * x;
        proof {
            let longer = coefs@.take(j + 1);
            assert(longer.drop_last() =~= coefs@.take(j as int));
            assert(longer.last() == c);
        }
        j = j + 1;
    }
    assert(coefs@.take(n as int) =~= coefs@);
    r
}

fn restore(residuals: &Vec<i64>, order: usize, coefs: &Vec<i64>, shift: u64) -> (r: Option<Vec<i64>>)
    requires
        order <= residuals@.len(),
        coefs@.len() == order,
        order <= 32,
        shift < 16,
        are_coefs(coefs@),
        are_in_32_bits(residuals@),
    ensures
        match r {
            Some(samples) => restored(
                residuals@,
                coefs@,
                shift as nat,
                residuals@.take(order as int),
            ) == Some(samples@) && are_in_32_bits(samples@),
            None => restored(residuals@, coefs@, shift as nat, residuals@.take(order as int)) is None,
        },
{
    let by: u64 = power(shift);
    let mut samples: Vec<i64> = Vec::new();
    let mut i: usize = 0;
    while i < order
        invariant
            i <= order <= residuals@.len(),
            are_in_32_bits(residuals@),
            samples@ == residuals@.take(i as int),
        decreases order - i,
    {
        samples.push(residuals[i]);
        i = i + 1;
    }
    proof {
        lemma_powers();
        lemma_two_to(shift as nat, 15);
        assert forall|k: int| 0 <= k < samples@.len() implies in_32_bits(
            #[trigger] samples@[k] as int,
        ) by {
            assert(samples@[k] == residuals@[k]);
        }
    }
    while samples.len() < residuals.len()
        invariant
            coefs@.len() == order,
            order <= 32,
            order <= samples@.len() <= residuals@.len(),
            by == two_to(shift as nat),
            1 <= by <= 0x8000,
            are_coefs(coefs@),
            are_in_32_bits(residuals@),
            are_in_32_bits(samples@),
            restored(residuals@, coefs@, shift as nat, residuals@.take(order as int)) == restored(
                residuals@,
                coefs@,
                shift as nat,
                samples@,
            ),
        decreases residuals@.len() - samples@.len(),
    {
        let sum: i64 = weigh(coefs, &samples);
        let prediction: i64 = wrapped(floor_quotient(sum, by));
        let residual: i64 = residuals[samples.len()];
        assert(in_32_bits(residual as int));
        let sample: i64 = residual + prediction;
        if sample < -0x8000_0000 || sample > 0x7fff_ffff {
            return None;
        }
        samples.push(sample);
    }
    Some(samples)
}

fn predict(piece: Piece, order: u64, coefs: Vec<i64>, shift: u64) -> (r: Piece)
    requires
        piece matches Piece::On(_, v) ==> v@.len() >= order && are_in_32_bits(v@),
        coefs@.len() == order,
        order <= 32,
        shift < 16,
        are_coefs(coefs@),
    ensures
        r.model() == predicted(piece.model(), order as nat, coefs@, shift as nat),
        r matches Piece::On(next, v) ==> are_in_32_bits(v@) && (piece matches Piece::On(at, _)
            && at == next),
{
    match piece {
        Piece::On(next, residuals) => match restore(&residuals, order as usize, &coefs, shift) {
            Some(samples) => Piece::On(next, samples),
            None => Piece::Breaks,
        },
        other => other,
    }
}

fn coefs_of(order: u64) -> (r: Vec<i64>)
    requires
        order <= 4,
    ensures
        r@ == fixed_coefs(order as nat),
        r@.len() == order,
        are_coefs(r@),
{
    let mut r: Vec<i64> = Vec::new();
    if order == 1 {
        r.push(1);
    } else if order == 2 {
        r.push(2);
        r.push(-1);
    } else if order == 3 {
        r.push(3);
        r.push(-3);
        r.push(1);
    } else if order == 4 {
        r.push(4);
        r.push(-6);
        r.push(4);
        r.push(-1);
    }
    assert(r@ =~= fixed_coefs(order as nat));
    r
}

fn can_be_parted(assignment: u64, first: i64, second: i64) -> (r: bool)
    requires
        in_32_bits(first as int),
        in_32_bits(second as int),
    ensures
        r == can_part(assignment as nat, first as int, second as int),
{
    if assignment == 8 {
        let right: i64 = first - second;
        -0x8000_0000 <= right && right <= 0x7fff_ffff
    } else if assignment == 9 {
        let left: i64 = first + second;
        -0x8000_0000 <= left && left <= 0x7fff_ffff
    } else {
        let odd: i64 = ((second + 0x8000_0000) as u64 % 2) as i64;
        let both: i64 = wrapped(2 * first) + odd;
        let left: i64 = both + second;
        let right: i64 = both - second;
        -0x8000_0000 <= left && left <= 0x7fff_ffff && -0x8000_0000 <= right && right <= 0x7fff_ffff
    }
}

fn can_all_part(assignment: u64, first: &Vec<i64>, second: &Vec<i64>) -> (r: bool)
    requires
        are_in_32_bits(first@),
        are_in_32_bits(second@),
    ensures
        r == all_can_part(assignment as nat, first@, second@),
{
    let mut i: usize = 0;
    while i < first.len() && i < second.len()
        invariant
            are_in_32_bits(first@),
            are_in_32_bits(second@),
            i <= first@.len(),
            i <= second@.len(),
            forall|k: int|
                0 <= k < i ==> can_part(
                    assignment as nat,
                    #[trigger] first@[k] as int,
                    second@[k] as int,
                ),
        decreases first@.len() - i,
    {
        assert(in_32_bits(first@[i as int] as int));
        assert(in_32_bits(second@[i as int] as int));
        if !can_be_parted(assignment, first[i], second[i]) {
            return false;
        }
        i = i + 1;
    }
    true
}

fn sync_end(data: &[u8]) -> (r: Option<usize>)
    requires
        data@.len() <= 0x100_0000,
    ensures
        match r {
            Some(at) => behind_sync(data@, 0) == Some(at as nat) && at <= data@.len(),
            None => behind_sync(data@, 0) is None,
        },
{
    let mut i: usize = 0;
    while i + 2 <= data.len()
        invariant
            i <= data@.len() <= 0x100_0000,
            behind_sync(data@, 0) == behind_sync(data@, i as nat),
        decreases data@.len() - i,
    {
        if data[i] == 255 && data[i + 1] / 4 == 62 {
            return Some(i + 2);
        }
        i = i + 1;
    }
    None
}

fn number_size(first: u8) -> (r: usize)
    ensures
        r == number_len(first),
        r <= 7,
{
    if first < 0x80 {
        1
    } else if first < 0xc0 {
        0
    } else if first < 0xe0 {
        2
    } else if first < 0xf0 {
        3
    } else if first < 0xf8 {
        4
    } else if first < 0xfc {
        5
    } else if first < 0xfe {
        6
    } else if first == 0xfe {
        7
    } else {
        0
    }
}

fn bits_of_sample(code: u8, stream: u64) -> (r: u64)
    requires
        stream <= 32,
    ensures
        r == sample_bits(code as nat, stream as nat),
        r <= 32,
{
    if code == 0 {
        stream
    } else if code == 1 {
        8
    } else if code == 2 {
        12
    } else if code == 4 {
        16
    } else if code == 5 {
        20
    } else if code == 6 {
        24
    } else {
        0
    }
}

fn block_size(code: u8, data: &[u8], at: usize) -> (r: u64)
    requires
        code < 16,
        at + block_bytes(code as nat) <= data@.len(),
    ensures
        r == block_len(code as nat, data@.skip(at as int)),
        r <= 0xffff,
{
    proof {
        reveal_with_fuel(two_to, 9);
    }
    if code == 0 {
        0
    } else if code == 1 {
        192
    } else if code <= 5 {
        576 * power(code as u64 - 2)
    } else if code == 6 {
        assert(data@.skip(at as int)[0] == data@[at as int]);
        data[at] as u64 + 1
    } else if code == 7 {
        assert(data@.skip(at as int)[0] == data@[at as int]);
        assert(data@.skip(at as int)[1] == data@[at + 1]);
        let n: u64 = 256 * data[at] as u64 + data[at + 1] as u64;
        if n == 0xffff {
            0
        } else {
            n + 1
        }
    } else {
        256 * power(code as u64 - 8)
    }
}

fn header_reading(setup: &[u8], data: &[u8], at: usize) -> (r: Reading)
    requires
        setup@.len() >= 14,
        data@.len() <= 0x100_0000,
        at + 3 <= data@.len(),
    ensures
        r.model() == header_walk(setup@, data@, at as nat),
{
    let block_code: u8 = data[at] / 16;
    let rate_code: u8 = data[at] % 16;
    let assignment: u8 = data[at + 1] / 16;
    let stream: u64 = (setup[12] % 2) as u64 * 16 + (setup[13] / 16) as u64 + 1;
    let width: u64 = bits_of_sample(data[at + 1] / 2 % 8, stream);
    let number: usize = number_size(data[at + 2]);
    let stated: usize = at + 2 + number;
    let for_block: usize = if block_code == 6 {
        1
    } else if block_code == 7 {
        2
    } else {
        0
    };
    let for_rate: usize = if rate_code == 12 {
        1
    } else if rate_code == 13 || rate_code == 14 {
        2
    } else {
        0
    };
    let body: usize = stated + for_block + for_rate + 1;
    if data[at + 1] % 2 == 1 || number == 0 || rate_code == 15 || width == 0 || assignment > 10
        || body > data.len() {
        return Reading::Stops;
    }
    let block: u64 = block_size(block_code, data, stated);
    if block == 0 {
        return Reading::Stops;
    }
    if block > 256 * setup[2] as u64 + setup[3] as u64 {
        return Reading::Breaks;
    }
    let bits = Bits { data, from: body };
    bits.subframes(assignment as u64, (setup[12] / 2 % 8) as u64 + 1, width, block)
}

/// Whether a frame keeps to the stream information and to its own header, as far
/// as it can be read: its block is no longer and its channels are no more than
/// the stream information states, no predictor needs more samples than the
/// block has, and no subframe drops more bits than its samples have.
pub fn frame_fits(setup: &[u8], data: &[u8]) -> (r: bool)
    ensures
        r == fits(setup@, data@),
{
    proof {
        reveal(fits);
    }
    if setup.len() < 14 || data.len() > MAX_FRAME_SIZE {
        return false;
    }
    match sync_end(data) {
        None => true,
        Some(at) => {
            if at + 3 > data.len() {
                return true;
            }
            match header_reading(setup, data, at) {
                Reading::Breaks => false,
                _ => true,
            }
        },
    }
}

/// Bits are read in their order: eight of them from the start of a byte are the
/// byte, and a number of more bits is what its two parts make.
pub proof fn bits_are_read_in_order(data: Seq<u8>, i: nat, at: nat, a: nat, b: nat)
    requires
        i < data.len(),
    ensures
        bits_at(data, 8 * i, 8) == data[i as int],
        bits_at(data, at, a + b) == bits_at(data, at, a) * two_to(b) + bits_at(data, at + a, b),
    decreases b,
{
    if b > 0 {
        bits_are_read_in_order(data, i, at, a, (b - 1) as nat);
        let low = (b - 1) as nat;
        assert(two_to(b) == 2 * two_to(low));
        let high = bits_at(data, at, a);
        assert(2 * (high * two_to(low)) == high * (2 * two_to(low))) by (nonlinear_arith);
        assert(at + a + b - 1 == (at + a) + b - 1);
    } else {
        assert(two_to(0) == 1);
        assert(bits_at(data, at, a) * 1 == bits_at(data, at, a));
        lemma_byte_of_bits(data, i);
    }
}

proof fn lemma_bit_of_byte(data: Seq<u8>, i: nat, k: nat)
    requires
        i < data.len(),
        k < 8,
    ensures
        bit_at(data, 8 * i + k) == data[i as int] as nat / worth(k) % 2,
{
    assert((8 * i + k) / 8 == i && (8 * i + k) % 8 == k);
}

proof fn lemma_byte_of_bits(data: Seq<u8>, i: nat)
    requires
        i < data.len(),
    ensures
        bits_at(data, 8 * i, 8) == data[i as int],
{
    let n = data[i as int] as nat;
    let from = 8 * i;
    lemma_bits_make_the_byte(n);
    lemma_bit_of_byte(data, i, 0);
    lemma_bit_of_byte(data, i, 1);
    lemma_bit_of_byte(data, i, 2);
    lemma_bit_of_byte(data, i, 3);
    lemma_bit_of_byte(data, i, 4);
    lemma_bit_of_byte(data, i, 5);
    lemma_bit_of_byte(data, i, 6);
    lemma_bit_of_byte(data, i, 7);
    reveal_with_fuel(bits_at, 9);
}

proof fn lemma_bits_make_the_byte(n: nat)
    requires
        n < 256,
    ensures
        n == 2 * (2 * (2 * (2 * (2 * (2 * (2 * (n / 128 % 2) + n / 64 % 2) + n / 32 % 2) + n / 16 % 2)
            + n / 8 % 2) + n / 4 % 2) + n / 2 % 2) + n / 1 % 2,
{
    assert(n / 128 % 2 == n / 128);
    assert(n / 64 == 2 * (n / 128) + n / 64 % 2);
    assert(n / 32 == 2 * (n / 64) + n / 32 % 2);
    assert(n / 16 == 2 * (n / 32) + n / 16 % 2);
    assert(n / 8 == 2 * (n / 16) + n / 8 % 2);
    assert(n / 4 == 2 * (n / 8) + n / 4 % 2);
    assert(n / 2 == 2 * (n / 4) + n / 2 % 2);
    assert(n == 2 * (n / 2) + n / 1 % 2);
}

/// A residual is read back from its code: a number that is not negative is
/// written as its double, a negative one as the odd number beside that, and the
/// code splits it into bits and a count.
pub proof fn residuals_read_back(value: int, zeros: nat, low: nat, bits: nat)
    requires
        -0x4000_0000 <= value < 0x4000_0000,
        zeros * two_to(bits) + low == (if value >= 0 {
            2 * value
        } else {
            -2 * value - 1
        }),
    ensures
        rice_value(zeros, low, bits) == value,
{
    let high = zeros * two_to(bits);
    assert(high % 0x1_0000_0000 == high);
}

/// Without coefficients the samples are the residuals.
pub proof fn plain_residuals_are_samples(residuals: Seq<i64>, done: nat)
    requires
        done <= residuals.len(),
        forall|i: int| 0 <= i < residuals.len() ==> in_32_bits(#[trigger] residuals[i] as int),
    ensures
        restored(residuals, Seq::empty(), 0, residuals.take(done as int)) == Some(residuals),
    decreases residuals.len() - done,
{
    let samples = residuals.take(done as int);
    if done < residuals.len() {
        assert(two_to(0) == 1);
        assert(weighted(Seq::<i64>::empty(), samples) == 0);
        assert(last_32_bits(0) == 0);
        assert(samples.push(residuals[done as int]) =~= residuals.take(done as int + 1));
        plain_residuals_are_samples(residuals, done + 1);
    } else {
        assert(samples =~= residuals);
    }
}

} // verus!
