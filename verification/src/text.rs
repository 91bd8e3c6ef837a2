//! Text helpers: decimal numbers, trimming, searching.

use vstd::prelude::*;

verus! {

/// `String::push` appends one character.
pub assume_specification[ String::push ](s: &mut String, c: char)
    ensures
        final(s)@ == old(s)@.push(c),
;

/// The characters of a text, in order.
pub fn chars_of(s: &str) -> (r: Vec<char>)
    ensures
        r@ == s@,
{
    let mut out: Vec<char> = Vec::new();
    for c in it: s.chars()
        invariant
            out@ == it.seq().take(it.index() as int),
            it.seq() == s@,
    {
        out.push(c);
        proof {
            assert(it.seq().take(it.index() as int + 1) =~= it.seq().take(it.index() as int).push(c));
        }
    }
    proof {
        assert(s@.take(s@.len() as int) =~= s@);
    }
    out
}

/// The text made of `chars[from..to]`.
pub fn text_between(chars: &Vec<char>, from: usize, to: usize) -> (r: String)
    requires
        from <= to <= chars@.len(),
    ensures
        r@ == chars@.subrange(from as int, to as int),
{
    let mut out = String::new();
    let mut i: usize = from;
    while i < to
        invariant
            from <= i <= to <= chars@.len(),
            out@ == chars@.subrange(from as int, i as int),
        decreases to - i,
    {
        out.push(chars[i]);
        proof {
            assert(chars@.subrange(from as int, i as int).push(chars@[i as int])
                =~= chars@.subrange(from as int, i as int + 1));
        }
        i = i + 1;
    }
    out
}

/// The decimal digit `d` as a character.
pub open spec fn digit_char(d: nat) -> char {
    (('0' as int) + d) as char
}

/// A number written in decimal, without leading zeros.
pub open spec fn decimal(n: nat) -> Seq<char>
    decreases n,
{
    if n < 10 {
        seq![digit_char(n)]
    } else {
        decimal(n / 10).push(digit_char(n % 10))
    }
}

fn push_digit(s: &mut String, d: u64)
    requires
        d < 10,
    ensures
        final(s)@ == old(s)@.push(digit_char(d as nat)),
{
    let c: u8 = 48u8 + d as u8;
    s.push(c as char);
}

/// Writes a number in decimal.
pub fn decimal_text(n: u64) -> (r: String)
    ensures
        r@ == decimal(n as nat),
    decreases n,
{
    if n < 10 {
        let mut s = String::new();
        push_digit(&mut s, n);
        proof {
            assert(s@ =~= decimal(n as nat));
        }
        s
    } else {
        let mut s = decimal_text(n / 10);
        push_digit(&mut s, n % 10);
        s
    }
}

/// A number in decimal, filled up on the left with zeros to `width` digits.
pub open spec fn padded(n: nat, width: nat) -> Seq<char> {
    let digits = decimal(n);
    if digits.len() >= width {
        digits
    } else {
        Seq::new((width - digits.len()) as nat, |i: int| '0') + digits
    }
}

/// Writes a number in decimal with at least `width` digits.
pub fn padded_text(n: u64, width: usize) -> (r: String)
    ensures
        r@ == padded(n as nat, width as nat),
{
    let digits = decimal_text(n);
    let count: usize = chars_of(digits.as_str()).len();
    let mut out = String::new();
    let mut written: usize = count;
    while written < width
        invariant
            written <= width || written == count,
            written >= count,
            out@ == Seq::new((written - count) as nat, |i: int| '0'),
        decreases width - written,
    {
        out.push('0');
        written = written + 1;
        proof {
            assert(out@ =~= Seq::new((written - count) as nat, |i: int| '0'));
        }
    }
    out.append(digits.as_str());
    proof {
        assert(out@ =~= padded(n as nat, width as nat));
    }
    out
}

/// Whether a character is a decimal digit.
pub open spec fn is_digit(c: char) -> bool {
    '0' <= c <= '9'
}

/// The number that a run of decimal digits writes.
pub open spec fn digits_value(s: Seq<char>) -> nat
    decreases s.len(),
{
    if s.len() == 0 {
        0
    } else {
        digits_value(s.drop_last()) * 10 + ((s.last() as int - '0' as int) as nat)
    }
}

/// What follows an optional plus sign.
pub open spec fn unsigned_part(s: Seq<char>) -> Seq<char> {
    if s.len() > 0 && s[0] == '+' {
        s.skip(1)
    } else {
        s
    }
}

/// The number that a text writes, if it is at most `limit`: decimal digits, at
/// least one, with an optional plus sign before them.
pub open spec fn number_in(s: Seq<char>, limit: nat) -> Option<nat> {
    let digits = unsigned_part(s);
    if digits.len() > 0 && (forall|i: int| 0 <= i < digits.len() ==> is_digit(#[trigger] digits[i]))
        && digits_value(digits) <= limit {
        Some(digits_value(digits))
    } else {
        None
    }
}

/// Reading more digits never makes a number smaller.
proof fn lemma_value_grows(s: Seq<char>, k: int)
    requires
        0 <= k <= s.len(),
        forall|i: int| 0 <= i < s.len() ==> is_digit(#[trigger] s[i]),
    ensures
        digits_value(s.take(k)) <= digits_value(s),
    decreases s.len() - k,
{
    if k == s.len() {
        assert(s.take(k) =~= s);
    } else {
        lemma_value_grows(s, k + 1);
        assert(s.take(k + 1).drop_last() =~= s.take(k));
    }
}

/// Reads a number of at most `limit`, as the standard integer parsers do.
pub fn parse_number(s: &str, limit: u64) -> (r: Option<u64>)
    ensures
        match r {
            Some(n) => number_in(s@, limit as nat) == Some(n as nat),
            None => number_in(s@, limit as nat) is None,
        },
{
    let chars = chars_of(s);
    let from: usize = if chars.len() > 0 && chars[0] == '+' {
        1
    } else {
        0
    };
    if chars.len() == from {
        return None;
    }
    let ghost digits = unsigned_part(s@);
    let mut value: u64 = 0;
    let mut i: usize = from;
    proof {
        assert(digits =~= s@.skip(from as int));
        assert(digits.take(0) =~= Seq::<char>::empty());
    }
    while i < chars.len()
        invariant
            chars@ == s@,
            from <= i <= chars@.len(),
            digits == s@.skip(from as int),
            digits == unsigned_part(s@),
            forall|j: int| 0 <= j < i - from ==> is_digit(#[trigger] digits[j]),
            value == digits_value(digits.take(i - from)),
            value <= limit,
        decreases chars@.len() - i,
    {
        let c = chars[i];
        assert(digits[i - from] == c);
        if c < '0' || c > '9' {
            return None;
        }
        let d: u64 = (c as u32 - 48) as u64;
        assert(digits.take(i - from + 1).drop_last() =~= digits.take(i - from));
        if value > limit / 10 || value * 10 > limit - d.min(limit) || d > limit {
            proof {
                assert(digits_value(digits.take(i - from + 1)) > limit);
                if forall|j: int| 0 <= j < digits.len() ==> is_digit(#[trigger] digits[j]) {
                    lemma_value_grows(digits, i - from + 1);
                }
            }
            return None;
        }
        value = value * 10 + d;
        i = i + 1;
    }
    proof {
        assert(digits.take(i - from) =~= digits);
    }
    Some(value)
}

/// Whether a character is Unicode white space.
pub open spec fn is_white(c: char) -> bool {
    ||| '\u{9}' <= c <= '\u{d}'
    ||| c == '\u{20}'
    ||| c == '\u{85}'
    ||| c == '\u{a0}'
    ||| c == '\u{1680}'
    ||| '\u{2000}' <= c <= '\u{200a}'
    ||| c == '\u{2028}'
    ||| c == '\u{2029}'
    ||| c == '\u{202f}'
    ||| c == '\u{205f}'
    ||| c == '\u{3000}'
}

fn white(c: char) -> (r: bool)
    ensures
        r == is_white(c),
{
    (c >= '\u{9}' && c <= '\u{d}') || c == '\u{20}' || c == '\u{85}' || c == '\u{a0}' || c
        == '\u{1680}' || (c >= '\u{2000}' && c <= '\u{200a}') || c == '\u{2028}' || c == '\u{2029}'
        || c == '\u{202f}' || c == '\u{205f}' || c == '\u{3000}'
}

/// A text without the white space at its start.
pub open spec fn trimmed_start(s: Seq<char>) -> Seq<char>
    decreases s.len(),
{
    if s.len() > 0 && is_white(s[0]) {
        trimmed_start(s.skip(1))
    } else {
        s
    }
}

/// A text without the white space at its end.
pub open spec fn trimmed_end(s: Seq<char>) -> Seq<char>
    decreases s.len(),
{
    if s.len() > 0 && is_white(s.last()) {
        trimmed_end(s.drop_last())
    } else {
        s
    }
}

/// A text without the white space at its two ends.
pub open spec fn trimmed(s: Seq<char>) -> Seq<char> {
    trimmed_end(trimmed_start(s))
}

/// The text of `chars` without the white space at its two ends.
pub fn trim_chars(chars: &Vec<char>) -> (r: String)
    ensures
        r@ == trimmed(chars@),
{
    let mut from: usize = 0;
    proof {
        assert(chars@.skip(0) =~= chars@);
    }
    while from < chars.len() && white(chars[from])
        invariant
            from <= chars@.len(),
            trimmed_start(chars@.skip(from as int)) == trimmed_start(chars@),
        decreases chars@.len() - from,
    {
        proof {
            assert(chars@.skip(from as int).skip(1) =~= chars@.skip(from as int + 1));
        }
        from = from + 1;
    }
    let ghost rest = chars@.skip(from as int);
    assert(trimmed_start(chars@) == rest);
    let mut to: usize = chars.len();
    proof {
        assert(rest.take(to - from) =~= rest);
    }
    while to > from && white(chars[to - 1])
        invariant
            from <= to <= chars@.len(),
            rest == chars@.skip(from as int),
            trimmed_end(rest.take(to - from)) == trimmed_end(rest),
        decreases to,
    {
        proof {
            assert(rest.take(to - from).drop_last() =~= rest.take(to - from - 1));
        }
        to = to - 1;
    }
    proof {
        assert(rest.take(to - from) =~= chars@.subrange(from as int, to as int));
    }
    text_between(chars, from, to)
}

/// Removes the white space at the two ends of a text.
pub fn trim(s: &str) -> (r: String)
    ensures
        r@ == trimmed(s@),
{
    trim_chars(&chars_of(s))
}

/// The lower-case equivalent of a text.
pub uninterp spec fn lowercase(s: Seq<char>) -> Seq<char>;

/// An ASCII letter in lower case; any other character unchanged.
pub open spec fn ascii_lower(c: char) -> char {
    if 'A' <= c <= 'Z' {
        ((c as int) + 32) as char
    } else {
        c
    }
}

/// `str::to_lowercase`: the lower-case equivalent of a text under Unicode's
/// rules, which on a text of ASCII characters alone lowers the letters A to Z.
#[verifier::external_body]
pub(crate) fn to_lower(s: &str) -> (r: String)
    ensures
        r@ == lowercase(s@),
        vstd::utf8::is_ascii_chars(s@) ==> r@ == s@.map_values(|c: char| ascii_lower(c)),
{
    s.to_lowercase()
}

/// Compares two texts.
pub fn same_text(a: &str, b: &str) -> (r: bool)
    ensures
        r == (a@ == b@),
{
    a.to_owned() == b.to_owned()
}

/// Whether `needle` stands in `s` at `at`.
pub open spec fn stands_at(s: Seq<char>, needle: Seq<char>, at: int) -> bool {
    0 <= at && at + needle.len() <= s.len() && s.subrange(at, at + needle.len()) == needle
}

/// Whether `needle` stands somewhere in `s`.
pub open spec fn holds(s: Seq<char>, needle: Seq<char>) -> bool {
    exists|at: int| stands_at(s, needle, at)
}

fn found_at(s: &Vec<char>, needle: &Vec<char>, at: usize) -> (r: bool)
    requires
        at + needle@.len() <= s@.len(),
    ensures
        r == stands_at(s@, needle@, at as int),
{
    let total: usize = s.len();
    let mut i: usize = 0;
    while i < needle.len()
        invariant
            i <= needle@.len(),
            at + needle@.len() <= s@.len() == total,
            s@.subrange(at as int, at + i) == needle@.take(i as int),
        decreases needle@.len() - i,
    {
        if s[at + i] != needle[i] {
            assert(s@.subrange(at as int, at + needle@.len())[i as int] != needle@[i as int]);
            return false;
        }
        i = i + 1;
        proof {
            assert(s@.subrange(at as int, at + i) =~= s@.subrange(at as int, at + i - 1).push(
                s@[at + i - 1],
            ));
            assert(needle@.take(i as int) =~= needle@.take(i - 1).push(needle@[i - 1]));
        }
    }
    proof {
        assert(needle@.take(i as int) =~= needle@);
    }
    true
}

/// Whether `needle` stands somewhere in `s`.
pub fn contains(s: &str, needle: &str) -> (r: bool)
    ensures
        r == holds(s@, needle@),
{
    let chars = chars_of(s);
    let wanted = chars_of(needle);
    if wanted.len() > chars.len() {
        return false;
    }
    let last: usize = chars.len() - wanted.len();
    let mut at: usize = 0;
    while at < last
        invariant
            chars@ == s@,
            wanted@ == needle@,
            last == chars@.len() - wanted@.len(),
            at <= last,
            forall|k: int| 0 <= k < at ==> !stands_at(s@, needle@, k),
        decreases last - at,
    {
        if found_at(&chars, &wanted, at) {
            return true;
        }
        at = at + 1;
    }
    found_at(&chars, &wanted, last)
}

/// Whether a text begins with `prefix`.
pub fn starts_with(s: &str, prefix: &str) -> (r: bool)
    ensures
        r == stands_at(s@, prefix@, 0),
{
    let chars = chars_of(s);
    let wanted = chars_of(prefix);
    if wanted.len() > chars.len() {
        return false;
    }
    found_at(&chars, &wanted, 0)
}

pub proof fn lemma_decimal_digits(n: nat)
    ensures
        decimal(n).len() > 0,
        forall|i: int| 0 <= i < decimal(n).len() ==> is_digit(#[trigger] decimal(n)[i]),
        digits_value(decimal(n)) == n,
    decreases n,
{
    if n < 10 {
        assert(decimal(n).drop_last() =~= Seq::<char>::empty());
        assert(digits_value(Seq::<char>::empty()) == 0);
    } else {
        lemma_decimal_digits(n / 10);
        assert(decimal(n).drop_last() =~= decimal(n / 10));
        assert(decimal(n).last() == digit_char(n % 10));
    }
}

/// Reading a number back from its decimal text gives the number.
pub proof fn decimal_reads_back(n: nat, limit: nat)
    requires
        n <= limit,
    ensures
        number_in(decimal(n), limit) == Some(n),
{
    lemma_decimal_digits(n);
    assert(is_digit(decimal(n)[0]));
}

/// Trimming a trimmed text changes nothing.
pub proof fn trimming_is_idempotent(s: Seq<char>)
    ensures
        trimmed(trimmed(s)) == trimmed(s),
{
    lemma_trimmed_start_ends(s);
    lemma_trimmed_end_keeps_start(trimmed_start(s));
    lemma_trimmed_end_ends(trimmed_start(s));
}

proof fn lemma_trimmed_start_ends(s: Seq<char>)
    ensures
        trimmed_start(s).len() > 0 ==> !is_white(trimmed_start(s)[0]),
    decreases s.len(),
{
    if s.len() > 0 && is_white(s[0]) {
        lemma_trimmed_start_ends(s.skip(1));
    }
}

proof fn lemma_trimmed_end_ends(s: Seq<char>)
    ensures
        trimmed_end(s).len() > 0 ==> !is_white(trimmed_end(s).last()),
    decreases s.len(),
{
    if s.len() > 0 && is_white(s.last()) {
        lemma_trimmed_end_ends(s.drop_last());
    }
}

proof fn lemma_trimmed_end_keeps_start(s: Seq<char>)
    ensures
        trimmed_end(s).len() <= s.len(),
        trimmed_end(s).len() > 0 ==> trimmed_end(s)[0] == s[0],
    decreases s.len(),
{
    if s.len() > 0 && is_white(s.last()) {
        lemma_trimmed_end_keeps_start(s.drop_last());
    }
}

/// Texts without their representation.
pub open spec fn texts(list: Seq<String>) -> Seq<Seq<char>> {
    list.map_values(|s: String| s@)
}

/// Tells whether two lists of texts are the same.
pub fn same_texts(a: &Vec<String>, b: &Vec<String>) -> (r: bool)
    ensures
        r == (texts(a@) == texts(b@)),
{
    if a.len() != b.len() {
        assert(texts(a@).len() != texts(b@).len());
        return false;
    }
    let mut i: usize = 0;
    while i < a.len()
        invariant
            i <= a@.len() == b@.len(),
            forall|k: int| 0 <= k < i ==> (#[trigger] a@[k])@ == b@[k]@,
        decreases a@.len() - i,
    {
        if !same_text(a[i].as_str(), b[i].as_str()) {
            proof {
                assert(texts(a@)[i as int] == a@[i as int]@);
                assert(texts(b@)[i as int] == b@[i as int]@);
            }
            return false;
        }
        i = i + 1;
    }
    assert(texts(a@) =~= texts(b@));
    true
}

proof fn lemma_trimmed_start_drops(pre: Seq<char>, rest: Seq<char>)
    requires
        forall|i: int| 0 <= i < pre.len() ==> is_white(#[trigger] pre[i]),
        rest.len() == 0 || !is_white(rest[0]),
    ensures
        trimmed_start(pre + rest) == rest,
    decreases pre.len(),
{
    if pre.len() == 0 {
        assert(pre + rest =~= rest);
    } else {
        assert(is_white(pre[0]));
        let shorter = pre.skip(1);
        assert forall|i: int| 0 <= i < shorter.len() implies is_white(#[trigger] shorter[i]) by {
            assert(shorter[i] == pre[i + 1]);
        }
        lemma_trimmed_start_drops(shorter, rest);
        assert((pre + rest).skip(1) =~= shorter + rest);
        assert((pre + rest)[0] == pre[0]);
    }
}

proof fn lemma_trimmed_end_drops(rest: Seq<char>, post: Seq<char>)
    requires
        forall|i: int| 0 <= i < post.len() ==> is_white(#[trigger] post[i]),
        rest.len() == 0 || !is_white(rest.last()),
    ensures
        trimmed_end(rest + post) == rest,
    decreases post.len(),
{
    if post.len() == 0 {
        assert(rest + post =~= rest);
    } else {
        assert(is_white(post[post.len() - 1]));
        let shorter = post.drop_last();
        assert forall|i: int| 0 <= i < shorter.len() implies is_white(#[trigger] shorter[i]) by {
            assert(shorter[i] == post[i]);
        }
        lemma_trimmed_end_drops(rest, shorter);
        assert((rest + post).drop_last() =~= rest + shorter);
        assert((rest + post).last() == post.last());
    }
}

/// Trimming takes off the white space before and behind a text and leaves what
/// lies between, white space within it and all.
pub proof fn trimming_leaves_the_middle(pre: Seq<char>, middle: Seq<char>, post: Seq<char>)
    requires
        forall|i: int| 0 <= i < pre.len() ==> is_white(#[trigger] pre[i]),
        forall|i: int| 0 <= i < post.len() ==> is_white(#[trigger] post[i]),
        middle.len() > 0 ==> !is_white(middle[0]) && !is_white(middle.last()),
    ensures
        trimmed(pre + middle + post) == middle,
{
    if middle.len() > 0 {
        assert(pre + middle + post =~= pre + (middle + post));
        assert((middle + post)[0] == middle[0]);
        lemma_trimmed_start_drops(pre, middle + post);
        lemma_trimmed_end_drops(middle, post);
    } else {
        let all = pre + post;
        assert(pre + middle + post =~= all + Seq::<char>::empty());
        assert forall|i: int| 0 <= i < all.len() implies is_white(#[trigger] all[i]) by {
            if i < pre.len() {
                assert(all[i] == pre[i]);
            } else {
                assert(all[i] == post[i - pre.len()]);
            }
        }
        lemma_trimmed_start_drops(all, Seq::<char>::empty());
        assert(trimmed_end(Seq::<char>::empty()) =~= middle);
    }
}

/// White space is what Unicode calls so: of the ASCII characters the blank and
/// those from the tab to the carriage return.
pub proof fn white_space_is_unicode_white_space(c: char)
    ensures
        (c as int) < 128 ==> (is_white(c) <==> c == ' ' || 9 <= c as int <= 13),
        (c as int) >= 128 ==> (is_white(c) <==> c as int == 0x85 || c as int == 0xa0 || c as int
            == 0x1680 || 0x2000 <= c as int <= 0x200a || c as int == 0x2028 || c as int == 0x2029
            || c as int == 0x202f || c as int == 0x205f || c as int == 0x3000),
{
}

/// Numbers are read digit by digit, each one counting ten times what stands
/// behind it, with or without a plus sign. One that grows past the limit is no
/// number, and neither is a text with anything else in it.
pub proof fn numbers_are_read_by_their_digits(s: Seq<char>, c: char, limit: nat)
    ensures
        number_in(s, limit) is Some && '0' <= c <= '9' ==> number_in(s.push(c), limit) == (if 10
            * number_in(s, limit)->0 + (c as int - 48) <= limit {
            Some((10 * number_in(s, limit)->0 + (c as int - 48)) as nat)
        } else {
            None
        }),
        '0' <= c <= '9' && c as int - 48 <= limit ==> number_in(seq![c], limit) == Some(
            (c as int - 48) as nat,
        ) && number_in(seq!['+', c], limit) == Some((c as int - 48) as nat),
        !('0' <= c <= '9') && s.len() > 0 ==> number_in(s.push(c), limit) is None,
        !('0' <= c <= '9') ==> number_in(seq![c], limit) is None,
        number_in(Seq::empty(), limit) is None,
{
    let one = seq![c];
    assert(one.drop_last() =~= Seq::<char>::empty());
    assert(digits_value(Seq::<char>::empty()) == 0);
    let signed = seq!['+', c];
    assert(signed.skip(1) =~= one);
    if '0' <= c <= '9' {
        assert(digits_value(one) == (c as int - 48) as nat);
        assert forall|i: int| 0 <= i < one.len() implies is_digit(#[trigger] one[i]) by {}
        assert(unsigned_part(one) == one);
        assert(unsigned_part(signed) == one);
    } else {
        assert(one[0] == c);
        if c == '+' {
            assert(one.skip(1) =~= Seq::<char>::empty());
        } else {
            assert(!is_digit(unsigned_part(one)[0]));
        }
    }
    let longer = s.push(c);
    let digits = unsigned_part(s);
    if s.len() > 0 {
        assert(longer[0] == s[0]);
        assert(unsigned_part(longer) =~= digits.push(c));
        assert(digits.push(c).drop_last() =~= digits);
        if number_in(s, limit) is Some && '0' <= c <= '9' {
            assert forall|i: int| 0 <= i < digits.push(c).len() implies is_digit(
                #[trigger] digits.push(c)[i],
            ) by {
                if i < digits.len() {
                    assert(is_digit(digits[i]));
                }
            }
        }
        if !('0' <= c <= '9') {
            assert(!is_digit(digits.push(c)[digits.len() as int]));
        }
    }
}

/// Decimal text has no zero before its first digit, but for the number 0, and
/// padding puts zeros there up to the width and changes neither the number nor
/// a text that is wide enough.
pub proof fn padding_keeps_the_number(n: nat, width: nat, limit: nat)
    requires
        n <= limit,
    ensures
        n > 0 ==> decimal(n)[0] != '0',
        number_in(padded(n, width), limit) == Some(n),
        padded(n, width).len() == (if decimal(n).len() < width {
            width
        } else {
            decimal(n).len()
        }),
        decimal(n).len() >= width ==> padded(n, width) == decimal(n),
    decreases width,
{
    lemma_decimal_digits(n);
    lemma_decimal_starts(n);
    let digits = decimal(n);
    if digits.len() < width {
        let zeros = Seq::new((width - digits.len()) as nat, |i: int| '0');
        lemma_leading_zeros_add_nothing(zeros, digits);
        assert forall|i: int| 0 <= i < (zeros + digits).len() implies is_digit(
            #[trigger] (zeros + digits)[i],
        ) by {
            if i >= zeros.len() {
                assert(is_digit(digits[i - zeros.len()]));
            }
        }
        assert((zeros + digits)[0] == '0');
    } else {
        assert(is_digit(digits[0]));
    }
}

proof fn lemma_decimal_starts(n: nat)
    ensures
        n > 0 ==> decimal(n)[0] != '0',
    decreases n,
{
    if n >= 10 {
        lemma_decimal_starts(n / 10);
        lemma_decimal_digits(n / 10);
        assert(decimal(n)[0] == decimal(n / 10)[0]);
    }
}

proof fn lemma_leading_zeros_add_nothing(zeros: Seq<char>, digits: Seq<char>)
    requires
        forall|i: int| 0 <= i < zeros.len() ==> #[trigger] zeros[i] == '0',
    ensures
        digits_value(zeros + digits) == digits_value(digits),
    decreases digits.len(), zeros.len(),
{
    if digits.len() > 0 {
        assert((zeros + digits).drop_last() =~= zeros + digits.drop_last());
        lemma_leading_zeros_add_nothing(zeros, digits.drop_last());
    } else if zeros.len() > 0 {
        let shorter = zeros.drop_last();
        assert forall|i: int| 0 <= i < shorter.len() implies #[trigger] shorter[i] == '0' by {
            assert(shorter[i] == zeros[i]);
        }
        assert((zeros + digits).drop_last() =~= shorter + digits);
        assert((zeros + digits).last() == zeros[zeros.len() - 1]);
        lemma_leading_zeros_add_nothing(shorter, digits);
    } else {
        assert(zeros + digits =~= digits);
    }
}

/// A text holds every text that it was put together from, and nothing longer
/// than itself.
pub proof fn texts_hold_their_parts(before: Seq<char>, needle: Seq<char>, behind: Seq<char>)
    ensures
        holds(before + needle + behind, needle),
        needle.len() > before.len() ==> !holds(before, needle),
{
    let all = before + needle + behind;
    assert(all.subrange(before.len() as int, before.len() as int + needle.len()) =~= needle);
    assert(stands_at(all, needle, before.len() as int));
}

} // verus!
