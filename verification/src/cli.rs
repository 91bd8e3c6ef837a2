//! What the command line says: qualities, sort orders and IDs.

use vstd::prelude::*;

use crate::models::TrackFormat;
use crate::text;

verus! {

/// What search results and favorites are sorted by.
#[derive(Debug, Clone, Copy, PartialEq, Eq, Structural)]
pub enum SortKey {
    Quality,
    Relevance,
    Duration,
}

/// The direction of a sort.
#[derive(Debug, Clone, Copy, PartialEq, Eq, Structural)]
pub enum SortDir {
    Asc,
    Desc,
}

/// The layout of JSON output.
#[derive(Debug, Clone, Copy, PartialEq, Eq, Structural)]
pub enum OutputFormat {
    Pretty,
    Compact,
}

/// The format that a quality in lower case names; MP3 320 where it names none.
pub open spec fn format_named(lower: Seq<char>) -> TrackFormat {
    if lower == "flac"@ || lower == "lossless"@ || lower == "9"@ {
        TrackFormat::Flac
    } else if lower == "128"@ || lower == "mp3_128"@ || lower == "1"@ {
        TrackFormat::Mp3_128
    } else {
        TrackFormat::Mp3_320
    }
}

/// The format that a quality names, in any case.
pub open spec fn quality_format(quality: Seq<char>) -> TrackFormat {
    format_named(text::lowercase(quality))
}

/// The format that a quality in lower case names; MP3 320 where it names none.
pub fn format_of_lowercase(lower: &str) -> (r: TrackFormat)
    ensures
        r == format_named(lower@),
{
    if text::same_text(lower, "flac") || text::same_text(lower, "lossless") || text::same_text(
        lower,
        "9",
    ) {
        TrackFormat::Flac
    } else if text::same_text(lower, "320") || text::same_text(lower, "mp3_320")
        || text::same_text(lower, "3") {
        proof {
            reveal_strlit("320");
            reveal_strlit("mp3_320");
            reveal_strlit("3");
            reveal_strlit("128");
            reveal_strlit("mp3_128");
            reveal_strlit("1");
            assert("320"@[0] != "128"@[0]);
            assert("mp3_320"@[4] != "mp3_128"@[4]);
            assert("3"@[0] != "1"@[0]);
        }
        TrackFormat::Mp3_320
    } else if text::same_text(lower, "128") || text::same_text(lower, "mp3_128")
        || text::same_text(lower, "1") {
        TrackFormat::Mp3_128
    } else {
        TrackFormat::Mp3_320
    }
}

/// Reads a quality name or code, in any case.
pub fn parse_format(quality: &str) -> (r: TrackFormat)
    ensures
        r == quality_format(quality@),
{
    let lower = text::to_lower(quality);
    format_of_lowercase(lower.as_str())
}

/// A text without the slashes at its end.
pub open spec fn without_slashes(s: Seq<char>) -> Seq<char>
    decreases s.len(),
{
    if s.len() > 0 && s.last() == '/' {
        without_slashes(s.drop_last())
    } else {
        s
    }
}

/// What follows the last slash of a text, if it has one.
pub open spec fn last_segment(s: Seq<char>) -> Option<Seq<char>>
    decreases s.len(),
{
    if s.len() == 0 {
        None
    } else if s.last() == '/' {
        Some(Seq::empty())
    } else {
        match last_segment(s.drop_last()) {
            Some(tail) => Some(tail.push(s.last())),
            None => None,
        }
    }
}

/// Whether a character opens the query or the fragment of a URL.
pub open spec fn opens_query(c: char) -> bool {
    c == '?' || c == '#'
}

/// A text up to its first question mark or hash.
pub open spec fn before_query(s: Seq<char>) -> Seq<char>
    decreases s.len(),
{
    if s.len() == 0 || opens_query(s[0]) {
        Seq::empty()
    } else {
        seq![s[0]] + before_query(s.skip(1))
    }
}

/// The ID in a Deezer URL, which ends before a query or a fragment; any other
/// text is taken as an ID itself, and so is a URL whose query or fragment stands
/// behind a slash with nothing but the host before it.
pub open spec fn extracted_id(input: Seq<char>) -> Seq<char> {
    let address = before_query(input);
    let bare = without_slashes(address);
    if text::holds(bare, "deezer.com"@) {
        match last_segment(bare) {
            Some(segment) => if bare.len() < address.len() < input.len() && !text::holds(
                bare.take(bare.len() - segment.len()),
                "deezer.com"@,
            ) {
                input
            } else {
                segment
            },
            None => input,
        }
    } else {
        input
    }
}

/// What follows the last slash stands right behind it.
pub proof fn lemma_last_segment_at(s: Seq<char>, at: int)
    requires
        0 <= at < s.len(),
        s[at] == '/',
        forall|k: int| at < k < s.len() ==> s[k] != '/',
    ensures
        last_segment(s) == Some(s.skip(at + 1)),
    decreases s.len(),
{
    if at == s.len() - 1 {
        assert(s.skip(at + 1) =~= Seq::empty());
    } else {
        lemma_last_segment_at(s.drop_last(), at);
        assert(s.drop_last().skip(at + 1).push(s.last()) =~= s.skip(at + 1));
    }
}

/// A text without slashes has no last segment.
pub proof fn lemma_no_segment(s: Seq<char>)
    requires
        forall|k: int| 0 <= k < s.len() ==> s[k] != '/',
    ensures
        last_segment(s) is None,
    decreases s.len(),
{
    if s.len() > 0 {
        lemma_no_segment(s.drop_last());
    }
}

proof fn lemma_before_query_at(s: Seq<char>, at: int)
    requires
        0 <= at <= s.len(),
        forall|k: int| 0 <= k < at ==> !opens_query(s[k]),
        at < s.len() ==> opens_query(s[at]),
    ensures
        before_query(s) == s.take(at),
    decreases s.len(),
{
    if at == 0 {
        assert(s.take(0) =~= Seq::empty());
    } else {
        assert(!opens_query(s[0]));
        lemma_before_query_at(s.skip(1), at - 1);
        assert(seq![s[0]] + s.skip(1).take(at - 1) =~= s.take(at));
    }
}

/// Removes the slashes at the end of a text.
pub fn trim_slashes(s: &str) -> (r: String)
    ensures
        r@ == without_slashes(s@),
{
    let chars = text::chars_of(s);
    let mut to: usize = chars.len();
    proof {
        assert(s@.take(to as int) =~= s@);
    }
    while to > 0 && chars[to - 1] == '/'
        invariant
            chars@ == s@,
            to <= chars@.len(),
            without_slashes(s@.take(to as int)) == without_slashes(s@),
        decreases to,
    {
        proof {
            assert(s@.take(to as int).drop_last() =~= s@.take(to - 1));
        }
        to = to - 1;
    }
    proof {
        assert(s@.take(to as int) =~= chars@.subrange(0, to as int));
    }
    text::text_between(&chars, 0, to)
}

/// Extracts the ID from a Deezer URL, or returns the input where it is none.
pub fn extract_id(input: &str, _entity: &str) -> (r: String)
    ensures
        r@ == extracted_id(input@),
{
    let all = text::chars_of(input);
    let mut end: usize = 0;
    while end < all.len() && all[end] != '?' && all[end] != '#'
        invariant
            all@ == input@,
            end <= all@.len(),
            forall|k: int| 0 <= k < end ==> !opens_query(#[trigger] input@[k]),
        decreases all@.len() - end,
    {
        end = end + 1;
    }
    let address = text::text_between(&all, 0, end);
    proof {
        lemma_before_query_at(input@, end as int);
        assert(address@ =~= input@.take(end as int));
    }
    let bare_text = trim_slashes(address.as_str());
    let ghost bare = bare_text@;
    if text::contains(bare_text.as_str(), "deezer.com") {
        let chars = text::chars_of(bare_text.as_str());
        let mut from: usize = chars.len();
        while from > 0 && chars[from - 1] != '/'
            invariant
                chars@ == bare,
                from <= chars@.len(),
                forall|k: int| from <= k < bare.len() ==> bare[k] != '/',
            decreases from,
        {
            from = from - 1;
        }
        if from > 0 {
            let before = text::text_between(&chars, 0, from);
            proof {
                lemma_last_segment_at(bare, from - 1);
                assert(bare.skip(from as int) =~= bare.subrange(from as int, bare.len() as int));
                assert(before@ =~= bare.take(from as int));
            }
            let closed: bool = end < all.len() && chars.len() < end;
            if closed && !text::contains(before.as_str(), "deezer.com") {
                return input.to_owned();
            }
            return text::text_between(&chars, from, chars.len());
        }
        proof {
            lemma_no_segment(bare);
        }
    }
    input.to_owned()
}

/// A text that is no Deezer URL is an ID already and passes through unchanged.
pub proof fn plain_ids_pass_through(input: Seq<char>)
    requires
        !text::holds(without_slashes(before_query(input)), "deezer.com"@),
    ensures
        extracted_id(input) == input,
{
}

proof fn lemma_without_slashes(s: Seq<char>, slashes: Seq<char>)
    requires
        s.len() == 0 || s.last() != '/',
        forall|k: int| 0 <= k < slashes.len() ==> slashes[k] == '/',
    ensures
        without_slashes(s + slashes) == s,
    decreases slashes.len(),
{
    if slashes.len() == 0 {
        assert(s + slashes =~= s);
    } else {
        assert((s + slashes).last() == '/');
        assert((s + slashes).drop_last() =~= s + slashes.drop_last());
        lemma_without_slashes(s, slashes.drop_last());
    }
}

/// The ID of a Deezer URL is found however many slashes and whatever query or
/// fragment follow it.
pub proof fn url_ids_are_extracted(
    base: Seq<char>,
    id: Seq<char>,
    slashes: Seq<char>,
    query: Seq<char>,
)
    requires
        text::holds(base, "deezer.com"@),
        forall|k: int| 0 <= k < base.len() ==> !opens_query(#[trigger] base[k]),
        id.len() > 0,
        forall|k: int| 0 <= k < id.len() ==> id[k] != '/' && !opens_query(#[trigger] id[k]),
        forall|k: int| 0 <= k < slashes.len() ==> slashes[k] == '/',
        query.len() > 0 ==> opens_query(query[0]),
    ensures
        extracted_id(base + seq!['/'] + id + slashes + query) == id,
{
    let bare = base + seq!['/'] + id;
    let address = bare + slashes;
    let whole = base + seq!['/'] + id + slashes + query;
    assert forall|k: int| 0 <= k < address.len() implies !opens_query(#[trigger] whole[k]) by {
        if k < base.len() {
            assert(whole[k] == base[k]);
        } else if base.len() < k < bare.len() {
            assert(whole[k] == id[k - base.len() - 1]);
        } else if k >= bare.len() {
            assert(whole[k] == slashes[k - bare.len()]);
        }
    }
    if query.len() > 0 {
        assert(whole[address.len() as int] == query[0]);
    }
    lemma_before_query_at(whole, address.len() as int);
    assert(whole.take(address.len() as int) =~= address);
    assert(bare.last() == id.last());
    lemma_without_slashes(bare, slashes);
    let at = choose|at: int| text::stands_at(base, "deezer.com"@, at);
    assert(bare.subrange(at, at + "deezer.com"@.len()) =~= base.subrange(
        at,
        at + "deezer.com"@.len(),
    ));
    assert(text::stands_at(bare, "deezer.com"@, at));
    lemma_last_segment_at(bare, base.len() as int);
    assert(bare.skip(base.len() as int + 1) =~= id);
    let before = bare.take(base.len() as int + 1);
    assert(before.subrange(at, at + "deezer.com"@.len()) =~= base.subrange(
        at,
        at + "deezer.com"@.len(),
    ));
    assert(text::stands_at(before, "deezer.com"@, at));
}

/// Every name of a quality is understood, and what is none of them means MP3 at
/// 320 kbps.
pub proof fn qualities_go_by_several_names(lower: Seq<char>)
    ensures
        format_named("flac"@) == TrackFormat::Flac,
        format_named("lossless"@) == TrackFormat::Flac,
        format_named("9"@) == TrackFormat::Flac,
        format_named("128"@) == TrackFormat::Mp3_128,
        format_named("mp3_128"@) == TrackFormat::Mp3_128,
        format_named("1"@) == TrackFormat::Mp3_128,
        format_named("320"@) == TrackFormat::Mp3_320,
        format_named("mp3_320"@) == TrackFormat::Mp3_320,
        format_named("3"@) == TrackFormat::Mp3_320,
        lower != "flac"@ && lower != "lossless"@ && lower != "9"@ && lower != "128"@ && lower
            != "mp3_128"@ && lower != "1"@ ==> format_named(lower) == TrackFormat::Mp3_320,
{
    reveal_strlit("flac");
    reveal_strlit("lossless");
    reveal_strlit("9");
    reveal_strlit("128");
    reveal_strlit("mp3_128");
    reveal_strlit("1");
    reveal_strlit("320");
    reveal_strlit("mp3_320");
    reveal_strlit("3");
    assert("128"@.len() == 3 && "flac"@.len() == 4 && "lossless"@.len() == 8 && "9"@.len() == 1);
    assert("1"@[0] != "9"@[0] && "3"@[0] != "9"@[0] && "3"@[0] != "1"@[0]);
    assert("mp3_128"@.len() == 7 && "mp3_320"@.len() == 7 && "320"@.len() == 3);
    assert("320"@[0] != "128"@[0]);
    assert("mp3_320"@[4] != "mp3_128"@[4]);
}

/// A query opens with a question mark, a fragment with a hash, and what stands
/// before the first of them is the address.
pub proof fn addresses_end_before_the_query(address: Seq<char>, rest: Seq<char>)
    requires
        forall|k: int| 0 <= k < address.len() ==> address[k] != '?' && address[k] != '#',
        rest.len() > 0 ==> rest[0] == '?' || rest[0] == '#',
    ensures
        before_query(address + rest) == address,
    decreases address.len(),
{
    if address.len() > 0 {
        let shorter = address.skip(1);
        assert forall|k: int| 0 <= k < shorter.len() implies shorter[k] != '?' && shorter[k] != '#' by {
            assert(shorter[k] == address[k + 1]);
        }
        addresses_end_before_the_query(shorter, rest);
        assert((address + rest).skip(1) =~= shorter + rest);
        assert((address + rest)[0] == address[0]);
        assert(seq![address[0]] + shorter =~= address);
    } else {
        assert(address + rest =~= rest);
        assert(before_query(rest) =~= address);
    }
}

/// Slashes at the end of an address do not count, however many there are, and
/// those within it stay.
pub proof fn slashes_at_the_end_do_not_count(address: Seq<char>, slashes: Seq<char>)
    requires
        address.len() == 0 || address.last() != '/',
        forall|k: int| 0 <= k < slashes.len() ==> slashes[k] == '/',
    ensures
        without_slashes(address + slashes) == address,
{
    lemma_without_slashes(address, slashes);
}

} // verus!
