//! File names and what they tell.

use vstd::prelude::*;

use crate::json;
use crate::models::GwTrack;
use crate::text;

verus! {

/// Whether a character may not stand in a file name.
pub open spec fn is_forbidden(c: char) -> bool {
    c == '/' || c == '\\' || c == ':' || c == '*' || c == '?' || c == '"' || c == '<' || c == '>'
        || c == '|'
}

/// The character that a file name has for `c`.
pub open spec fn safe_char(c: char) -> char {
    if is_forbidden(c) {
        '_'
    } else {
        c
    }
}

/// A name fit for a file: forbidden characters replaced, white space trimmed.
pub open spec fn sanitized(name: Seq<char>) -> Seq<char> {
    text::trimmed(name.map_values(|c: char| safe_char(c)))
}

/// Makes a name fit for a file.
pub fn sanitize_filename(name: &str) -> (r: String)
    ensures
        r@ == sanitized(name@),
{
    let chars = text::chars_of(name);
    let ghost mapped = name@.map_values(|c: char| safe_char(c));
    let mut out: Vec<char> = Vec::new();
    let mut i: usize = 0;
    while i < chars.len()
        invariant
            chars@ == name@,
            mapped == name@.map_values(|c: char| safe_char(c)),
            i <= chars@.len(),
            out@ == mapped.take(i as int),
        decreases chars@.len() - i,
    {
        let c = chars[i];
        if c == '/' || c == '\\' || c == ':' || c == '*' || c == '?' || c == '"' || c == '<' || c
            == '>' || c == '|' {
            out.push('_');
        } else {
            out.push(c);
        }
        i = i + 1;
        proof {
            assert(out@ =~= mapped.take(i as int));
        }
    }
    proof {
        assert(mapped.take(i as int) =~= mapped);
    }
    text::trim_chars(&out)
}

/// An artist name in the form in which names are compared.
pub open spec fn normalized(name: Seq<char>) -> Seq<char> {
    text::lowercase(text::trimmed(name))
}

/// An artist name in the form in which names are compared.
pub fn normalized_artist_name(name: &str) -> (r: String)
    ensures
        r@ == normalized(name@),
{
    let bare = text::trim(name);
    text::to_lower(bare.as_str())
}

/// Whether a track is by an artist: by ID, or else by name.
pub open spec fn belongs_to(track: GwTrack, artist_id: Seq<char>, artist_name: Seq<char>) -> bool {
    ||| match track.art_id {
        Some(id) => json::written(id.model()) == Some(artist_id),
        None => false,
    }
    ||| normalized(track.artist_view()) == normalized(artist_name)
}

/// Whether a track is by an artist: by ID, or else by name.
pub fn track_belongs_to_artist(track: &GwTrack, artist_id: &str, artist_name: &str) -> (r: bool)
    ensures
        r == belongs_to(*track, artist_id@, artist_name@),
{
    let expected = normalized_artist_name(artist_name);
    if let Some(id) = &track.art_id {
        if let Some(id) = id.write_out() {
            if text::same_text(id.as_str(), artist_id) {
                return true;
            }
        }
    }
    normalized_artist_name(track.artist().as_str()) == expected
}

/// The last part of a path with parts between slashes, without regard to
/// slashes and single dots at its end; a path that ends in `..` has none.
pub open spec fn file_name(path: Seq<char>) -> Option<Seq<char>>
    decreases path.len(),
{
    match crate::cli::last_segment(path) {
        None => named_part(path),
        Some(segment) => if segment.len() == 0 || segment == seq!['.'] {
            if path.len() > segment.len() {
                file_name(path.take(path.len() - segment.len() - 1))
            } else {
                None
            }
        } else {
            named_part(segment)
        },
    }
}

/// A part of a path that names a file or a folder.
pub open spec fn named_part(part: Seq<char>) -> Option<Seq<char>> {
    if part.len() == 0 || part == seq!['.'] || part == seq!['.', '.'] {
        None
    } else {
        Some(part)
    }
}

/// The position of the last dot in a name, if it has one after its first
/// character.
pub open spec fn last_dot(name: Seq<char>) -> Option<int>
    decreases name.len(),
{
    if name.len() <= 1 {
        None
    } else if name.last() == '.' {
        Some(name.len() - 1)
    } else {
        last_dot(name.drop_last())
    }
}

/// The extension of a path's file name, without its dot.
pub open spec fn extension_of(path: Seq<char>) -> Option<Seq<char>> {
    match file_name(path) {
        Some(name) => match last_dot(name) {
            Some(at) => Some(name.skip(at + 1)),
            None => None,
        },
        None => None,
    }
}

/// The file name of a path without its extension.
pub open spec fn stem_of(path: Seq<char>) -> Option<Seq<char>> {
    match file_name(path) {
        Some(name) => match last_dot(name) {
            Some(at) => Some(name.take(at)),
            None => Some(name),
        },
        None => None,
    }
}

fn is_part(chars: &Vec<char>, from: usize, to: usize) -> (r: bool)
    requires
        from <= to <= chars@.len(),
    ensures
        r == (named_part(chars@.subrange(from as int, to as int)) is Some),
{
    let ghost part = chars@.subrange(from as int, to as int);
    if to - from == 0 {
        return false;
    }
    if to - from == 1 {
        assert(part =~= seq![part[0]]);
        if chars[from] == '.' {
            return false;
        }
        assert(part[0] != seq!['.'][0]);
    }
    if to - from == 2 {
        assert(part =~= seq![part[0], part[1]]);
        if chars[from] == '.' && chars[from + 1] == '.' {
            return false;
        }
        assert(part[0] != seq!['.', '.'][0] || part[1] != seq!['.', '.'][1]);
    }
    true
}

/// The last part of a path, if it names a file or a folder.
pub fn file_name_of(path: &str) -> (r: Option<String>)
    ensures
        json::text_view(r) == file_name(path@),
{
    let chars = text::chars_of(path);
    let mut end: usize = chars.len();
    proof {
        assert(path@.take(end as int) =~= path@);
    }
    loop
        invariant
            chars@ == path@,
            end <= chars@.len(),
            file_name(path@.take(end as int)) == file_name(path@),
        decreases end,
    {
        let ghost head = path@.take(end as int);
        let mut from: usize = end;
        while from > 0 && chars[from - 1] != '/'
            invariant
                chars@ == path@,
                from <= end <= chars@.len(),
                head == path@.take(end as int),
                forall|k: int| from <= k < end ==> head[k] != '/',
            decreases from,
        {
            from = from - 1;
        }
        let ghost segment = chars@.subrange(from as int, end as int);
        proof {
            if from > 0 {
                crate::cli::lemma_last_segment_at(head, from - 1);
                assert(head.skip(from as int) =~= segment);
            } else {
                crate::cli::lemma_no_segment(head);
                assert(head =~= segment);
            }
        }
        if is_part(&chars, from, end) {
            return Some(text::text_between(&chars, from, end));
        }
        if from == 0 {
            return None;
        }
        if end - from == 2 {
            proof {
                assert(segment != seq!['.']);
            }
            return None;
        }
        proof {
            assert(head.take(head.len() - segment.len() - 1) =~= path@.take(from - 1));
        }
        end = from - 1;
    }
}

fn split_at_dot(name: &str) -> (r: (String, Option<String>))
    ensures
        match last_dot(name@) {
            Some(at) => r.0@ == name@.take(at) && json::text_view(r.1) == Some(name@.skip(at + 1)),
            None => r.0@ == name@ && r.1 is None,
        },
{
    let chars = text::chars_of(name);
    let mut end: usize = chars.len();
    proof {
        assert(name@.take(end as int) =~= name@);
    }
    while end > 1
        invariant
            chars@ == name@,
            end <= chars@.len(),
            last_dot(name@.take(end as int)) == last_dot(name@),
        decreases end,
    {
        if chars[end - 1] == '.' {
            proof {
                assert(name@.take(end - 1) =~= chars@.subrange(0, end - 1));
                assert(name@.skip(end as int) =~= chars@.subrange(end as int, chars@.len() as int));
            }
            return (
                text::text_between(&chars, 0, end - 1),
                Some(text::text_between(&chars, end, chars.len())),
            );
        }
        proof {
            assert(name@.take(end as int).drop_last() =~= name@.take(end - 1));
        }
        end = end - 1;
    }
    (name.to_owned(), None)
}

/// The extension of a path's file name, without its dot.
pub fn path_extension(path: &str) -> (r: Option<String>)
    ensures
        json::text_view(r) == extension_of(path@),
{
    match file_name_of(path) {
        Some(name) => split_at_dot(name.as_str()).1,
        None => None,
    }
}

/// The file name of a path without its extension.
pub fn path_stem(path: &str) -> (r: Option<String>)
    ensures
        json::text_view(r) == stem_of(path@),
{
    match file_name_of(path) {
        Some(name) => Some(split_at_dot(name.as_str()).0),
        None => None,
    }
}

/// Whether an extension in lower case is one of an audio file.
pub open spec fn audio_extension(lower: Seq<char>) -> bool {
    lower == "flac"@ || lower == "mp3"@ || lower == "m4a"@ || lower == "aac"@ || lower == "ogg"@
        || lower == "opus"@ || lower == "wav"@
}

/// Whether an extension in lower case is one of the formats that can be
/// streamed.
pub open spec fn music_extension(lower: Seq<char>) -> bool {
    lower == "mp3"@ || lower == "flac"@
}

/// Whether an extension in lower case is one of an audio file.
pub fn is_audio_extension(lower: &str) -> (r: bool)
    ensures
        r == audio_extension(lower@),
{
    text::same_text(lower, "flac") || text::same_text(lower, "mp3") || text::same_text(lower, "m4a")
        || text::same_text(lower, "aac") || text::same_text(lower, "ogg") || text::same_text(
        lower,
        "opus",
    ) || text::same_text(lower, "wav")
}

/// Whether an extension in lower case is one of the formats that can be
/// streamed.
pub fn is_music_extension(lower: &str) -> (r: bool)
    ensures
        r == music_extension(lower@),
{
    text::same_text(lower, "mp3") || text::same_text(lower, "flac")
}

/// Whether a path names an audio file, going by its extension.
pub open spec fn audio_path(path: Seq<char>) -> bool {
    match extension_of(path) {
        Some(extension) => audio_extension(text::lowercase(extension)),
        None => false,
    }
}

/// Whether a path names a file that can be streamed, going by its extension.
pub open spec fn music_path(path: Seq<char>) -> bool {
    match extension_of(path) {
        Some(extension) => music_extension(text::lowercase(extension)),
        None => false,
    }
}

/// Whether a path names an audio file, going by its extension in any case.
pub fn is_audio_file(path: &str) -> (r: bool)
    ensures
        r == audio_path(path@),
{
    match path_extension(path) {
        Some(extension) => is_audio_extension(text::to_lower(extension.as_str()).as_str()),
        None => false,
    }
}

/// Whether a path names an MP3 or FLAC file, going by its extension in any case.
pub fn is_music_file(path: &str) -> (r: bool)
    ensures
        r == music_path(path@),
{
    match path_extension(path) {
        Some(extension) => is_music_extension(text::to_lower(extension.as_str()).as_str()),
        None => false,
    }
}

proof fn lemma_trimmed_is_part(s: Seq<char>, i: int)
    requires
        0 <= i < text::trimmed(s).len(),
    ensures
        s.contains(text::trimmed(s)[i]),
{
    let start = text::trimmed_start(s);
    lemma_trimmed_end_part(start, i);
    lemma_trimmed_start_part(s, i);
}

proof fn lemma_trimmed_end_part(s: Seq<char>, i: int)
    requires
        0 <= i < text::trimmed_end(s).len(),
    ensures
        i < s.len(),
        text::trimmed_end(s)[i] == s[i],
    decreases s.len(),
{
    if s.len() > 0 && text::is_white(s.last()) {
        lemma_trimmed_end_part(s.drop_last(), i);
    }
}

proof fn lemma_trimmed_start_part(s: Seq<char>, i: int)
    requires
        0 <= i < text::trimmed_start(s).len(),
    ensures
        s.contains(text::trimmed_start(s)[i]),
    decreases s.len(),
{
    if s.len() > 0 && text::is_white(s[0]) {
        lemma_trimmed_start_part(s.skip(1), i);
        let c = text::trimmed_start(s)[i];
        let k = choose|k: int| 0 <= k < s.skip(1).len() && s.skip(1)[k] == c;
        assert(s[k + 1] == c);
    } else {
        assert(s[i] == text::trimmed_start(s)[i]);
    }
}

/// A sanitized name holds no forbidden character.
pub proof fn sanitized_names_are_safe(name: Seq<char>, i: int)
    requires
        0 <= i < sanitized(name).len(),
    ensures
        !is_forbidden(sanitized(name)[i]),
{
    let mapped = name.map_values(|c: char| safe_char(c));
    lemma_trimmed_is_part(mapped, i);
}

/// Sanitizing a sanitized name changes nothing.
pub proof fn sanitizing_is_idempotent(name: Seq<char>)
    ensures
        sanitized(sanitized(name)) == sanitized(name),
{
    let once = sanitized(name);
    assert forall|i: int| 0 <= i < once.len() implies !is_forbidden(#[trigger] once[i]) by {
        sanitized_names_are_safe(name, i);
    }
    assert(once.map_values(|c: char| safe_char(c)) =~= once);
    text::trimming_is_idempotent(name.map_values(|c: char| safe_char(c)));
}

/// Every file that can be streamed is an audio file.
pub proof fn music_is_audio(path: Seq<char>)
    requires
        music_path(path),
    ensures
        audio_path(path),
{
}

/// The parts of a path with one more piece between slashes: pieces that are
/// empty or a single dot are no parts.
pub open spec fn with_part(parts: Seq<Seq<char>>, piece: Seq<char>) -> Seq<Seq<char>> {
    if piece.len() == 0 || (piece.len() == 1 && piece[0] == '.') {
        parts
    } else {
        parts.push(piece)
    }
}

/// The parts of a path that end with a slash, and the piece behind the last
/// slash.
pub open spec fn split_path(path: Seq<char>) -> (Seq<Seq<char>>, Seq<char>)
    decreases path.len(),
{
    if path.len() == 0 {
        (seq![], seq![])
    } else {
        let (parts, piece) = split_path(path.drop_last());
        if path.last() == '/' {
            (with_part(parts, piece), seq![])
        } else {
            (parts, piece.push(path.last()))
        }
    }
}

/// The parts of a path.
pub open spec fn path_parts(path: Seq<char>) -> Seq<Seq<char>> {
    with_part(split_path(path).0, split_path(path).1)
}

/// Whether a path starts at the root.
pub open spec fn is_rooted(path: Seq<char>) -> bool {
    path.len() > 0 && path[0] == '/'
}

/// Whether a path starts with a single dot.
pub open spec fn starts_with_dot(path: Seq<char>) -> bool {
    path.len() > 0 && path[0] == '.' && (path.len() == 1 || path[1] == '/')
}

/// Whether two texts are the same path: they start alike and have the same
/// parts.
pub open spec fn same_path(a: Seq<char>, b: Seq<char>) -> bool {
    &&& is_rooted(a) == is_rooted(b)
    &&& starts_with_dot(a) == starts_with_dot(b)
    &&& path_parts(a) == path_parts(b)
}

fn add_part(parts: &mut Vec<String>, chars: &Vec<char>, from: usize, to: usize)
    requires
        from <= to <= chars@.len(),
    ensures
        text::texts(final(parts)@) == with_part(
            text::texts(old(parts)@),
            chars@.subrange(from as int, to as int),
        ),
{
    let piece = text::text_between(chars, from, to);
    if to == from || (to == from + 1 && chars[from] == '.') {
        return ;
    }
    proof {
        assert(text::texts(parts@.push(piece)) =~= text::texts(parts@).push(piece@));
    }
    parts.push(piece);
}

fn parts_of(path: &str) -> (r: Vec<String>)
    ensures
        text::texts(r@) == path_parts(path@),
{
    let chars = text::chars_of(path);
    let mut parts: Vec<String> = Vec::new();
    let mut from: usize = 0;
    let mut i: usize = 0;
    proof {
        assert(text::texts(parts@) =~= seq![]);
        assert(chars@.take(0) =~= seq![]);
        assert(chars@.subrange(0, 0) =~= seq![]);
    }
    while i < chars.len()
        invariant
            from <= i <= chars@.len(),
            split_path(chars@.take(i as int)) == (
                text::texts(parts@),
                chars@.subrange(from as int, i as int),
            ),
        decreases chars@.len() - i,
    {
        proof {
            let next = chars@.take(i + 1);
            assert(next.drop_last() =~= chars@.take(i as int));
            assert(next.last() == chars@[i as int]);
            assert(chars@.subrange(from as int, i as int).push(chars@[i as int])
                =~= chars@.subrange(from as int, i + 1));
            assert(chars@.subrange(i + 1, i + 1) =~= seq![]);
        }
        if chars[i] == '/' {
            add_part(&mut parts, &chars, from, i);
            from = i + 1;
        }
        i = i + 1;
    }
    proof {
        assert(chars@.take(i as int) =~= path@);
    }
    add_part(&mut parts, &chars, from, i);
    parts
}

fn starts_alike(a: &Vec<char>, b: &Vec<char>) -> (r: bool)
    ensures
        r == (is_rooted(a@) == is_rooted(b@) && starts_with_dot(a@) == starts_with_dot(b@)),
{
    let root_a: bool = a.len() > 0 && a[0] == '/';
    let root_b: bool = b.len() > 0 && b[0] == '/';
    let dot_a: bool = a.len() > 0 && a[0] == '.' && (a.len() == 1 || a[1] == '/');
    let dot_b: bool = b.len() > 0 && b[0] == '.' && (b.len() == 1 || b[1] == '/');
    root_a == root_b && dot_a == dot_b
}

/// Tells whether two texts are the same path.
pub fn is_same_path(a: &str, b: &str) -> (r: bool)
    ensures
        r == same_path(a@, b@),
{
    if !starts_alike(&text::chars_of(a), &text::chars_of(b)) {
        return false;
    }
    text::same_texts(&parts_of(a), &parts_of(b))
}

/// A name keeps all of its characters but those that may not stand in a file
/// name, each of which becomes an underscore.
pub proof fn names_keep_all_but_forbidden_characters(name: Seq<char>, i: int)
    requires
        0 <= i < name.len(),
        !text::is_white(name[0]),
        !text::is_white(name.last()),
    ensures
        sanitized(name).len() == name.len(),
        sanitized(name)[i] == (if name[i] == '/' || name[i] == '\\' || name[i] == ':' || name[i]
            == '*' || name[i] == '?' || name[i] == '"' || name[i] == '<' || name[i] == '>' || name[i]
            == '|' {
            '_'
        } else {
            name[i]
        }),
{
    let mapped = name.map_values(|c: char| safe_char(c));
    let none = Seq::<char>::empty();
    assert(none + mapped + none =~= mapped);
    text::trimming_leaves_the_middle(none, mapped, none);
}

/// A track is an artist's where the IDs are the same, or else the names, without
/// regard to case and to white space around them. Nothing else makes it theirs.
pub proof fn tracks_belong_by_id_or_name(
    track: GwTrack,
    artist_id: Seq<char>,
    artist_name: Seq<char>,
)
    ensures
        track.art_id is Some && track.art_id->0.model() == json::JsonModel::Text(artist_id)
            ==> belongs_to(track, artist_id, artist_name),
        track.art_name is Some && track.art_name->0@ == artist_name ==> belongs_to(
            track,
            artist_id,
            artist_name,
        ),
        belongs_to(track, artist_id, artist_name) ==> (track.art_id is Some && json::written(
            track.art_id->0.model(),
        ) == Some(artist_id)) || text::lowercase(text::trimmed(track.artist_view()))
            == text::lowercase(text::trimmed(artist_name)),
{
}

/// The file name of a path is what stands behind its last slash, and a slash
/// behind it does not count.
pub proof fn file_names_stand_behind_the_last_slash(folder: Seq<char>, name: Seq<char>)
    requires
        name.len() > 0,
        !name.contains('/'),
        name != seq!['.'],
        name != seq!['.', '.'],
    ensures
        file_name(folder.push('/') + name) == Some(name),
        file_name((folder.push('/') + name).push('/')) == Some(name),
        file_name(name) == Some(name),
{
    let path = folder.push('/') + name;
    let at = folder.len() as int;
    assert forall|k: int| 0 <= k < name.len() implies name[k] != '/' by {
        if name[k] == '/' {
            assert(name.contains(name[k]));
        }
    }
    assert forall|k: int| at < k < path.len() implies path[k] != '/' by {
        assert(path[k] == name[k - at - 1]);
    }
    crate::cli::lemma_last_segment_at(path, at);
    assert(path.skip(at + 1) =~= name);
    crate::cli::lemma_no_segment(name);
    let closed = path.push('/');
    crate::cli::lemma_last_segment_at(closed, path.len() as int);
    assert(closed.skip(path.len() as int + 1) =~= Seq::<char>::empty());
    assert(closed.take(closed.len() - 1) =~= path);
}

proof fn lemma_last_dot_at(name: Seq<char>, at: int)
    requires
        0 < at < name.len(),
        name[at] == '.',
        forall|k: int| at < k < name.len() ==> name[k] != '.',
    ensures
        last_dot(name) == Some(at),
    decreases name.len(),
{
    if at < name.len() - 1 {
        assert(name.last() == name[name.len() - 1]);
        lemma_last_dot_at(name.drop_last(), at);
    }
}

/// The extension is what stands behind the last dot of the file name, and the
/// stem what stands before it.
pub proof fn extensions_stand_behind_the_last_dot(
    folder: Seq<char>,
    stem: Seq<char>,
    extension: Seq<char>,
)
    requires
        stem.len() > 0,
        !stem.contains('/'),
        !extension.contains('/'),
        !extension.contains('.'),
        extension.len() > 0,
    ensures
        extension_of(folder.push('/') + (stem.push('.') + extension)) == Some(extension),
        stem_of(folder.push('/') + (stem.push('.') + extension)) == Some(stem),
        audio_path(folder.push('/') + (stem.push('.') + extension)) == audio_extension(
            text::lowercase(extension),
        ),
        music_path(folder.push('/') + (stem.push('.') + extension)) == music_extension(
            text::lowercase(extension),
        ),
{
    let name = stem.push('.') + extension;
    let at = stem.len() as int;
    assert forall|k: int| 0 <= k < name.len() implies name[k] != '/' by {
        if k < at {
            assert(stem.contains(stem[k]));
        } else if k > at {
            assert(extension.contains(extension[k - at - 1]));
        }
    }
    assert(!name.contains('/'));
    assert(name.len() >= 3);
    file_names_stand_behind_the_last_slash(folder, name);
    assert forall|k: int| at < k < name.len() implies name[k] != '.' by {
        assert(extension.contains(extension[k - at - 1]));
    }
    lemma_last_dot_at(name, at);
    assert(name.skip(at + 1) =~= extension);
    assert(name.take(at) =~= stem);
}

/// A file that starts with its only dot has no extension, and neither has one
/// without a dot.
pub proof fn names_without_an_inner_dot_have_no_extension(name: Seq<char>)
    requires
        name.len() > 1,
        !name.contains('/'),
        forall|k: int| 0 < k < name.len() ==> name[k] != '.',
    ensures
        extension_of(name) is None,
        stem_of(name) == Some(name),
        !audio_path(name),
{
    assert(name != seq!['.']);
    assert(name != seq!['.', '.']) by {
        assert(name[1] != '.');
    }
    file_names_stand_behind_the_last_slash(Seq::empty(), name);
    lemma_no_inner_dot(name);
}

proof fn lemma_no_inner_dot(name: Seq<char>)
    requires
        forall|k: int| 0 < k < name.len() ==> name[k] != '.',
    ensures
        last_dot(name) is None,
    decreases name.len(),
{
    if name.len() > 1 {
        assert(name.last() == name[name.len() - 1]);
        lemma_no_inner_dot(name.drop_last());
    }
}

/// The seven kinds of audio file, two of which can be streamed.
pub proof fn audio_comes_in_seven_kinds(extension: Seq<char>)
    ensures
        audio_extension(extension) <==> seq![
            "aac"@,
            "flac"@,
            "m4a"@,
            "mp3"@,
            "ogg"@,
            "opus"@,
            "wav"@,
        ].contains(extension),
        music_extension(extension) <==> seq!["flac"@, "mp3"@].contains(extension),
{
    let audio = seq!["aac"@, "flac"@, "m4a"@, "mp3"@, "ogg"@, "opus"@, "wav"@];
    let music = seq!["flac"@, "mp3"@];
    assert(audio[0] == "aac"@ && audio[1] == "flac"@ && audio[2] == "m4a"@ && audio[3] == "mp3"@
        && audio[4] == "ogg"@ && audio[5] == "opus"@ && audio[6] == "wav"@);
    assert(music[0] == "flac"@ && music[1] == "mp3"@);
}

/// Slashes in a row, slashes at the end and single dots make no other path, but
/// a path that starts at the root is never one that does not.
pub proof fn spare_slashes_and_dots_make_no_other_path(path: Seq<char>, other: Seq<char>)
    requires
        path.len() > 0,
    ensures
        path != seq!['.'] ==> same_path(path.push('/'), path),
        path.last() == '/' ==> same_path(path.push('.'), path),
        same_path(path, other) ==> same_path(other, path),
        path[0] == '/' && other.len() > 0 && other[0] != '/' ==> !same_path(path, other),
{
    let slashed = path.push('/');
    assert(slashed.drop_last() =~= path);
    let none = Seq::<char>::empty();
    assert(split_path(slashed) == (path_parts(path), none));
    assert(path_parts(slashed) == path_parts(path));
    assert(slashed[0] == path[0]);
    if path.len() == 1 && path[0] == '.' {
        assert(path =~= seq!['.']);
    }
    if path.last() == '/' {
        let dotted = path.push('.');
        assert(dotted.drop_last() =~= path);
        let front = split_path(path);
        assert(front.1 == none);
        assert(split_path(dotted) == (front.0, none.push('.')));
        assert(none.push('.')[0] == '.');
        assert(dotted[0] == path[0]);
        if path.len() == 1 {
            assert(path[0] == '/');
        }
    }
}

proof fn lemma_split_behind_slash(path: Seq<char>, name: Seq<char>)
    requires
        forall|k: int| 0 <= k < name.len() ==> name[k] != '/',
    ensures
        split_path(path.push('/') + name) == (path_parts(path), name),
    decreases name.len(),
{
    let whole = path.push('/') + name;
    if name.len() == 0 {
        assert(whole =~= path.push('/'));
        assert(whole.drop_last() =~= path);
        assert(name =~= Seq::<char>::empty());
    } else {
        let front = name.drop_last();
        assert forall|k: int| 0 <= k < front.len() implies front[k] != '/' by {
            assert(front[k] == name[k]);
        }
        lemma_split_behind_slash(path, front);
        assert(whole.drop_last() =~= path.push('/') + front);
        assert(whole.last() == name[name.len() - 1]);
        assert(front.push(name.last()) =~= name);
    }
}

/// A path has one part more than its folder, which is the name of the file, so
/// files of different names in one folder are never the same path.
pub proof fn names_in_a_folder_make_different_paths(
    folder: Seq<char>,
    name: Seq<char>,
    other: Seq<char>,
)
    requires
        name.len() > 0 && !name.contains('/') && name != seq!['.'],
        other.len() > 0 && !other.contains('/') && other != seq!['.'],
    ensures
        path_parts(folder.push('/') + name) == path_parts(folder).push(name),
        same_path(folder.push('/') + name, folder.push('/') + other) ==> name == other,
{
    assert forall|k: int| 0 <= k < name.len() implies name[k] != '/' by {
        if name[k] == '/' {
            assert(name.contains(name[k]));
        }
    }
    assert forall|k: int| 0 <= k < other.len() implies other[k] != '/' by {
        if other[k] == '/' {
            assert(other.contains(other[k]));
        }
    }
    lemma_split_behind_slash(folder, name);
    lemma_split_behind_slash(folder, other);
    if name.len() == 1 {
        assert(name =~= seq![name[0]]);
    }
    if other.len() == 1 {
        assert(other =~= seq![other[0]]);
    }
    assert(path_parts(folder).push(name).last() == name);
    assert(path_parts(folder).push(other).last() == other);
}

} // verus!
