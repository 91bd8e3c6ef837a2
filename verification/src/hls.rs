//! Live HLS output: segments, the sliding playlist and its pace.

use std::collections::VecDeque;

use vstd::prelude::*;

use crate::files;
use crate::icecast::PipelineConfig;
use crate::order;
use crate::order::SortRecord;
use crate::real32;
use crate::real32::Real32;
use crate::text;

verus! {

/// Bytes of one transport-stream packet.
pub const TS_PACKET_LEN: usize = 188;

/// First byte of every transport-stream packet.
pub const TS_SYNC: u8 = 0x47;

/// Stereo frames fed to the encoder at once.
pub const FEED_FRAMES: u64 = 4096;

/// Stereo frames of silence that fill in for a missing track.
pub const FILLER_SILENCE_FRAMES: usize = 88200;

/// Jingles that do not play again at once.
pub const JINGLE_RECENT_WINDOW: usize = 3;

/// Nanoseconds behind schedule from which on the schedule starts over.
pub const MAX_PACING_DEBT: u128 = 5_000_000_000;

/// Settings of the HLS output.
#[derive(Debug, PartialEq)]
pub struct HlsConfig {
    /// Folder of the playlist and the segments.
    pub hls_dir: String,
    /// Seconds of a segment.
    pub segment_secs: Real32,
    /// Segments in the playlist.
    pub window: usize,
    /// Folder of the jingles.
    pub jingle_dir: Option<String>,
    /// The encoder.
    pub ffmpeg: String,
}

/// Checks the settings of the HLS output.
pub fn check_hls_options(segment_secs: Real32, window: usize) -> (r: Result<(), String>)
    ensures
        match r {
            Ok(_) => segment_secs.within(0x4000_0000, 0x41f0_0000) && 3 <= window <= 50,
            Err(message) => if !segment_secs.within(0x4000_0000, 0x41f0_0000) {
                message@ == "--segment-secs must be between 2 and 30 seconds"@
            } else {
                !(3 <= window <= 50) && message@
                    == "--hls-window must be between 3 and 50 segments"@
            },
        },
{
    if !segment_secs.is_within(real32::TWO, real32::THIRTY) {
        return Err("--segment-secs must be between 2 and 30 seconds".to_owned());
    }
    if window < 3 || window > 50 {
        return Err("--hls-window must be between 3 and 50 segments".to_owned());
    }
    Ok(())
}

/// Judges what the encoder said of its version, its answer being in lower case.
pub fn judge_ffmpeg(ffmpeg: &str, success: bool, status: &str, lower_answer: &str) -> (r: Result<
    (),
    String,
>)
    ensures
        match r {
            Ok(_) => success && text::holds(lower_answer@, "ffmpeg"@),
            Err(message) => if !success {
                message@ == "ffmpeg check failed ("@ + ffmpeg@ + " -version exited "@ + status@
                    + "); check --ffmpeg"@
            } else {
                !text::holds(lower_answer@, "ffmpeg"@) && message@ == ffmpeg@
                    + " -version did not look like ffmpeg; check --ffmpeg"@
            },
        },
{
    if !success {
        let mut s = "ffmpeg check failed (".to_owned();
        s.append(ffmpeg);
        s.append(" -version exited ");
        s.append(status);
        s.append("); check --ffmpeg");
        return Err(s);
    }
    if !text::contains(lower_answer, "ffmpeg") {
        let mut s = ffmpeg.to_owned();
        s.append(" -version did not look like ffmpeg; check --ffmpeg");
        return Err(s);
    }
    Ok(())
}

/// Judges what the encoder said of its version.
pub fn check_ffmpeg(ffmpeg: &str, success: bool, status: &str, answer: &str) -> (r: Result<
    (),
    String,
>)
    ensures
        r is Ok <==> success && text::holds(text::lowercase(answer@), "ffmpeg"@),
        r matches Err(message) ==> message@ == (if !success {
            "ffmpeg check failed ("@ + ffmpeg@ + " -version exited "@ + status@
                + "); check --ffmpeg"@
        } else {
            ffmpeg@ + " -version did not look like ffmpeg; check --ffmpeg"@
        }),
{
    let lower = text::to_lower(answer);
    judge_ffmpeg(ffmpeg, success, status, lower.as_str())
}

/// The arguments of the encoder.
pub open spec fn encoder_args(bitrate_kbps: nat) -> Seq<Seq<char>> {
    seq![
        "-hide_banner"@,
        "-loglevel"@,
        "warning"@,
        "-f"@,
        "s16le"@,
        "-ar"@,
        "44100"@,
        "-ac"@,
        "2"@,
        "-i"@,
        "pipe:0"@,
        "-c:a"@,
        "aac"@,
        "-b:a"@,
        text::decimal(bitrate_kbps) + "k"@,
        "-ar"@,
        "44100"@,
        "-ac"@,
        "2"@,
        "-f"@,
        "mpegts"@,
        "pipe:1"@,
    ]
}

fn push_text(list: &mut Vec<String>, s: &str)
    ensures
        text::texts(final(list)@) == text::texts(old(list)@).push(s@),
{
    list.push(s.to_owned());
    proof {
        assert(text::texts(list@) =~= text::texts(old(list)@).push(s@));
    }
}

/// The arguments of the encoder: 16-bit stereo in, AAC in MPEG-TS out.
pub fn ffmpeg_args(bitrate_kbps: u32) -> (r: Vec<String>)
    ensures
        text::texts(r@) == encoder_args(bitrate_kbps as nat),
{
    let mut rate = text::decimal_text(bitrate_kbps as u64);
    rate.append("k");
    let mut args: Vec<String> = Vec::new();
    proof {
        assert(text::texts(args@) =~= Seq::empty());
    }
    push_text(&mut args, "-hide_banner");
    push_text(&mut args, "-loglevel");
    push_text(&mut args, "warning");
    push_text(&mut args, "-f");
    push_text(&mut args, "s16le");
    push_text(&mut args, "-ar");
    push_text(&mut args, "44100");
    push_text(&mut args, "-ac");
    push_text(&mut args, "2");
    push_text(&mut args, "-i");
    push_text(&mut args, "pipe:0");
    push_text(&mut args, "-c:a");
    push_text(&mut args, "aac");
    push_text(&mut args, "-b:a");
    push_text(&mut args, rate.as_str());
    push_text(&mut args, "-ar");
    push_text(&mut args, "44100");
    push_text(&mut args, "-ac");
    push_text(&mut args, "2");
    push_text(&mut args, "-f");
    push_text(&mut args, "mpegts");
    push_text(&mut args, "pipe:1");
    proof {
        assert(text::texts(args@) =~= encoder_args(bitrate_kbps as nat));
    }
    args
}

/// Where the first sync byte stands, or the end.
pub open spec fn sync_at(buf: Seq<u8>) -> nat
    decreases buf.len(),
{
    if buf.len() == 0 || buf[0] == 0x47 {
        0
    } else {
        1 + sync_at(buf.skip(1))
    }
}

/// How many bytes of whole packets stand behind the first sync byte.
pub open spec fn packets_len(buf: Seq<u8>) -> nat {
    ((buf.len() - sync_at(buf)) / 188 * 188) as nat
}

/// Takes the whole packets out of a buffer. What stands before the first sync
/// byte is dropped, and a packet that is not whole yet stays.
pub fn take_complete_ts_packets(buf: &mut Vec<u8>) -> (r: Vec<u8>)
    ensures
        ({
            let from = sync_at(old(buf)@) as int;
            let to = from + packets_len(old(buf)@);
            &&& r@ == old(buf)@.subrange(from, to)
            &&& final(buf)@ == old(buf)@.skip(to)
        }),
{
    let ghost all = buf@;
    let mut start: usize = 0;
    proof {
        assert(all.skip(0) =~= all);
        lemma_sync_bound(all);
    }
    while start < buf.len() && buf[start] != TS_SYNC
        invariant
            buf@ == all,
            start <= all.len(),
            sync_at(all) == start + sync_at(all.skip(start as int)),
        decreases all.len() - start,
    {
        proof {
            assert(all.skip(start as int).skip(1) =~= all.skip(start as int + 1));
        }
        start = start + 1;
    }
    assert(sync_at(all) == start);
    let end: usize = start + (buf.len() - start) / TS_PACKET_LEN * TS_PACKET_LEN;
    let mut rest = buf.split_off(end);
    let packets = buf.split_off(start);
    buf.clear();
    buf.append(&mut rest);
    proof {
        assert(packets@ =~= all.subrange(start as int, end as int));
        assert(buf@ =~= all.skip(end as int));
    }
    packets
}

proof fn lemma_sync_bound(buf: Seq<u8>)
    ensures
        sync_at(buf) <= buf.len(),
        sync_at(buf) < buf.len() ==> buf[sync_at(buf) as int] == 0x47,
        forall|i: int| 0 <= i < sync_at(buf) ==> buf[i] != 0x47,
    decreases buf.len(),
{
    if buf.len() > 0 && buf[0] != 0x47 {
        lemma_sync_bound(buf.skip(1));
        let rest = buf.skip(1);
        assert forall|i: int| 0 <= i < sync_at(buf) implies buf[i] != 0x47 by {
            if i > 0 {
                assert(rest[i - 1] != 0x47);
            }
        }
    }
}

/// What is taken is whole packets from a sync byte on, what stays is less than a
/// packet, and nothing but bytes before the first sync byte is lost.
pub proof fn packets_are_cut_whole(buf: Seq<u8>)
    ensures
        ({
            let from = sync_at(buf) as int;
            let to = from + packets_len(buf);
            &&& 0 <= from <= to <= buf.len()
            &&& (to - from) % 188 == 0
            &&& buf.len() - to < 188
            &&& to > from ==> buf[from] == 0x47
            &&& forall|i: int| 0 <= i < from ==> buf[i] != 0x47
            &&& buf == buf.take(from) + buf.subrange(from, to) + buf.skip(to)
        }),
{
    lemma_sync_bound(buf);
    let from = sync_at(buf) as int;
    let to = from + packets_len(buf);
    assert(buf =~= buf.take(from) + buf.subrange(from, to) + buf.skip(to));
}

/// One segment of the playlist.
#[derive(Debug, PartialEq)]
pub struct SegmentEntry {
    pub seq: u64,
    pub filename: String,
    /// Length in thousandths of a second.
    pub millis: u64,
    pub title: String,
}

/// The live playlist: the last segments.
pub struct Playlist {
    entries: VecDeque<SegmentEntry>,
    seq_next: u64,
    window: usize,
    target_duration: u32,
}

/// What a playlist says: the length and the title of each segment, the number
/// of the next one, how many it lists at most, and the longest length.
pub struct PlaylistModel {
    pub segments: Seq<(nat, Seq<char>)>,
    pub next: nat,
    pub window: nat,
    pub target: nat,
}

impl PlaylistModel {
    /// Segments are numbered up to the next one, and no more are listed than
    /// there is room for.
    pub open spec fn wf(self) -> bool {
        self.segments.len() <= self.next && self.segments.len() <= self.window
    }
}

/// The name of a segment's file.
pub open spec fn segment_file(seq: nat) -> Seq<char> {
    "seg_"@ + text::padded(seq, 5) + ".ts"@
}

/// The last items of a list, at most `window`.
pub open spec fn last_of<T>(items: Seq<T>, window: nat) -> Seq<T> {
    if items.len() > window {
        items.skip(items.len() - window)
    } else {
        items
    }
}

/// The number of the first segment that a playlist lists, or of the next one.
pub open spec fn first_listed(m: PlaylistModel) -> nat {
    (m.next - m.segments.len()) as nat
}

/// A playlist with one more segment.
pub open spec fn pushed(m: PlaylistModel, millis: nat, title: Seq<char>) -> PlaylistModel {
    PlaylistModel {
        segments: last_of(m.segments.push((millis, title)), m.window),
        next: m.next + 1,
        ..m
    }
}

/// The first number whose file is looked for behind the segment `seq`.
pub open spec fn stale_from(seq: nat, window: nat) -> nat {
    if seq > window + 4 {
        (seq - (window + 4)) as nat
    } else {
        0
    }
}

/// The lines of one segment.
pub open spec fn segment_lines(seq: nat, millis: nat, title: Seq<char>) -> Seq<char> {
    "#EXTINF:"@ + text::decimal(millis / 1000) + "."@ + text::padded(millis % 1000, 3) + ","@ + title
        + "\n"@ + segment_file(seq) + "\n"@
}

/// The lines of segments, the first of them numbered `first`.
pub open spec fn all_lines(segments: Seq<(nat, Seq<char>)>, first: nat) -> Seq<char>
    decreases segments.len(),
{
    if segments.len() == 0 {
        Seq::empty()
    } else {
        all_lines(segments.drop_last(), first) + segment_lines(
            (first + segments.len() - 1) as nat,
            segments.last().0,
            segments.last().1,
        )
    }
}

/// The first lines of a playlist.
pub open spec fn playlist_head(target: nat, first: nat) -> Seq<char> {
    "#EXTM3U\n#EXT-X-VERSION:3\n#EXT-X-TARGETDURATION:"@ + text::decimal(target)
        + "\n#EXT-X-MEDIA-SEQUENCE:"@ + text::decimal(first) + "\n"@
}

/// The text of a playlist.
pub open spec fn playlist_text(m: PlaylistModel) -> Seq<char> {
    playlist_head(m.target, first_listed(m)) + all_lines(m.segments, first_listed(m))
}

fn push_segment_lines(out: &mut String, entry: &SegmentEntry)
    requires
        entry.filename@ == segment_file(entry.seq as nat),
    ensures
        final(out)@ == old(out)@ + segment_lines(
            entry.seq as nat,
            entry.millis as nat,
            entry.title@,
        ),
{
    let ghost before = out@;
    out.append("#EXTINF:");
    out.append(text::decimal_text(entry.millis / 1000).as_str());
    out.append(".");
    out.append(text::padded_text(entry.millis % 1000, 3).as_str());
    out.append(",");
    out.append(entry.title.as_str());
    out.append("\n");
    out.append(entry.filename.as_str());
    out.append("\n");
    proof {
        assert(out@ =~= before + segment_lines(
            entry.seq as nat,
            entry.millis as nat,
            entry.title@,
        ));
    }
}

/// Segments without their representation.
pub open spec fn entries_model(entries: Seq<SegmentEntry>) -> Seq<(nat, Seq<char>)> {
    entries.map_values(|e: SegmentEntry| (e.millis as nat, e.title@))
}

impl Playlist {
    /// Segments are numbered without gaps up to the next one, and their files
    /// are named after their numbers.
    pub closed spec fn wf(self) -> bool {
        &&& self.view().wf()
        &&& forall|i: int|
            0 <= i < self.entries@.len() ==> (#[trigger] self.entries@[i]).seq == self.seq_next
                - self.entries@.len() + i && self.entries@[i].filename@ == segment_file(
                self.entries@[i].seq as nat,
            )
    }

    /// What the playlist says.
    pub closed spec fn view(self) -> PlaylistModel {
        PlaylistModel {
            segments: entries_model(self.entries@),
            next: self.seq_next as nat,
            window: self.window as nat,
            target: self.target_duration as nat,
        }
    }

    /// A playlist without segments.
    pub fn new(segment_secs: Real32, window: usize) -> (r: Playlist)
        requires
            segment_secs.within(0x4000_0000, 0x41f0_0000),
        ensures
            r.wf(),
            r.view().wf(),
            r.view() == (PlaylistModel {
                segments: Seq::empty(),
                next: 0,
                window: window as nat,
                target: segment_secs.rounded_up(),
            }),
    {
        let r = Playlist {
            entries: VecDeque::new(),
            seq_next: 0,
            window,
            target_duration: segment_secs.to_ceiling(),
        };
        proof {
            assert(r.view().segments =~= Seq::empty());
        }
        r
    }

    /// The name of a segment's file.
    pub fn segment_filename(seq: u64) -> (r: String)
        ensures
            r@ == segment_file(seq as nat),
    {
        let mut s = "seg_".to_owned();
        s.append(text::padded_text(seq, 5).as_str());
        s.append(".ts");
        s
    }

    /// Adds a segment, drops those that the playlist has no room for, and tells
    /// the number and the file of the new one.
    pub fn push(&mut self, millis: u64, title: String) -> (r: (u64, String))
        requires
            old(self).wf(),
            old(self).view().next < u64::MAX,
        ensures
            final(self).wf(),
            final(self).view().wf(),
            r.0 == old(self).view().next,
            r.1@ == segment_file(old(self).view().next),
            final(self).view() == pushed(old(self).view(), millis as nat, title@),
    {
        let ghost before = self.view();
        let ghost held = self.entries@;
        let seq: u64 = self.seq_next;
        let filename = Self::segment_filename(seq);
        self.entries.push_back(
            SegmentEntry { seq, filename: filename.clone(), millis, title },
        );
        self.seq_next = seq + 1;
        let ghost full = self.entries@;
        proof {
            assert(entries_model(full) =~= before.segments.push((millis as nat, title@)));
            assert(full.skip(0) =~= full);
            assert forall|i: int| 0 <= i < full.len() implies (#[trigger] full[i]).seq == seq + 1
                - full.len() + i && full[i].filename@ == segment_file(full[i].seq as nat) by {
                if i < held.len() {
                    assert(full[i] == held[i]);
                }
            }
        }
        let ghost mut dropped: int = 0;
        while self.entries.len() > self.window
            invariant
                0 <= dropped <= full.len(),
                self.entries@ == full.skip(dropped),
                dropped == 0 || self.entries@.len() >= self.window,
                self.seq_next == seq + 1,
                self.window == before.window,
                self.target_duration == before.target,
                full.len() <= seq + 1,
            decreases self.entries@.len(),
        {
            let gone = self.entries.pop_front();
            proof {
                dropped = dropped + 1;
                assert(self.entries@ =~= full.skip(dropped));
            }
        }
        proof {
            assert(self.entries@ =~= last_of(full, self.window as nat));
            assert(entries_model(self.entries@) =~= last_of(
                entries_model(full),
                self.window as nat,
            ));
            assert forall|i: int| 0 <= i < self.entries@.len() implies (#[trigger] self.entries@[
            i]).seq == self.seq_next - self.entries@.len() + i && self.entries@[i].filename@
                == segment_file(self.entries@[i].seq as nat) by {
                assert(self.entries@[i] == full[dropped + i]);
            }
        }
        (seq, filename)
    }

    /// How many segments are listed.
    pub fn len(&self) -> (r: usize)
        ensures
            r == self.view().segments.len(),
    {
        self.entries.len()
    }

    /// The number of the first segment that is listed.
    pub fn media_sequence(&self) -> (r: u64)
        requires
            self.wf(),
        ensures
            r == first_listed(self.view()),
    {
        if self.entries.len() == 0 {
            self.seq_next
        } else {
            self.entries[0].seq
        }
    }

    /// The text of the playlist.
    pub fn content(&self) -> (r: String)
        requires
            self.wf(),
        ensures
            r@ == playlist_text(self.view()),
    {
        let ghost m = self.view();
        let first: u64 = self.media_sequence();
        let mut out = "#EXTM3U\n#EXT-X-VERSION:3\n#EXT-X-TARGETDURATION:".to_owned();
        out.append(text::decimal_text(self.target_duration as u64).as_str());
        out.append("\n#EXT-X-MEDIA-SEQUENCE:");
        out.append(text::decimal_text(first).as_str());
        out.append("\n");
        let ghost head = out@;
        let mut i: usize = 0;
        proof {
            assert(m.segments.take(0) =~= Seq::empty());
            assert(out@ =~= head + all_lines(m.segments.take(0), first as nat));
        }
        while i < self.entries.len()
            invariant
                self.wf(),
                m == self.view(),
                first == first_listed(m),
                i <= self.entries@.len(),
                out@ == head + all_lines(m.segments.take(i as int), first as nat),
            decreases self.entries@.len() - i,
        {
            let entry = &self.entries[i];
            let ghost so_far = out@;
            push_segment_lines(&mut out, entry);
            proof {
                assert(m.segments.take(i as int + 1).drop_last() =~= m.segments.take(i as int));
                assert(m.segments.take(i as int + 1).last() == (entry.millis as nat, entry.title@));
                assert(entry.seq == first + i);
                assert(out@ =~= head + all_lines(m.segments.take(i as int + 1), first as nat));
            }
            i = i + 1;
        }
        proof {
            assert(m.segments.take(i as int) =~= m.segments);
        }
        out
    }

    /// The numbers of segments whose files may be left over behind a new one:
    /// from the first of the pair up to, but without, the second.
    pub fn stale_range(&self, seq: u64) -> (r: (u64, u64))
        requires
            self.wf(),
        ensures
            r.0 == stale_from(seq as nat, self.view().window),
            r.1 == first_listed(self.view()),
    {
        let reach: u128 = self.window as u128 + 4;
        let from: u64 = if seq as u128 > reach {
            (seq as u128 - reach) as u64
        } else {
            0
        };
        (from, self.media_sequence())
    }
}

/// The playlist always lists the last segments, numbered without gaps; numbers
/// only go up, and a window's worth of segments stays listed.
pub proof fn playlists_slide(m: PlaylistModel, millis: nat, title: Seq<char>)
    requires
        m.wf(),
        m.window > 0,
    ensures
        ({
            let after = pushed(m, millis, title);
            &&& after.wf()
            &&& after.segments.len() == (if m.segments.len() < m.window {
                m.segments.len() + 1
            } else {
                m.window
            })
            &&& after.segments.last() == (millis, title)
            &&& first_listed(m) <= first_listed(after) <= first_listed(m) + 1
            &&& first_listed(after) + after.segments.len() == after.next
        }),
{
}

/// A playlist after segments of these lengths and titles.
pub open spec fn after_pushes(m: PlaylistModel, pushes: Seq<(nat, Seq<char>)>) -> PlaylistModel
    decreases pushes.len(),
{
    if pushes.len() == 0 {
        m
    } else {
        pushed(after_pushes(m, pushes.drop_last()), pushes.last().0, pushes.last().1)
    }
}

/// However many segments were pushed onto an empty playlist, they were numbered
/// from 0 in turn, which also names their files, and the playlist lists the
/// last of them, as many as it has room for, oldest first, from the number of
/// the first of these on.
pub proof fn playlists_list_the_last_segments(
    empty: PlaylistModel,
    pushes: Seq<(nat, Seq<char>)>,
)
    requires
        empty.segments.len() == 0,
        empty.next == 0,
    ensures
        forall|k: int|
            0 <= k <= pushes.len() ==> (#[trigger] after_pushes(empty, pushes.take(k))).next == k,
        ({
            let after = after_pushes(empty, pushes);
            let first = if pushes.len() < empty.window {
                0
            } else {
                (pushes.len() - empty.window) as nat
            };
            &&& after.wf()
            &&& after.next == pushes.len()
            &&& after.window == empty.window
            &&& after.target == empty.target
            &&& after.segments == last_of(pushes, empty.window)
            &&& first_listed(after) == first
            &&& playlist_text(after) == playlist_head(empty.target, first) + all_lines(
                last_of(pushes, empty.window),
                first,
            )
        }),
    decreases pushes.len(),
{
    if pushes.len() == 0 {
        assert(last_of(pushes, empty.window) =~= empty.segments);
        assert(pushes.take(0) =~= pushes);
    } else {
        let before = pushes.drop_last();
        playlists_list_the_last_segments(empty, before);
        let listed = after_pushes(empty, before).segments;
        assert(pushes =~= before.push(pushes.last()));
        let last = (pushes.last().0, pushes.last().1);
        assert(last == pushes.last());
        assert(last_of(listed.push(last), empty.window) =~= last_of(pushes, empty.window));
        assert forall|k: int| 0 <= k <= pushes.len() implies (#[trigger] after_pushes(
            empty,
            pushes.take(k),
        )).next == k by {
            if k < pushes.len() {
                assert(pushes.take(k) =~= before.take(k));
            } else {
                assert(pushes.take(k) =~= pushes);
                assert(before.take(before.len() as int) =~= before);
            }
        }
    }
}

/// Whether a text is without a character.
spec fn lacks(s: Seq<char>, c: char) -> bool {
    forall|i: int| 0 <= i < s.len() ==> s[i] != c
}

proof fn lemma_numbers_lack_letters(n: nat, width: nat)
    ensures
        lacks(text::decimal(n), 'L'),
        lacks(text::padded(n, width), 'L'),
{
    text::lemma_decimal_digits(n);
    assert forall|i: int| 0 <= i < text::decimal(n).len() implies text::decimal(n)[i] != 'L' by {
        assert(text::is_digit(text::decimal(n)[i]));
    }
}

/// What lacks one of its characters does not hold a text.
proof fn lemma_lacking_does_not_hold(s: Seq<char>, needle: Seq<char>, at: int)
    requires
        0 <= at < needle.len(),
        lacks(s, needle[at]),
    ensures
        !text::holds(s, needle),
{
    if text::holds(s, needle) {
        let p = choose|p: int| text::stands_at(s, needle, p);
        assert(s.subrange(p, p + needle.len())[at] == needle[at]);
        assert(s[p + at] == needle[at]);
    }
}

/// A text stands on one side of a character that it lacks.
proof fn lemma_stands_on_one_side(a: Seq<char>, b: Seq<char>, needle: Seq<char>)
    requires
        needle.len() > 0,
        (a.len() > 0 && lacks(needle, a.last())) || (b.len() > 0 && lacks(needle, b[0])),
        !text::holds(a, needle),
        !text::holds(b, needle),
    ensures
        !text::holds(a + b, needle),
{
    let s = a + b;
    if text::holds(s, needle) {
        let p = choose|p: int| text::stands_at(s, needle, p);
        let q = p + needle.len();
        let cut = s.subrange(p, q);
        if q <= a.len() {
            assert(a.subrange(p, q) =~= cut);
            assert(text::stands_at(a, needle, p));
        } else if p >= a.len() {
            assert(b.subrange(p - a.len(), q - a.len()) =~= cut);
            assert(text::stands_at(b, needle, p - a.len()));
        } else {
            assert(cut[a.len() - 1 - p] == a.last());
            assert(cut[a.len() - p] == b[0]);
        }
    }
}

proof fn lemma_segment_does_not_end(seq: nat, millis: nat, title: Seq<char>)
    requires
        !text::holds(title, "EXT-X-ENDLIST"@),
    ensures
        !text::holds(segment_lines(seq, millis, title), "EXT-X-ENDLIST"@),
        segment_lines(seq, millis, title).len() > 0,
        segment_lines(seq, millis, title).last() == '\n',
{
    let end = "EXT-X-ENDLIST"@;
    reveal_strlit("EXT-X-ENDLIST");
    reveal_strlit("#EXTINF:");
    reveal_strlit(".");
    reveal_strlit(",");
    reveal_strlit("\n");
    reveal_strlit("seg_");
    reveal_strlit(".ts");
    assert(end[9] == 'L');
    lemma_numbers_lack_letters(millis / 1000, 0);
    lemma_numbers_lack_letters(millis % 1000, 3);
    lemma_numbers_lack_letters(seq, 5);
    let before = "#EXTINF:"@ + text::decimal(millis / 1000) + "."@ + text::padded(millis % 1000, 3)
        + ","@;
    let behind = "\n"@ + segment_file(seq) + "\n"@;
    assert(lacks(before, 'L'));
    assert(lacks(behind, 'L'));
    lemma_lacking_does_not_hold(before, end, 9);
    lemma_lacking_does_not_hold(behind, end, 9);
    assert(before.last() == ',');
    assert(behind[0] == '\n');
    lemma_stands_on_one_side(before, title, end);
    lemma_stands_on_one_side(before + title, behind, end);
    assert(segment_lines(seq, millis, title) =~= before + title + behind);
}

proof fn lemma_segments_do_not_end(segments: Seq<(nat, Seq<char>)>, first: nat)
    requires
        forall|i: int|
            0 <= i < segments.len() ==> !text::holds(
                (#[trigger] segments[i]).1,
                "EXT-X-ENDLIST"@,
            ),
    ensures
        !text::holds(all_lines(segments, first), "EXT-X-ENDLIST"@),
        segments.len() > 0 ==> all_lines(segments, first).len() > 0,
        segments.len() > 0 ==> all_lines(segments, first).last() == '\n',
    decreases segments.len(),
{
    let end = "EXT-X-ENDLIST"@;
    reveal_strlit("EXT-X-ENDLIST");
    assert(end[9] == 'L');
    if segments.len() == 0 {
        lemma_lacking_does_not_hold(all_lines(segments, first), end, 9);
    } else {
        let before = all_lines(segments.drop_last(), first);
        let number = (first + segments.len() - 1) as nat;
        let last = segment_lines(number, segments.last().0, segments.last().1);
        assert(segments.last() == segments[segments.len() - 1]);
        assert forall|i: int| 0 <= i < segments.drop_last().len() implies !text::holds(
            (#[trigger] segments.drop_last()[i]).1,
            end,
        ) by {
            assert(segments.drop_last()[i] == segments[i]);
        }
        lemma_segments_do_not_end(segments.drop_last(), first);
        lemma_segment_does_not_end(number, segments.last().0, segments.last().1);
        if segments.len() == 1 {
            assert(before + last =~= last);
        } else {
            lemma_stands_on_one_side(before, last, end);
        }
    }
}

/// A playlist never says that it ends, whatever it lists, unless a title does.
pub proof fn playlists_never_end(m: PlaylistModel)
    requires
        forall|i: int|
            0 <= i < m.segments.len() ==> !text::holds(
                (#[trigger] m.segments[i]).1,
                "EXT-X-ENDLIST"@,
            ),
    ensures
        !text::holds(playlist_text(m), "EXT-X-ENDLIST"@),
{
    let end = "EXT-X-ENDLIST"@;
    let first = first_listed(m);
    reveal_strlit("EXT-X-ENDLIST");
    reveal_strlit("#EXTM3U\n#EXT-X-VERSION:3\n#EXT-X-TARGETDURATION:");
    reveal_strlit("\n#EXT-X-MEDIA-SEQUENCE:");
    reveal_strlit("\n");
    assert(end[9] == 'L');
    lemma_numbers_lack_letters(m.target, 0);
    lemma_numbers_lack_letters(first, 0);
    let head = playlist_head(m.target, first);
    assert(lacks(head, 'L'));
    lemma_lacking_does_not_hold(head, end, 9);
    assert(head.last() == '\n');
    lemma_segments_do_not_end(m.segments, first);
    lemma_stands_on_one_side(head, all_lines(m.segments, first), end);
}

/// The file of every segment that falls out of the playlist is cleared right
/// behind, and that of a segment that is still listed never is.
pub proof fn clearing_spares_what_is_listed(
    m: PlaylistModel,
    millis: nat,
    title: Seq<char>,
    number: nat,
)
    requires
        m.wf(),
        m.window > 0,
        first_listed(m) <= number <= m.next,
    ensures
        ({
            let after = pushed(m, millis, title);
            let cleared = stale_from(m.next, m.window) <= number < first_listed(after);
            let listed = first_listed(after) <= number < after.next;
            cleared != listed
        }),
{
}

/// The pace of emission: the time until which to wait before the next segment,
/// in nanoseconds on a monotonic clock.
#[derive(Debug, Clone, Copy, PartialEq, Eq, Structural)]
pub struct Pacer {
    deadline: Option<u128>,
}

/// Whether the schedule starts over: with the first segment, and where it is
/// too far behind.
pub open spec fn starts_over(deadline: Option<nat>, now: nat) -> bool {
    match deadline {
        None => true,
        Some(d) => now > d + 5_000_000_000,
    }
}

/// The time that the next segment is due at.
pub open spec fn next_deadline(deadline: Option<nat>, now: nat, step: nat) -> nat {
    if starts_over(deadline, now) {
        now + step
    } else {
        deadline->0 + step
    }
}

impl Pacer {
    /// The time that the next segment is due at.
    pub closed spec fn view(self) -> Option<nat> {
        match self.deadline {
            Some(d) => Some(d as nat),
            None => None,
        }
    }

    /// A schedule that has not started.
    pub fn new() -> (r: Pacer)
        ensures
            r.view() is None,
    {
        Pacer { deadline: None }
    }

    /// Takes in a segment of `step` nanoseconds that was published at `now`:
    /// the time until which to wait, if there is one, and the schedule goes on
    /// by exactly the length of the segment. A schedule that is too far behind
    /// starts over.
    pub fn pace(&mut self, now: u128, step: u128) -> (r: Option<u128>)
        requires
            now + step <= u128::MAX,
            old(self).view() matches Some(d) ==> d + step + 5_000_000_000 <= u128::MAX,
        ensures
            final(self).view() == Some(next_deadline(old(self).view(), now as nat, step as nat)),
            match r {
                Some(until) => !starts_over(old(self).view(), now as nat) && old(self).view()
                    == Some(until as nat),
                None => starts_over(old(self).view(), now as nat),
            },
    {
        match self.deadline {
            Some(d) => {
                if now > d + MAX_PACING_DEBT {
                    self.deadline = Some(now + step);
                    None
                } else {
                    self.deadline = Some(d + step);
                    Some(d)
                }
            },
            None => {
                self.deadline = Some(now + step);
                None
            },
        }
    }
}

/// The schedule after segments of these lengths, published at these times.
pub open spec fn schedule(start: nat, times: Seq<nat>, steps: Seq<nat>) -> nat
    decreases steps.len(),
{
    if steps.len() == 0 {
        start
    } else {
        next_deadline(
            Some(schedule(start, times.drop_last(), steps.drop_last())),
            times.last(),
            steps.last(),
        )
    }
}

/// The sum of a list.
pub open spec fn total(steps: Seq<nat>) -> nat
    decreases steps.len(),
{
    if steps.len() == 0 {
        0
    } else {
        total(steps.drop_last()) + steps.last()
    }
}

/// As long as it never falls too far behind, the schedule does not drift: it
/// advances by exactly the audio that was published, whatever time encoding and
/// writing took in between.
pub proof fn schedule_does_not_drift(start: nat, times: Seq<nat>, steps: Seq<nat>)
    requires
        times.len() == steps.len(),
        forall|i: int|
            0 <= i < steps.len() ==> (#[trigger] times[i]) <= start + total(steps.take(i))
                + 5_000_000_000,
    ensures
        schedule(start, times, steps) == start + total(steps),
    decreases steps.len(),
{
    if steps.len() > 0 {
        let last = steps.len() - 1;
        assert(steps.take(last) =~= steps.drop_last());
        assert(times[last] == times.last());
        assert forall|i: int| 0 <= i < steps.drop_last().len() implies (
        #[trigger] times.drop_last()[i]) <= start + total(steps.drop_last().take(i))
            + 5_000_000_000 by {
            assert(times[i] == times.drop_last()[i]);
            assert(steps.drop_last().take(i) =~= steps.take(i));
        }
        schedule_does_not_drift(start, times.drop_last(), steps.drop_last());
    }
}

/// What a station is at.
#[derive(Debug, Clone, Copy, PartialEq, Eq, Structural)]
pub enum Phase {
    /// Waiting for the next item.
    Loading,
    /// Feeding an item to the encoder.
    Feeding,
    /// Waiting for the packets of a full segment.
    Packing,
    /// Waiting for the packets of what is left of an item.
    Flushing,
    /// Publishing a segment.
    Emitting,
}

/// What happened.
#[derive(Debug, Clone, Copy, PartialEq, Eq, Structural)]
pub enum StationEvent {
    /// An item of so many frames is ready, and whether it is a filler.
    Item(u64, bool),
    /// The encoder took the frames.
    Fed,
    /// The encoder was waited for; whether it gave whole packets.
    Packets(bool),
    /// The segment is published.
    Emitted,
}

/// What to do next.
#[derive(Debug, Clone, Copy, PartialEq, Eq, Structural)]
pub enum StationStep {
    /// Load the next track, or a filler.
    Load,
    /// Feed the frames from the first number up to, but without, the second.
    Feed(u64, u64),
    /// Wait until the encoder has given packets for a full segment.
    AwaitPackets,
    /// Wait a moment for the packets of what is left.
    AwaitFlush,
    /// Publish a segment of so many frames.
    Emit(u64),
}

/// Where a station is: frames in a full segment, frames that were fed and not
/// published yet, the frames of the item and how many of them were fed, whether
/// it is a filler, and whether its rest was waited for.
pub struct StationModel {
    pub target: nat,
    pub waiting: nat,
    pub total: nat,
    pub fed: nat,
    pub filler: bool,
    pub flushed: bool,
    pub phase: Phase,
}

/// The end of the next feed.
pub open spec fn feed_end(fed: nat, total: nat) -> nat {
    if total < fed + 4096 {
        total
    } else {
        fed + 4096
    }
}

impl StationModel {
    /// An item is fed from its start to its end before the next one is loaded,
    /// and only the rest of a track is waited for.
    pub open spec fn wf(self) -> bool {
        &&& self.fed <= self.total
        &&& self.phase == Phase::Feeding ==> self.fed < self.total
        &&& self.phase == Phase::Loading ==> self.fed == self.total
        &&& self.phase == Phase::Flushing ==> self.fed == self.total && !self.filler
            && self.waiting > 0
    }

    /// The state in which the item goes on: with its next frames, else with its
    /// rest, which a filler leaves for a full segment, else with the next item.
    pub open spec fn going_on(self) -> StationModel {
        StationModel {
            phase: if self.fed < self.total {
                Phase::Feeding
            } else if !self.filler && self.waiting > 0 && !self.flushed {
                Phase::Flushing
            } else {
                Phase::Loading
            },
            ..self
        }
    }

    /// The frames that an event hands to the encoder.
    pub open spec fn frames_fed(self, event: StationEvent) -> nat {
        if self.phase == Phase::Feeding && event == StationEvent::Fed {
            (feed_end(self.fed, self.total) - self.fed) as nat
        } else {
            0
        }
    }

    /// The frames that an event publishes.
    pub open spec fn frames_published(self, event: StationEvent) -> nat {
        if self.phase == Phase::Emitting && event == StationEvent::Emitted {
            self.waiting
        } else {
            0
        }
    }

    /// The state after an event. One that does not belong there changes
    /// nothing, and so does an item without frames.
    pub open spec fn after(self, event: StationEvent) -> StationModel {
        match (self.phase, event) {
            (Phase::Loading, StationEvent::Item(frames, filler)) => if frames == 0 {
                self
            } else {
                StationModel {
                    total: frames as nat,
                    fed: 0,
                    filler,
                    flushed: false,
                    phase: Phase::Feeding,
                    ..self
                }
            },
            (Phase::Feeding, StationEvent::Fed) => {
                let fed = StationModel {
                    fed: feed_end(self.fed, self.total),
                    waiting: self.waiting + self.frames_fed(event),
                    ..self
                };
                if fed.waiting >= fed.target {
                    StationModel { phase: Phase::Packing, ..fed }
                } else {
                    fed.going_on()
                }
            },
            (Phase::Packing, StationEvent::Packets(any)) => if any {
                StationModel { phase: Phase::Emitting, ..self }
            } else {
                self.going_on()
            },
            (Phase::Flushing, StationEvent::Packets(any)) => if any {
                StationModel { phase: Phase::Emitting, flushed: true, ..self }
            } else {
                (StationModel { flushed: true, ..self }).going_on()
            },
            (Phase::Emitting, StationEvent::Emitted) => (StationModel {
                waiting: 0,
                ..self
            }).going_on(),
            _ => self,
        }
    }
}

/// The decisions of a station: audio is fed to the encoder piece by piece and
/// cut into segments.
#[derive(Debug)]
pub struct Station {
    target: u64,
    waiting: u64,
    total: u64,
    fed: u64,
    filler: bool,
    flushed: bool,
    phase: Phase,
}

impl Station {
    /// Where the station is.
    pub closed spec fn view(self) -> StationModel {
        StationModel {
            target: self.target as nat,
            waiting: self.waiting as nat,
            total: self.total as nat,
            fed: self.fed as nat,
            filler: self.filler,
            flushed: self.flushed,
            phase: self.phase,
        }
    }

    /// A station that was fed nothing.
    pub fn new(segment_secs: Real32) -> (r: Station)
        requires
            segment_secs.within(0x4000_0000, 0x41f0_0000),
        ensures
            r.view() == (StationModel {
                target: segment_secs.frames_rounded(),
                waiting: 0,
                total: 0,
                fed: 0,
                filler: false,
                flushed: false,
                phase: Phase::Loading,
            }),
            r.view().wf(),
    {
        Station {
            target: segment_secs.to_frames_rounded(),
            waiting: 0,
            total: 0,
            fed: 0,
            filler: false,
            flushed: false,
            phase: Phase::Loading,
        }
    }

    fn next_feed_end(&self) -> (r: u64)
        requires
            self.view().fed <= self.view().total,
        ensures
            r == feed_end(self.view().fed, self.view().total),
    {
        if self.total - self.fed < FEED_FRAMES {
            self.total
        } else {
            self.fed + FEED_FRAMES
        }
    }

    fn go_on(&mut self)
        ensures
            final(self).view() == old(self).view().going_on(),
    {
        self.phase = if self.fed < self.total {
            Phase::Feeding
        } else if !self.filler && self.waiting > 0 && !self.flushed {
            Phase::Flushing
        } else {
            Phase::Loading
        };
    }

    /// What to do next.
    pub fn step(&self) -> (r: StationStep)
        requires
            self.view().wf(),
        ensures
            match self.view().phase {
                Phase::Loading => r is Load,
                Phase::Feeding => r matches StationStep::Feed(from, to) && from == self.view().fed
                    && to == feed_end(self.view().fed, self.view().total),
                Phase::Packing => r is AwaitPackets,
                Phase::Flushing => r is AwaitFlush,
                Phase::Emitting => r matches StationStep::Emit(frames) && frames
                    == self.view().waiting,
            },
    {
        match self.phase {
            Phase::Loading => StationStep::Load,
            Phase::Feeding => StationStep::Feed(self.fed, self.next_feed_end()),
            Phase::Packing => StationStep::AwaitPackets,
            Phase::Flushing => StationStep::AwaitFlush,
            Phase::Emitting => StationStep::Emit(self.waiting),
        }
    }

    /// Takes in what happened.
    pub fn on_event(&mut self, event: StationEvent)
        requires
            old(self).view().wf(),
            old(self).view().waiting + 4096 <= u64::MAX,
        ensures
            final(self).view() == old(self).view().after(event),
            final(self).view().wf(),
    {
        match self.phase {
            Phase::Loading => {
                if let StationEvent::Item(frames, filler) = event {
                    if frames > 0 {
                        self.total = frames;
                        self.fed = 0;
                        self.filler = filler;
                        self.flushed = false;
                        self.phase = Phase::Feeding;
                    }
                }
            },
            Phase::Feeding => {
                if let StationEvent::Fed = event {
                    let end: u64 = self.next_feed_end();
                    self.waiting = self.waiting + (end - self.fed);
                    self.fed = end;
                    if self.waiting >= self.target {
                        self.phase = Phase::Packing;
                    } else {
                        self.go_on();
                    }
                }
            },
            Phase::Packing => {
                if let StationEvent::Packets(any) = event {
                    if any {
                        self.phase = Phase::Emitting;
                    } else {
                        self.go_on();
                    }
                }
            },
            Phase::Flushing => {
                if let StationEvent::Packets(any) = event {
                    self.flushed = true;
                    if any {
                        self.phase = Phase::Emitting;
                    } else {
                        self.go_on();
                    }
                }
            },
            Phase::Emitting => {
                if let StationEvent::Emitted = event {
                    self.waiting = 0;
                    self.go_on();
                }
            },
        }
    }
}

/// The state after a run of events.
pub open spec fn station_after(start: StationModel, events: Seq<StationEvent>) -> StationModel
    decreases events.len(),
{
    if events.len() == 0 {
        start
    } else {
        station_after(start, events.drop_last()).after(events.last())
    }
}

/// The frames that a run of events hands to the encoder.
pub open spec fn total_fed(start: StationModel, events: Seq<StationEvent>) -> nat
    decreases events.len(),
{
    if events.len() == 0 {
        0
    } else {
        total_fed(start, events.drop_last()) + station_after(
            start,
            events.drop_last(),
        ).frames_fed(events.last())
    }
}

/// The frames that a run of events publishes.
pub open spec fn total_published(start: StationModel, events: Seq<StationEvent>) -> nat
    decreases events.len(),
{
    if events.len() == 0 {
        0
    } else {
        total_published(start, events.drop_last()) + station_after(
            start,
            events.drop_last(),
        ).frames_published(events.last())
    }
}

/// No audio is lost or counted twice: what was fed is published, or waits for
/// the next segment.
pub proof fn stations_publish_what_they_feed(start: StationModel, events: Seq<StationEvent>)
    requires
        start.wf(),
    ensures
        station_after(start, events).wf(),
        start.waiting + total_fed(start, events) == total_published(start, events)
            + station_after(start, events).waiting,
    decreases events.len(),
{
    if events.len() > 0 {
        stations_publish_what_they_feed(start, events.drop_last());
    }
}

/// The rest of a track is not stranded behind the next one: where the encoder
/// gives packets for it, all that waits goes out before anything is loaded.
pub proof fn tracks_leave_nothing_behind(s: StationModel)
    requires
        s.wf(),
        s.phase == Phase::Flushing,
    ensures
        s.after(StationEvent::Packets(true)).phase == Phase::Emitting,
        ({
            let end = s.after(StationEvent::Packets(true)).after(StationEvent::Emitted);
            end.phase == Phase::Loading && end.waiting == 0
        }),
{
}

/// Whether a file in the output folder is one that an earlier run left behind.
pub open spec fn is_artifact(name: Seq<char>) -> bool {
    name == "live.m3u8"@ || name == "live.m3u8.tmp"@ || (text::stands_at(name, "seg_"@, 0) && (
    text::stands_at(name, ".ts"@, name.len() - 3) || text::stands_at(
        name,
        ".mp3"@,
        name.len() - 4,
    )))
}

fn ends_with(s: &str, suffix: &str) -> (r: bool)
    ensures
        r == text::stands_at(s@, suffix@, s@.len() - suffix@.len()),
{
    let chars = text::chars_of(s);
    let wanted = text::chars_of(suffix);
    if wanted.len() > chars.len() {
        return false;
    }
    let from: usize = chars.len() - wanted.len();
    let tail = text::text_between(&chars, from, chars.len());
    proof {
        assert(tail@ =~= s@.subrange(from as int, from + suffix@.len()));
    }
    text::same_text(tail.as_str(), suffix)
}

/// Whether a file in the output folder is one that an earlier run left behind.
pub fn is_stale_artifact(name: &str) -> (r: bool)
    ensures
        r == is_artifact(name@),
{
    proof {
        reveal_strlit(".ts");
        reveal_strlit(".mp3");
    }
    text::same_text(name, "live.m3u8") || text::same_text(name, "live.m3u8.tmp") || (
    text::starts_with(name, "seg_") && (ends_with(name, ".ts") || ends_with(name, ".mp3")))
}

/// The session's bitrate in kbps: the one asked for, else 128.
pub fn config_bitrate(pipeline: &PipelineConfig) -> (r: u32)
    ensures
        r == (match pipeline.bitrate {
            Some(kbps) => kbps,
            None => 128,
        }),
{
    match pipeline.bitrate {
        Some(kbps) => kbps,
        None => 128,
    }
}

/// The files among these that can be played, in order.
pub open spec fn playable(paths: Seq<String>) -> Seq<String>
    decreases paths.len(),
{
    if paths.len() == 0 {
        paths
    } else if files::music_path(paths.last()@) {
        playable(paths.drop_last()).push(paths.last())
    } else {
        playable(paths.drop_last())
    }
}

/// The keys by which paths sort.
pub open spec fn path_keys(paths: Seq<String>) -> Seq<order::KeyModel> {
    paths.map_values(
        |p: String|
            order::KeyModel { primary: 0, artist: Seq::empty(), title: Seq::empty(), id: p@ },
    )
}

/// The jingles of a folder: the files that can be played, sorted by their paths.
pub fn collect_jingle_files(paths: Vec<String>) -> (r: Vec<String>)
    ensures
        crate::sort::sorted_by(playable(paths@), r@, path_keys(playable(paths@))),
{
    let ghost all = paths@;
    let mut kept: Vec<String> = Vec::new();
    let mut keys: Vec<SortRecord> = Vec::new();
    proof {
        assert(all.take(0) =~= Seq::empty());
        assert(kept@ =~= Seq::empty());
        assert(order::keys_model(keys@) =~= path_keys(kept@));
    }
    for path in it: paths.into_iter()
        invariant
            it.seq() == all,
            kept@ == playable(all.take(it.index() as int)),
            order::keys_model(keys@) == path_keys(kept@),
    {
        proof {
            assert(all.take(it.index() as int + 1).drop_last() =~= all.take(it.index() as int));
        }
        if files::is_music_file(path.as_str()) {
            let ghost before = keys@;
            let record = SortRecord {
                primary: 0,
                artist: Vec::new(),
                title: Vec::new(),
                id: text::chars_of(path.as_str()),
            };
            proof {
                assert(record.artist@ =~= Seq::<char>::empty());
                assert(record.title@ =~= Seq::<char>::empty());
            }
            keys.push(record);
            kept.push(path);
            proof {
                assert(order::keys_model(keys@) =~= order::keys_model(before).push(
                    record.model(),
                ));
                assert(order::keys_model(keys@) =~= path_keys(kept@));
            }
        }
    }
    proof {
        assert(all.take(all.len() as int) =~= all);
    }
    let sequence = order::stable_order(&keys);
    let ghost before_sort = kept@;
    let sorted = order::arrange(kept, &keys, &sequence);
    proof {
        assert(order::is_stable_order(path_keys(before_sort), sequence@));
    }
    sorted
}

/// The jingles that fill in for missing tracks.
pub struct Jingles {
    jingles: Vec<String>,
    recent: VecDeque<String>,
}

/// Whether a jingle may play next: one that did not play a moment ago, or any
/// where all of them did.
pub open spec fn is_choice(jingles: Seq<Seq<char>>, recent: Seq<Seq<char>>, at: int) -> bool {
    0 <= at < jingles.len() && (!recent.contains(jingles[at]) || forall|k: int|
        0 <= k < jingles.len() ==> recent.contains(#[trigger] jingles[k]))
}

/// The name of a jingle.
pub open spec fn jingle_title(path: Seq<char>) -> Seq<char> {
    "Jingle - "@ + (match files::stem_of(path) {
        Some(stem) => stem,
        None => "Jingle"@,
    })
}

impl Jingles {
    /// At most the last few are remembered.
    pub closed spec fn wf(self) -> bool {
        self.recent@.len() <= JINGLE_RECENT_WINDOW
    }

    /// All jingles.
    pub closed spec fn all(self) -> Seq<Seq<char>> {
        text::texts(self.jingles@)
    }

    /// Those that played last.
    pub closed spec fn played(self) -> Seq<Seq<char>> {
        text::texts(self.recent@)
    }

    /// Jingles of which none played yet.
    pub fn new(jingles: Vec<String>) -> (r: Jingles)
        ensures
            r.wf(),
            r.all() == text::texts(jingles@),
            r.played() == Seq::<Seq<char>>::empty(),
    {
        let r = Jingles { jingles, recent: VecDeque::new() };
        proof {
            assert(r.played() =~= Seq::empty());
        }
        r
    }

    fn is_recent(&self, path: &String) -> (r: bool)
        ensures
            r == self.played().contains(path@),
    {
        let mut i: usize = 0;
        while i < self.recent.len()
            invariant
                i <= self.recent@.len(),
                forall|k: int| 0 <= k < i ==> text::texts(self.recent@)[k] != path@,
            decreases self.recent@.len() - i,
        {
            assert(text::texts(self.recent@)[i as int] == self.recent@[i as int]@);
            if self.recent[i] == *path {
                return true;
            }
            i = i + 1;
        }
        proof {
            assert forall|k: int| 0 <= k < text::texts(self.recent@).len() implies text::texts(self.recent@)[k]
                != path@ by {}
        }
        false
    }

    /// Whether the jingle at a position was played: with its path and its name,
    /// and it is remembered.
    pub open spec fn is_played(self, at: int, after: Jingles, r: (String, String)) -> bool {
        &&& after.wf()
        &&& after.all() == self.all()
        &&& after.played() == crate::queue::recent_after(self.played(), self.all()[at])
        &&& r.0@ == self.all()[at]
        &&& r.1@ == jingle_title(self.all()[at])
    }

    /// Whether one of the jingles that may play next was played.
    pub open spec fn is_some_choice(self, after: Jingles, r: (String, String)) -> bool {
        exists|at: int|
            is_choice(self.all(), self.played(), at) && #[trigger] self.is_played(at, after, r)
    }

    /// The positions of the jingles that may play next.
    pub fn choices(&self) -> (r: Vec<usize>)
        ensures
            forall|at: usize|
                #[trigger] r@.contains(at) <==> is_choice(self.all(), self.played(), at as int),
            r@.len() == 0 <==> self.all().len() == 0,
    {
        let ghost jingles = self.all();
        let ghost recent = self.played();
        let mut fresh: Vec<usize> = Vec::new();
        let mut every: Vec<usize> = Vec::new();
        let mut i: usize = 0;
        while i < self.jingles.len()
            invariant
                jingles == self.all(),
                recent == self.played(),
                i <= self.jingles@.len(),
                every@.len() == i,
                forall|k: int| 0 <= k < i ==> every@[k] == k,
                forall|at: usize|
                    #[trigger] fresh@.contains(at) <==> at < i && !recent.contains(
                        jingles[at as int],
                    ),
            decreases self.jingles@.len() - i,
        {
            let ghost before = fresh@;
            assert(jingles[i as int] == self.jingles@[i as int]@);
            if !self.is_recent(&self.jingles[i]) {
                fresh.push(i);
                proof {
                    assert(fresh@.last() == i);
                    assert forall|at: usize| #[trigger] fresh@.contains(at) <==> at < i + 1
                        && !recent.contains(jingles[at as int]) by {
                        if before.contains(at) {
                            let k = choose|k: int| 0 <= k < before.len() && before[k] == at;
                            assert(fresh@[k] == at);
                        }
                        if at == i {
                            assert(fresh@[fresh@.len() - 1] == at);
                        }
                        if fresh@.contains(at) && at != i {
                            let k = choose|k: int| 0 <= k < fresh@.len() && fresh@[k] == at;
                            assert(before[k] == at);
                        }
                    }
                }
            }
            every.push(i);
            i = i + 1;
        }
        if fresh.len() > 0 {
            proof {
                assert(fresh@.contains(fresh@[0]));
            }
            fresh
        } else {
            proof {
                assert forall|k: int| 0 <= k < jingles.len() implies recent.contains(
                    #[trigger] jingles[k],
                ) by {
                    assert(!fresh@.contains(k as usize));
                }
                assert forall|at: usize| #[trigger] every@.contains(at) <==> is_choice(
                    jingles,
                    recent,
                    at as int,
                ) by {
                    if at < jingles.len() {
                        assert(every@[at as int] == at);
                    }
                }
            }
            every
        }
    }

    /// Plays the jingle at a position: its path and its name.
    pub fn play(&mut self, at: usize) -> (r: (String, String))
        requires
            old(self).wf(),
            at < old(self).all().len(),
        ensures
            old(self).is_played(at as int, *final(self), r),
    {
        let ghost recent = self.played();
        let path = self.jingles[at].clone();
        assert(self.all()[at as int] == path@);
        self.recent.push_back(path.clone());
        proof {
            assert(text::texts(self.recent@) =~= recent.push(path@));
        }
        if self.recent.len() > JINGLE_RECENT_WINDOW {
            let gone = self.recent.pop_front();
            proof {
                assert(text::texts(self.recent@) =~= recent.push(path@).skip(1));
            }
        }
        let mut title = "Jingle - ".to_owned();
        match files::path_stem(path.as_str()) {
            Some(stem) => title.append(stem.as_str()),
            None => title.append("Jingle"),
        }
        (path, title)
    }

    /// A jingle at random among those that may play next, with its name; silence
    /// fills in where there is none.
    pub fn next_jingle(&mut self) -> (r: Option<(String, String)>)
        requires
            old(self).wf(),
        ensures
            match r {
                Some(played) => old(self).is_some_choice(*final(self), played),
                None => old(self).all().len() == 0 && *final(self) == *old(self),
            },
    {
        let mut pool = self.choices();
        if pool.len() == 0 {
            return None;
        }
        let ghost before = pool@;
        crate::queue::shuffle(&mut pool);
        proof {
            before.to_multiset_ensures();
            pool@.to_multiset_ensures();
            assert(pool@.len() == before.len());
        }
        let at: usize = pool[0];
        proof {
            assert(pool@.contains(at));
            assert(pool@.to_multiset().count(at) > 0);
            assert(before.contains(at));
        }
        let played = self.play(at);
        assert(old(self).is_played(at as int, *self, played));
        Some(played)
    }
}

/// A jingle that played a moment ago plays again only where all of them did,
/// and as long as there are jingles one of them may play.
pub proof fn jingles_do_not_repeat(jingles: Seq<Seq<char>>, recent: Seq<Seq<char>>, at: int)
    requires
        0 <= at < jingles.len(),
    ensures
        !recent.contains(jingles[at]) ==> is_choice(jingles, recent, at) && forall|i: int| #[trigger]
            is_choice(jingles, recent, i) ==> !recent.contains(jingles[i]),
        exists|i: int| #[trigger] is_choice(jingles, recent, i),
{
    if forall|k: int| 0 <= k < jingles.len() ==> recent.contains(#[trigger] jingles[k]) {
        assert(is_choice(jingles, recent, at));
    } else {
        let k = choose|k: int| 0 <= k < jingles.len() && !recent.contains(#[trigger] jingles[k]);
        assert(is_choice(jingles, recent, k));
    }
}

/// A playlist lists each segment with its length in seconds and thousandths, its
/// title and its file, which is named after its number: the segments are numbered
/// in turn from the first that is listed.
pub proof fn segments_are_listed_in_turn(
    segments: Seq<(nat, Seq<char>)>,
    first: nat,
    seconds: nat,
    thousandths: nat,
    title: Seq<char>,
)
    requires
        thousandths < 1000,
    ensures
        all_lines(segments.push((1000 * seconds + thousandths, title)), first) == all_lines(
            segments,
            first,
        ) + ("#EXTINF:"@ + text::decimal(seconds) + "."@ + text::padded(thousandths, 3) + ","@ + title
            + "\n"@ + ("seg_"@ + text::padded(first + segments.len(), 5) + ".ts"@) + "\n"@),
        all_lines(Seq::empty(), first) == Seq::<char>::empty(),
{
    let millis = 1000 * seconds + thousandths;
    let longer = segments.push((millis, title));
    assert(longer.drop_last() =~= segments);
    assert(millis / 1000 == seconds && millis % 1000 == thousandths);
}

/// A playlist that lists nothing is its head: version, longest segment, and the
/// number of the segment to come.
pub proof fn empty_playlists_name_the_next_segment(m: PlaylistModel)
    requires
        m.segments.len() == 0,
    ensures
        playlist_text(m) == "#EXTM3U\n#EXT-X-VERSION:3\n#EXT-X-TARGETDURATION:"@ + text::decimal(
            m.target,
        ) + "\n#EXT-X-MEDIA-SEQUENCE:"@ + text::decimal(m.next) + "\n"@,
{
    assert(playlist_text(m) =~= playlist_head(m.target, m.next));
}

/// A schedule that is more than five seconds behind starts over at once, as the
/// first segment does; one that is less behind, or ahead, goes on from where it
/// stood, whatever the time is.
pub proof fn schedules_start_over_when_far_behind(deadline: nat, now: nat, step: nat)
    ensures
        next_deadline(None, now, step) == now + step,
        deadline + 5_000_000_000 < now ==> next_deadline(Some(deadline), now, step) == now + step,
        now <= deadline + 5_000_000_000 ==> next_deadline(Some(deadline), now, step) == deadline
            + step,
        starts_over(None, now),
        starts_over(Some(deadline), now) <==> deadline + 5_000_000_000 < now,
{
}

/// Clearing looks back over four numbers more than the playlist lists, and never
/// before the first one.
pub proof fn clearing_looks_back_a_little_further(seq: nat, window: nat)
    ensures
        window + 4 <= seq ==> stale_from(seq, window) + window + 4 == seq,
        seq < window + 4 ==> stale_from(seq, window) == 0,
{
}

/// An item is fed in pieces of 4096 frames, the last of which may be shorter. A
/// segment is cut as soon as its length is reached and not before, and until
/// then the item goes on, with the frames that come next.
pub proof fn segments_are_cut_at_their_length(s: StationModel)
    requires
        s.wf(),
        s.phase == Phase::Feeding,
    ensures
        ({
            let piece = if s.total - s.fed < 4096 {
                s.total - s.fed
            } else {
                4096
            };
            let after = s.after(StationEvent::Fed);
            &&& s.frames_fed(StationEvent::Fed) == piece
            &&& after.fed == s.fed + piece
            &&& after.waiting == s.waiting + piece
            &&& after.total == s.total
            &&& after.target == s.target
            &&& after.phase == Phase::Packing <==> s.waiting + piece >= s.target
            &&& s.waiting + piece < s.target && after.fed < s.total ==> after.phase
                == Phase::Feeding
            &&& s.waiting + piece < s.target && after.fed == s.total && !s.filler ==> after.phase
                == if s.flushed {
                Phase::Loading
            } else {
                Phase::Flushing
            }
            &&& s.waiting + piece < s.target && after.fed == s.total && s.filler ==> after.phase
                == Phase::Loading
        }),
{
}

/// A segment that went out leaves nothing waiting, and the item goes on where it
/// was: packets that have not come are waited for with the next frames.
pub proof fn emitted_segments_leave_nothing_waiting(s: StationModel)
    requires
        s.wf(),
    ensures
        s.phase == Phase::Emitting ==> s.frames_published(StationEvent::Emitted) == s.waiting
            && s.after(StationEvent::Emitted).waiting == 0 && s.after(StationEvent::Emitted).fed
            == s.fed && s.after(StationEvent::Emitted).total == s.total,
        s.phase == Phase::Emitting && s.fed < s.total ==> s.after(StationEvent::Emitted).phase
            == Phase::Feeding,
        s.phase == Phase::Emitting && s.fed == s.total ==> s.after(StationEvent::Emitted).phase
            == Phase::Loading,
        s.phase == Phase::Packing ==> s.after(StationEvent::Packets(true)).phase == Phase::Emitting,
        s.phase == Phase::Packing ==> s.after(StationEvent::Packets(false)).waiting == s.waiting,
        s.phase == Phase::Packing && s.fed < s.total ==> s.after(
            StationEvent::Packets(false),
        ).phase == Phase::Feeding,
{
}

/// A new item starts with its first frame, and an item without frames is passed
/// over for the next one.
pub proof fn items_start_at_their_first_frame(s: StationModel, frames: u64, filler: bool)
    requires
        s.wf(),
        s.phase == Phase::Loading,
    ensures
        ({
            let after = s.after(StationEvent::Item(frames, filler));
            &&& frames > 0 ==> after.phase == Phase::Feeding && after.fed == 0 && after.total
                == frames && after.filler == filler && !after.flushed
            &&& after.waiting == s.waiting
            &&& frames == 0 ==> after == s
        }),
{
}

/// What an earlier run left behind: the playlist, its half-written form, and
/// every segment, whatever its number. A file of any other kind is left alone.
pub proof fn leftovers_are_playlists_and_segments(name: Seq<char>, middle: Seq<char>)
    ensures
        is_artifact("live.m3u8"@),
        is_artifact("live.m3u8.tmp"@),
        is_artifact("seg_"@ + middle + ".ts"@),
        is_artifact("seg_"@ + middle + ".mp3"@),
        is_artifact(name) && name != "live.m3u8"@ && name != "live.m3u8.tmp"@ ==> name.len() >= 4
            && name.take(4) == "seg_"@ && ((name.len() >= 3 && name.skip(name.len() - 3) == ".ts"@) || (
        name.len() >= 4 && name.skip(name.len() - 4) == ".mp3"@)),
{
    reveal_strlit("seg_");
    reveal_strlit(".ts");
    reveal_strlit(".mp3");
    let a = "seg_"@ + middle + ".ts"@;
    let b = "seg_"@ + middle + ".mp3"@;
    assert(a.subrange(0, 4) =~= "seg_"@);
    assert(b.subrange(0, 4) =~= "seg_"@);
    assert(a.subrange(a.len() - 3, a.len() as int) =~= ".ts"@);
    assert(b.subrange(b.len() - 4, b.len() as int) =~= ".mp3"@);
    assert(text::stands_at(a, "seg_"@, 0) && text::stands_at(a, ".ts"@, a.len() - 3));
    assert(text::stands_at(b, "seg_"@, 0) && text::stands_at(b, ".mp3"@, b.len() - 4));
    if is_artifact(name) && name != "live.m3u8"@ && name != "live.m3u8.tmp"@ {
        assert(name.take(4) =~= name.subrange(0, 4));
        if text::stands_at(name, ".ts"@, name.len() - 3) {
            assert(name.skip(name.len() - 3) =~= name.subrange(name.len() - 3, name.len() as int));
        } else {
            assert(name.skip(name.len() - 4) =~= name.subrange(name.len() - 4, name.len() as int));
        }
    }
}

/// Of the files of a folder those that can be streamed are the jingles, all of
/// them and in the order in which they came.
pub proof fn jingles_are_the_files_that_play(paths: Seq<String>, path: String)
    ensures
        playable(paths.push(path)) == (if files::music_path(path@) {
            playable(paths).push(path)
        } else {
            playable(paths)
        }),
        playable(Seq::empty()).len() == 0,
{
    assert(paths.push(path).drop_last() =~= paths);
}

/// Jingles are sorted upwards by their paths.
pub proof fn jingles_are_sorted_by_path(before: Seq<String>, after: Seq<String>, i: int, j: int)
    requires
        crate::sort::sorted_by(before, after, path_keys(before)),
        0 <= i < j < after.len(),
    ensures
        after[i]@ == after[j]@ || order::text_before(after[i]@, after[j]@),
{
    let keys = path_keys(before);
    let o = choose|o: Seq<usize>|
        #[trigger] order::is_stable_order(keys, o) && after == order::arranged(before, o);
    order::stable_orders_keep_ties(keys, o, i, j);
    order::lemma_key_total(keys[o[i] as int], keys[o[j] as int]);
}

/// A playlist that has room for some of the segments lists the last of them:
/// each in its place, counted from the first that is listed.
pub proof fn listed_segments_are_the_last_ones(
    empty: PlaylistModel,
    pushes: Seq<(nat, Seq<char>)>,
    i: int,
)
    requires
        empty.segments.len() == 0,
        empty.next == 0,
        0 <= i < after_pushes(empty, pushes).segments.len(),
    ensures
        after_pushes(empty, pushes).segments.len() == (if pushes.len() < empty.window {
            pushes.len()
        } else {
            empty.window
        }),
        after_pushes(empty, pushes).segments[i] == pushes[pushes.len() - after_pushes(
            empty,
            pushes,
        ).segments.len() + i],
{
    playlists_list_the_last_segments(empty, pushes);
}

/// The encoder is asked for AAC at the bitrate in kbps.
pub proof fn encoders_get_the_bitrate(bitrate_kbps: nat)
    ensures
        encoder_args(bitrate_kbps)[13] == "-b:a"@,
        encoder_args(bitrate_kbps)[14] == text::decimal(bitrate_kbps) + "k"@,
        encoder_args(bitrate_kbps)[11] == "-c:a"@ && encoder_args(bitrate_kbps)[12] == "aac"@,
        encoder_args(bitrate_kbps)[5] == "-ar"@ && encoder_args(bitrate_kbps)[6] == "44100"@,
{
}

/// A jingle is announced by its name without folder and extension.
pub proof fn jingles_are_announced_by_their_names(
    folder: Seq<char>,
    stem: Seq<char>,
    extension: Seq<char>,
)
    requires
        stem.len() > 0,
        !stem.contains('/'),
        !extension.contains('/'),
        !extension.contains('.'),
        extension.len() > 0,
    ensures
        jingle_title(folder.push('/') + (stem.push('.') + extension)) == "Jingle - "@ + stem,
{
    files::extensions_stand_behind_the_last_dot(folder, stem, extension);
}

/// The jingle that plays is one of all, it is remembered as the last of three,
/// and it is none of those remembered wherever another one is there.
pub proof fn played_jingles_are_remembered(before: Jingles, after: Jingles, r: (String, String), k: int)
    requires
        before.is_some_choice(after, r),
        0 <= k < before.all().len(),
    ensures
        before.all().contains(r.0@),
        !before.played().contains(before.all()[k]) ==> !before.played().contains(r.0@),
        before.played().len() < 3 ==> after.played() == before.played().push(r.0@),
        before.played().len() == 3 ==> after.played() == seq![
            before.played()[1],
            before.played()[2],
            r.0@,
        ],
        after.all() == before.all(),
{
    let at = choose|at: int|
        is_choice(before.all(), before.played(), at) && #[trigger] before.is_played(at, after, r);
    assert(before.all()[at] == r.0@);
    if before.played().len() == 3 {
        assert(after.played() =~= seq![before.played()[1], before.played()[2], r.0@]);
    }
}

} // verus!
