//! Background music: a playlist of songs that plays from the start of the
//! show, back to back, optionally looped, and always ends with the show.

use vstd::prelude::*;

use crate::ids::{MediaId, SongId};
use crate::project::{Project, ProjectModel};
use crate::time::{fits_i64, Ticks, FLICKS_PER_MILLI, FLICKS_PER_SECOND};

verus! {

/// One entry of the playlist.
#[derive(Copy, Clone, Debug, PartialEq, Eq, Structural)]
pub struct Song {
    pub id: SongId,
    pub media: MediaId,
}

impl Song {
    /// A playlist entry for `media` with a fresh random id.
    pub fn new(media: MediaId) -> (s: Song)
        ensures
            s.media == media,
    {
        Song { id: SongId::new(), media }
    }
}

/// Highest music gain in percent.
pub const MUSIC_MAX_VOLUME: u16 = 200;

/// The project's music track.
#[derive(Debug, PartialEq, Eq)]
pub struct Music {
    pub songs: Vec<Song>,
    /// Gain in percent (100 = unchanged, 0–200).
    pub volume_percent: u16,
    /// Fade in at the start of the show.
    pub fade_in: Ticks,
    /// Fade out before the music ends (the end of the show, or of the
    /// playlist when it is shorter and not looped).
    pub fade_out: Ticks,
    /// Start the playlist again when it ends before the show does.
    pub looped: bool,
    /// Lower the music while a video clip plays its own sound.
    pub duck: bool,
}

/// The music track as values.
#[verifier::ext_equal]
pub struct MusicModel {
    pub songs: Seq<Song>,
    pub volume_percent: u16,
    pub fade_in: Ticks,
    pub fade_out: Ticks,
    pub looped: bool,
    pub duck: bool,
}

impl View for Music {
    type V = MusicModel;

    open spec fn view(&self) -> MusicModel {
        MusicModel {
            songs: self.songs@,
            volume_percent: self.volume_percent,
            fade_in: self.fade_in,
            fade_out: self.fade_out,
            looped: self.looped,
            duck: self.duck,
        }
    }
}

/// The default fade-out: three seconds.
pub open spec fn default_fade_out() -> int {
    3 * FLICKS_PER_SECOND
}

/// How long the level takes to go down before and come back after a
/// video's sound: half a second.
pub open spec fn duck_ramp() -> int {
    500 * FLICKS_PER_MILLI
}

impl Music {
    /// No songs, full volume, no fade-in, three-second fade-out, looped,
    /// ducking under video sound.
    pub fn default_music() -> (m: Music)
        ensures
            m@.songs.len() == 0,
            m@.volume_percent == 100,
            m@.fade_in.0 == 0,
            m@.fade_out.0 == default_fade_out(),
            m@.looped,
            m@.duck,
    {
        Music {
            songs: Vec::new(),
            volume_percent: 100,
            fade_in: Ticks(0),
            fade_out: Ticks::from_seconds(3),
            looped: true,
            duck: true,
        }
    }

    /// Music gain in percent actually applied: the volume capped at 200 %.
    pub fn gain_percent(&self) -> (g: u16)
        ensures
            g == (if self.volume_percent > MUSIC_MAX_VOLUME {
                MUSIC_MAX_VOLUME
            } else {
                self.volume_percent
            }),
    {
        if self.volume_percent > MUSIC_MAX_VOLUME {
            MUSIC_MAX_VOLUME
        } else {
            self.volume_percent
        }
    }
}

impl Clone for Music {
    fn clone(&self) -> (m: Music)
        ensures
            m@ == self@,
    {
        let mut songs: Vec<Song> = Vec::new();
        let mut i: usize = 0;
        while i < self.songs.len()
            invariant
                i <= self.songs@.len(),
                songs@ == self.songs@.subrange(0, i as int),
            decreases self.songs@.len() - i,
        {
            songs.push(self.songs[i]);
            i = i + 1;
            proof {
                assert(songs@ =~= self.songs@.subrange(0, i as int));
            }
        }
        proof {
            assert(songs@ =~= self.songs@);
        }
        Music {
            songs,
            volume_percent: self.volume_percent,
            fade_in: self.fade_in,
            fade_out: self.fade_out,
            looped: self.looped,
            duck: self.duck,
        }
    }
}

/// Where one song plays on the timeline.
#[derive(Copy, Clone, Debug, PartialEq, Eq, Structural)]
pub struct SongSpan {
    /// Index into `Music::songs`.
    pub song: usize,
    pub media: MediaId,
    /// Timeline start.
    pub start: Ticks,
    /// Position in the song file at `start`.
    pub source_start: Ticks,
    pub length: Ticks,
}

impl SongSpan {
    pub fn end(self) -> (e: Ticks)
        requires
            fits_i64(self.start.0 + self.length.0),
        ensures
            e.0 == self.start.0 + self.length.0,
    {
        self.start.plus(self.length)
    }
}

/// Natural length of the song at `k`: its media's duration, zero when
/// unknown or negative.
pub open spec fn song_length(p: ProjectModel, k: int) -> int {
    let id = p.music.songs[k].media.0;
    if p.media.contains_key(id) {
        match p.media[id].duration {
            Some(d) => if d.0 > 0 { d.0 as int } else { 0 },
            None => 0,
        }
    } else {
        0
    }
}

/// Length of the first `j` songs.
pub open spec fn prefix_length(p: ProjectModel, j: int) -> int
    decreases j,
{
    if j <= 0 {
        0
    } else {
        prefix_length(p, j - 1) + song_length(p, j - 1)
    }
}

/// Natural length of the playlist (one pass).
pub open spec fn playlist_total(p: ProjectModel) -> int {
    prefix_length(p, p.music.songs.len() as int)
}

proof fn lemma_prefix(p: ProjectModel, j: int)
    requires
        0 <= j <= p.music.songs.len(),
    ensures
        0 <= prefix_length(p, j) <= playlist_total(p),
    decreases p.music.songs.len() - j,
{
    lemma_prefix_mono(p, j, p.music.songs.len() as int);
}

proof fn lemma_prefix_mono(p: ProjectModel, i: int, j: int)
    requires
        0 <= i <= j,
    ensures
        0 <= prefix_length(p, i) <= prefix_length(p, j),
    decreases j,
{
    if j > 0 {
        if i < j {
            lemma_prefix_mono(p, i, j - 1);
        } else {
            lemma_prefix_mono(p, i - 1, j - 1);
        }
    }
}

fn song_duration(project: &Project, k: usize) -> (d: Ticks)
    requires
        k < project@.music.songs.len(),
    ensures
        d.0 == song_length(project@, k as int),
{
    match project.media_ref(project.music.songs[k].media) {
        Some(m) => match m.duration {
            Some(d) => if d.0 > 0 { d } else { Ticks(0) },
            None => Ticks(0),
        },
        None => Ticks(0),
    }
}

/// Natural length of the playlist (one pass). Songs whose duration is
/// unknown count as zero.
pub fn playlist_length(project: &Project) -> (t: Ticks)
    requires
        playlist_total(project@) <= i64::MAX,
    ensures
        t.0 == playlist_total(project@),
{
    let n = project.music.songs.len();
    let mut total = Ticks(0);
    let mut k: usize = 0;
    while k < n
        invariant
            k <= n,
            n == project@.music.songs.len(),
            playlist_total(project@) <= i64::MAX,
            total.0 == prefix_length(project@, k as int),
        decreases n - k,
    {
        proof {
            lemma_prefix(project@, k + 1);
        }
        total = total.plus(song_duration(project, k));
        k = k + 1;
    }
    total
}

/// Whether one pass of the playlist fits the time type, as laying out the
/// songs needs.
pub fn playlist_fits(project: &Project) -> (b: bool)
    ensures
        b == (playlist_total(project@) <= i64::MAX),
{
    let n = project.music.songs.len();
    let mut total: i64 = 0;
    let mut k: usize = 0;
    while k < n
        invariant
            k <= n,
            n == project@.music.songs.len(),
            total == prefix_length(project@, k as int),
            0 <= total,
        decreases n - k,
    {
        let d = song_duration(project, k);
        proof {
            lemma_prefix_mono(project@, k + 1, n as int);
        }
        if d.0 > i64::MAX - total {
            return false;
        }
        total = total + d.0;
        k = k + 1;
    }
    true
}

/// Where the song at `j` of pass `pass` would start if nothing were cut.
pub open spec fn song_position(p: ProjectModel, pass: int, j: int) -> int {
    pass * playlist_total(p) + prefix_length(p, j)
}

/// The span the song at `j` of pass `pass` plays, if it has a length and
/// starts before the show ends.
pub open spec fn step_span(p: ProjectModel, show_end: int, pass: int, j: int) -> Seq<SongSpan> {
    let start = song_position(p, pass, j);
    let natural = song_length(p, j);
    if natural > 0 && start < show_end {
        seq![SongSpan {
            song: j as usize,
            media: p.music.songs[j].media,
            start: Ticks(start as i64),
            source_start: Ticks(0),
            length: Ticks((if natural < show_end - start { natural } else { show_end - start }) as i64),
        }]
    } else {
        Seq::empty()
    }
}

/// The spans of every step before song `j` of pass `pass`.
pub open spec fn spans_before(p: ProjectModel, show_end: int, pass: nat, j: nat) -> Seq<SongSpan>
    decreases pass, j,
{
    if j > 0 {
        let j1 = (if j > p.music.songs.len() { p.music.songs.len() } else { j }) as nat;
        if j1 == 0 {
            Seq::empty()
        } else {
            spans_before(p, show_end, pass, (j1 - 1) as nat) + step_span(p, show_end, pass as int, j1 - 1)
        }
    } else if pass > 0 {
        spans_before(p, show_end, (pass - 1) as nat, p.music.songs.len())
    } else {
        Seq::empty()
    }
}

/// What `song_spans` lays out: the songs back to back from zero, looped
/// when enabled, cut at the show's end.
pub open spec fn song_spans_spec(p: ProjectModel, show_end: int) -> Seq<SongSpan> {
    if playlist_total(p) <= 0 {
        Seq::empty()
    } else if p.music.looped {
        spans_before(p, show_end, (if show_end > 0 { show_end + 1 } else { 1 }) as nat, 0)
    } else {
        spans_before(p, show_end, 0, p.music.songs.len())
    }
}

proof fn lemma_position_mono(p: ProjectModel, a: int, i: int, b: int, k: int)
    requires
        0 <= a,
        0 <= i <= p.music.songs.len(),
        0 <= k <= p.music.songs.len(),
        a < b || (a == b && i <= k),
    ensures
        song_position(p, a, i) <= song_position(p, b, k),
{
    let l = playlist_total(p);
    lemma_prefix(p, i);
    lemma_prefix(p, k);
    if a == b {
        lemma_prefix_mono(p, i, k);
    } else {
        assert(a * l + l <= b * l) by (nonlinear_arith)
            requires
                a < b,
                l >= 0,
        ;
    }
}

/// Steps from one that starts at or after the show's end on add nothing.
proof fn lemma_tail(p: ProjectModel, show_end: int, pass: nat, j: nat, big_pass: nat, big_j: nat)
    requires
        j <= p.music.songs.len(),
        big_j <= p.music.songs.len(),
        pass < big_pass || (pass == big_pass && j <= big_j),
        song_position(p, pass as int, j as int) >= show_end,
    ensures
        spans_before(p, show_end, big_pass, big_j) == spans_before(p, show_end, pass, j),
    decreases big_pass, big_j,
{
    if big_pass == pass && big_j == j {
    } else if big_j > 0 {
        lemma_tail(p, show_end, pass, j, big_pass, (big_j - 1) as nat);
        lemma_position_mono(p, pass as int, j as int, big_pass as int, big_j - 1);
        assert(step_span(p, show_end, big_pass as int, big_j - 1) =~= Seq::<SongSpan>::empty());
        assert(spans_before(p, show_end, big_pass, big_j) =~= spans_before(p, show_end, big_pass, (big_j - 1) as nat));
    } else {
        lemma_tail(p, show_end, pass, j, (big_pass - 1) as nat, p.music.songs.len());
    }
}

/// Lays the songs back to back from zero until the show ends at
/// `show_end` (looping when enabled). The last span is cut at `show_end`.
pub fn song_spans(project: &Project, show_end: Ticks) -> (v: Vec<SongSpan>)
    requires
        playlist_total(project@) <= i64::MAX,
    ensures
        v@ == song_spans_spec(project@, show_end.0 as int),
{
    let ghost p = project@;
    let ghost end = show_end.0 as int;
    let mut out: Vec<SongSpan> = Vec::new();
    let total = playlist_length(project);
    if total.0 <= 0 {
        return out;
    }
    let n = project.music.songs.len();
    let looped = project.music.looped;
    let ghost big = (if end > 0 { end + 1 } else { 1 }) as nat;
    let mut cursor: i64 = 0;
    let ghost mut pass: nat = 0;
    let mut done = false;
    proof {
        lemma_prefix(p, 0);
    }
    while !done
        invariant
            p == project@,
            n == p.music.songs.len(),
            looped == p.music.looped,
            total.0 == playlist_total(p),
            total.0 > 0,
            end == show_end.0,
            big == (if end > 0 { end + 1 } else { 1 }),
            cursor >= 0,
            !done ==> cursor == song_position(p, pass as int, 0) && cursor < end || (cursor >= end && song_position(p, pass as int, 0) >= end),
            !done ==> out@ == spans_before(p, end, pass, 0),
            !done ==> (looped ==> pass < big) && (!looped ==> pass == 0),
            done ==> out@ == song_spans_spec(p, end),
        decreases big - pass, if done { 0int } else { 1int },
    {
        let mut j: usize = 0;
        proof {
            lemma_prefix(p, 0);
        }
        while j < n && cursor < show_end.0
            invariant
                p == project@,
                j <= n,
                n == p.music.songs.len(),
                total.0 == playlist_total(p),
                total.0 > 0,
                end == show_end.0,
                cursor >= 0,
                cursor < end ==> cursor == song_position(p, pass as int, j as int),
                cursor >= end ==> song_position(p, pass as int, j as int) >= end,
                out@ == spans_before(p, end, pass, j as nat),
            decreases n - j,
        {
            proof {
                lemma_prefix(p, j + 1);
                lemma_prefix(p, j as int);
            }
            let natural = song_duration(project, j);
            if natural.0 > 0 {
                let room = show_end.0 - cursor;
                let length = if natural.0 < room { natural.0 } else { room };
                out.push(SongSpan {
                    song: j,
                    media: project.music.songs[j].media,
                    start: Ticks(cursor),
                    source_start: Ticks(0),
                    length: Ticks(length),
                });
                cursor = cursor + length;
            }
            proof {
                assert(spans_before(p, end, pass, (j + 1) as nat) == spans_before(p, end, pass, j as nat) + step_span(p, end, pass as int, j as int));
                assert(out@ =~= spans_before(p, end, pass, (j + 1) as nat));
            }
            j = j + 1;
        }
        if cursor >= show_end.0 {
            proof {
                if looped {
                    lemma_tail(p, end, pass, j as nat, big, 0);
                } else {
                    lemma_tail(p, end, pass, j as nat, 0, n as nat);
                }
            }
            done = true;
        } else {
            proof {
                assert(j == n);
                let l = playlist_total(p);
                assert(pass * l + l == (pass + 1) * l) by (nonlinear_arith);
                assert(song_position(p, pass + 1int, 0) == song_position(p, pass as int, n as int));
                assert(spans_before(p, end, (pass + 1) as nat, 0) == spans_before(p, end, pass, n as nat));
            }
            if !looped {
                done = true;
            } else {
                proof {
                    let l = playlist_total(p);
                    assert((pass + 1) * l >= pass + 1) by (nonlinear_arith)
                        requires
                            l >= 1,
                    ;
                    pass = pass + 1;
                }
            }
        }
    }
    out
}

/// The spans (partly) ahead of `from`, the first one cut to start there.
pub open spec fn spans_from(spans: Seq<SongSpan>, from: int) -> Seq<SongSpan>
    decreases spans.len(),
{
    if spans.len() == 0 {
        Seq::empty()
    } else {
        let s = spans.last();
        let rest = spans_from(spans.drop_last(), from);
        if s.start.0 + s.length.0 > from {
            if s.start.0 >= from {
                rest.push(s)
            } else {
                let skip = from - s.start.0;
                rest.push(SongSpan {
                    start: Ticks(from as i64),
                    source_start: Ticks((s.source_start.0 + skip) as i64),
                    length: Ticks((s.length.0 - skip) as i64),
                    ..s
                })
            }
        } else {
            rest
        }
    }
}

proof fn lemma_spans_shape(p: ProjectModel, end: int, pass: nat, j: nat)
    requires
        playlist_total(p) > 0,
        end <= i64::MAX,
    ensures
        forall|k: int| 0 <= k < spans_before(p, end, pass, j).len() ==> {
            let s = #[trigger] spans_before(p, end, pass, j)[k];
            &&& 0 <= s.start.0
            &&& 0 < s.length.0
            &&& s.start.0 + s.length.0 <= end
            &&& s.source_start.0 == 0
        },
    decreases pass, j,
{
    if j > 0 {
        let j1 = (if j > p.music.songs.len() { p.music.songs.len() } else { j }) as nat;
        if j1 > 0 {
            lemma_spans_shape(p, end, pass, (j1 - 1) as nat);
            lemma_prefix(p, j1 - 1);
            let start = song_position(p, pass as int, j1 - 1);
            assert(start >= 0) by (nonlinear_arith)
                requires
                    start == pass * playlist_total(p) + prefix_length(p, j1 - 1),
                    prefix_length(p, j1 - 1) >= 0,
                    playlist_total(p) > 0,
            ;
            let a = spans_before(p, end, pass, (j1 - 1) as nat);
            let b = step_span(p, end, pass as int, j1 - 1);
            assert(spans_before(p, end, pass, j) == a + b);
            assert forall|k: int| 0 <= k < (a + b).len() implies {
                let s = #[trigger] (a + b)[k];
                &&& 0 <= s.start.0
                &&& 0 < s.length.0
                &&& s.start.0 + s.length.0 <= end
                &&& s.source_start.0 == 0
            } by {
                if k < a.len() {
                    assert((a + b)[k] == a[k]);
                } else {
                    assert((a + b)[k] == b[k - a.len()]);
                    assert(song_length(p, j1 - 1) <= i64::MAX);
                }
            }
        } else {
            assert(spans_before(p, end, pass, j) =~= Seq::<SongSpan>::empty());
        }
    } else if pass > 0 {
        lemma_spans_shape(p, end, (pass - 1) as nat, p.music.songs.len());
        assert(spans_before(p, end, pass, j) == spans_before(p, end, (pass - 1) as nat, p.music.songs.len()));
    } else {
        assert(spans_before(p, end, pass, j) =~= Seq::<SongSpan>::empty());
    }
}

/// The spans still (partly) ahead of `from`, with the first one starting
/// at `from`. For starting playback in the middle of the show.
pub fn song_spans_from(project: &Project, show_end: Ticks, from: Ticks) -> (v: Vec<SongSpan>)
    requires
        playlist_total(project@) <= i64::MAX,
    ensures
        v@ == spans_from(song_spans_spec(project@, show_end.0 as int), from.0 as int),
{
    let all = song_spans(project, show_end);
    let ghost spans = all@;
    proof {
        if playlist_total(project@) > 0 {
            let end = show_end.0 as int;
            if project@.music.looped {
                lemma_spans_shape(project@, end, (if end > 0 { end + 1 } else { 1 }) as nat, 0);
            } else {
                lemma_spans_shape(project@, end, 0, project@.music.songs.len());
            }
        }
    }
    let mut out: Vec<SongSpan> = Vec::new();
    let mut k: usize = 0;
    while k < all.len()
        invariant
            k <= spans.len(),
            all@ == spans,
            forall|i: int| 0 <= i < spans.len() ==> {
                let s = #[trigger] spans[i];
                &&& 0 <= s.start.0
                &&& 0 < s.length.0
                &&& s.start.0 + s.length.0 <= show_end.0
                &&& s.source_start.0 == 0
            },
            out@ == spans_from(spans.take(k as int), from.0 as int),
        decreases spans.len() - k,
    {
        let s = all[k];
        proof {
            assert(spans.take(k + 1).drop_last() =~= spans.take(k as int));
            assert(spans.take(k + 1).last() == s);
            assert(spans[k as int] == s);
        }
        if s.end().0 > from.0 {
            if s.start.0 >= from.0 {
                out.push(s);
            } else {
                let skip = from.minus(s.start);
                out.push(SongSpan {
                    song: s.song,
                    media: s.media,
                    start: from,
                    source_start: s.source_start.plus(skip),
                    length: s.length.minus(skip),
                });
            }
        }
        k = k + 1;
    }
    proof {
        assert(spans.take(spans.len() as int) =~= spans);
    }
    out
}

} // verus!
