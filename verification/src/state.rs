use rand::rngs::ThreadRng;
use rand::seq::SliceRandom;
use std::collections::VecDeque;
use std::hash::{DefaultHasher, Hash, Hasher};
use std::ops::Range;
use tsproto_packets::packets::OutPacket;
use vstd::prelude::*;
use vstd::string::{StringExecFns, StringSliceAdditionalSpecFns};
use vstd::utf8::encode_utf8;

use crate::number::{decimal, push_decimal};
use crate::order::{bytes_less, bytes_lt, lemma_bytes_lt_irreflexive, lemma_bytes_lt_transitive};

verus! {

/// A rendered song: its voice packets, the path it was read from, and a digest of it.
#[derive(Clone)]
pub struct Song {
    pub packets: Vec<OutPacket>,
    pub name: String,
    pub hash: u64,
}

/// Feeds `name` to `hasher`.
///
/// Calls `<str as Hash>::hash`. Nothing is stated of the hasher's state afterwards: how `str`
/// feeds a hasher is not documented.
#[verifier::external_body]
fn feed_str(hasher: &mut DefaultHasher, name: &str) {
    name.hash(hasher);
}

/// Feeds `size` to `hasher`.
///
/// Calls `<usize as Hash>::hash`. Nothing is stated of the hasher's state afterwards: the bytes
/// fed depend on the platform's integer width and byte order.
#[verifier::external_body]
fn feed_usize(hasher: &mut DefaultHasher, size: usize) {
    size.hash(hasher);
}

#[verifier::external_type_specification]
#[verifier::external_body]
pub struct ExThreadRng(ThreadRng);

/// The thread-local random generator.
///
/// Calls `rand::rng`. Nothing is stated of the generator.
#[verifier::external_body]
fn thread_rng() -> ThreadRng {
    rand::rng()
}

/// Permutes `items` at random.
///
/// Calls `rand::seq::SliceRandom::shuffle`, which swaps items (Fisher-Yates). The contract claims
/// only that the result is a permutation: the same items, each as often.
#[verifier::external_body]
fn shuffle_with<T>(items: &mut Vec<T>, rng: &mut ThreadRng)
    ensures
        final(items)@.to_multiset() == old(items)@.to_multiset(),
        final(items)@.len() == old(items)@.len(),
{
    items.shuffle(rng);
}

impl Song {
    /// `DefaultHasher`'s digest of a song's name followed by its size.
    ///
    /// Nothing is stated of the digest: how `str` and `usize` feed the hasher is not documented,
    /// and what `usize` feeds depends on the platform's integer width and byte order.
    pub fn hash(name: &str, size: usize) -> u64 {
        let mut hasher = DefaultHasher::new();
        feed_str(&mut hasher, name);
        feed_usize(&mut hasher, size);
        hasher.finish()
    }
}

/// The player's state as a mathematical value.
pub struct MaeveView {
    pub playing: bool,
    pub current: usize,
    pub current_hash: u64,
    pub playlist: Seq<Song>,
    pub queued: Seq<Seq<char>>,
    pub loop_playlist: bool,
    pub loop_song: bool,
}

impl MaeveView {
    /// At most one of the two loop modes is on.
    pub open spec fn loop_modes_exclusive(self) -> bool {
        !(self.loop_song && self.loop_playlist)
    }
}

/// The hash of the song at index `i` of `playlist`, or 0 when there is none.
pub open spec fn hash_at(playlist: Seq<Song>, i: int) -> u64 {
    if 0 <= i < playlist.len() {
        playlist[i].hash
    } else {
        0
    }
}

/// The state `v` with its current index set to `i` and the current hash taken from that song.
pub open spec fn at_index(v: MaeveView, i: usize) -> MaeveView {
    MaeveView { current: i, current_hash: hash_at(v.playlist, i as int), ..v }
}

/// The loop mode that follows: playlist, then song, then none, then playlist again.
pub open spec fn cycled_loop(v: MaeveView) -> MaeveView {
    if v.loop_song {
        MaeveView { loop_song: false, loop_playlist: false, ..v }
    } else if v.loop_playlist {
        MaeveView { loop_song: true, loop_playlist: false, ..v }
    } else {
        MaeveView { loop_song: false, loop_playlist: true, ..v }
    }
}

/// The state after a `!play`, which toggles playback.
pub open spec fn toggled(v: MaeveView) -> MaeveView {
    MaeveView { playing: !v.playing, ..v }
}

/// The index after `i`, wrapping at the top of `usize`.
pub open spec fn index_after(i: usize) -> usize {
    if i == usize::MAX {
        0
    } else {
        (i + 1) as usize
    }
}

/// The index before `i`, wrapping at 0.
pub open spec fn index_before(i: usize) -> usize {
    if i == 0 {
        usize::MAX
    } else {
        (i - 1) as usize
    }
}

/// Where the current index goes when the songs `start..end` leave the playlist: to `start`
/// when it was among them, back by their number when it was past `end`, unchanged otherwise.
pub open spec fn index_after_removal(cur: usize, start: usize, end: usize) -> usize {
    if start <= cur < end {
        start
    } else if cur > end {
        (cur - (end - start)) as usize
    } else {
        cur
    }
}

/// The end of the range `..end` cut at the end of the playlist of `v`.
pub open spec fn removal_end(v: MaeveView, end: usize) -> usize {
    if v.playlist.len() <= end {
        v.playlist.len() as usize
    } else {
        end
    }
}

/// Whether the songs `start..end` of `v`, the end cut at the playlist's end, form a range: its
/// start is not past its end.
pub open spec fn can_remove(v: MaeveView, start: usize, end: usize) -> bool {
    start <= removal_end(v, end)
}

/// The state after the songs `start..end`, the end cut at the playlist's end, leave the
/// playlist: the others keep their order, and the current index moves with them.
pub open spec fn after_removal(v: MaeveView, start: usize, end: usize) -> MaeveView {
    let cut = removal_end(v, end);
    let list = v.playlist.subrange(0, start as int) + v.playlist.subrange(
        cut as int,
        v.playlist.len() as int,
    );
    at_index(MaeveView { playlist: list, ..v }, index_after_removal(v.current, start, cut))
}

/// The key that songs are sorted by: the bytes of the name, which `String`'s order compares.
pub open spec fn name_key(s: Song) -> Seq<u8> {
    encode_utf8(s.name@)
}

/// Every song's name is at most the next ones' in byte order.
pub open spec fn sorted_by_name(songs: Seq<Song>) -> bool {
    forall|i: int, j: int|
        0 <= i < j < songs.len() ==> !bytes_lt(
            name_key(#[trigger] songs[j]),
            name_key(#[trigger] songs[i]),
        )
}

pub open spec fn has_key(key: Seq<u8>) -> spec_fn(Song) -> bool {
    |s: Song| name_key(s) == key
}

/// The songs of `songs` whose name has the bytes `key`, in their order.
pub open spec fn songs_named(songs: Seq<Song>, key: Seq<u8>) -> Seq<Song> {
    songs.filter(has_key(key))
}

/// Whether `after` is `before` stably sorted by name: sorted, with the songs of each name in
/// the order they had. This pins `after` down.
pub open spec fn stable_name_sort(before: Seq<Song>, after: Seq<Song>) -> bool {
    &&& sorted_by_name(after)
    &&& forall|key: Seq<u8>| #[trigger] songs_named(after, key) == songs_named(before, key)
}

proof fn lemma_filter_none<A>(s: Seq<A>, pred: spec_fn(A) -> bool)
    requires
        forall|i: int| 0 <= i < s.len() ==> !pred(#[trigger] s[i]),
    ensures
        s.filter(pred) == Seq::<A>::empty(),
    decreases s.len(),
{
    reveal(Seq::filter);
    if s.len() > 0 {
        let t = s.drop_last();
        assert forall|i: int| 0 <= i < t.len() implies !pred(#[trigger] t[i]) by {
            assert(t[i] == s[i]);
        }
        lemma_filter_none(t, pred);
        assert(!pred(s.last()));
        assert(s.filter(pred) == t.filter(pred));
    } else {
        assert(s.filter(pred) =~= Seq::<A>::empty());
    }
}

proof fn lemma_insert_keeps_sorted(songs: Seq<Song>, p: int, s: Song)
    requires
        sorted_by_name(songs),
        0 <= p <= songs.len(),
        forall|i: int| 0 <= i < p ==> !bytes_lt(name_key(s), name_key(#[trigger] songs[i])),
        p < songs.len() ==> bytes_lt(name_key(s), name_key(songs[p])),
    ensures
        sorted_by_name(songs.insert(p, s)),
{
    let new = songs.insert(p, s);
    assert forall|i: int, j: int| 0 <= i < j < new.len() implies !bytes_lt(
        name_key(#[trigger] new[j]),
        name_key(#[trigger] new[i]),
    ) by {
        if j < p {
            assert(new[i] == songs[i] && new[j] == songs[j]);
        } else if j == p {
            assert(new[i] == songs[i] && new[j] == s);
        } else {
            assert(new[j] == songs[j - 1]);
            if i < p {
                assert(new[i] == songs[i]);
            } else if i == p {
                assert(new[i] == s);
                if bytes_lt(name_key(songs[j - 1]), name_key(s)) {
                    lemma_bytes_lt_transitive(
                        name_key(songs[j - 1]),
                        name_key(s),
                        name_key(songs[p]),
                    );
                    if j - 1 == p {
                        lemma_bytes_lt_irreflexive(name_key(songs[p]));
                    } else {
                        assert(!bytes_lt(name_key(songs[j - 1]), name_key(songs[p])));
                    }
                }
            } else {
                assert(new[i] == songs[i - 1]);
            }
        }
    }
}

proof fn lemma_insert_named(songs: Seq<Song>, p: int, s: Song, key: Seq<u8>)
    requires
        sorted_by_name(songs),
        0 <= p <= songs.len(),
        p < songs.len() ==> bytes_lt(name_key(s), name_key(songs[p])),
    ensures
        songs_named(songs.insert(p, s), key) == songs_named(songs, key) + songs_named(
            seq![s],
            key,
        ),
{
    let pred = has_key(key);
    let a = songs.subrange(0, p);
    let b = songs.subrange(p, songs.len() as int);
    assert(songs.insert(p, s) =~= (a + seq![s]) + b);
    assert(songs =~= a + b);
    Seq::filter_distributes_over_add(a + seq![s], b, pred);
    Seq::filter_distributes_over_add(a, seq![s], pred);
    Seq::filter_distributes_over_add(a, b, pred);
    if name_key(s) == key {
        assert forall|i: int| 0 <= i < b.len() implies !pred(#[trigger] b[i]) by {
            assert(b[i] == songs[p + i]);
            if name_key(songs[p + i]) == key {
                if i == 0 {
                    lemma_bytes_lt_irreflexive(name_key(s));
                } else {
                    assert(!bytes_lt(name_key(songs[p + i]), name_key(songs[p])));
                }
            }
        }
        lemma_filter_none(b, pred);
        assert(b.filter(pred) =~= Seq::<Song>::empty());
    } else {
        reveal_with_fuel(Seq::filter, 2);
        assert(seq![s].filter(pred) =~= Seq::<Song>::empty());
    }
    assert(songs_named(songs.insert(p, s), key) =~= songs_named(songs, key) + songs_named(
        seq![s],
        key,
    ));
}

/// Whether song `a`'s name comes strictly before song `b`'s.
fn name_before(a: &Song, b: &Song) -> (r: bool)
    ensures
        r == bytes_lt(name_key(*a), name_key(*b)),
{
    bytes_less(a.name.as_str().as_bytes(), b.name.as_str().as_bytes())
}

/// Where `s` goes in the sorted `songs`: after every song whose name is not after its own.
fn insertion_point(songs: &Vec<Song>, s: &Song) -> (p: usize)
    ensures
        p <= songs@.len(),
        forall|i: int| 0 <= i < p ==> !bytes_lt(name_key(*s), name_key(#[trigger] songs@[i])),
        p < songs@.len() ==> bytes_lt(name_key(*s), name_key(songs@[p as int])),
{
    let mut p: usize = 0;
    while p < songs.len() && !name_before(s, &songs[p])
        invariant
            p <= songs@.len(),
            forall|i: int| 0 <= i < p ==> !bytes_lt(name_key(*s), name_key(#[trigger] songs@[i])),
        decreases songs@.len() - p,
    {
        p = p + 1;
    }
    p
}

/// The songs of `songs`, stably sorted by name.
fn sorted_by_name_of(songs: Vec<Song>) -> (out: Vec<Song>)
    ensures
        stable_name_sort(songs@, out@),
{
    let ghost orig = songs@;
    let mut rest = songs;
    let mut sorted: Vec<Song> = Vec::new();
    let ghost mut done: int = 0;
    assert(orig.subrange(0, 0) =~= Seq::<Song>::empty());
    assert(rest@ =~= orig.subrange(0, orig.len() as int));
    while rest.len() > 0
        invariant
            0 <= done <= orig.len(),
            rest@ == orig.subrange(done, orig.len() as int),
            sorted_by_name(sorted@),
            forall|key: Seq<u8>|
                #[trigger] songs_named(sorted@, key) == songs_named(orig.subrange(0, done), key),
        decreases rest@.len(),
    {
        let s = rest.remove(0);
        let p = insertion_point(&sorted, &s);
        proof {
            lemma_insert_keeps_sorted(sorted@, p as int, s);
            assert forall|key: Seq<u8>| #[trigger]
                songs_named(sorted@.insert(p as int, s), key) == songs_named(
                    orig.subrange(0, done + 1),
                    key,
                ) by {
                lemma_insert_named(sorted@, p as int, s, key);
                assert(orig.subrange(0, done + 1) =~= orig.subrange(0, done) + seq![s]);
                Seq::filter_distributes_over_add(orig.subrange(0, done), seq![s], has_key(key));
            }
            done = done + 1;
        }
        sorted.insert(p, s);
        assert(rest@ =~= orig.subrange(done, orig.len() as int));
    }
    assert(orig.subrange(0, done) =~= orig);
    sorted
}

/// The line of `!list` that names the loop mode.
pub open spec fn loop_banner(v: MaeveView) -> Seq<char> {
    if v.loop_playlist {
        "> looping playlist"@
    } else if v.loop_song {
        "> looping current song"@
    } else {
        Seq::empty()
    }
}

/// The line of `!list` for song `i` of the playlist; the current song's is marked.
pub open spec fn playlist_line(v: MaeveView, i: int) -> Seq<char> {
    if i == v.current {
        (if v.playing {
            ">"@
        } else {
            "|"@
        }) + " [COLOR=#0fff0f]"@ + decimal(i as nat) + "[/COLOR] [B]"@ + v.playlist[i].name@
            + "[/B]\n"@
    } else {
        "[COLOR=#00ffff]"@ + decimal(i as nat) + "[/COLOR] "@ + v.playlist[i].name@ + "\n"@
    }
}

/// The lines of the first `n` songs of the playlist.
pub open spec fn playlist_lines(v: MaeveView, n: int) -> Seq<char>
    decreases n,
{
    if n <= 0 {
        Seq::empty()
    } else {
        playlist_lines(v, n - 1) + playlist_line(v, n - 1)
    }
}

/// The line of `!list` for entry `i` of the queue, numbered on from the playlist.
pub open spec fn queue_line(v: MaeveView, i: int) -> Seq<char> {
    "[COLOR=#FF69B4]"@ + decimal((i + v.playlist.len()) as nat) + "[/COLOR] "@ + v.queued[i]
        + "\n"@
}

/// The lines of the first `n` entries of the queue.
pub open spec fn queue_lines(v: MaeveView, n: int) -> Seq<char>
    decreases n,
{
    if n <= 0 {
        Seq::empty()
    } else {
        queue_lines(v, n - 1) + queue_line(v, n - 1)
    }
}

/// The text that `!list` answers with: the loop mode, the playlist, and the queue when it is
/// not empty.
pub open spec fn playlist_listing(v: MaeveView) -> Seq<char> {
    let head = "\ncurrent playlist:\n"@ + loop_banner(v) + "\n\n"@ + playlist_lines(
        v,
        v.playlist.len() as int,
    );
    if v.queued.len() == 0 {
        head
    } else {
        head + "\nqueued:\n"@ + queue_lines(v, v.queued.len() as int)
    }
}

/// The playlist, the queue and what is playing.
pub struct MaeveState {
    playing: bool,
    current_playing: usize,
    current_hash: u64,
    playlist: Vec<Song>,
    queued: VecDeque<String>,
    loop_playlist: bool,
    loop_song: bool,
}

impl View for MaeveState {
    type V = MaeveView;

    closed spec fn view(&self) -> MaeveView {
        MaeveView {
            playing: self.playing,
            current: self.current_playing,
            current_hash: self.current_hash,
            playlist: self.playlist@,
            queued: self.queued@.map_values(|s: String| s@),
            loop_playlist: self.loop_playlist,
            loop_song: self.loop_song,
        }
    }
}

impl MaeveState {
    /// A player with nothing to play, set to play, with no loop mode.
    pub fn new() -> (s: Self)
        ensures
            s@ == (MaeveView {
                playing: true,
                current: 0,
                current_hash: 0,
                playlist: Seq::empty(),
                queued: Seq::empty(),
                loop_playlist: false,
                loop_song: false,
            }),
    {
        let s = MaeveState {
            playing: true,
            current_playing: 0,
            current_hash: 0,
            playlist: Vec::new(),
            queued: VecDeque::new(),
            loop_playlist: false,
            loop_song: false,
        };
        assert(s@.queued =~= Seq::<Seq<char>>::empty());
        s
    }

    /// Stops playback.
    pub fn pause(&mut self)
        ensures
            final(self)@ == (MaeveView { playing: false, ..old(self)@ }),
    {
        self.playing = false;
    }

    /// Toggles playback; the result says whether playback has just resumed, so that whoever
    /// waits for it is to be woken.
    pub fn play(&mut self) -> (resumed: bool)
        ensures
            final(self)@ == toggled(old(self)@),
            resumed == !old(self)@.playing,
    {
        let was_playing = self.playing;
        self.playing = !was_playing;
        !was_playing
    }

    /// Whether the current song repeats.
    pub fn loop_song(&self) -> (b: bool)
        ensures
            b == self@.loop_song,
    {
        self.loop_song
    }

    /// Whether the playlist repeats.
    pub fn loop_playlist(&self) -> (b: bool)
        ensures
            b == self@.loop_playlist,
    {
        self.loop_playlist
    }

    /// Moves to the next loop mode: from none to playlist, from playlist to song, from song
    /// to none.
    pub fn loop_cycle(&mut self)
        ensures
            final(self)@ == cycled_loop(old(self)@),
    {
        if self.loop_song() {
            self.loop_song = false;
            self.loop_playlist = false;
        } else if self.loop_playlist() {
            self.loop_song = true;
            self.loop_playlist = false;
        } else {
            self.loop_song = false;
            self.loop_playlist = true;
        }
    }

    /// Appends a rendered song to the playlist.
    pub fn add_song(&mut self, song: Song)
        ensures
            final(self)@ == (MaeveView { playlist: old(self)@.playlist.push(song), ..old(self)@ }),
    {
        self.playlist.push(song);
    }

    /// Sets the current hash from the song at the current index.
    fn update_hash(&mut self)
        ensures
            final(self)@ == at_index(old(self)@, old(self)@.current),
    {
        let cx = self.current_playing;
        let hash = if cx < self.playlist.len() {
            self.playlist[cx].hash
        } else {
            0
        };
        self.current_hash = hash;
    }

    /// Whether `range` can be removed: its start is not past its end once the end is cut at
    /// the playlist's end.
    pub fn remove_range_in_bounds(&self, range: &Range<usize>) -> (b: bool)
        ensures
            b == can_remove(self@, range.start, range.end),
    {
        let len = self.playlist.len();
        let end = if len <= range.end {
            len
        } else {
            range.end
        };
        range.start <= end
    }

    /// Removes the songs `range`, cut at the playlist's end, and moves the current index with
    /// them.
    pub fn remove_range(&mut self, range: Range<usize>)
        requires
            can_remove(old(self)@, range.start, range.end),
        ensures
            final(self)@ == after_removal(old(self)@, range.start, range.end),
    {
        let len = self.playlist.len();
        let end = if len <= range.end {
            len
        } else {
            range.end
        };
        let start = range.start;
        let ghost old_list = self.playlist@;
        let mut tail = self.playlist.split_off(end);
        self.playlist.truncate(start);
        self.playlist.append(&mut tail);
        assert(self.playlist@ =~= old_list.subrange(0, start as int) + old_list.subrange(
            end as int,
            old_list.len() as int,
        ));
        let cdx = self.current_playing;
        if start <= cdx && cdx < end {
            self.current_playing = start;
        } else if cdx > end {
            self.current_playing = cdx - (end - start);
        }
        self.update_hash();
    }

    /// Puts the playlist in a random order.
    ///
    /// Any order may come out, the present one included: which one rests on the random generator.
    pub fn shuffle(&mut self)
        ensures
            final(self)@.playlist.to_multiset() == old(self)@.playlist.to_multiset(),
            final(self)@.playlist.len() == old(self)@.playlist.len(),
            final(self)@ == (MaeveView { playlist: final(self)@.playlist, ..old(self)@ }),
    {
        let mut rng = thread_rng();
        shuffle_with(&mut self.playlist, &mut rng);
    }

    /// Sorts the playlist by name, keeping songs of the same name in their order.
    pub fn sort(&mut self)
        ensures
            stable_name_sort(old(self)@.playlist, final(self)@.playlist),
            final(self)@.playlist.to_multiset() == old(self)@.playlist.to_multiset(),
            final(self)@ == (MaeveView { playlist: final(self)@.playlist, ..old(self)@ }),
    {
        let ghost before = self.playlist@;
        let songs = self.playlist.split_off(0);
        assert(songs@ =~= before);
        self.playlist = sorted_by_name_of(songs);
        proof {
            lemma_stable_name_sort_permutes(before, self.playlist@);
        }
    }

    /// Makes `index` the current index.
    pub fn jump(&mut self, index: usize)
        ensures
            final(self)@ == at_index(old(self)@, index),
    {
        self.current_playing = index;
        self.update_hash();
    }

    /// Moves to the next song, wrapping at the top of `usize`.
    pub fn next(&mut self)
        ensures
            final(self)@ == at_index(old(self)@, index_after(old(self)@.current)),
    {
        self.current_playing = self.current_playing.wrapping_add(1);
        self.update_hash();
    }

    /// Moves to the previous song, wrapping at 0.
    pub fn past(&mut self)
        ensures
            final(self)@ == at_index(old(self)@, index_before(old(self)@.current)),
    {
        self.current_playing = self.current_playing.wrapping_sub(1);
        self.update_hash();
    }

    /// The index of the current song.
    pub fn current_index(&self) -> (i: usize)
        ensures
            i == self@.current,
    {
        self.current_playing
    }

    /// The hash of the current song, as last taken.
    pub fn current_hash(&self) -> (h: u64)
        ensures
            h == self@.current_hash,
    {
        self.current_hash
    }

    /// Whether playback is on.
    pub fn playing(&self) -> (b: bool)
        ensures
            b == self@.playing,
    {
        self.playing
    }

    /// The text that `!list` answers with.
    pub fn pl_list(&self) -> (text: String)
        ensures
            text@ == playlist_listing(self@),
    {
        let ghost v = self@;
        let mut out = String::new();
        out.append("\ncurrent playlist:\n");
        if self.loop_playlist() {
            out.append("> looping playlist");
        } else if self.loop_song() {
            out.append("> looping current song");
        }
        out.append("\n\n");
        let ghost head = out@;
        assert(head =~= "\ncurrent playlist:\n"@ + loop_banner(v) + "\n\n"@);
        let cx = self.current_index();
        let pl_len = self.playlist.len();
        let mut i: usize = 0;
        while i < pl_len
            invariant
                v == self@,
                cx == v.current,
                pl_len == v.playlist.len(),
                i <= pl_len,
                out@ == head + playlist_lines(v, i as int),
            decreases pl_len - i,
        {
            let name = self.playlist[i].name.as_str();
            let ghost before = out@;
            if i == cx {
                out.append(
                    if self.playing() {
                        ">"
                    } else {
                        "|"
                    },
                );
                out.append(" [COLOR=#0fff0f]");
                push_decimal(&mut out, i as u128);
                out.append("[/COLOR] [B]");
                out.append(name);
                out.append("[/B]\n");
            } else {
                out.append("[COLOR=#00ffff]");
                push_decimal(&mut out, i as u128);
                out.append("[/COLOR] ");
                out.append(name);
                out.append("\n");
            }
            assert(out@ =~= before + playlist_line(v, i as int));
            assert(playlist_lines(v, i + 1) == playlist_lines(v, i as int) + playlist_line(
                v,
                i as int,
            ));
            assert(out@ =~= head + playlist_lines(v, i + 1));
            i = i + 1;
        }
        if self.queued.len() == 0 {
            return out;
        }
        out.append("\nqueued:\n");
        let ghost mid = out@;
        let q_len = self.queued.len();
        let mut j: usize = 0;
        while j < q_len
            invariant
                v == self@,
                pl_len == v.playlist.len(),
                q_len == v.queued.len(),
                j <= q_len,
                out@ == mid + queue_lines(v, j as int),
            decreases q_len - j,
        {
            let entry = self.queued[j].as_str();
            assert(entry@ == v.queued[j as int]);
            let ghost before = out@;
            out.append("[COLOR=#FF69B4]");
            push_decimal(&mut out, j as u128 + pl_len as u128);
            out.append("[/COLOR] ");
            out.append(entry);
            out.append("\n");
            assert(out@ =~= before + queue_line(v, j as int));
            assert(queue_lines(v, j + 1) == queue_lines(v, j as int) + queue_line(v, j as int));
            assert(out@ =~= mid + queue_lines(v, j + 1));
            j = j + 1;
        }
        out
    }

    /// The path at the front of the queue, if any.
    pub fn queue_front(&self) -> (p: Option<String>)
        ensures
            p is Some <==> self@.queued.len() > 0,
            p is Some ==> p->0@ == self@.queued[0],
    {
        if self.queued.len() > 0 {
            Some(self.queued[0].clone())
        } else {
            None
        }
    }

    /// Drops the path at the front of the queue, if any.
    pub fn queue_pop_front(&mut self)
        ensures
            final(self)@ == (MaeveView {
                queued: if old(self)@.queued.len() > 0 {
                    old(self)@.queued.drop_first()
                } else {
                    old(self)@.queued
                },
                ..old(self)@
            }),
    {
        let ghost q = self.queued@;
        let _ = self.queued.pop_front();
        assert(self@.queued =~= (if q.len() > 0 {
            q.map_values(|s: String| s@).drop_first()
        } else {
            q.map_values(|s: String| s@)
        }));
    }

    /// Puts a path at the back of the queue.
    pub fn queue_add(&mut self, path: String)
        ensures
            final(self)@ == (MaeveView { queued: old(self)@.queued.push(path@), ..old(self)@ }),
    {
        let ghost q = self.queued@;
        self.queued.push_back(path);
        assert(self@.queued =~= q.map_values(|s: String| s@).push(path@));
    }

    /// Empties the queue.
    pub fn queue_clear(&mut self)
        ensures
            final(self)@ == (MaeveView { queued: Seq::empty(), ..old(self)@ }),
    {
        self.queued.clear();
        assert(self@.queued =~= Seq::<Seq<char>>::empty());
    }

    /// Empties the playlist and goes back to its start.
    pub fn pl_clear(&mut self)
        ensures
            final(self)@ == (MaeveView {
                playlist: Seq::empty(),
                current: 0,
                current_hash: 0,
                ..old(self)@
            }),
    {
        self.playlist.clear();
        self.current_playing = 0;
        self.update_hash();
    }
}

impl MaeveState {
    /// A copy of the current song, if the current index is in the playlist.
    pub fn current_song(&self) -> (song: Option<Song>)
        ensures
            song is Some <==> self@.current < self@.playlist.len(),
            song is Some ==> {
                let s = self@.playlist[self@.current as int];
                &&& song->0.name@ == s.name@
                &&& song->0.hash == s.hash
                &&& song->0.packets@.len() == s.packets@.len()
                &&& forall|i: int|
                    0 <= i < s.packets@.len() ==> cloned(s.packets@[i], #[trigger] song->0.packets@[i])
            },
    {
        let cx = self.current_playing;
        if cx < self.playlist.len() {
            let s = &self.playlist[cx];
            Some(Song { packets: s.packets.clone(), name: s.name.clone(), hash: s.hash })
        } else {
            None
        }
    }
}

} // verus!

verus! {

/// `!loop` goes round three modes: three steps bring back the mode one started from.
pub proof fn lemma_loop_cycle_period(v: MaeveView)
    requires
        v.loop_modes_exclusive(),
    ensures
        cycled_loop(cycled_loop(cycled_loop(v))) == v,
{
}

/// Whatever the loop flags were, after a `!loop` at most one of them is on.
pub proof fn lemma_loop_cycle_exclusive(v: MaeveView)
    ensures
        cycled_loop(v).loop_modes_exclusive(),
{
}

/// `!play` toggles: two of them bring back the state one started from.
pub proof fn lemma_play_toggles(v: MaeveView)
    ensures
        toggled(toggled(v)) == v,
        toggled(v).playing != v.playing,
{
}

/// `!next` then `!past` come back to the index one started from, with its song's hash.
pub proof fn lemma_next_then_past(v: MaeveView)
    ensures
        at_index(at_index(v, index_after(v.current)), index_before(at_index(v, index_after(v.current)).current))
            == at_index(v, v.current),
{
}

/// After the songs `start..end` leave the playlist, the current index still points at the
/// same song when that song was before the removed ones or past the end of the range.
pub proof fn lemma_removal_keeps_current_song(
    playlist: Seq<Song>,
    cur: usize,
    start: usize,
    end: usize,
)
    requires
        start <= end <= playlist.len(),
        cur < playlist.len(),
        cur < start || end < cur,
    ensures
        ({
            let list = playlist.subrange(0, start as int) + playlist.subrange(
                end as int,
                playlist.len() as int,
            );
            let i = index_after_removal(cur, start, end);
            &&& i < list.len()
            &&& list[i as int] == playlist[cur as int]
        }),
{
}

/// When the current song is among the removed ones, the current index goes to where the
/// removed songs started, which is where the first song after them now stands.
pub proof fn lemma_removal_of_current_song(v: MaeveView, start: usize, end: usize)
    requires
        start <= v.current,
        v.current < end,
        v.current < v.playlist.len(),
    ensures
        ({
            let cut = if end < v.playlist.len() {
                end as int
            } else {
                v.playlist.len() as int
            };
            let after = after_removal(v, start, end);
            &&& after.current == start
            &&& cut < v.playlist.len() ==> after.playlist[start as int] == v.playlist[cut]
            &&& cut < v.playlist.len() ==> after.current_hash == v.playlist[cut].hash
        }),
{
}

/// Removing the songs `start..end` keeps the others in their order: those before the range
/// stay where they were, those after it move down by the number removed, and so does the
/// current index when it was past the range. Nothing else changes.
pub proof fn lemma_removal_keeps_the_rest(v: MaeveView, start: usize, end: usize)
    requires
        can_remove(v, start, end),
    ensures
        ({
            let cut = if end < v.playlist.len() {
                end as int
            } else {
                v.playlist.len() as int
            };
            let after = after_removal(v, start, end);
            &&& after.playlist.len() == v.playlist.len() - (cut - start)
            &&& forall|i: int| 0 <= i < start ==> after.playlist[i] == v.playlist[i]
            &&& forall|i: int|
                start <= i < after.playlist.len() ==> after.playlist[i] == v.playlist[i + cut
                    - start]
            &&& v.current < start ==> after.current == v.current
            &&& v.current > cut ==> after.current == v.current - (cut - start)
            &&& after.queued == v.queued
            &&& after.playing == v.playing
            &&& after.loop_song == v.loop_song
            &&& after.loop_playlist == v.loop_playlist
        }),
{
}

proof fn lemma_playlist_lines_prefix(v: MaeveView, m: int, n: int)
    requires
        0 <= m <= n,
    ensures
        playlist_lines(v, m).len() <= playlist_lines(v, n).len(),
        playlist_lines(v, n).subrange(0, playlist_lines(v, m).len() as int) == playlist_lines(
            v,
            m,
        ),
    decreases n,
{
    if n > m {
        lemma_playlist_lines_prefix(v, m, n - 1);
        let a = playlist_lines(v, n - 1);
        let k = playlist_lines(v, m).len() as int;
        assert(playlist_lines(v, n).subrange(0, k) =~= a.subrange(0, k));
    } else {
        assert(playlist_lines(v, n).subrange(0, playlist_lines(v, n).len() as int) =~= playlist_lines(v, n));
    }
}

/// Every song of the playlist has its line in the `!list` text: its index in decimal and its
/// name, marked `>` (playing) or `|` (paused) when it is the current song. The result is where
/// the line starts.
pub proof fn lemma_listing_shows_every_song(v: MaeveView, i: int) -> (k: int)
    requires
        0 <= i < v.playlist.len(),
    ensures
        ({
            let line = if i == v.current {
                (if v.playing {
                    ">"@
                } else {
                    "|"@
                }) + " [COLOR=#0fff0f]"@ + decimal(i as nat) + "[/COLOR] [B]"@ + v.playlist[i].name@
                    + "[/B]\n"@
            } else {
                "[COLOR=#00ffff]"@ + decimal(i as nat) + "[/COLOR] "@ + v.playlist[i].name@ + "\n"@
            };
            &&& 0 <= k
            &&& k + line.len() <= playlist_listing(v).len()
            &&& playlist_listing(v).subrange(k, k + line.len()) == line
        }),
{
    let line = playlist_line(v, i);
    let n = v.playlist.len() as int;
    let p = "\ncurrent playlist:\n"@ + loop_banner(v) + "\n\n"@;
    let all = playlist_lines(v, n);
    let before = playlist_lines(v, i);
    lemma_playlist_lines_prefix(v, i + 1, n);
    assert(playlist_lines(v, i + 1) == before + line);
    let b = before.len() as int;
    let l = line.len() as int;
    let k = p.len() + b;
    let listing = playlist_listing(v);
    assert(listing.subrange(0, (p.len() + all.len()) as int) =~= p + all);
    assert(listing.subrange(k, k + l) =~= all.subrange(b, b + l));
    assert(all.subrange(b, b + l) =~= (before + line).subrange(b, b + l));
    assert(listing.subrange(k, k + l) =~= line);
    k
}

proof fn lemma_playlist_lines_agree(v: MaeveView, w: MaeveView, n: int)
    requires
        0 <= n <= v.playlist.len(),
        n <= w.playlist.len(),
        v.current == w.current,
        v.playing == w.playing,
        forall|i: int| 0 <= i < n ==> v.playlist[i] == w.playlist[i],
    ensures
        playlist_lines(v, n) == playlist_lines(w, n),
    decreases n,
{
    if n > 0 {
        lemma_playlist_lines_agree(v, w, n - 1);
    }
}

/// A song added at the end of the playlist, when it is not the current one and nothing is
/// queued, adds its line at the end of the `!list` text and changes nothing before it.
pub proof fn lemma_listing_grows_with_playlist(v: MaeveView, s: Song)
    requires
        v.queued.len() == 0,
        v.current != v.playlist.len(),
    ensures
        playlist_listing(MaeveView { playlist: v.playlist.push(s), ..v }) == playlist_listing(v)
            + "[COLOR=#00ffff]"@ + decimal(v.playlist.len()) + "[/COLOR] "@ + s.name@ + "\n"@,
{
    let w = MaeveView { playlist: v.playlist.push(s), ..v };
    let n = v.playlist.len() as int;
    lemma_playlist_lines_agree(v, w, n);
    assert(w.playlist[n] == s);
    assert(playlist_lines(w, n + 1) == playlist_lines(w, n) + playlist_line(w, n));
    assert(playlist_listing(w) =~= playlist_listing(v) + "[COLOR=#00ffff]"@ + decimal(
        v.playlist.len(),
    ) + "[/COLOR] "@ + s.name@ + "\n"@);
}

proof fn lemma_named_prepend(s: Song, rest: Seq<Song>, key: Seq<u8>)
    ensures
        songs_named(seq![s] + rest, key) == if name_key(s) == key {
            seq![s] + songs_named(rest, key)
        } else {
            songs_named(rest, key)
        },
{
    rest.lemma_filter_prepend(s, has_key(key));
}

proof fn lemma_sorted_drop_first(t: Seq<Song>)
    requires
        sorted_by_name(t),
        t.len() > 0,
    ensures
        sorted_by_name(t.drop_first()),
{
    assert forall|i: int, j: int| 0 <= i < j < t.drop_first().len() implies !bytes_lt(
        name_key(#[trigger] t.drop_first()[j]),
        name_key(#[trigger] t.drop_first()[i]),
    ) by {
        assert(t.drop_first()[j] == t[j + 1] && t.drop_first()[i] == t[i + 1]);
    }
}

proof fn lemma_named_contains(t: Seq<Song>, key: Seq<u8>)
    requires
        songs_named(t, key).len() > 0,
    ensures
        exists|j: int| 0 <= j < t.len() && name_key(#[trigger] t[j]) == key,
{
    let x = songs_named(t, key)[0];
    t.lemma_filter_pred(has_key(key), 0);
    assert(songs_named(t, key).contains(x));
    t.lemma_filter_contains_rev(has_key(key), x);
}

proof fn lemma_filter_count<A>(s: Seq<A>, pred: spec_fn(A) -> bool, x: A)
    requires
        pred(x),
    ensures
        s.filter(pred).to_multiset().count(x) == s.to_multiset().count(x),
    decreases s.len(),
{
    broadcast use vstd::seq_lib::group_to_multiset_ensures;

    reveal(Seq::filter);
    if s.len() == 0 {
        assert(s.filter(pred) =~= s);
    } else {
        let t = s.drop_last();
        lemma_filter_count(t, pred, x);
        assert(s =~= t.push(s.last()));
        if pred(s.last()) {
            assert(s.filter(pred) == t.filter(pred).push(s.last()));
        } else {
            assert(s.filter(pred) == t.filter(pred));
            assert(s.last() != x);
        }
    }
}

/// A stable sort by name keeps the same songs, each as often: it only reorders them.
pub proof fn lemma_stable_name_sort_permutes(before: Seq<Song>, after: Seq<Song>)
    requires
        stable_name_sort(before, after),
    ensures
        after.to_multiset() == before.to_multiset(),
{
    assert forall|x: Song| after.to_multiset().count(x) == before.to_multiset().count(x) by {
        let key = name_key(x);
        assert(has_key(key)(x));
        lemma_filter_count(after, has_key(key), x);
        lemma_filter_count(before, has_key(key), x);
        assert(songs_named(after, key) == songs_named(before, key));
    }
    assert(after.to_multiset() =~= before.to_multiset());
}

/// Two playlists that are sorted by name and hold the same songs of each name in the same
/// order are the same playlist: the stable sort by name has one result.
pub proof fn lemma_stable_name_sort_unique(a: Seq<Song>, t1: Seq<Song>, t2: Seq<Song>)
    requires
        stable_name_sort(a, t1),
        stable_name_sort(a, t2),
    ensures
        t1 == t2,
{
    assert(forall|key: Seq<u8>| #[trigger] songs_named(t1, key) == songs_named(t2, key)) by {
        assert forall|key: Seq<u8>| #[trigger] songs_named(t1, key) == songs_named(t2, key) by {
            assert(songs_named(t1, key) == songs_named(a, key));
            assert(songs_named(t2, key) == songs_named(a, key));
        }
    }
    lemma_same_names_sorted_equal(t1, t2);
}

proof fn lemma_named_nonempty_when_present(t: Seq<Song>)
    requires
        t.len() > 0,
    ensures
        songs_named(t, name_key(t[0])).len() > 0,
        songs_named(t, name_key(t[0]))[0] == t[0],
{
    assert(t =~= seq![t[0]] + t.drop_first());
    lemma_named_prepend(t[0], t.drop_first(), name_key(t[0]));
}

proof fn lemma_same_names_same_emptiness(t1: Seq<Song>, t2: Seq<Song>)
    requires
        forall|key: Seq<u8>| #[trigger] songs_named(t1, key) == songs_named(t2, key),
        t1.len() > 0,
    ensures
        t2.len() > 0,
{
    lemma_named_nonempty_when_present(t1);
    let k = name_key(t1[0]);
    assert(songs_named(t1, k) == songs_named(t2, k));
    if t2.len() == 0 {
        reveal(Seq::filter);
        assert(songs_named(t2, k) =~= Seq::<Song>::empty());
    }
}

proof fn lemma_first_key_is_least(t: Seq<Song>, key: Seq<u8>)
    requires
        sorted_by_name(t),
        t.len() > 0,
        songs_named(t, key).len() > 0,
    ensures
        !bytes_lt(key, name_key(t[0])),
{
    lemma_named_contains(t, key);
    let j = choose|j: int| 0 <= j < t.len() && name_key(#[trigger] t[j]) == key;
    if j > 0 {
        assert(!bytes_lt(name_key(t[j]), name_key(t[0])));
    } else {
        crate::order::lemma_bytes_lt_irreflexive(key);
    }
}

proof fn lemma_same_first_key(t1: Seq<Song>, t2: Seq<Song>)
    requires
        sorted_by_name(t1),
        sorted_by_name(t2),
        forall|key: Seq<u8>| #[trigger] songs_named(t1, key) == songs_named(t2, key),
        t1.len() > 0,
        t2.len() > 0,
    ensures
        name_key(t1[0]) == name_key(t2[0]),
{
    let k1 = name_key(t1[0]);
    let k2 = name_key(t2[0]);
    lemma_named_nonempty_when_present(t1);
    lemma_named_nonempty_when_present(t2);
    assert(songs_named(t1, k1) == songs_named(t2, k1));
    assert(songs_named(t1, k2) == songs_named(t2, k2));
    lemma_first_key_is_least(t2, k1);
    lemma_first_key_is_least(t1, k2);
    if k1 != k2 {
        crate::order::lemma_bytes_lt_total(k1, k2);
    }
}

proof fn lemma_same_names_after_first(t1: Seq<Song>, t2: Seq<Song>)
    requires
        forall|key: Seq<u8>| #[trigger] songs_named(t1, key) == songs_named(t2, key),
        t1.len() > 0,
        t2.len() > 0,
        t1[0] == t2[0],
    ensures
        forall|key: Seq<u8>| #[trigger]
            songs_named(t1.drop_first(), key) == songs_named(t2.drop_first(), key),
{
    let x = t1[0];
    assert(t1 =~= seq![x] + t1.drop_first());
    assert(t2 =~= seq![x] + t2.drop_first());
    assert forall|key: Seq<u8>| #[trigger]
        songs_named(t1.drop_first(), key) == songs_named(t2.drop_first(), key) by {
        lemma_named_prepend(x, t1.drop_first(), key);
        lemma_named_prepend(x, t2.drop_first(), key);
        assert(songs_named(t1, key) == songs_named(t2, key));
        if name_key(x) == key {
            assert(songs_named(t1.drop_first(), key) =~= songs_named(t1, key).drop_first());
            assert(songs_named(t2.drop_first(), key) =~= songs_named(t2, key).drop_first());
        }
    }
}

proof fn lemma_same_names_sorted_equal(t1: Seq<Song>, t2: Seq<Song>)
    requires
        sorted_by_name(t1),
        sorted_by_name(t2),
        forall|key: Seq<u8>| #[trigger] songs_named(t1, key) == songs_named(t2, key),
    ensures
        t1 == t2,
    decreases t1.len(),
{
    if t1.len() == 0 {
        if t2.len() > 0 {
            assert forall|key: Seq<u8>| #[trigger] songs_named(t2, key) == songs_named(t1, key)
                by {
                assert(songs_named(t1, key) == songs_named(t2, key));
            }
            lemma_same_names_same_emptiness(t2, t1);
        }
        assert(t1 =~= t2);
    } else {
        lemma_same_names_same_emptiness(t1, t2);
        lemma_same_first_key(t1, t2);
        let k = name_key(t1[0]);
        lemma_named_nonempty_when_present(t1);
        lemma_named_nonempty_when_present(t2);
        assert(songs_named(t1, k) == songs_named(t2, k));
        assert(t1[0] == t2[0]);
        lemma_same_names_after_first(t1, t2);
        lemma_sorted_drop_first(t1);
        lemma_sorted_drop_first(t2);
        lemma_same_names_sorted_equal(t1.drop_first(), t2.drop_first());
        assert(t1 =~= t2) by {
            assert forall|i: int| 0 <= i < t1.len() implies t1[i] == t2[i] by {
                if i > 0 {
                    assert(t1[i] == t1.drop_first()[i - 1]);
                    assert(t2[i] == t2.drop_first()[i - 1]);
                }
            }
        }
    }
}

/// Sorting an already sorted playlist changes nothing, so sorting twice is sorting once.
pub proof fn lemma_sort_idempotent(before: Seq<Song>, after: Seq<Song>)
    requires
        sorted_by_name(before),
        stable_name_sort(before, after),
    ensures
        after == before,
{
    lemma_stable_name_sort_unique(before, after, before);
}

} // verus!

verus! {

/// The playlist and the queue of a state are in memory, so their lengths fit in a `usize`.
pub proof fn lemma_lengths_fit(s: &MaeveState)
    ensures
        s@.playlist.len() <= usize::MAX,
        s@.queued.len() <= usize::MAX,
{
    assert(s.playlist.len() == s.playlist@.len());
    assert(s.queued.len() == s.queued@.len());
}

/// No song stands at index `usize::MAX`: going back from index 0 leaves no current song and a
/// current hash of 0.
pub proof fn lemma_past_from_start_has_no_song(s: &MaeveState)
    requires
        s@.current == 0,
    ensures
        at_index(s@, index_before(s@.current)).current_hash == 0,
        at_index(s@, index_before(s@.current)).current >= s@.playlist.len(),
{
    lemma_lengths_fit(s);
}

} // verus!
