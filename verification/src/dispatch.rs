use vstd::prelude::*;
use vstd::string::StringExecFns;

use crate::command::{CommandView, MaeveCommand};
use crate::state::{
    after_removal, at_index, can_remove, cycled_loop, index_after, index_before,
    playlist_listing, stable_name_sort, toggled, MaeveState, MaeveView,
};

verus! {

/// What the bot does after a command has changed its state.
pub enum Reply {
    /// Nothing more.
    Nothing,
    /// Playback has just resumed: whoever waits for it is woken.
    Resumed,
    /// The current song may have changed: whoever waits for it is woken.
    Moved,
    /// The help text is sent to whoever asked.
    HelpText,
    /// This listing is sent to whoever asked.
    Listing(String),
    /// The files that match this query are looked up, then queued with `enqueue_found`.
    LookUp(String),
}

/// A reply as a mathematical value.
pub enum ReplyView {
    Nothing,
    Resumed,
    Moved,
    HelpText,
    Listing(Seq<char>),
    LookUp(Seq<char>),
}

impl View for Reply {
    type V = ReplyView;

    open spec fn view(&self) -> ReplyView {
        match self {
            Reply::Nothing => ReplyView::Nothing,
            Reply::Resumed => ReplyView::Resumed,
            Reply::Moved => ReplyView::Moved,
            Reply::HelpText => ReplyView::HelpText,
            Reply::Listing(t) => ReplyView::Listing(t@),
            Reply::LookUp(q) => ReplyView::LookUp(q@),
        }
    }
}

/// Whether a `!remove` command names a range that can be removed from `v`; every other
/// command can be applied.
pub open spec fn command_applicable(v: MaeveView, cmd: CommandView) -> bool {
    match cmd {
        CommandView::Remove(a, b) => can_remove(v, a as usize, b as usize),
        _ => true,
    }
}

/// What command `cmd` does to the state `old`, giving `new`, and what it answers with.
pub open spec fn command_applied(
    old: MaeveView,
    new: MaeveView,
    cmd: CommandView,
    reply: ReplyView,
) -> bool {
    match cmd {
        CommandView::Add(q) => new == old && reply == ReplyView::LookUp(q),
        CommandView::Pause => new == (MaeveView { playing: false, ..old }) && reply
            == ReplyView::Nothing,
        CommandView::Play => new == toggled(old) && reply == (if old.playing {
            ReplyView::Nothing
        } else {
            ReplyView::Resumed
        }),
        CommandView::Jump(i) => new == at_index(old, i) && reply == ReplyView::Moved,
        CommandView::Remove(a, b) => new == after_removal(old, a as usize, b as usize) && reply
            == ReplyView::Moved,
        CommandView::Help => new == old && reply == ReplyView::HelpText,
        CommandView::Next => new == at_index(old, index_after(old.current)) && reply
            == ReplyView::Moved,
        CommandView::Past => new == at_index(old, index_before(old.current)) && reply
            == ReplyView::Moved,
        CommandView::List => new == old && reply == ReplyView::Listing(playlist_listing(old)),
        CommandView::Clear => new == (MaeveView {
            playlist: Seq::empty(),
            current: 0,
            current_hash: 0,
            ..old
        }) && reply == ReplyView::Moved,
        CommandView::QueueClear => new == (MaeveView { queued: Seq::empty(), ..old }) && reply
            == ReplyView::Nothing,
        CommandView::Shuffle => {
            &&& new.playlist.to_multiset() == old.playlist.to_multiset()
            &&& new.playlist.len() == old.playlist.len()
            &&& new == (MaeveView { playlist: new.playlist, ..old })
            &&& reply == ReplyView::Nothing
        },
        CommandView::Sort => {
            &&& stable_name_sort(old.playlist, new.playlist)
            &&& new.playlist.to_multiset() == old.playlist.to_multiset()
            &&& new == (MaeveView { playlist: new.playlist, ..old })
            &&& reply == ReplyView::Nothing
        },
        CommandView::Loop => new == cycled_loop(old) && reply == ReplyView::Nothing,
    }
}

/// Carries out a chat command on the player's state.
pub fn apply_command(state: &mut MaeveState, cmd: MaeveCommand) -> (reply: Reply)
    requires
        command_applicable(old(state)@, cmd@),
    ensures
        command_applied(old(state)@, final(state)@, cmd@, reply@),
{
    match cmd {
        MaeveCommand::Play => {
            if state.play() {
                Reply::Resumed
            } else {
                Reply::Nothing
            }
        },
        MaeveCommand::Pause => {
            state.pause();
            Reply::Nothing
        },
        MaeveCommand::Jump(x) => {
            state.jump(x);
            Reply::Moved
        },
        MaeveCommand::Remove(x) => {
            state.remove_range(x);
            Reply::Moved
        },
        MaeveCommand::Next => {
            state.next();
            Reply::Moved
        },
        MaeveCommand::Past => {
            state.past();
            Reply::Moved
        },
        MaeveCommand::Shuffle => {
            state.shuffle();
            Reply::Nothing
        },
        MaeveCommand::Sort => {
            state.sort();
            Reply::Nothing
        },
        MaeveCommand::Loop => {
            state.loop_cycle();
            Reply::Nothing
        },
        MaeveCommand::Help => Reply::HelpText,
        MaeveCommand::Add(name) => Reply::LookUp(name),
        MaeveCommand::List => Reply::Listing(state.pl_list()),
        MaeveCommand::Clear => {
            state.pl_clear();
            Reply::Moved
        },
        MaeveCommand::QueueClear => {
            state.queue_clear();
            Reply::Nothing
        },
    }
}

/// No command but `!queue-clear` changes the queue; `!queue-clear` empties it and leaves the
/// playlist, the current index and playback as they were.
pub proof fn lemma_queue_changes_only_on_queue_clear(
    old: MaeveView,
    new: MaeveView,
    cmd: CommandView,
    reply: ReplyView,
)
    requires
        command_applied(old, new, cmd, reply),
    ensures
        !(cmd is QueueClear) ==> new.queued == old.queued,
        cmd is QueueClear ==> {
            &&& new.queued.len() == 0
            &&& new.playlist == old.playlist
            &&& new.current == old.current
            &&& new.playing == old.playing
        },
{
}

/// `!clear` empties the playlist and goes back to index 0, and keeps the queue and playback.
pub proof fn lemma_clear_empties_only_the_playlist(
    old: MaeveView,
    new: MaeveView,
    reply: ReplyView,
)
    requires
        command_applied(old, new, CommandView::Clear, reply),
    ensures
        new.playlist.len() == 0,
        new.current == 0,
        new.current_hash == 0,
        new.queued == old.queued,
        new.playing == old.playing,
{
}

/// After a `!pause` playback is off, whatever it was before, and nothing else changed; a
/// `!play` turns it the other way, and answers that it resumed exactly when it turned it on.
/// No other command touches playback.
pub proof fn lemma_playback_commands(
    old: MaeveView,
    new: MaeveView,
    cmd: CommandView,
    reply: ReplyView,
)
    requires
        command_applied(old, new, cmd, reply),
    ensures
        cmd is Pause ==> {
            &&& !new.playing
            &&& new.playlist == old.playlist
            &&& new.current == old.current
            &&& new.queued == old.queued
        },
        cmd is Play ==> {
            &&& new.playing == !old.playing
            &&& (reply == ReplyView::Resumed) == new.playing
            &&& new.playlist == old.playlist
            &&& new.current == old.current
        },
        !(cmd is Pause) && !(cmd is Play) ==> new.playing == old.playing,
{
}

/// Only `!remove`, `!clear`, `!shuffle` and `!sort` change the playlist, and the last two keep
/// its songs; the commands that only ask something change nothing at all.
pub proof fn lemma_playlist_commands(
    old: MaeveView,
    new: MaeveView,
    cmd: CommandView,
    reply: ReplyView,
)
    requires
        command_applied(old, new, cmd, reply),
    ensures
        !(cmd is Remove) && !(cmd is Clear) && !(cmd is Shuffle) && !(cmd is Sort) ==> new.playlist
            == old.playlist,
        cmd is Shuffle || cmd is Sort ==> new.playlist.to_multiset() == old.playlist.to_multiset()
            && new.current == old.current,
        cmd is Help || cmd is List || cmd is Add ==> new == old,
{
}

/// The answer to an `!add` whose query `name` found no file.
pub open spec fn not_found_text(name: Seq<char>) -> Seq<char> {
    "using \""@ + name + "\" "@ + "[COLOR=#ff0000]NO FILE WAS FOUND[/COLOR]"@
}

/// Queues the files that an `!add` of `name` found and answers with the listing, or, when it
/// found none, changes nothing and answers that nothing was found.
pub fn enqueue_found(state: &mut MaeveState, name: &str, found: Vec<String>) -> (reply: String)
    ensures
        found@.len() == 0 ==> final(state)@ == old(state)@ && reply@ == not_found_text(name@),
        found@.len() > 0 ==> final(state)@ == (MaeveView {
            queued: old(state)@.queued + found@.map_values(|f: String| f@),
            ..old(state)@
        }),
        found@.len() > 0 ==> reply@ == playlist_listing(final(state)@),
{
    if found.len() == 0 {
        let mut text = String::new();
        text.append("using \"");
        text.append(name);
        text.append("\" ");
        text.append("[COLOR=#ff0000]NO FILE WAS FOUND[/COLOR]");
        assert(text@ =~= not_found_text(name@));
        return text;
    }
    let ghost before = state@;
    let ghost all = found@.map_values(|f: String| f@);
    let n = found.len();
    let mut rest = found;
    let mut i: usize = 0;
    while rest.len() > 0
        invariant
            n == all.len(),
            i + rest@.len() == n,
            rest@.map_values(|f: String| f@) == all.subrange(i as int, n as int),
            state@ == (MaeveView { queued: before.queued + all.subrange(0, i as int), ..before }),
        decreases rest@.len(),
    {
        let ghost r = rest@;
        let path = rest.remove(0);
        assert(path@ == all[i as int]) by {
            assert(r.map_values(|f: String| f@)[0] == all.subrange(i as int, n as int)[0]);
        }
        state.queue_add(path);
        assert forall|k: int| 0 <= k < rest@.len() implies #[trigger] rest@[k]@ == all[i + 1 + k] by {
            assert(rest@[k] == r[k + 1]);
            assert(r.map_values(|f: String| f@)[k + 1] == all.subrange(i as int, n as int)[k + 1]);
        }
        assert(rest@.map_values(|f: String| f@) =~= all.subrange(i + 1, n as int));
        assert(before.queued + all.subrange(0, i + 1) =~= (before.queued + all.subrange(
            0,
            i as int,
        )).push(all[i as int]));
        i = i + 1;
    }
    assert(all.subrange(0, n as int) =~= all);
    state.pl_list()
}

/// What the player does next while it plays a song.
pub enum PlaybackAction {
    /// The song is over: move on to the next one.
    Advance,
    /// Another song was made current: start over with it.
    Restart,
    /// Playback is paused: wait until it resumes, then send the next packet.
    Wait,
    /// Send the next packet.
    Send,
}

/// The player's next step, for a song started at index `started_at` while the current index
/// is `current`: at the end of the song it moves on; before a packet it starts over when the
/// current song has changed, waits while paused, and sends otherwise.
pub fn playback_step(started_at: usize, current: usize, playing: bool, packets_left: bool) -> (a:
    PlaybackAction)
    ensures
        a == (if !packets_left {
            PlaybackAction::Advance
        } else if current != started_at {
            PlaybackAction::Restart
        } else if !playing {
            PlaybackAction::Wait
        } else {
            PlaybackAction::Send
        }),
{
    if !packets_left {
        PlaybackAction::Advance
    } else if current != started_at {
        PlaybackAction::Restart
    } else if !playing {
        PlaybackAction::Wait
    } else {
        PlaybackAction::Send
    }
}

} // verus!
