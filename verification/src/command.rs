use std::ops::Range;
use vstd::prelude::*;
use vstd::string::StrSliceExecFns;

use crate::number::{chars_of, parse_usize_chars, spec_parse_usize};

verus! {

/// A chat command understood by the bot.
#[derive(Debug)]
pub enum MaeveCommand {
    Add(String),
    Pause,
    Play,
    Jump(usize),
    Remove(Range<usize>),
    Help,
    Next,
    Past,
    List,
    Clear,
    QueueClear,
    Shuffle,
    Sort,
    Loop,
}

/// A command as a mathematical value: texts as character sequences, a range by its bounds.
pub enum CommandView {
    Add(Seq<char>),
    Pause,
    Play,
    Jump(usize),
    Remove(int, int),
    Help,
    Next,
    Past,
    List,
    Clear,
    QueueClear,
    Shuffle,
    Sort,
    Loop,
}

impl View for MaeveCommand {
    type V = CommandView;

    open spec fn view(&self) -> CommandView {
        match self {
            MaeveCommand::Add(s) => CommandView::Add(s@),
            MaeveCommand::Pause => CommandView::Pause,
            MaeveCommand::Play => CommandView::Play,
            MaeveCommand::Jump(i) => CommandView::Jump(*i),
            MaeveCommand::Remove(r) => CommandView::Remove(r.start as int, r.end as int),
            MaeveCommand::Help => CommandView::Help,
            MaeveCommand::Next => CommandView::Next,
            MaeveCommand::Past => CommandView::Past,
            MaeveCommand::List => CommandView::List,
            MaeveCommand::Clear => CommandView::Clear,
            MaeveCommand::QueueClear => CommandView::QueueClear,
            MaeveCommand::Shuffle => CommandView::Shuffle,
            MaeveCommand::Sort => CommandView::Sort,
            MaeveCommand::Loop => CommandView::Loop,
        }
    }
}

/// The index of the first `c` in `s` at or after `from`, or `s.len()` when there is none.
pub open spec fn find_char_from(s: Seq<char>, c: char, from: int) -> int
    decreases s.len() - from,
{
    if from >= s.len() {
        s.len() as int
    } else if s[from] == c {
        from
    } else {
        find_char_from(s, c, from + 1)
    }
}

/// The index of the first `".."` in `s` at or after `from`, or `s.len()` when there is none.
pub open spec fn find_dots_from(s: Seq<char>, from: int) -> int
    decreases s.len() - from,
{
    if from + 1 >= s.len() {
        s.len() as int
    } else if s[from] == '.' && s[from + 1] == '.' {
        from
    } else {
        find_dots_from(s, from + 1)
    }
}

/// Where the command word of message `s` ends: at the first space after the `!`, or at the end.
pub open spec fn word_end(s: Seq<char>) -> int {
    find_char_from(s, ' ', 1)
}

/// The argument of message `s`: everything after the first space, when there is a space.
pub open spec fn argument(s: Seq<char>) -> Option<Seq<char>> {
    let k = word_end(s);
    if k < s.len() {
        Some(s.subrange(k + 1, s.len() as int))
    } else {
        None
    }
}

/// The two numbers of a `!remove` argument `arg`, written `start` or `start..end`: the start,
/// and the end when a `..` is there and what follows it is a number.
pub open spec fn remove_bounds(arg: Seq<char>) -> Option<(usize, Option<usize>)> {
    let j = find_dots_from(arg, 0);
    match spec_parse_usize(arg.subrange(0, j)) {
        None => None,
        Some(start) => Some(
            (
                start,
                if j < arg.len() {
                    spec_parse_usize(arg.subrange(j + 2, arg.len() as int))
                } else {
                    None
                },
            ),
        ),
    }
}

/// The larger of the two `!remove` bounds, the one that the range's end is one past.
pub open spec fn remove_top(bounds: (usize, Option<usize>)) -> usize {
    match bounds.1 {
        Some(e) => if bounds.0 <= e {
            e
        } else {
            bounds.0
        },
        None => bounds.0,
    }
}

/// The range that a `!remove` argument names: from the smaller bound to one past the larger.
pub open spec fn remove_range_of(bounds: (usize, Option<usize>)) -> CommandView {
    match bounds.1 {
        Some(e) => CommandView::Remove(
            if bounds.0 <= e {
                bounds.0 as int
            } else {
                e as int
            },
            remove_top(bounds) + 1,
        ),
        None => CommandView::Remove(bounds.0 as int, bounds.0 + 1),
    }
}

/// What a chat message means: it starts with `!`, then a command word, then, for the commands
/// that take one, a space and an argument.
pub open spec fn spec_parse_command(s: Seq<char>) -> Option<CommandView> {
    if s.len() == 0 || s[0] != '!' {
        None
    } else {
        let word = s.subrange(1, word_end(s));
        let arg = argument(s);
        if word == "add"@ {
            match arg {
                Some(a) => Some(CommandView::Add(a)),
                None => None,
            }
        } else if word == "play"@ {
            Some(CommandView::Play)
        } else if word == "pause"@ {
            Some(CommandView::Pause)
        } else if word == "jump"@ {
            match arg {
                Some(a) => match spec_parse_usize(a) {
                    Some(n) => Some(CommandView::Jump(n)),
                    None => None,
                },
                None => None,
            }
        } else if word == "remove"@ {
            match arg {
                Some(a) => match remove_bounds(a) {
                    Some(b) => Some(remove_range_of(b)),
                    None => None,
                },
                None => None,
            }
        } else if word == "help"@ {
            Some(CommandView::Help)
        } else if word == "next"@ {
            Some(CommandView::Next)
        } else if word == "past"@ {
            Some(CommandView::Past)
        } else if word == "list"@ {
            Some(CommandView::List)
        } else if word == "clear"@ {
            Some(CommandView::Clear)
        } else if word == "queue-clear"@ {
            Some(CommandView::QueueClear)
        } else if word == "shuffle"@ {
            Some(CommandView::Shuffle)
        } else if word == "sort"@ {
            Some(CommandView::Sort)
        } else if word == "loop"@ {
            Some(CommandView::Loop)
        } else {
            None
        }
    }
}

/// Whether `s` is a `!remove` message whose larger bound is `usize::MAX`, so that the end of
/// its range, one past that bound, does not fit in a `usize`.
pub open spec fn remove_bound_overflows(s: Seq<char>) -> bool {
    &&& s.len() > 0
    &&& s[0] == '!'
    &&& s.subrange(1, word_end(s)) == "remove"@
    &&& argument(s) is Some
    &&& remove_bounds(argument(s)->0) is Some
    &&& remove_top(remove_bounds(argument(s)->0)->0) == usize::MAX
}

/// The help text that `!help` answers with.
pub const HELP_TEXT: &'static str = "
Maeve commands:

!add <song-query> -- use like music/fadaei*
!jump <index>
!remove <index> | <start>..<end>
!play -- toggle playing
!pause
!next
!past
!list
!clear -- this will clear the list
!queue-clear this will clear the queue
!shuffle
!sort
!loop -- toggle between playlist loop, song loop, and no loop

[COLOR=#FFD700]made by ostad 007[/COLOR]
        ";

proof fn lemma_find_dots_from_bounds(s: Seq<char>, from: int)
    requires
        0 <= from <= s.len(),
    ensures
        from <= find_dots_from(s, from) <= s.len(),
        find_dots_from(s, from) < s.len() ==> find_dots_from(s, from) + 2 <= s.len(),
    decreases s.len() - from,
{
    if from + 1 < s.len() && !(s[from] == '.' && s[from + 1] == '.') {
        lemma_find_dots_from_bounds(s, from + 1);
    }
}

/// The first index of `c` in `cs` at or after `from`, or the length when there is none.
fn find_char(cs: &Vec<char>, c: char, from: usize) -> (k: usize)
    requires
        from <= cs@.len(),
    ensures
        k == find_char_from(cs@, c, from as int),
        from <= k <= cs@.len(),
{
    let mut i = from;
    while i < cs.len()
        invariant
            from <= i <= cs@.len(),
            find_char_from(cs@, c, from as int) == find_char_from(cs@, c, i as int),
        decreases cs@.len() - i,
    {
        if cs[i] == c {
            return i;
        }
        i = i + 1;
    }
    i
}

/// The first index of `".."` in `cs` at or after `from`, or the length when there is none.
fn find_dots(cs: &Vec<char>, from: usize) -> (j: usize)
    requires
        from <= cs@.len(),
    ensures
        j == find_dots_from(cs@, from as int),
        from <= j <= cs@.len(),
        j < cs@.len() ==> j + 2 <= cs@.len(),
{
    proof {
        lemma_find_dots_from_bounds(cs@, from as int);
    }
    let mut i = from;
    while i < cs.len() && i + 1 < cs.len()
        invariant
            from <= i <= cs@.len(),
            find_dots_from(cs@, from as int) == find_dots_from(cs@, i as int),
        decreases cs@.len() - i,
    {
        if cs[i] == '.' && cs[i + 1] == '.' {
            return i;
        }
        i = i + 1;
    }
    cs.len()
}

/// Whether `cs[from..to]` is the text `word`.
fn text_equals(cs: &Vec<char>, from: usize, to: usize, word: &str) -> (b: bool)
    requires
        from <= to <= cs@.len(),
    ensures
        b == (cs@.subrange(from as int, to as int) == word@),
{
    let n = word.unicode_len();
    if to - from != n {
        return false;
    }
    let mut i: usize = 0;
    while i < n
        invariant
            n == word@.len(),
            to - from == n,
            from <= to <= cs@.len(),
            i <= n,
            forall|k: int| 0 <= k < i ==> cs@[from + k] == word@[k],
        decreases n - i,
    {
        if cs[from + i] != word.get_char(i) {
            assert(cs@.subrange(from as int, to as int)[i as int] != word@[i as int]);
            return false;
        }
        i = i + 1;
    }
    assert(cs@.subrange(from as int, to as int) =~= word@);
    true
}

/// The bounds of the `!remove` argument that stands in `cs[from..]`.
fn parse_remove_bounds(cs: &Vec<char>, from: usize) -> (r: Option<(usize, Option<usize>)>)
    requires
        from <= cs@.len(),
    ensures
        r == remove_bounds(cs@.subrange(from as int, cs@.len() as int)),
{
    let ghost arg = cs@.subrange(from as int, cs@.len() as int);
    let n = cs.len();
    let j = find_dots(cs, from);
    proof {
        lemma_find_dots_shift(cs@, from as int, 0);
        lemma_find_dots_from_bounds(arg, 0);
    }
    assert(arg.subrange(0, j - from) =~= cs@.subrange(from as int, j as int));
    let start = match parse_usize_chars(cs, from, j) {
        Some(v) => v,
        None => {
            return None;
        },
    };
    let end = if j < n {
        assert(arg.subrange(j - from + 2, arg.len() as int) =~= cs@.subrange(
            j + 2,
            n as int,
        ));
        parse_usize_chars(cs, j + 2, n)
    } else {
        None
    };
    Some((start, end))
}

proof fn lemma_find_dots_shift(s: Seq<char>, from: int, i: int)
    requires
        0 <= from <= s.len(),
        0 <= i,
    ensures
        find_dots_from(s.subrange(from, s.len() as int), i) + from == find_dots_from(
            s,
            from + i,
        ),
    decreases s.len() - from - i,
{
    let t = s.subrange(from, s.len() as int);
    if i + 1 < t.len() && !(t[i] == '.' && t[i + 1] == '.') {
        lemma_find_dots_shift(s, from, i + 1);
    }
}

impl MaeveCommand {
    /// The text that lists the commands.
    pub fn help() -> (text: &'static str)
        ensures
            text@ == HELP_TEXT@,
    {
        HELP_TEXT
    }

    /// Whether `value` is a `!remove` message whose range end would not fit in a `usize`, a
    /// message that `parse_str` does not take.
    pub fn parse_overflows(value: &str) -> (b: bool)
        ensures
            b == remove_bound_overflows(value@),
    {
        let cs = chars_of(value);
        let n = cs.len();
        if n == 0 || cs[0] != '!' {
            return false;
        }
        let k = find_char(&cs, ' ', 1);
        if !text_equals(&cs, 1, k, "remove") || k >= n {
            return false;
        }
        assert(argument(value@) == Some(cs@.subrange(k + 1, n as int)));
        match parse_remove_bounds(&cs, k + 1) {
            None => false,
            Some((start, end)) => match end {
                Some(e) => (if start <= e {
                    e
                } else {
                    start
                }) == usize::MAX,
                None => start == usize::MAX,
            },
        }
    }

    /// Reads a chat message as a command; `None` when it is not one.
    pub fn parse_str(value: &str) -> (r: Option<Self>)
        requires
            !remove_bound_overflows(value@),
        ensures
            r is Some <==> spec_parse_command(value@) is Some,
            r is Some ==> r->0@ == spec_parse_command(value@)->0,
    {
        let cs = chars_of(value);
        let n = cs.len();
        if n == 0 || cs[0] != '!' {
            return None;
        }
        let k = find_char(&cs, ' ', 1);
        let ghost word = value@.subrange(1, k as int);
        let ghost arg = argument(value@);
        assert(k < n ==> arg == Some(cs@.subrange(k + 1, n as int)));
        assert(k >= n ==> arg is None);
        if text_equals(&cs, 1, k, "add") {
            if k < n {
                let rest = value.substring_char(k + 1, n);
                return Some(MaeveCommand::Add(rest.to_owned()));
            }
            return None;
        }
        if text_equals(&cs, 1, k, "play") {
            return Some(MaeveCommand::Play);
        }
        if text_equals(&cs, 1, k, "pause") {
            return Some(MaeveCommand::Pause);
        }
        if text_equals(&cs, 1, k, "jump") {
            if k < n {
                return match parse_usize_chars(&cs, k + 1, n) {
                    Some(i) => Some(MaeveCommand::Jump(i)),
                    None => None,
                };
            }
            return None;
        }
        if text_equals(&cs, 1, k, "remove") {
            if k < n {
                return match parse_remove_bounds(&cs, k + 1) {
                    None => None,
                    Some((start, end)) => {
                        let range = match end {
                            Some(e) => {
                                let lo = if start <= e {
                                    start
                                } else {
                                    e
                                };
                                let hi = if start <= e {
                                    e
                                } else {
                                    start
                                };
                                lo..hi + 1
                            },
                            None => start..start + 1,
                        };
                        Some(MaeveCommand::Remove(range))
                    },
                };
            }
            return None;
        }
        if text_equals(&cs, 1, k, "help") {
            return Some(MaeveCommand::Help);
        }
        if text_equals(&cs, 1, k, "next") {
            return Some(MaeveCommand::Next);
        }
        if text_equals(&cs, 1, k, "past") {
            return Some(MaeveCommand::Past);
        }
        if text_equals(&cs, 1, k, "list") {
            return Some(MaeveCommand::List);
        }
        if text_equals(&cs, 1, k, "clear") {
            return Some(MaeveCommand::Clear);
        }
        if text_equals(&cs, 1, k, "queue-clear") {
            return Some(MaeveCommand::QueueClear);
        }
        if text_equals(&cs, 1, k, "shuffle") {
            return Some(MaeveCommand::Shuffle);
        }
        if text_equals(&cs, 1, k, "sort") {
            return Some(MaeveCommand::Sort);
        }
        if text_equals(&cs, 1, k, "loop") {
            return Some(MaeveCommand::Loop);
        }
        None
    }
}

} // verus!

verus! {

proof fn lemma_find_char_at(s: Seq<char>, c: char, from: int, at: int)
    requires
        0 <= from <= at <= s.len(),
        forall|i: int| from <= i < at ==> s[i] != c,
        at == s.len() || s[at] == c,
    ensures
        find_char_from(s, c, from) == at,
    decreases at - from,
{
    if from < at {
        lemma_find_char_at(s, c, from + 1, at);
    }
}

proof fn lemma_find_dots_at(s: Seq<char>, from: int, at: int)
    requires
        0 <= from <= at,
        at + 1 < s.len(),
        forall|i: int| from <= i < at ==> s[i] != '.',
        s[at] == '.' && s[at + 1] == '.',
    ensures
        find_dots_from(s, from) == at,
    decreases at - from,
{
    if from < at {
        lemma_find_dots_at(s, from + 1, at);
    }
}

proof fn lemma_find_dots_none(s: Seq<char>, from: int)
    requires
        0 <= from,
        forall|i: int| from <= i < s.len() ==> s[i] != '.',
    ensures
        find_dots_from(s, from) == s.len(),
    decreases s.len() - from,
{
    if from + 1 < s.len() {
        lemma_find_dots_none(s, from + 1);
    }
}

proof fn lemma_keywords_distinct()
    ensures
        "add"@ == seq!['a', 'd', 'd'],
        "play"@ == seq!['p', 'l', 'a', 'y'],
        "pause"@ == seq!['p', 'a', 'u', 's', 'e'],
        "jump"@ == seq!['j', 'u', 'm', 'p'],
        "remove"@ == seq!['r', 'e', 'm', 'o', 'v', 'e'],
{
    reveal_strlit("add");
    reveal_strlit("play");
    reveal_strlit("pause");
    reveal_strlit("jump");
    reveal_strlit("remove");
}

/// `!add` takes everything after the first space as its query, spaces and all.
pub proof fn lemma_add_message(query: Seq<char>)
    ensures
        spec_parse_command("!add "@ + query) == Some(CommandView::Add(query)),
{
    reveal_strlit("!add ");
    lemma_keywords_distinct();
    let s = "!add "@ + query;
    assert(s[0] == '!' && s[1] == 'a' && s[2] == 'd' && s[3] == 'd' && s[4] == ' ');
    lemma_find_char_at(s, ' ', 1, 4);
    assert(s.subrange(1, 4) =~= "add"@);
    assert(s.subrange(5, s.len() as int) =~= query);
}

/// `!jump` followed by the decimal notation of an index asks for that index.
pub proof fn lemma_jump_message(index: usize)
    ensures
        spec_parse_command("!jump "@ + crate::number::decimal(index as nat)) == Some(
            CommandView::Jump(index),
        ),
{
    reveal_strlit("!jump ");
    lemma_keywords_distinct();
    let s = "!jump "@ + crate::number::decimal(index as nat);
    assert(s[0] == '!' && s[1] == 'j' && s[2] == 'u' && s[3] == 'm' && s[4] == 'p' && s[5] == ' ');
    lemma_find_char_at(s, ' ', 1, 5);
    let word = s.subrange(1, 5);
    assert(word =~= "jump"@);
    assert(word != "add"@ && word != "play"@ && word != "pause"@) by {
        assert(word.len() == 4 && word[0] == 'j');
    }
    assert(s.subrange(6, s.len() as int) =~= crate::number::decimal(index as nat));
    crate::number::lemma_parse_decimal(index);
}

proof fn lemma_remove_word(s: Seq<char>)
    requires
        s.len() >= 8,
        s.subrange(0, 8) == "!remove "@,
    ensures
        s[0] == '!',
        word_end(s) == 7,
        s.subrange(1, word_end(s)) == "remove"@,
        s.subrange(1, word_end(s)) != "add"@,
        s.subrange(1, word_end(s)) != "play"@,
        s.subrange(1, word_end(s)) != "pause"@,
        s.subrange(1, word_end(s)) != "jump"@,
        argument(s) == Some(s.subrange(8, s.len() as int)),
{
    reveal_strlit("!remove ");
    lemma_keywords_distinct();
    assert(s[0] == s.subrange(0, 8)[0]);
    assert forall|i: int| 1 <= i < 7 implies s[i] != ' ' by {
        assert(s[i] == s.subrange(0, 8)[i]);
    }
    assert(s[7] == s.subrange(0, 8)[7]);
    lemma_find_char_at(s, ' ', 1, 7);
    let word = s.subrange(1, 7);
    assert forall|i: int| 0 <= i < 6 implies word[i] == s.subrange(0, 8)[i + 1] by {}
    assert(word =~= "remove"@);
}

/// `!remove` with one index names the range of that index alone.
pub proof fn lemma_remove_one_message(index: usize)
    requires
        index < usize::MAX,
    ensures
        spec_parse_command("!remove "@ + crate::number::decimal(index as nat)) == Some(
            CommandView::Remove(index as int, index + 1),
        ),
        !remove_bound_overflows("!remove "@ + crate::number::decimal(index as nat)),
{
    let prefix = "!remove "@;
    reveal_strlit("!remove ");
    let digits = crate::number::decimal(index as nat);
    let s = prefix + digits;
    assert(s.subrange(0, 8) =~= prefix);
    lemma_remove_word(s);
    let arg = s.subrange(8, s.len() as int);
    assert(arg =~= digits);
    crate::number::lemma_decimal_digits(index as nat);
    lemma_find_dots_none(arg, 0);
    assert(arg.subrange(0, arg.len() as int) =~= digits);
    crate::number::lemma_parse_decimal(index);
}

/// `!remove a..b` names the range from the smaller of the two indices to one past the larger,
/// whichever comes first.
pub proof fn lemma_remove_range_message(a: usize, b: usize)
    requires
        a < usize::MAX,
        b < usize::MAX,
    ensures
        spec_parse_command(
            "!remove "@ + crate::number::decimal(a as nat) + ".."@ + crate::number::decimal(
                b as nat,
            ),
        ) == Some(
            CommandView::Remove(
                if a <= b {
                    a as int
                } else {
                    b as int
                },
                if a <= b {
                    b + 1
                } else {
                    a + 1
                },
            ),
        ),
        !remove_bound_overflows(
            "!remove "@ + crate::number::decimal(a as nat) + ".."@ + crate::number::decimal(
                b as nat,
            ),
        ),
{
    reveal_strlit("!remove ");
    reveal_strlit("..");
    let da = crate::number::decimal(a as nat);
    let db = crate::number::decimal(b as nat);
    let s = "!remove "@ + da + ".."@ + db;
    assert(s.subrange(0, 8) =~= "!remove "@);
    lemma_remove_word(s);
    let arg = s.subrange(8, s.len() as int);
    assert(arg =~= da + ".."@ + db);
    crate::number::lemma_decimal_digits(a as nat);
    crate::number::lemma_decimal_digits(b as nat);
    assert forall|i: int| 0 <= i < da.len() implies arg[i] != '.' by {
        assert(arg[i] == da[i]);
        assert(crate::number::is_digit(da[i]));
    }
    lemma_find_dots_at(arg, 0, da.len() as int);
    assert(arg.subrange(0, da.len() as int) =~= da);
    assert(arg.subrange(da.len() + 2int, arg.len() as int) =~= db);
    crate::number::lemma_parse_decimal(a);
    crate::number::lemma_parse_decimal(b);
}

/// A `!remove` message always names a range that holds at least one index.
pub proof fn lemma_remove_range_not_empty(s: Seq<char>, start: int, end: int)
    requires
        spec_parse_command(s) == Some(CommandView::Remove(start, end)),
    ensures
        start < end,
{
}

} // verus!
