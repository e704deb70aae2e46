//! The control vocabulary.
//!
//! The wire carries one line of text per command: signals cannot carry an argument, and a
//! binding has to reach every action.

use crate::text::{
    char_views, chars_of, decimal, is_white, lemma_decimal, lemma_decimal_parses,
    lemma_digit_plain, lemma_word_len_is, number, owned, parse_usize, spells, split_words, unsigned,
    words,
};
use vstd::prelude::*;
use vstd::string::*;

verus! {

/// What a binding can ask for.
///
/// Every one of these is separately bindable. Cycling is the default because a
/// timing-dependent gesture reads as unreliable: a slow double-tap cannot be told from two
/// single taps.
#[derive(Debug, Clone, PartialEq, Eq, Structural)]
pub enum Command {
    /// Next slot in order. The default.
    Cycle,
    /// Previous slot in order.
    CyclePrev,
    /// The most recently used other slot.
    Flip,
    /// A specific slot, 1-based.
    Mode(usize),
    /// Release the grab and stop filtering; again to resume. A toggle, because a hotkey has
    /// only one press to work with.
    Panic,
    /// Filter, or do not, regardless of the current state. Idempotent, so a repeat is harmless
    /// and a stale read is irrelevant.
    SetEnabled(bool),
    Quit,
    Status,
    /// Re-read the config now.
    Reload,
}

/// The command that a list of words stands for. Words past the ones a command needs are
/// ignored.
pub open spec fn command_of(w: Seq<Seq<char>>) -> Option<Command> {
    if w.len() == 0 {
        None
    } else if w[0] == "cycle"@ || w[0] == "switch"@ || w[0] == "next"@ {
        Some(Command::Cycle)
    } else if w[0] == "prev"@ || w[0] == "previous"@ {
        Some(Command::CyclePrev)
    } else if w[0] == "flip"@ || w[0] == "toggle"@ {
        Some(Command::Flip)
    } else if w[0] == "mode"@ {
        if w.len() > 1 && unsigned(w[1], usize::MAX as nat) is Some {
            Some(Command::Mode(unsigned(w[1], usize::MAX as nat)->0 as usize))
        } else {
            None
        }
    } else if w[0] == "panic"@ {
        Some(Command::Panic)
    } else if w[0] == "enabled"@ {
        if w.len() > 1 && (w[1] == "1"@ || w[1] == "true"@ || w[1] == "on"@) {
            Some(Command::SetEnabled(true))
        } else if w.len() > 1 && (w[1] == "0"@ || w[1] == "false"@ || w[1] == "off"@) {
            Some(Command::SetEnabled(false))
        } else {
            None
        }
    } else if w[0] == "quit"@ || w[0] == "stop"@ {
        Some(Command::Quit)
    } else if w[0] == "reload"@ {
        Some(Command::Reload)
    } else if w[0] == "status"@ {
        Some(Command::Status)
    } else {
        None
    }
}

/// The line that carries a command.
pub open spec fn wire_of(c: Command) -> Seq<char> {
    match c {
        Command::Cycle => "cycle"@,
        Command::CyclePrev => "prev"@,
        Command::Flip => "flip"@,
        Command::Mode(n) => "mode "@ + decimal(n as nat),
        Command::Panic => "panic"@,
        Command::SetEnabled(on) => if on {
            "enabled 1"@
        } else {
            "enabled 0"@
        },
        Command::Quit => "quit"@,
        Command::Status => "status"@,
        Command::Reload => "reload"@,
    }
}

impl Command {
    /// The command that `line` asks for, if it asks for one.
    pub fn parse(line: &str) -> (r: Option<Self>)
        ensures
            r == command_of(words(line@)),
    {
        let v = chars_of(line);
        let w = split_words(&v);
        let ghost ws = words(line@);
        assert(w@.len() == char_views(w@).len());
        if w.len() == 0 {
            return None;
        }
        let head = &w[0];
        assert(head@ == ws[0]);
        if spells(head, "cycle") || spells(head, "switch") || spells(head, "next") {
            Some(Command::Cycle)
        } else if spells(head, "prev") || spells(head, "previous") {
            Some(Command::CyclePrev)
        } else if spells(head, "flip") || spells(head, "toggle") {
            Some(Command::Flip)
        } else if spells(head, "mode") {
            if w.len() < 2 {
                return None;
            }
            assert(w@[1]@ == ws[1]);
            match parse_usize(&w[1]) {
                Some(n) => Some(Command::Mode(n)),
                None => None,
            }
        } else if spells(head, "panic") {
            Some(Command::Panic)
        } else if spells(head, "enabled") {
            if w.len() < 2 {
                return None;
            }
            let arg = &w[1];
            assert(arg@ == ws[1]);
            if spells(arg, "1") || spells(arg, "true") || spells(arg, "on") {
                Some(Command::SetEnabled(true))
            } else if spells(arg, "0") || spells(arg, "false") || spells(arg, "off") {
                Some(Command::SetEnabled(false))
            } else {
                None
            }
        } else if spells(head, "quit") || spells(head, "stop") {
            Some(Command::Quit)
        } else if spells(head, "reload") {
            Some(Command::Reload)
        } else if spells(head, "status") {
            Some(Command::Status)
        } else {
            None
        }
    }

    /// The line that `parse` reads back as this command.
    pub fn wire(&self) -> (s: String)
        ensures
            s@ == wire_of(*self),
    {
        match self {
            Command::Cycle => owned("cycle"),
            Command::CyclePrev => owned("prev"),
            Command::Flip => owned("flip"),
            Command::Mode(n) => owned("mode ").concat(number(*n as u64).as_str()),
            Command::Panic => owned("panic"),
            Command::SetEnabled(on) => if *on {
                owned("enabled 1")
            } else {
                owned("enabled 0")
            },
            Command::Quit => owned("quit"),
            Command::Status => owned("status"),
            Command::Reload => owned("reload"),
        }
    }
}

proof fn lemma_one_word(s: Seq<char>)
    requires
        s.len() > 0,
        forall|i: int| 0 <= i < s.len() ==> !is_white(#[trigger] s[i]),
    ensures
        words(s) == seq![s],
{
    lemma_word_len_is(s, s.len() as int);
    assert(!is_white(s[0]));
}

proof fn lemma_two_words(a: Seq<char>, b: Seq<char>)
    requires
        a.len() > 0,
        b.len() > 0,
        forall|i: int| 0 <= i < a.len() ==> !is_white(#[trigger] a[i]),
        forall|i: int| 0 <= i < b.len() ==> !is_white(#[trigger] b[i]),
    ensures
        words(a.push(' ') + b) == seq![a, b],
{
    let s = a.push(' ') + b;
    assert forall|i: int| 0 <= i < a.len() implies !is_white(#[trigger] s[i]) by {
        assert(s[i] == a[i]);
    }
    assert(s[a.len() as int] == ' ');
    assert(!is_white(s[0]));
    lemma_word_len_is(s, a.len() as int);
    let rest = s.skip(a.len() as int);
    assert(s.take(a.len() as int) =~= a);
    assert(rest[0] == ' ');
    assert(rest.drop_first() =~= b);
    lemma_one_word(b);
    assert(words(rest) == words(b));
    assert(seq![a] + seq![b] =~= seq![a, b]);
}

/// Every command survives a round trip over the wire.
pub proof fn law_wire_round_trip(c: Command)
    ensures
        command_of(words(wire_of(c))) == Some(c),
{
    reveal_strlit("cycle");
    reveal_strlit("switch");
    reveal_strlit("next");
    reveal_strlit("prev");
    reveal_strlit("previous");
    reveal_strlit("flip");
    reveal_strlit("toggle");
    reveal_strlit("mode");
    reveal_strlit("mode ");
    reveal_strlit("panic");
    reveal_strlit("enabled");
    reveal_strlit("enabled 1");
    reveal_strlit("enabled 0");
    reveal_strlit("1");
    reveal_strlit("true");
    reveal_strlit("on");
    reveal_strlit("0");
    reveal_strlit("quit");
    reveal_strlit("stop");
    reveal_strlit("reload");
    reveal_strlit("status");
    // Words of one length differ in their first letter, but for "status" and "switch".
    assert("cycle"@[0] == 'c' && "panic"@[0] == 'p');
    assert("mode"@[0] == 'm' && "next"@[0] == 'n' && "prev"@[0] == 'p' && "flip"@[0] == 'f');
    assert("quit"@[0] == 'q' && "stop"@[0] == 's' && "true"@[0] == 't');
    assert("reload"@[0] == 'r' && "toggle"@[0] == 't' && "status"@[1] == 't' && "switch"@[1] == 'w');
    assert("status"@[0] == 's' && "switch"@[0] == 's' && "enabled"@[0] == 'e');
    assert("1"@[0] == '1' && "0"@[0] == '0');
    match c {
        Command::Mode(n) => {
            let d = decimal(n as nat);
            lemma_decimal(n as nat);
            lemma_decimal_parses(n as nat, usize::MAX as nat);
            assert forall|i: int| 0 <= i < d.len() implies !is_white(#[trigger] d[i]) by {
                lemma_digit_plain(d[i]);
            }
            assert("mode "@ =~= "mode"@.push(' '));
            lemma_two_words("mode"@, d);
        },
        Command::SetEnabled(on) => {
            let d = if on {
                "1"@
            } else {
                "0"@
            };
            assert(wire_of(c) =~= "enabled"@.push(' ') + d);
            lemma_two_words("enabled"@, d);
        },
        _ => {
            lemma_one_word(wire_of(c));
        },
    }
}

/// A line asks for what its first word says, in any of the words for it, and whatever follows
/// what the command needs is ignored. A slot goes by its number and a switch by on or off; without
/// them, and under any other word, nothing is asked for.
pub proof fn law_a_line_asks_for_what_it_says(w: Seq<Seq<char>>, n: usize)
    requires
        w.len() > 0,
    ensures
        w[0] == "cycle"@ || w[0] == "switch"@ || w[0] == "next"@ <==> command_of(w) == Some(
            Command::Cycle,
        ),
        w[0] == "prev"@ || w[0] == "previous"@ <==> command_of(w) == Some(Command::CyclePrev),
        w[0] == "flip"@ || w[0] == "toggle"@ <==> command_of(w) == Some(Command::Flip),
        w[0] == "panic"@ <==> command_of(w) == Some(Command::Panic),
        w[0] == "quit"@ || w[0] == "stop"@ <==> command_of(w) == Some(Command::Quit),
        w[0] == "reload"@ <==> command_of(w) == Some(Command::Reload),
        w[0] == "status"@ <==> command_of(w) == Some(Command::Status),
        w[0] == "mode"@ && w.len() > 1 && w[1] == decimal(n as nat) ==> command_of(w) == Some(
            Command::Mode(n),
        ),
        w[0] == "enabled"@ && w.len() > 1 && (w[1] == "1"@ || w[1] == "on"@ || w[1] == "true"@)
            ==> command_of(w) == Some(Command::SetEnabled(true)),
        w[0] == "enabled"@ && w.len() > 1 && (w[1] == "0"@ || w[1] == "off"@ || w[1] == "false"@)
            ==> command_of(w) == Some(Command::SetEnabled(false)),
        (w[0] == "mode"@ || w[0] == "enabled"@) && w.len() == 1 ==> command_of(w) is None,
        (command_of(w) matches Some(Command::Mode(_))) ==> w[0] == "mode"@,
        (command_of(w) matches Some(Command::SetEnabled(_))) ==> w[0] == "enabled"@,
{
    reveal_strlit("cycle");
    reveal_strlit("switch");
    reveal_strlit("next");
    reveal_strlit("prev");
    reveal_strlit("previous");
    reveal_strlit("flip");
    reveal_strlit("toggle");
    reveal_strlit("mode");
    reveal_strlit("panic");
    reveal_strlit("enabled");
    reveal_strlit("1");
    reveal_strlit("true");
    reveal_strlit("on");
    reveal_strlit("0");
    reveal_strlit("off");
    reveal_strlit("false");
    reveal_strlit("quit");
    reveal_strlit("stop");
    reveal_strlit("reload");
    reveal_strlit("status");
    assert("cycle"@[0] == 'c' && "panic"@[0] == 'p' && "false"@[0] == 'f');
    assert("mode"@[0] == 'm' && "next"@[0] == 'n' && "prev"@[0] == 'p' && "flip"@[0] == 'f');
    assert("quit"@[0] == 'q' && "stop"@[0] == 's' && "true"@[0] == 't');
    assert("reload"@[0] == 'r' && "toggle"@[0] == 't' && "status"@[1] == 't' && "switch"@[1] == 'w');
    assert("status"@[0] == 's' && "switch"@[0] == 's' && "enabled"@[0] == 'e');
    assert("1"@[0] == '1' && "0"@[0] == '0');
    assert("panic"@ != "cycle"@ && "panic"@ != "mode"@ && "panic"@.len() == 5);
    assert("status"@ != "switch"@ && "status"@ != "toggle"@ && "status"@ != "reload"@);
    assert("status"@.len() == 6 && "enabled"@.len() == 7 && "previous"@.len() == 8);
    assert("switch"@.len() == 6 && "next"@.len() == 4 && "prev"@.len() == 4 && "flip"@.len() == 4);
    assert("mode"@.len() == 4 && "quit"@.len() == 4 && "stop"@.len() == 4 && "cycle"@.len() == 5);
    lemma_decimal_parses(n as nat, usize::MAX as nat);
}

} // verus!
