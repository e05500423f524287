//! What holds of every trailer, of every decoder and of every run, stated
//! over the functions of [`crate::wire`] and the views of [`crate::cmds`]
//! and [`crate::launcher`].

use crate::cmds::{CommandView, CommandsView};
use crate::launcher::{ActionView, LauncherView, Outcome};
use crate::std_specs::path_of;
use crate::wire::{
    after_line, decode, ending, ends_line, first_line, intact, line_body, line_of, plain,
    trailer_of, well_formed, Halt, LINE_SEPARATOR, TOKEN_SEPARATOR,
};
use crate::wire_lemmas::{
    lemma_line_of_one, lemma_line_of_three, lemma_line_read_back, lemma_line_stop,
    lemma_trailer_of_two,
};
use vstd::prelude::*;
use vstd::utf8::encode_utf8;

verus! {

/// A decoder yields the commands of its input in order, one with each
/// pull, and yields nothing once they are spent.
pub proof fn law_pull_follows_decode(decoder: CommandsView)
    ensures
        (match decoder.pull().0 {
            Some(command) => decoder.pending().len() > 0 && command == CommandView::of(
                decoder.pending()[0],
            ) && decoder.pull().1.pending() == decoder.pending().skip(1),
            None => decoder.pending().len() == 0 && decoder.pull().1.pending().len() == 0,
        }),
{
    if decoder.halted is None {
        match first_line(decoder.rest) {
            Ok(tokens) => {
                let later = decode(after_line(decoder.rest));
                assert((seq![tokens] + later).skip(1) =~= later);
            },
            Err(_) => {},
        }
    }
}

/// Once a pull has yielded nothing, every later pull yields nothing and
/// leaves the decoder as it is.
pub proof fn law_halt_is_final(decoder: CommandsView)
    requires
        decoder.pull().0 is None,
    ensures
        decoder.pull().1.halted is Some,
        decoder.pull().1.pull() == (None::<CommandView>, decoder.pull().1),
{
}

/// Well-formed commands written as a trailer are read back as they were
/// written, and reading goes on with whatever follows the trailer.
pub proof fn law_round_trip(commands: Seq<Seq<Seq<char>>>, after: Seq<Option<u8>>)
    requires
        forall|i: int| 0 <= i < commands.len() ==> well_formed(#[trigger] commands[i]),
    ensures
        decode(intact(trailer_of(commands)) + after) == commands + decode(after),
        ending(intact(trailer_of(commands)) + after) == ending(after),
    decreases commands.len(),
{
    if commands.len() == 0 {
        assert(intact(trailer_of(commands)) + after =~= after);
        assert(commands + decode(after) =~= decode(after));
    } else {
        let first = commands[0];
        let others = commands.skip(1);
        let behind = intact(trailer_of(others)) + after;
        let input = intact(trailer_of(commands)) + after;
        assert(input =~= intact(line_of(first)) + behind);
        lemma_line_read_back(first, behind);
        assert forall|i: int| 0 <= i < others.len() implies well_formed(#[trigger] others[i]) by {
            assert(others[i] == commands[i + 1]);
        }
        law_round_trip(others, after);
        assert(seq![first] + (others + decode(after)) =~= commands + decode(after));
    }
}

/// A trailer of well-formed commands with nothing behind it holds exactly
/// those commands, and ends because the input ran out.
pub proof fn law_trailer_read_back(commands: Seq<Seq<Seq<char>>>)
    requires
        forall|i: int| 0 <= i < commands.len() ==> well_formed(#[trigger] commands[i]),
    ensures
        decode(intact(trailer_of(commands))) == commands,
        ending(intact(trailer_of(commands))) == Halt::Exhausted,
{
    let none = Seq::<Option<u8>>::empty();
    law_round_trip(commands, none);
    assert(intact(trailer_of(commands)) + none =~= intact(trailer_of(commands)));
    assert(commands + decode(none) =~= commands);
}

/// The two lines `E` and `F`, `A`, `B` (a token separator between the
/// tokens, a line separator behind each line) hold the command `E` without
/// arguments and the command `F` with the arguments `A` and `B`, and
/// nothing more.
pub proof fn law_two_lines(e: Seq<char>, f: Seq<char>, a: Seq<char>, b: Seq<char>)
    requires
        plain(e),
        plain(f),
        plain(a),
        plain(b),
        e.len() > 0,
        b.len() > 0,
    ensures
        ({
            let bytes = encode_utf8(e) + seq![LINE_SEPARATOR] + encode_utf8(f)
                + seq![TOKEN_SEPARATOR] + encode_utf8(a) + seq![TOKEN_SEPARATOR] + encode_utf8(b)
                + seq![LINE_SEPARATOR];
            let start = CommandsView::over(intact(bytes));
            let second = start.pull().1;
            let third = second.pull().1;
            &&& decode(intact(bytes)) == seq![seq![e], seq![f, a, b]]
            &&& start.pull().0 == Some(
                CommandView { exe: Some(path_of(e)), args: Seq::empty() },
            )
            &&& second.pull().0 == Some(CommandView { exe: Some(path_of(f)), args: seq![a, b] })
            &&& third.pull().0 is None
            &&& third.pull().1.halted == Some(Halt::Exhausted)
        }),
{
    let one = seq![e];
    let two = seq![f, a, b];
    lemma_two_lines_shape(e, f, a, b);
    law_trailer_read_back(seq![one, two]);
    lemma_pull_line(one, intact(line_of(two)));
    lemma_pull_line(two, Seq::empty());
    lemma_pull_nothing();
    lemma_command_of_one(e);
    lemma_command_of_three(f, a, b);
}

/// The bytes of the two lines `e` and `f`, `a`, `b` are the trailer of the
/// two commands, and both commands are well-formed.
proof fn lemma_two_lines_shape(e: Seq<char>, f: Seq<char>, a: Seq<char>, b: Seq<char>)
    requires
        plain(e),
        plain(f),
        plain(a),
        plain(b),
        e.len() > 0,
        b.len() > 0,
    ensures
        ({
            let bytes = encode_utf8(e) + seq![LINE_SEPARATOR] + encode_utf8(f)
                + seq![TOKEN_SEPARATOR] + encode_utf8(a) + seq![TOKEN_SEPARATOR] + encode_utf8(b)
                + seq![LINE_SEPARATOR];
            let one = seq![e];
            let two = seq![f, a, b];
            &&& bytes == trailer_of(seq![one, two])
            &&& intact(bytes) == intact(line_of(one)) + intact(line_of(two))
            &&& intact(line_of(two)) + Seq::empty() == intact(line_of(two))
            &&& well_formed(one)
            &&& well_formed(two)
        }),
{
    let one = seq![e];
    let two = seq![f, a, b];
    lemma_line_of_one(e);
    lemma_line_of_three(f, a, b);
    lemma_trailer_of_two(one, two);
    assert(intact(line_of(one) + line_of(two)) =~= intact(line_of(one)) + intact(line_of(two)));
    assert(intact(line_of(two)) + Seq::empty() =~= intact(line_of(two)));
}

/// The command of the one token `e`.
proof fn lemma_command_of_one(e: Seq<char>)
    ensures
        CommandView::of(seq![e]) == (CommandView { exe: Some(path_of(e)), args: Seq::empty() }),
{
    assert(seq![e].skip(1) =~= Seq::empty());
}

/// The command of the three tokens `f`, `a` and `b`.
proof fn lemma_command_of_three(f: Seq<char>, a: Seq<char>, b: Seq<char>)
    ensures
        CommandView::of(seq![f, a, b]) == (CommandView { exe: Some(path_of(f)), args: seq![a, b] }),
{
    assert(seq![f, a, b].skip(1) =~= seq![a, b]);
}

/// Pulling at a well-formed line yields its command and leaves what
/// follows the line.
proof fn lemma_pull_line(tokens: Seq<Seq<char>>, after: Seq<Option<u8>>)
    requires
        well_formed(tokens),
    ensures
        CommandsView::over(intact(line_of(tokens)) + after).pull() == (
            Some(CommandView::of(tokens)),
            CommandsView::over(after),
        ),
{
    lemma_line_read_back(tokens, after);
}

/// Pulling at an empty input halts the decoder: the input has run out.
proof fn lemma_pull_nothing()
    ensures
        CommandsView::over(Seq::empty()).pull() == (
            None::<CommandView>,
            CommandsView::stopped(Halt::Exhausted),
        ),
{
    assert(line_body(Seq::<Option<u8>>::empty()) =~= Seq::empty());
}

/// A line that holds nothing but its separator ends the trailer: the
/// commands before it are all there is, whatever follows it.
pub proof fn law_empty_line_halts(commands: Seq<Seq<Seq<char>>>, after: Seq<Option<u8>>)
    requires
        forall|i: int| 0 <= i < commands.len() ==> well_formed(#[trigger] commands[i]),
    ensures
        decode(intact(trailer_of(commands)) + seq![Some(LINE_SEPARATOR)] + after) == commands,
        ending(intact(trailer_of(commands)) + seq![Some(LINE_SEPARATOR)] + after)
            == Halt::EmptyLine,
{
    let behind = seq![Some(LINE_SEPARATOR)] + after;
    assert(intact(trailer_of(commands)) + seq![Some(LINE_SEPARATOR)] + after =~= intact(
        trailer_of(commands),
    ) + behind);
    law_round_trip(commands, behind);
    assert(first_line(behind) == Err::<Seq<Seq<char>>, Halt>(Halt::EmptyLine)) by {
        assert(ends_line(behind[0]));
        assert(line_body(behind) =~= Seq::empty());
    }
    assert(commands + decode(behind) =~= commands);
}

/// What stands behind the last line separator is no command: bytes that no
/// line separator closes are dropped.
pub proof fn law_unclosed_line_dropped(commands: Seq<Seq<Seq<char>>>, tail: Seq<Option<u8>>)
    requires
        forall|i: int| 0 <= i < commands.len() ==> well_formed(#[trigger] commands[i]),
        forall|j: int| 0 <= j < tail.len() ==> tail[j] != Some(LINE_SEPARATOR),
    ensures
        decode(intact(trailer_of(commands)) + tail) == commands,
        ending(intact(trailer_of(commands)) + tail) != Halt::EmptyLine,
{
    law_round_trip(commands, tail);
    lemma_line_stop(tail);
    assert(first_line(tail) is Err);
    assert(commands + decode(tail) =~= commands);
}

/// An empty token between two token separators is an argument like any
/// other: the line of `exe`, `before`, the empty text and `after` is read
/// back with the empty text in its place, and no argument is lost.
pub proof fn law_empty_token_kept(
    exe: Seq<char>,
    before: Seq<Seq<char>>,
    after: Seq<Seq<char>>,
    behind: Seq<Option<u8>>,
)
    requires
        well_formed(seq![exe] + before + seq![Seq::<char>::empty()] + after),
    ensures
        ({
            let tokens = seq![exe] + before + seq![Seq::<char>::empty()] + after;
            let command = CommandView::of(tokens);
            &&& first_line(intact(line_of(tokens)) + behind) == Ok::<Seq<Seq<char>>, Halt>(tokens)
            &&& command.args == before + seq![Seq::<char>::empty()] + after
            &&& command.args[before.len() as int].len() == 0
        }),
{
    let tokens = seq![exe] + before + seq![Seq::<char>::empty()] + after;
    lemma_line_read_back(tokens, behind);
    assert(tokens.skip(1) =~= before + seq![Seq::<char>::empty()] + after);
}

/// Turning a sequence round twice gives the sequence back.
pub proof fn law_reverse_twice<T>(items: Seq<T>)
    ensures
        items.reverse().reverse() == items,
{
    assert(items.reverse().reverse() =~= items);
}

/// A file that ends in a trailer written last byte first, read back to
/// front, yields the commands of that trailer before anything that the
/// rest of the file may seem to hold.
pub proof fn law_trailer_behind_host(host: Seq<u8>, commands: Seq<Seq<Seq<char>>>)
    requires
        forall|i: int| 0 <= i < commands.len() ==> well_formed(#[trigger] commands[i]),
    ensures
        decode(intact((host + trailer_of(commands).reverse()).reverse())) == commands + decode(
            intact(host.reverse()),
        ),
{
    let trailer = trailer_of(commands);
    law_reverse_twice(trailer);
    assert((host + trailer.reverse()).reverse() =~= trailer + host.reverse());
    assert(intact(trailer + host.reverse()) =~= intact(trailer) + intact(host.reverse()));
    law_round_trip(commands, intact(host.reverse()));
}

/// A run begins with the first command of the trailer, which gets the
/// shim's own arguments behind its own; where the trailer holds no command
/// the shim aborts.
pub proof fn law_first_run(commands: CommandsView, own_args: Seq<Seq<char>>)
    ensures
        ({
            let (action, launcher) = LauncherView::start(commands, own_args);
            if commands.pending().len() > 0 {
                let first = CommandView::of(commands.pending()[0]);
                &&& action == ActionView::Run(
                    CommandView { exe: first.exe, args: first.args + own_args },
                )
                &&& launcher.ended is None
                &&& launcher.commands.pending() == commands.pending().skip(1)
            } else {
                &&& action == ActionView::Abort
                &&& launcher.ended == Some(ActionView::Abort)
            }
        }),
{
    law_pull_follows_decode(commands);
}

/// After a command that ended with exit code zero the next command of the
/// trailer is run, with its own arguments and no others; where none is left
/// the shim ends with exit code zero.
pub proof fn law_next_run(launcher: LauncherView)
    requires
        launcher.ended is None,
    ensures
        ({
            let (action, later) = launcher.step(Outcome::Exited(0));
            if launcher.commands.pending().len() > 0 {
                &&& action == ActionView::Run(CommandView::of(launcher.commands.pending()[0]))
                &&& later.ended is None
                &&& later.commands.pending() == launcher.commands.pending().skip(1)
            } else {
                &&& action == ActionView::Exit(0)
                &&& later.ended == Some(ActionView::Exit(0))
            }
        }),
{
    law_pull_follows_decode(launcher.commands);
}

/// A command that could not be started aborts the shim, and one that ended
/// with an exit code other than zero ends the shim with that code; either
/// way no further command is pulled.
pub proof fn law_fail_fast(launcher: LauncherView, outcome: Outcome)
    requires
        launcher.ended is None,
        outcome != Outcome::Exited(0),
    ensures
        ({
            let (action, later) = launcher.step(outcome);
            &&& action == match outcome {
                Outcome::Exited(code) => ActionView::Exit(code),
                Outcome::Failed => ActionView::Abort,
            }
            &&& later.ended == Some(action)
            &&& later.commands == launcher.commands
        }),
{
}

/// A run that has ended stays ended: whatever is reported afterwards, the
/// answer is the action with which it ended, and no command is pulled.
pub proof fn law_end_is_final(launcher: LauncherView, outcome: Outcome, later: Outcome)
    requires
        !(launcher.step(outcome).0 is Run),
    ensures
        launcher.step(outcome).1.step(later) == launcher.step(outcome),
{
}

} // verus!
