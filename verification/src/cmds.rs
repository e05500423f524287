//! Commands, and the decoder that reads them off a trailer.

use crate::image::reversed;
use crate::std_specs::{path_from, path_of};
use crate::wire::{
    after_line, all_text, decode, fields, first_line, line_body, texts, Halt, LINE_SEPARATOR,
    TOKEN_SEPARATOR,
};
use crate::wire_lemmas::{lemma_fields_prefix, lemma_line_stop_at, lemma_line_stop_from};
use std::path::PathBuf;
use vstd::prelude::*;
use vstd::utf8::valid_utf8;

verus! {

/// A command as contracts see it.
pub ghost struct CommandView {
    /// The program to run; `None` until the first token has been added.
    pub exe: Option<PathBuf>,
    /// The arguments, in the order in which they were added.
    pub args: Seq<Seq<char>>,
}

impl CommandView {
    /// The command to which nothing has been added.
    pub open spec fn empty() -> CommandView {
        CommandView { exe: None, args: Seq::empty() }
    }

    /// The command after `token` has been added: the first token names the
    /// executable, every later one is one more argument.
    pub open spec fn with(self, token: Seq<char>) -> CommandView {
        match self.exe {
            None => CommandView { exe: Some(path_of(token)), args: self.args },
            Some(_) => CommandView { exe: self.exe, args: self.args.push(token) },
        }
    }

    /// The command made of `tokens`, added in order.
    pub open spec fn of(tokens: Seq<Seq<char>>) -> CommandView {
        if tokens.len() == 0 {
            CommandView::empty()
        } else {
            CommandView { exe: Some(path_of(tokens[0])), args: tokens.skip(1) }
        }
    }
}

/// Adding tokens one by one builds the command of all of them.
pub proof fn lemma_of_push(tokens: Seq<Seq<char>>, token: Seq<char>)
    ensures
        CommandView::of(tokens.push(token)) == CommandView::of(tokens).with(token),
{
    if tokens.len() == 0 {
        assert(tokens.push(token).skip(1) =~= Seq::empty());
    } else {
        assert(tokens.push(token).skip(1) =~= tokens.skip(1).push(token));
    }
}

/// One program to launch: the executable and its arguments.
#[derive(Debug)]
pub struct Command {
    exe: Option<PathBuf>,
    args: Vec<String>,
}

impl View for Command {
    type V = CommandView;

    closed spec fn view(&self) -> CommandView {
        CommandView { exe: self.exe, args: self.args.deep_view() }
    }
}

impl Command {
    /// A command with no executable and no arguments.
    pub fn new() -> (command: Self)
        ensures
            command@ == CommandView::empty(),
    {
        let command = Command { exe: None, args: Vec::new() };
        assert(command.args.deep_view() =~= Seq::empty());
        command
    }

    /// Adds a token: the executable if there is none yet, else one more
    /// argument. An empty token is a token like any other.
    pub fn arg(&mut self, arg: String)
        ensures
            final(self)@ == old(self)@.with(arg@),
    {
        match self.exe {
            Some(_) => {
                self.args.push(arg);
                assert(self.args.deep_view() =~= old(self).args.deep_view().push(arg@));
            },
            None => {
                self.exe = Some(path_from(arg));
            },
        }
    }

    /// The executable, if one has been added.
    pub fn exe(&self) -> (exe: Option<&PathBuf>)
        ensures
            exe is Some <==> self@.exe is Some,
            exe matches Some(path) ==> self@.exe == Some(*path),
    {
        self.exe.as_ref()
    }

    /// The arguments added so far.
    pub fn args(&self) -> (args: &Vec<String>)
        ensures
            args.deep_view() == self@.args,
    {
        &self.args
    }
}

/// What the decoder makes of one read result: the byte, or `None` for a
/// failed read.
pub open spec fn reading(item: Result<u8, std::io::Error>) -> Option<u8> {
    match item {
        Ok(byte) => Some(byte),
        Err(_) => None,
    }
}

/// The input as the decoder takes it, element by element.
pub open spec fn readings(items: Seq<Result<u8, std::io::Error>>) -> Seq<Option<u8>> {
    Seq::new(items.len(), |i: int| reading(items[i]))
}

/// A decoder as contracts see it.
pub ghost struct CommandsView {
    /// The input that has not been read yet; empty once the decoder has
    /// halted.
    pub rest: Seq<Option<u8>>,
    /// Why the decoder has halted, once it has.
    pub halted: Option<Halt>,
}

impl CommandsView {
    /// The decoder before it has read anything of `input`.
    pub open spec fn over(input: Seq<Option<u8>>) -> CommandsView {
        CommandsView { rest: input, halted: None }
    }

    /// The decoder that has halted for `halt`.
    pub open spec fn stopped(halt: Halt) -> CommandsView {
        CommandsView { rest: Seq::empty(), halted: Some(halt) }
    }

    /// One pull: the command it yields, if any, and the decoder after it.
    /// A halted decoder yields nothing and stays as it is; a line that is
    /// no command halts the decoder.
    pub open spec fn pull(self) -> (Option<CommandView>, CommandsView) {
        if self.halted is Some {
            (None, self)
        } else {
            match first_line(self.rest) {
                Ok(tokens) => (
                    Some(CommandView::of(tokens)),
                    CommandsView::over(after_line(self.rest)),
                ),
                Err(halt) => (None, CommandsView::stopped(halt)),
            }
        }
    }

    /// The commands that the decoder has yet to yield, each as the texts of
    /// its tokens.
    pub open spec fn pending(self) -> Seq<Seq<Seq<char>>> {
        if self.halted is Some {
            Seq::empty()
        } else {
            decode(self.rest)
        }
    }
}

/// The decoder: yields the commands of a trailer one by one, and nothing
/// more once a line has failed to be a command.
pub struct Commands {
    bytes: Vec<Result<u8, std::io::Error>>,
    pos: usize,
    halt: Option<Halt>,
}

impl View for Commands {
    type V = CommandsView;

    closed spec fn view(&self) -> CommandsView {
        match self.halt {
            Some(halt) => CommandsView::stopped(halt),
            None => CommandsView::over(readings(self.bytes@).skip(self.pos as int)),
        }
    }
}

/// The element of `bytes` at `at`, as the decoder takes it.
fn read_at(bytes: &Vec<Result<u8, std::io::Error>>, at: usize) -> (item: Option<u8>)
    requires
        at < bytes@.len(),
    ensures
        item == reading(bytes@[at as int]),
{
    match &bytes[at] {
        Ok(byte) => Some(*byte),
        Err(_) => None,
    }
}

impl Commands {
    /// The read position never passes the end of the input.
    #[verifier::type_invariant]
    spec fn inv(&self) -> bool {
        self.pos <= self.bytes@.len()
    }

    /// A decoder over `bytes`, which are taken front to back.
    pub fn from(bytes: Vec<Result<u8, std::io::Error>>) -> (commands: Self)
        ensures
            commands@ == CommandsView::over(readings(bytes@)),
    {
        assert(readings(bytes@).skip(0) =~= readings(bytes@));
        Commands { bytes, pos: 0, halt: None }
    }

    /// A decoder over the trailer at the end of `image`, the shim's own file
    /// read front to back: the image is taken back to front.
    pub fn from_image(image: Vec<Result<u8, std::io::Error>>) -> (commands: Self)
        ensures
            commands@ == CommandsView::over(readings(image@).reverse()),
    {
        let ghost forward = image@;
        let bytes = reversed(image);
        assert(readings(forward.reverse()) =~= readings(forward).reverse());
        Commands::from(bytes)
    }

    /// Why the decoder has halted; `None` while it may still yield a
    /// command.
    pub fn halt(&self) -> (halt: Option<Halt>)
        ensures
            halt == self@.halted,
    {
        self.halt
    }

    /// Reads one line and turns it into a command, or says why it is none.
    fn read_next_command(&mut self) -> (line: Result<Command, Halt>)
        requires
            old(self).halt is None,
        ensures
            final(self).halt is None,
            (match first_line(old(self)@.rest) {
                Ok(tokens) => line matches Ok(command) && command@ == CommandView::of(tokens)
                    && final(self)@.rest == after_line(old(self)@.rest),
                Err(halt) => line == Err::<Command, Halt>(halt),
            }),
    {
        proof {
            use_type_invariant(&*self);
        }
        let ghost start = self.pos as int;
        let ghost input = readings(self.bytes@).skip(start);
        let ghost mut body: Seq<u8> = Seq::empty();
        let mut command = Command::new();
        let mut token: Vec<u8> = Vec::new();
        proof {
            assert(texts(fields(body).drop_last()) =~= Seq::empty());
            assert(input == old(self)@.rest);
        }
        while self.pos < self.bytes.len()
            invariant
                self.bytes@ == old(self).bytes@,
                self.halt is None,
                0 <= start <= self.pos <= self.bytes@.len(),
                input == readings(self.bytes@).skip(start),
                input.len() == self.bytes@.len() - start,
                input == old(self)@.rest,
                body.len() == self.pos - start,
                forall|j: int| 0 <= j < body.len() ==> #[trigger] input[j] == Some(body[j]),
                forall|j: int| 0 <= j < body.len() ==> body[j] != LINE_SEPARATOR,
                fields(body).len() >= 1,
                fields(body).last() == token@,
                all_text(fields(body).drop_last()),
                command@ == CommandView::of(texts(fields(body).drop_last())),
            decreases self.bytes@.len() - self.pos,
        {
            let ghost at = self.pos - start;
            let item = read_at(&self.bytes, self.pos);
            assert(input[at] == item);
            self.pos = self.pos + 1;
            match item {
                None => {
                    proof {
                        lemma_line_stop_at(input, at);
                        assert(line_body(input) =~= body);
                    }
                    return Err(Halt::ReadFailure);
                },
                Some(byte) => {
                    if byte == LINE_SEPARATOR {
                        proof {
                            lemma_line_stop_at(input, at);
                            assert(line_body(input) =~= body);
                            assert(readings(self.bytes@).skip(start).skip(at + 1)
                                =~= readings(self.bytes@).skip(self.pos as int));
                        }
                        let ghost cut = fields(body);
                        if token.len() > 0 {
                            match String::from_utf8(token) {
                                Ok(text) => {
                                    command.arg(text);
                                    proof {
                                        lemma_of_push(texts(cut.drop_last()), text@);
                                        assert(texts(cut) =~= texts(cut.drop_last()).push(text@));
                                        assert(all_text(cut)) by {
                                            assert forall|i: int| 0 <= i < cut.len() implies valid_utf8(
                                                #[trigger] cut[i],
                                            ) by {
                                                if i < cut.len() - 1 {
                                                    assert(cut[i] == cut.drop_last()[i]);
                                                }
                                            }
                                        }
                                    }
                                },
                                Err(_) => {
                                    assert(!valid_utf8(cut[cut.len() - 1]));
                                    return Err(Halt::InvalidText);
                                },
                            }
                        }
                        return match command.exe() {
                            Some(_) => Ok(command),
                            None => Err(Halt::EmptyLine),
                        };
                    } else if byte == TOKEN_SEPARATOR {
                        let ghost before = fields(body);
                        proof {
                            assert(body.push(byte).drop_last() =~= body);
                            body = body.push(byte);
                            assert(fields(body) == before.push(Seq::empty()));
                            assert(fields(body).drop_last() =~= before);
                        }
                        match String::from_utf8(token) {
                            Ok(text) => {
                                command.arg(text);
                                proof {
                                    lemma_of_push(texts(before.drop_last()), text@);
                                    assert(texts(before) =~= texts(before.drop_last()).push(text@));
                                    assert forall|i: int| 0 <= i < before.len() implies valid_utf8(
                                        #[trigger] before[i],
                                    ) by {
                                        if i < before.len() - 1 {
                                            assert(before[i] == before.drop_last()[i]);
                                        }
                                    }
                                }
                            },
                            Err(_) => {
                                proof {
                                    lemma_line_stop_from(input, at + 1);
                                    let whole = line_body(input);
                                    assert(whole.take(at + 1) =~= body);
                                    lemma_fields_prefix(whole, at + 1);
                                    let last = before.len() - 1;
                                    assert(fields(whole)[last] == before[last]);
                                    assert(fields(whole).drop_last()[last] == before[last]);
                                    assert(!valid_utf8(before[last]));
                                }
                                return Err(Halt::InvalidText);
                            },
                        }
                        token = Vec::new();
                    } else {
                        token.push(byte);
                        proof {
                            let before = fields(body);
                            assert(body.push(byte).drop_last() =~= body);
                            body = body.push(byte);
                            assert(fields(body).drop_last() =~= before.drop_last());
                        }
                    }
                },
            }
        }
        proof {
            lemma_line_stop_at(input, body.len() as int);
            assert(line_body(input) =~= body);
        }
        Err(Halt::Exhausted)
    }

    /// The next command of the trailer. Once it has returned `None` it
    /// returns `None` ever after: the first line that is no command ends
    /// the trailer, whatever stands behind it.
    pub fn next(&mut self) -> (command: Option<Command>)
        ensures
            final(self)@ == old(self)@.pull().1,
            (match command {
                Some(command) => old(self)@.pull().0 == Some(command@),
                None => old(self)@.pull().0 is None,
            }),
            command is None ==> final(self)@.halted is Some,
            old(self)@.halted is Some ==> command is None && final(self)@ == old(self)@,
            command matches Some(command) ==> command@.exe is Some,
    {
        if self.halt.is_some() {
            return None;
        }
        match self.read_next_command() {
            Ok(command) => Some(command),
            Err(halt) => {
                proof {
                    use_type_invariant(&*self);
                }
                self.halt = Some(halt);
                None
            },
        }
    }
}

} // verus!
