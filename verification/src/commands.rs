use vstd::prelude::*;
use crate::byteops::{bytes_eq, copy_bytes, seqs_of};

verus! {

/// The token separator of a command line.
pub const SPACE: u8 = 32;

/// The leading byte of a command word.
pub const SLASH: u8 = 47;

/// The ASCII bytes of `"select"`.
pub open spec fn w_select() -> Seq<u8> {
    seq![115u8, 101u8, 108u8, 101u8, 99u8, 116u8]
}

/// The ASCII bytes of `"sel"`.
pub open spec fn w_sel() -> Seq<u8> {
    seq![115u8, 101u8, 108u8]
}

/// The ASCII bytes of `"files"`.
pub open spec fn w_files() -> Seq<u8> {
    seq![102u8, 105u8, 108u8, 101u8, 115u8]
}

/// The ASCII bytes of `"dir"`.
pub open spec fn w_dir() -> Seq<u8> {
    seq![100u8, 105u8, 114u8]
}

/// The ASCII bytes of `"delete"`.
pub open spec fn w_delete() -> Seq<u8> {
    seq![100u8, 101u8, 108u8, 101u8, 116u8, 101u8]
}

/// The ASCII bytes of `"del"`.
pub open spec fn w_del() -> Seq<u8> {
    seq![100u8, 101u8, 108u8]
}

/// The ASCII bytes of `"clear"`.
pub open spec fn w_clear() -> Seq<u8> {
    seq![99u8, 108u8, 101u8, 97u8, 114u8]
}

/// The ASCII bytes of `"help"`.
pub open spec fn w_help() -> Seq<u8> {
    seq![104u8, 101u8, 108u8, 112u8]
}

/// The ASCII bytes of `"new"`.
pub open spec fn w_new() -> Seq<u8> {
    seq![110u8, 101u8, 119u8]
}

/// The ASCII bytes of `"newpassword"`.
pub open spec fn w_newpassword() -> Seq<u8> {
    seq![110u8, 101u8, 119u8, 112u8, 97u8, 115u8, 115u8, 119u8, 111u8, 114u8, 100u8]
}

/// The ASCII bytes of `"pass"`.
pub open spec fn w_pass() -> Seq<u8> {
    seq![112u8, 97u8, 115u8, 115u8]
}

/// The ASCII bytes of `"/quit"`.
pub open spec fn w_slashquit() -> Seq<u8> {
    seq![47u8, 113u8, 117u8, 105u8, 116u8]
}

fn w_select_bytes() -> (r: Vec<u8>)
    ensures
        r@ == w_select(),
{
    let mut r: Vec<u8> = Vec::new();
    r.push(115);
    r.push(101);
    r.push(108);
    r.push(101);
    r.push(99);
    r.push(116);
    proof {
        assert(r@ =~= w_select());
    }
    r
}

fn w_sel_bytes() -> (r: Vec<u8>)
    ensures
        r@ == w_sel(),
{
    let mut r: Vec<u8> = Vec::new();
    r.push(115);
    r.push(101);
    r.push(108);
    proof {
        assert(r@ =~= w_sel());
    }
    r
}

fn w_files_bytes() -> (r: Vec<u8>)
    ensures
        r@ == w_files(),
{
    let mut r: Vec<u8> = Vec::new();
    r.push(102);
    r.push(105);
    r.push(108);
    r.push(101);
    r.push(115);
    proof {
        assert(r@ =~= w_files());
    }
    r
}

fn w_dir_bytes() -> (r: Vec<u8>)
    ensures
        r@ == w_dir(),
{
    let mut r: Vec<u8> = Vec::new();
    r.push(100);
    r.push(105);
    r.push(114);
    proof {
        assert(r@ =~= w_dir());
    }
    r
}

fn w_delete_bytes() -> (r: Vec<u8>)
    ensures
        r@ == w_delete(),
{
    let mut r: Vec<u8> = Vec::new();
    r.push(100);
    r.push(101);
    r.push(108);
    r.push(101);
    r.push(116);
    r.push(101);
    proof {
        assert(r@ =~= w_delete());
    }
    r
}

fn w_del_bytes() -> (r: Vec<u8>)
    ensures
        r@ == w_del(),
{
    let mut r: Vec<u8> = Vec::new();
    r.push(100);
    r.push(101);
    r.push(108);
    proof {
        assert(r@ =~= w_del());
    }
    r
}

fn w_clear_bytes() -> (r: Vec<u8>)
    ensures
        r@ == w_clear(),
{
    let mut r: Vec<u8> = Vec::new();
    r.push(99);
    r.push(108);
    r.push(101);
    r.push(97);
    r.push(114);
    proof {
        assert(r@ =~= w_clear());
    }
    r
}

fn w_help_bytes() -> (r: Vec<u8>)
    ensures
        r@ == w_help(),
{
    let mut r: Vec<u8> = Vec::new();
    r.push(104);
    r.push(101);
    r.push(108);
    r.push(112);
    proof {
        assert(r@ =~= w_help());
    }
    r
}

fn w_new_bytes() -> (r: Vec<u8>)
    ensures
        r@ == w_new(),
{
    let mut r: Vec<u8> = Vec::new();
    r.push(110);
    r.push(101);
    r.push(119);
    proof {
        assert(r@ =~= w_new());
    }
    r
}

fn w_newpassword_bytes() -> (r: Vec<u8>)
    ensures
        r@ == w_newpassword(),
{
    let mut r: Vec<u8> = Vec::new();
    r.push(110);
    r.push(101);
    r.push(119);
    r.push(112);
    r.push(97);
    r.push(115);
    r.push(115);
    r.push(119);
    r.push(111);
    r.push(114);
    r.push(100);
    proof {
        assert(r@ =~= w_newpassword());
    }
    r
}

fn w_pass_bytes() -> (r: Vec<u8>)
    ensures
        r@ == w_pass(),
{
    let mut r: Vec<u8> = Vec::new();
    r.push(112);
    r.push(97);
    r.push(115);
    r.push(115);
    proof {
        assert(r@ =~= w_pass());
    }
    r
}

fn w_slashquit_bytes() -> (r: Vec<u8>)
    ensures
        r@ == w_slashquit(),
{
    let mut r: Vec<u8> = Vec::new();
    r.push(47);
    r.push(113);
    r.push(117);
    r.push(105);
    r.push(116);
    proof {
        assert(r@ =~= w_slashquit());
    }
    r
}

/// Token splitting on single spaces: consecutive separators yield empty
/// tokens, and an empty input yields one empty token, as the interactive
/// loop expects.
pub open spec fn split_rec(data: Seq<u8>, cur: Seq<u8>) -> Seq<Seq<u8>>
    decreases data.len(),
{
    if data.len() == 0 {
        seq![cur]
    } else if data[0] == SPACE {
        seq![cur] + split_rec(data.drop_first(), Seq::empty())
    } else {
        split_rec(data.drop_first(), cur.push(data[0]))
    }
}

/// The tokens of a command line.
pub open spec fn split_spec(data: Seq<u8>) -> Seq<Seq<u8>> {
    split_rec(data, Seq::empty())
}

/// Splits a command line into its space-separated tokens.
pub fn split_bytes(input: &[u8]) -> (r: Vec<Vec<u8>>)
    ensures
        seqs_of(r@) == split_spec(input@),
        r@.len() >= 1,
{
    let mut toks: Vec<Vec<u8>> = Vec::new();
    let mut cur: Vec<u8> = Vec::new();
    let mut i: usize = 0;
    proof {
        assert(input@.skip(0) =~= input@);
        assert(seqs_of(toks@) + split_rec(input@, cur@) =~= split_spec(input@));
    }
    while i < input.len()
        invariant
            0 <= i <= input@.len(),
            seqs_of(toks@) + split_rec(input@.skip(i as int), cur@) == split_spec(input@),
        decreases input@.len() - i,
    {
        let b = input[i];
        proof {
            let rest = input@.skip(i as int);
            assert(rest[0] == b);
            assert(rest.drop_first() =~= input@.skip(i as int + 1));
        }
        if b == SPACE {
            let done = cur;
            cur = Vec::new();
            let ghost t_old = seqs_of(toks@);
            let ghost d = done@;
            toks.push(done);
            proof {
                assert(seqs_of(toks@) =~= t_old.push(d));
                assert(t_old.push(d) + split_rec(input@.skip(i as int + 1), cur@) =~= t_old + (
                seq![d] + split_rec(input@.skip(i as int + 1), cur@)));
            }
        } else {
            cur.push(b);
        }
        proof {
            assert(seqs_of(toks@) + split_rec(input@.skip(i as int + 1), cur@) =~= split_spec(
                input@,
            ));
        }
        i += 1;
    }
    proof {
        assert(input@.skip(input@.len() as int) =~= Seq::<u8>::empty());
    }
    let ghost t_old = seqs_of(toks@);
    let ghost d = cur@;
    toks.push(cur);
    proof {
        assert(seqs_of(toks@) =~= t_old.push(d));
        assert(t_old.push(d) =~= t_old + seq![d]);
        assert(seqs_of(toks@) =~= split_spec(input@));
    }
    toks
}

/// A command word with one optional leading slash removed: both `/files`
/// and `files` name the same command.
pub open spec fn strip_slash(tok: Seq<u8>) -> Seq<u8> {
    if tok.len() > 0 && tok[0] == SLASH {
        tok.drop_first()
    } else {
        tok
    }
}

fn strip_slash_bytes(tok: &[u8]) -> (r: Vec<u8>)
    ensures
        r@ == strip_slash(tok@),
{
    if tok.len() > 0 && tok[0] == SLASH {
        let mut r: Vec<u8> = Vec::new();
        let mut i: usize = 1;
        while i < tok.len()
            invariant
                1 <= i <= tok@.len(),
                tok@.len() > 0,
                r@ == tok@.subrange(1, i as int),
            decreases tok@.len() - i,
        {
            r.push(tok[i]);
            proof {
                assert(r@ =~= tok@.subrange(1, i as int + 1));
            }
            i += 1;
        }
        proof {
            assert(tok@.subrange(1, tok@.len() as int) =~= tok@.drop_first());
        }
        r
    } else {
        copy_bytes(tok)
    }
}

/// One command of the interactive loop, with its attributes. An empty title
/// means none was given on the line: the loop asks for one before acting.
pub enum Command {
    Select { title: Vec<u8>, message: Vec<u8> },
    Files,
    Delete { title: Vec<u8> },
    New { title: Vec<u8> },
    NewPassword,
    Clear,
    Help,
    Invalid,
}

/// The mathematical model of a command.
pub ghost enum CommandSpec {
    Select { title: Seq<u8>, message: Seq<u8> },
    Files,
    Delete { title: Seq<u8> },
    New { title: Seq<u8> },
    NewPassword,
    Clear,
    Help,
    Invalid,
}

impl View for Command {
    type V = CommandSpec;

    open spec fn view(&self) -> CommandSpec {
        match self {
            Command::Select { title, message } => CommandSpec::Select {
                title: title@,
                message: message@,
            },
            Command::Files => CommandSpec::Files,
            Command::Delete { title } => CommandSpec::Delete { title: title@ },
            Command::New { title } => CommandSpec::New { title: title@ },
            Command::NewPassword => CommandSpec::NewPassword,
            Command::Clear => CommandSpec::Clear,
            Command::Help => CommandSpec::Help,
            Command::Invalid => CommandSpec::Invalid,
        }
    }
}

/// The command named by a line: the first token picks the handler, by any
/// of its aliases, with or without the leading slash; the next tokens are
/// its attributes; anything else is invalid.
pub open spec fn parse_command_spec(input: Seq<u8>) -> CommandSpec {
    let toks = split_spec(input);
    let cmd = strip_slash(toks[0]);
    let attr0: Seq<u8> = if toks.len() > 1 {
        toks[1]
    } else {
        Seq::empty()
    };
    let attr1: Seq<u8> = if toks.len() > 2 {
        toks[2]
    } else {
        Seq::empty()
    };
    if cmd == w_select() || cmd == w_sel() {
        CommandSpec::Select { title: attr0, message: attr1 }
    } else if cmd == w_files() || cmd == w_dir() {
        CommandSpec::Files
    } else if cmd == w_delete() || cmd == w_del() {
        CommandSpec::Delete { title: attr0 }
    } else if cmd == w_new() {
        CommandSpec::New { title: attr0 }
    } else if cmd == w_newpassword() || cmd == w_pass() {
        CommandSpec::NewPassword
    } else if cmd == w_clear() {
        CommandSpec::Clear
    } else if cmd == w_help() {
        CommandSpec::Help
    } else {
        CommandSpec::Invalid
    }
}

/// Reads a command line into its command.
pub fn parse_command(input: &[u8]) -> (r: Command)
    ensures
        r@ == parse_command_spec(input@),
{
    let toks = split_bytes(input);
    let cmd = strip_slash_bytes(toks[0].as_slice());
    proof {
        assert(seqs_of(toks@)[0] == toks@[0]@);
        if toks@.len() > 1 {
            assert(seqs_of(toks@)[1] == toks@[1]@);
        }
        if toks@.len() > 2 {
            assert(seqs_of(toks@)[2] == toks@[2]@);
        }
    }
    let attr0: Vec<u8> = if toks.len() > 1 {
        copy_bytes(toks[1].as_slice())
    } else {
        Vec::new()
    };
    let attr1: Vec<u8> = if toks.len() > 2 {
        copy_bytes(toks[2].as_slice())
    } else {
        Vec::new()
    };
    if bytes_eq(cmd.as_slice(), w_select_bytes().as_slice()) || bytes_eq(
        cmd.as_slice(),
        w_sel_bytes().as_slice(),
    ) {
        Command::Select { title: attr0, message: attr1 }
    } else if bytes_eq(cmd.as_slice(), w_files_bytes().as_slice()) || bytes_eq(
        cmd.as_slice(),
        w_dir_bytes().as_slice(),
    ) {
        Command::Files
    } else if bytes_eq(cmd.as_slice(), w_delete_bytes().as_slice()) || bytes_eq(
        cmd.as_slice(),
        w_del_bytes().as_slice(),
    ) {
        Command::Delete { title: attr0 }
    } else if bytes_eq(cmd.as_slice(), w_new_bytes().as_slice()) {
        Command::New { title: attr0 }
    } else if bytes_eq(cmd.as_slice(), w_newpassword_bytes().as_slice()) || bytes_eq(
        cmd.as_slice(),
        w_pass_bytes().as_slice(),
    ) {
        Command::NewPassword
    } else if bytes_eq(cmd.as_slice(), w_clear_bytes().as_slice()) {
        Command::Clear
    } else if bytes_eq(cmd.as_slice(), w_help_bytes().as_slice()) {
        Command::Help
    } else {
        Command::Invalid
    }
}

/// What the interactive loop does with one input line.
pub enum LineAction {
    Quit,
    Run(Command),
    WriteToMain(Vec<u8>),
}

/// The mathematical model of a line's action.
pub ghost enum LineActionSpec {
    Quit,
    Run(CommandSpec),
    WriteToMain(Seq<u8>),
}

impl View for LineAction {
    type V = LineActionSpec;

    open spec fn view(&self) -> LineActionSpec {
        match self {
            LineAction::Quit => LineActionSpec::Quit,
            LineAction::Run(c) => LineActionSpec::Run(c@),
            LineAction::WriteToMain(m) => LineActionSpec::WriteToMain(m@),
        }
    }
}

/// What a line asks of the loop: `/quit` ends it; a line that does not
/// start with a slash is written to the default landing note; anything
/// else names a command.
pub open spec fn interpret_line_spec(input: Seq<u8>) -> LineActionSpec {
    if input == w_slashquit() {
        LineActionSpec::Quit
    } else if input.len() == 0 || input[0] != SLASH {
        LineActionSpec::WriteToMain(input)
    } else {
        LineActionSpec::Run(parse_command_spec(input))
    }
}

/// Reads one input line of the interactive loop into its action.
pub fn interpret_line(input: &[u8]) -> (r: LineAction)
    ensures
        r@ == interpret_line_spec(input@),
{
    let q = w_slashquit_bytes();
    if bytes_eq(input, q.as_slice()) {
        return LineAction::Quit;
    }
    if input.len() == 0 || input[0] != SLASH {
        return LineAction::WriteToMain(copy_bytes(input));
    }
    LineAction::Run(parse_command(input))
}

/// True iff the line is the quit word, which also closes an open note.
pub fn is_quit(line: &[u8]) -> (r: bool)
    ensures
        r <==> line@ == w_slashquit(),
{
    let q = w_slashquit_bytes();
    bytes_eq(line, q.as_slice())
}

} // verus!
