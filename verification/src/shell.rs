//! Shell core: the command grammar, the line editor with history, and the
//! filesystem commands' output.

use vstd::prelude::*;

verus! {

use vstd::utf8::{encode_utf8, is_ascii_chars, is_ascii_chars_encode_utf8};
use vstd::string::{StrSliceExecFns, StringExecFns};
use crate::consolefmt::{format_u64, spec_decimal};
use crate::frame::FrameStats;
use crate::vfs::{FileSystem, NodeId, NodeType, VfsError, spec_resolve};

pub const MAX_LINE: usize = 128;
pub const MAX_HISTORY: usize = 16;

#[derive(Clone, Copy, Debug, PartialEq, Eq, Structural)]
pub enum CommandKind {
    Empty,
    Help,
    Echo,
    Clear,
    History,
    Mem,
    Ticks,
    Ls,
    Cat,
    Stat,
    Panic,
    Halt,
    Reboot,
    Unknown,
}

/// One parsed input line: the command and its (already trimmed) argument.
#[derive(Debug)]
pub struct ParsedCommand {
    pub kind: CommandKind,
    pub arg: Vec<u8>,
}

/// Compares two byte strings.
pub fn bytes_eq(a: &[u8], b: &[u8]) -> (r: bool)
    ensures
        r == (a@ == b@),
{
    if a.len() != b.len() {
        return false;
    }
    let n: usize = a.len();
    let mut i: usize = 0;
    while i < n
        invariant
            n == a@.len() == b@.len(),
            i <= n,
            forall|j: int| 0 <= j < i ==> a@[j] == b@[j],
        decreases n - i,
    {
        if a[i] != b[i] {
            return false;
        }
        i = i + 1;
    }
    proof {
        assert(a@ =~= b@);
    }
    true
}

/// `s` without its leading spaces.
pub open spec fn spec_trim_front(s: Seq<u8>) -> Seq<u8>
    decreases s.len(),
{
    if s.len() > 0 && s[0] == 0x20 {
        spec_trim_front(s.skip(1))
    } else {
        s
    }
}

/// `s` without its trailing spaces.
pub open spec fn spec_trim_back(s: Seq<u8>) -> Seq<u8>
    decreases s.len(),
{
    if s.len() > 0 && s[s.len() - 1] == 0x20 {
        spec_trim_back(s.drop_last())
    } else {
        s
    }
}

/// `s` without leading and trailing spaces.
pub open spec fn spec_trim(s: Seq<u8>) -> Seq<u8> {
    spec_trim_back(spec_trim_front(s))
}

proof fn lemma_trim_front_at(s: Seq<u8>, k: int)
    requires
        0 <= k <= s.len(),
        forall|m: int| 0 <= m < k ==> s[m] == 0x20,
        k == s.len() || s[k] != 0x20,
    ensures
        spec_trim_front(s) == s.skip(k),
    decreases k,
{
    if k == 0 {
        assert(s.skip(0) =~= s);
    } else {
        assert(s[0] == 0x20);
        assert forall|m: int| 0 <= m < k - 1 implies s.skip(1)[m] == 0x20 by {
            assert(s.skip(1)[m] == s[m + 1]);
        }
        if k < s.len() {
            assert(s.skip(1)[k - 1] == s[k]);
        }
        lemma_trim_front_at(s.skip(1), k - 1);
        assert(s.skip(1).skip(k - 1) =~= s.skip(k));
    }
}

proof fn lemma_trim_back_at(s: Seq<u8>, e: int)
    requires
        0 <= e <= s.len(),
        forall|m: int| e <= m < s.len() ==> s[m] == 0x20,
        e == 0 || s[e - 1] != 0x20,
    ensures
        spec_trim_back(s) == s.take(e),
    decreases s.len(),
{
    if e == s.len() {
        if s.len() > 0 && s[s.len() - 1] == 0x20 {
            assert(e == 0 || s[e - 1] != 0x20);
            assert(false);
        }
        assert(s.take(e) =~= s);
    } else {
        assert(s[s.len() - 1] == 0x20);
        assert forall|m: int| e <= m < s.drop_last().len() implies s.drop_last()[m] == 0x20 by {
            assert(s.drop_last()[m] == s[m]);
        }
        if e > 0 {
            assert(s.drop_last()[e - 1] == s[e - 1]);
        }
        lemma_trim_back_at(s.drop_last(), e);
        assert(s.drop_last().take(e) =~= s.take(e));
    }
}

/// Strips leading and trailing spaces.
pub fn trim_spaces(input: &[u8]) -> (r: Vec<u8>)
    ensures
        r@ == spec_trim(input@),
{
    let n: usize = input.len();
    let mut start: usize = 0;
    while start < n && input[start] == 0x20
        invariant
            n == input@.len(),
            start <= n,
            forall|m: int| 0 <= m < start ==> input@[m] == 0x20,
        decreases n - start,
    {
        start = start + 1;
    }
    let mut end: usize = n;
    while end > start && input[end - 1] == 0x20
        invariant
            n == input@.len(),
            start <= end <= n,
            forall|m: int| 0 <= m < start ==> input@[m] == 0x20,
            forall|m: int| end <= m < n ==> input@[m] == 0x20,
        decreases end,
    {
        end = end - 1;
    }
    proof {
        lemma_trim_front_at(input@, start as int);
        let t = input@.skip(start as int);
        assert forall|m: int| end - start <= m < t.len() implies t[m] == 0x20 by {
            assert(t[m] == input@[start + m]);
        }
        if end > start {
            assert(t[end - start - 1] == input@[end - 1]);
        }
        lemma_trim_back_at(t, end - start);
    }
    let mut out: Vec<u8> = Vec::new();
    let mut i: usize = start;
    while i < end
        invariant
            start <= i <= end <= n,
            n == input@.len(),
            out@ =~= input@.subrange(start as int, i as int),
        decreases end - i,
    {
        out.push(input[i]);
        i = i + 1;
    }
    proof {
        assert(out@ =~= input@.skip(start as int).take(end - start as int));
    }
    out
}

/// Index of the first space in `s`, or `s.len()`.
pub open spec fn first_space(s: Seq<u8>) -> int
    decreases s.len(),
{
    if s.len() == 0 {
        0
    } else if s[0] == 0x20 {
        0
    } else {
        1 + first_space(s.skip(1))
    }
}

proof fn lemma_first_space_at(s: Seq<u8>, k: int)
    requires
        0 <= k <= s.len(),
        forall|m: int| 0 <= m < k ==> s[m] != 0x20,
        k == s.len() || s[k] == 0x20,
    ensures
        first_space(s) == k,
    decreases s.len(),
{
    if s.len() == 0 || k == 0 {
    } else {
        assert(s[0] != 0x20);
        assert forall|m: int| 0 <= m < k - 1 implies s.skip(1)[m] != 0x20 by {
            assert(s.skip(1)[m] == s[m + 1]);
        }
        if k < s.len() {
            assert(s.skip(1)[k - 1] == s[k]);
        }
        lemma_first_space_at(s.skip(1), k - 1);
    }
}

/// The command word and the trimmed remainder of a line.
pub open spec fn spec_split_cmd(s: Seq<u8>) -> (Seq<u8>, Seq<u8>) {
    let k = first_space(s);
    if 0 <= k < s.len() {
        (s.take(k), spec_trim(s.skip(k + 1)))
    } else {
        (s, Seq::empty())
    }
}

/// Splits at the first space; the argument is trimmed again.
pub fn split_cmd_arg(input: &[u8]) -> (r: (Vec<u8>, Vec<u8>))
    ensures
        r.0@ == spec_split_cmd(input@).0,
        r.1@ == spec_split_cmd(input@).1,
{
    let n: usize = input.len();
    let mut k: usize = 0;
    while k < n && input[k] != 0x20
        invariant
            n == input@.len(),
            k <= n,
            forall|m: int| 0 <= m < k ==> input@[m] != 0x20,
        decreases n - k,
    {
        k = k + 1;
    }
    proof {
        lemma_first_space_at(input@, k as int);
    }
    if k >= n {
        let mut cmd: Vec<u8> = Vec::new();
        let mut i: usize = 0;
        while i < n
            invariant
                i <= n,
                n == input@.len(),
                cmd@ =~= input@.take(i as int),
            decreases n - i,
        {
            cmd.push(input[i]);
            i = i + 1;
        }
        proof {
            assert(cmd@ =~= input@);
        }
        (cmd, Vec::new())
    } else {
        let mut cmd: Vec<u8> = Vec::new();
        let mut i: usize = 0;
        while i < k
            invariant
                i <= k <= n,
                n == input@.len(),
                cmd@ =~= input@.take(i as int),
            decreases k - i,
        {
            cmd.push(input[i]);
            i = i + 1;
        }
        let mut rest: Vec<u8> = Vec::new();
        let mut j: usize = k + 1;
        while j < n
            invariant
                k + 1 <= j <= n,
                n == input@.len(),
                rest@ =~= input@.subrange(k + 1, j as int),
            decreases n - j,
        {
            rest.push(input[j]);
            j = j + 1;
        }
        proof {
            assert(rest@ =~= input@.skip(k as int + 1));
        }
        let arg: Vec<u8> = trim_spaces(rest.as_slice());
        (cmd, arg)
    }
}

/// A byte the line editor accepts into the buffer.
pub fn is_printable_ascii(byte: u8) -> (r: bool)
    ensures
        r == (0x20 <= byte <= 0x7E),
{
    0x20 <= byte && byte <= 0x7E
}

/// What `parse_command` returns for a line: the dispatch table of §4.14.
pub open spec fn spec_parse(line: Seq<u8>) -> (CommandKind, Seq<u8>) {
    let t = spec_trim(line);
    if t.len() == 0 {
        (CommandKind::Empty, Seq::empty())
    } else {
        let cmd = spec_split_cmd(t).0;
        let arg = spec_split_cmd(t).1;
        if cmd == encode_utf8("help"@) && arg.len() == 0 {
            (CommandKind::Help, Seq::empty())
        } else if cmd == encode_utf8("clear"@) && arg.len() == 0 {
            (CommandKind::Clear, Seq::empty())
        } else if cmd == encode_utf8("history"@) && arg.len() == 0 {
            (CommandKind::History, Seq::empty())
        } else if cmd == encode_utf8("mem"@) && arg.len() == 0 {
            (CommandKind::Mem, Seq::empty())
        } else if cmd == encode_utf8("ticks"@) && arg.len() == 0 {
            (CommandKind::Ticks, Seq::empty())
        } else if cmd == encode_utf8("panic"@) && arg.len() == 0 {
            (CommandKind::Panic, Seq::empty())
        } else if cmd == encode_utf8("halt"@) && arg.len() == 0 {
            (CommandKind::Halt, Seq::empty())
        } else if cmd == encode_utf8("reboot"@) && arg.len() == 0 {
            (CommandKind::Reboot, Seq::empty())
        } else if cmd == encode_utf8("echo"@) && arg.len() > 0 {
            (CommandKind::Echo, arg)
        } else if cmd == encode_utf8("ls"@) {
            (CommandKind::Ls, if arg.len() == 0 {
                encode_utf8("/"@)
            } else {
                arg
            })
        } else if cmd == encode_utf8("cat"@) && arg.len() > 0 {
            (CommandKind::Cat, arg)
        } else if cmd == encode_utf8("stat"@) && arg.len() > 0 {
            (CommandKind::Stat, arg)
        } else {
            (CommandKind::Unknown, Seq::empty())
        }
    }
}

/// Parses one input line into a command and argument.
pub fn parse_command(line: &[u8]) -> (r: ParsedCommand)
    ensures
        r.kind == spec_parse(line@).0,
        r.arg@ == spec_parse(line@).1,
{
    let trimmed: Vec<u8> = trim_spaces(line);
    if trimmed.len() == 0 {
        return ParsedCommand { kind: CommandKind::Empty, arg: Vec::new() };
    }
    let (cmd, arg) = split_cmd_arg(trimmed.as_slice());
    let no_arg: bool = arg.len() == 0;
    let kind: CommandKind = if bytes_eq(cmd.as_slice(), "help".as_bytes()) && no_arg {
        CommandKind::Help
    } else if bytes_eq(cmd.as_slice(), "clear".as_bytes()) && no_arg {
        CommandKind::Clear
    } else if bytes_eq(cmd.as_slice(), "history".as_bytes()) && no_arg {
        CommandKind::History
    } else if bytes_eq(cmd.as_slice(), "mem".as_bytes()) && no_arg {
        CommandKind::Mem
    } else if bytes_eq(cmd.as_slice(), "ticks".as_bytes()) && no_arg {
        CommandKind::Ticks
    } else if bytes_eq(cmd.as_slice(), "panic".as_bytes()) && no_arg {
        CommandKind::Panic
    } else if bytes_eq(cmd.as_slice(), "halt".as_bytes()) && no_arg {
        CommandKind::Halt
    } else if bytes_eq(cmd.as_slice(), "reboot".as_bytes()) && no_arg {
        CommandKind::Reboot
    } else if bytes_eq(cmd.as_slice(), "echo".as_bytes()) && !no_arg {
        CommandKind::Echo
    } else if bytes_eq(cmd.as_slice(), "ls".as_bytes()) {
        CommandKind::Ls
    } else if bytes_eq(cmd.as_slice(), "cat".as_bytes()) && !no_arg {
        CommandKind::Cat
    } else if bytes_eq(cmd.as_slice(), "stat".as_bytes()) && !no_arg {
        CommandKind::Stat
    } else {
        CommandKind::Unknown
    };
    match kind {
        CommandKind::Echo => ParsedCommand { kind, arg },
        CommandKind::Cat => ParsedCommand { kind, arg },
        CommandKind::Stat => ParsedCommand { kind, arg },
        CommandKind::Ls => {
            if arg.len() == 0 {
                ParsedCommand { kind, arg: "/".as_bytes_vec() }
            } else {
                ParsedCommand { kind, arg }
            }
        },
        _ => ParsedCommand { kind, arg: Vec::new() },
    }
}

/// Checks one row of the parse table.
pub fn check_parse(line: &[u8], expected_kind: CommandKind, expected_arg: &[u8]) -> (r: bool)
    ensures
        r == (spec_parse(line@) == (expected_kind, expected_arg@)),
{
    let parsed: ParsedCommand = parse_command(line);
    let kinds_match: bool = parsed.kind == expected_kind;
    let args_match: bool = bytes_eq(parsed.arg.as_slice(), expected_arg);
    proof {
        if kinds_match && args_match {
            assert(spec_parse(line@) == (expected_kind, expected_arg@));
        }
    }
    kinds_match && args_match
}


proof fn lemma_no_space_line(b: Seq<u8>)
    requires
        forall|i: int| 0 <= i < b.len() ==> b[i] != 0x20,
    ensures
        spec_trim(b) == b,
        spec_split_cmd(b).0 == b,
        spec_split_cmd(b).1 == Seq::<u8>::empty(),
{
    lemma_trim_front_at(b, 0);
    assert(b.skip(0) =~= b);
    lemma_trim_back_at(b, b.len() as int);
    assert(b.take(b.len() as int) =~= b);
    lemma_first_space_at(b, b.len() as int);
}

proof fn lemma_single_space_line(b: Seq<u8>, k: int)
    requires
        0 < k,
        k + 1 < b.len(),
        b[k] == 0x20,
        forall|i: int| 0 <= i < b.len() && i != k ==> b[i] != 0x20,
    ensures
        spec_trim(b) == b,
        spec_split_cmd(b).0 == b.take(k),
        spec_split_cmd(b).1 == b.skip(k + 1),
{
    lemma_trim_front_at(b, 0);
    assert(b.skip(0) =~= b);
    lemma_trim_back_at(b, b.len() as int);
    assert(b.take(b.len() as int) =~= b);
    lemma_first_space_at(b, k);
    let arg = b.skip(k + 1);
    assert forall|i: int| 0 <= i < arg.len() implies arg[i] != 0x20 by {
        assert(arg[i] == b[k + 1 + i]);
    }
    lemma_trim_front_at(arg, 0);
    assert(arg.skip(0) =~= arg);
    lemma_trim_back_at(arg, arg.len() as int);
    assert(arg.take(arg.len() as int) =~= arg);
}

/// The byte encodings of the command words and the fixed arguments.
proof fn lemma_keyword_bytes()
    ensures
        encode_utf8("help"@) == seq![104u8, 101u8, 108u8, 112u8],
        encode_utf8("clear"@) == seq![99u8, 108u8, 101u8, 97u8, 114u8],
        encode_utf8("history"@) == seq![104u8, 105u8, 115u8, 116u8, 111u8, 114u8, 121u8],
        encode_utf8("mem"@) == seq![109u8, 101u8, 109u8],
        encode_utf8("ticks"@) == seq![116u8, 105u8, 99u8, 107u8, 115u8],
        encode_utf8("panic"@) == seq![112u8, 97u8, 110u8, 105u8, 99u8],
        encode_utf8("halt"@) == seq![104u8, 97u8, 108u8, 116u8],
        encode_utf8("reboot"@) == seq![114u8, 101u8, 98u8, 111u8, 111u8, 116u8],
        encode_utf8("echo"@) == seq![101u8, 99u8, 104u8, 111u8],
        encode_utf8("ls"@) == seq![108u8, 115u8],
        encode_utf8("cat"@) == seq![99u8, 97u8, 116u8],
        encode_utf8("stat"@) == seq![115u8, 116u8, 97u8, 116u8],
        encode_utf8(""@) == Seq::<u8>::empty(),
        encode_utf8("/"@) == seq![47u8],
        encode_utf8("hello"@) == seq![104u8, 101u8, 108u8, 108u8, 111u8],
        encode_utf8("/motd.txt"@) == seq![47u8, 109u8, 111u8, 116u8, 100u8, 46u8, 116u8, 120u8, 116u8],
{
    reveal_strlit("help");
    assert("help"@ =~= seq!['h', 'e', 'l', 'p']);
    assert(is_ascii_chars("help"@));
    is_ascii_chars_encode_utf8("help"@);
    assert(encode_utf8("help"@) =~= seq![104u8, 101u8, 108u8, 112u8]);
    reveal_strlit("clear");
    assert("clear"@ =~= seq!['c', 'l', 'e', 'a', 'r']);
    assert(is_ascii_chars("clear"@));
    is_ascii_chars_encode_utf8("clear"@);
    assert(encode_utf8("clear"@) =~= seq![99u8, 108u8, 101u8, 97u8, 114u8]);
    reveal_strlit("history");
    assert("history"@ =~= seq!['h', 'i', 's', 't', 'o', 'r', 'y']);
    assert(is_ascii_chars("history"@));
    is_ascii_chars_encode_utf8("history"@);
    assert(encode_utf8("history"@) =~= seq![104u8, 105u8, 115u8, 116u8, 111u8, 114u8, 121u8]);
    reveal_strlit("mem");
    assert("mem"@ =~= seq!['m', 'e', 'm']);
    assert(is_ascii_chars("mem"@));
    is_ascii_chars_encode_utf8("mem"@);
    assert(encode_utf8("mem"@) =~= seq![109u8, 101u8, 109u8]);
    reveal_strlit("ticks");
    assert("ticks"@ =~= seq!['t', 'i', 'c', 'k', 's']);
    assert(is_ascii_chars("ticks"@));
    is_ascii_chars_encode_utf8("ticks"@);
    assert(encode_utf8("ticks"@) =~= seq![116u8, 105u8, 99u8, 107u8, 115u8]);
    reveal_strlit("panic");
    assert("panic"@ =~= seq!['p', 'a', 'n', 'i', 'c']);
    assert(is_ascii_chars("panic"@));
    is_ascii_chars_encode_utf8("panic"@);
    assert(encode_utf8("panic"@) =~= seq![112u8, 97u8, 110u8, 105u8, 99u8]);
    reveal_strlit("halt");
    assert("halt"@ =~= seq!['h', 'a', 'l', 't']);
    assert(is_ascii_chars("halt"@));
    is_ascii_chars_encode_utf8("halt"@);
    assert(encode_utf8("halt"@) =~= seq![104u8, 97u8, 108u8, 116u8]);
    reveal_strlit("reboot");
    assert("reboot"@ =~= seq!['r', 'e', 'b', 'o', 'o', 't']);
    assert(is_ascii_chars("reboot"@));
    is_ascii_chars_encode_utf8("reboot"@);
    assert(encode_utf8("reboot"@) =~= seq![114u8, 101u8, 98u8, 111u8, 111u8, 116u8]);
    reveal_strlit("echo");
    assert("echo"@ =~= seq!['e', 'c', 'h', 'o']);
    assert(is_ascii_chars("echo"@));
    is_ascii_chars_encode_utf8("echo"@);
    assert(encode_utf8("echo"@) =~= seq![101u8, 99u8, 104u8, 111u8]);
    reveal_strlit("ls");
    assert("ls"@ =~= seq!['l', 's']);
    assert(is_ascii_chars("ls"@));
    is_ascii_chars_encode_utf8("ls"@);
    assert(encode_utf8("ls"@) =~= seq![108u8, 115u8]);
    reveal_strlit("cat");
    assert("cat"@ =~= seq!['c', 'a', 't']);
    assert(is_ascii_chars("cat"@));
    is_ascii_chars_encode_utf8("cat"@);
    assert(encode_utf8("cat"@) =~= seq![99u8, 97u8, 116u8]);
    reveal_strlit("stat");
    assert("stat"@ =~= seq!['s', 't', 'a', 't']);
    assert(is_ascii_chars("stat"@));
    is_ascii_chars_encode_utf8("stat"@);
    assert(encode_utf8("stat"@) =~= seq![115u8, 116u8, 97u8, 116u8]);
    reveal_strlit("");
    assert(is_ascii_chars(""@));
    is_ascii_chars_encode_utf8(""@);
    assert(encode_utf8(""@) =~= Seq::<u8>::empty());
    reveal_strlit("/");
    assert("/"@ =~= seq!['/']);
    assert(is_ascii_chars("/"@));
    is_ascii_chars_encode_utf8("/"@);
    assert(encode_utf8("/"@) =~= seq![47u8]);
    reveal_strlit("hello");
    assert("hello"@ =~= seq!['h', 'e', 'l', 'l', 'o']);
    assert(is_ascii_chars("hello"@));
    is_ascii_chars_encode_utf8("hello"@);
    assert(encode_utf8("hello"@) =~= seq![104u8, 101u8, 108u8, 108u8, 111u8]);
    reveal_strlit("/motd.txt");
    assert("/motd.txt"@ =~= seq!['/', 'm', 'o', 't', 'd', '.', 't', 'x', 't']);
    assert(is_ascii_chars("/motd.txt"@));
    is_ascii_chars_encode_utf8("/motd.txt"@);
    assert(encode_utf8("/motd.txt"@) =~= seq![47u8, 109u8, 111u8, 116u8, 100u8, 46u8, 116u8, 120u8, 116u8]);
}

proof fn lemma_parse_empty_line()
    ensures
        spec_parse(encode_utf8(""@)) == (CommandKind::Empty, Seq::<u8>::empty()),
{
    lemma_keyword_bytes();
    reveal_strlit("");
    let b = encode_utf8(""@);
    lemma_no_space_line(b);
    assert(spec_parse(b) == (CommandKind::Empty, Seq::<u8>::empty()));
}

proof fn lemma_parse_help()
    ensures
        spec_parse(encode_utf8("help"@)) == (CommandKind::Help, Seq::<u8>::empty()),
{
    lemma_keyword_bytes();
    reveal_strlit("help");
    assert("help"@ =~= seq!['h', 'e', 'l', 'p']);
    assert(is_ascii_chars("help"@));
    is_ascii_chars_encode_utf8("help"@);
    assert(encode_utf8("help"@) =~= seq![104u8, 101u8, 108u8, 112u8]);
    let b = encode_utf8("help"@);
    lemma_no_space_line(b);
    assert(spec_parse(b) == (CommandKind::Help, Seq::<u8>::empty()));
}

proof fn lemma_parse_clear()
    ensures
        spec_parse(encode_utf8("clear"@)) == (CommandKind::Clear, Seq::<u8>::empty()),
{
    lemma_keyword_bytes();
    reveal_strlit("clear");
    assert("clear"@ =~= seq!['c', 'l', 'e', 'a', 'r']);
    assert(is_ascii_chars("clear"@));
    is_ascii_chars_encode_utf8("clear"@);
    assert(encode_utf8("clear"@) =~= seq![99u8, 108u8, 101u8, 97u8, 114u8]);
    let b = encode_utf8("clear"@);
    lemma_no_space_line(b);
    assert(spec_parse(b) == (CommandKind::Clear, Seq::<u8>::empty()));
}

proof fn lemma_parse_history()
    ensures
        spec_parse(encode_utf8("history"@)) == (CommandKind::History, Seq::<u8>::empty()),
{
    lemma_keyword_bytes();
    reveal_strlit("history");
    assert("history"@ =~= seq!['h', 'i', 's', 't', 'o', 'r', 'y']);
    assert(is_ascii_chars("history"@));
    is_ascii_chars_encode_utf8("history"@);
    assert(encode_utf8("history"@) =~= seq![104u8, 105u8, 115u8, 116u8, 111u8, 114u8, 121u8]);
    let b = encode_utf8("history"@);
    lemma_no_space_line(b);
    assert(spec_parse(b) == (CommandKind::History, Seq::<u8>::empty()));
}

proof fn lemma_parse_mem()
    ensures
        spec_parse(encode_utf8("mem"@)) == (CommandKind::Mem, Seq::<u8>::empty()),
{
    lemma_keyword_bytes();
    reveal_strlit("mem");
    assert("mem"@ =~= seq!['m', 'e', 'm']);
    assert(is_ascii_chars("mem"@));
    is_ascii_chars_encode_utf8("mem"@);
    assert(encode_utf8("mem"@) =~= seq![109u8, 101u8, 109u8]);
    let b = encode_utf8("mem"@);
    lemma_no_space_line(b);
    assert(spec_parse(b) == (CommandKind::Mem, Seq::<u8>::empty()));
}

proof fn lemma_parse_ticks()
    ensures
        spec_parse(encode_utf8("ticks"@)) == (CommandKind::Ticks, Seq::<u8>::empty()),
{
    lemma_keyword_bytes();
    reveal_strlit("ticks");
    assert("ticks"@ =~= seq!['t', 'i', 'c', 'k', 's']);
    assert(is_ascii_chars("ticks"@));
    is_ascii_chars_encode_utf8("ticks"@);
    assert(encode_utf8("ticks"@) =~= seq![116u8, 105u8, 99u8, 107u8, 115u8]);
    let b = encode_utf8("ticks"@);
    lemma_no_space_line(b);
    assert(spec_parse(b) == (CommandKind::Ticks, Seq::<u8>::empty()));
}

proof fn lemma_parse_panic()
    ensures
        spec_parse(encode_utf8("panic"@)) == (CommandKind::Panic, Seq::<u8>::empty()),
{
    lemma_keyword_bytes();
    reveal_strlit("panic");
    assert("panic"@ =~= seq!['p', 'a', 'n', 'i', 'c']);
    assert(is_ascii_chars("panic"@));
    is_ascii_chars_encode_utf8("panic"@);
    assert(encode_utf8("panic"@) =~= seq![112u8, 97u8, 110u8, 105u8, 99u8]);
    let b = encode_utf8("panic"@);
    lemma_no_space_line(b);
    assert(spec_parse(b) == (CommandKind::Panic, Seq::<u8>::empty()));
}

proof fn lemma_parse_halt()
    ensures
        spec_parse(encode_utf8("halt"@)) == (CommandKind::Halt, Seq::<u8>::empty()),
{
    lemma_keyword_bytes();
    reveal_strlit("halt");
    assert("halt"@ =~= seq!['h', 'a', 'l', 't']);
    assert(is_ascii_chars("halt"@));
    is_ascii_chars_encode_utf8("halt"@);
    assert(encode_utf8("halt"@) =~= seq![104u8, 97u8, 108u8, 116u8]);
    let b = encode_utf8("halt"@);
    lemma_no_space_line(b);
    assert(spec_parse(b) == (CommandKind::Halt, Seq::<u8>::empty()));
}

proof fn lemma_parse_reboot()
    ensures
        spec_parse(encode_utf8("reboot"@)) == (CommandKind::Reboot, Seq::<u8>::empty()),
{
    lemma_keyword_bytes();
    reveal_strlit("reboot");
    assert("reboot"@ =~= seq!['r', 'e', 'b', 'o', 'o', 't']);
    assert(is_ascii_chars("reboot"@));
    is_ascii_chars_encode_utf8("reboot"@);
    assert(encode_utf8("reboot"@) =~= seq![114u8, 101u8, 98u8, 111u8, 111u8, 116u8]);
    let b = encode_utf8("reboot"@);
    lemma_no_space_line(b);
    assert(spec_parse(b) == (CommandKind::Reboot, Seq::<u8>::empty()));
}

proof fn lemma_parse_echo_hello()
    ensures
        spec_parse(encode_utf8("echo hello"@)) == (CommandKind::Echo, encode_utf8("hello"@)),
{
    lemma_keyword_bytes();
    reveal_strlit("echo hello");
    assert("echo hello"@ =~= seq!['e', 'c', 'h', 'o', ' ', 'h', 'e', 'l', 'l', 'o']);
    assert(is_ascii_chars("echo hello"@));
    is_ascii_chars_encode_utf8("echo hello"@);
    assert(encode_utf8("echo hello"@) =~= seq![101u8, 99u8, 104u8, 111u8, 32u8, 104u8, 101u8, 108u8, 108u8, 111u8]);
    let b = encode_utf8("echo hello"@);
    lemma_single_space_line(b, 4);
    assert(b.take(4) =~= encode_utf8("echo"@));
    assert(b.skip(5) =~= encode_utf8("hello"@));
    assert(spec_parse(b) == (CommandKind::Echo, encode_utf8("hello"@)));
}

proof fn lemma_parse_ls()
    ensures
        spec_parse(encode_utf8("ls"@)) == (CommandKind::Ls, encode_utf8("/"@)),
{
    lemma_keyword_bytes();
    reveal_strlit("ls");
    assert("ls"@ =~= seq!['l', 's']);
    assert(is_ascii_chars("ls"@));
    is_ascii_chars_encode_utf8("ls"@);
    assert(encode_utf8("ls"@) =~= seq![108u8, 115u8]);
    let b = encode_utf8("ls"@);
    lemma_no_space_line(b);
    assert(spec_parse(b) == (CommandKind::Ls, encode_utf8("/"@)));
}

proof fn lemma_parse_ls_root()
    ensures
        spec_parse(encode_utf8("ls /"@)) == (CommandKind::Ls, encode_utf8("/"@)),
{
    lemma_keyword_bytes();
    reveal_strlit("ls /");
    assert("ls /"@ =~= seq!['l', 's', ' ', '/']);
    assert(is_ascii_chars("ls /"@));
    is_ascii_chars_encode_utf8("ls /"@);
    assert(encode_utf8("ls /"@) =~= seq![108u8, 115u8, 32u8, 47u8]);
    let b = encode_utf8("ls /"@);
    lemma_single_space_line(b, 2);
    assert(b.take(2) =~= encode_utf8("ls"@));
    assert(b.skip(3) =~= encode_utf8("/"@));
    assert(spec_parse(b) == (CommandKind::Ls, encode_utf8("/"@)));
}

proof fn lemma_parse_cat_path()
    ensures
        spec_parse(encode_utf8("cat /motd.txt"@)) == (CommandKind::Cat, encode_utf8("/motd.txt"@)),
{
    lemma_keyword_bytes();
    reveal_strlit("cat /motd.txt");
    assert("cat /motd.txt"@ =~= seq!['c', 'a', 't', ' ', '/', 'm', 'o', 't', 'd', '.', 't', 'x', 't']);
    assert(is_ascii_chars("cat /motd.txt"@));
    is_ascii_chars_encode_utf8("cat /motd.txt"@);
    assert(encode_utf8("cat /motd.txt"@) =~= seq![99u8, 97u8, 116u8, 32u8, 47u8, 109u8, 111u8, 116u8, 100u8, 46u8, 116u8, 120u8, 116u8]);
    let b = encode_utf8("cat /motd.txt"@);
    lemma_single_space_line(b, 3);
    assert(b.take(3) =~= encode_utf8("cat"@));
    assert(b.skip(4) =~= encode_utf8("/motd.txt"@));
    assert(spec_parse(b) == (CommandKind::Cat, encode_utf8("/motd.txt"@)));
}

proof fn lemma_parse_stat_path()
    ensures
        spec_parse(encode_utf8("stat /motd.txt"@)) == (CommandKind::Stat, encode_utf8("/motd.txt"@)),
{
    lemma_keyword_bytes();
    reveal_strlit("stat /motd.txt");
    assert("stat /motd.txt"@ =~= seq!['s', 't', 'a', 't', ' ', '/', 'm', 'o', 't', 'd', '.', 't', 'x', 't']);
    assert(is_ascii_chars("stat /motd.txt"@));
    is_ascii_chars_encode_utf8("stat /motd.txt"@);
    assert(encode_utf8("stat /motd.txt"@) =~= seq![115u8, 116u8, 97u8, 116u8, 32u8, 47u8, 109u8, 111u8, 116u8, 100u8, 46u8, 116u8, 120u8, 116u8]);
    let b = encode_utf8("stat /motd.txt"@);
    lemma_single_space_line(b, 4);
    assert(b.take(4) =~= encode_utf8("stat"@));
    assert(b.skip(5) =~= encode_utf8("/motd.txt"@));
    assert(spec_parse(b) == (CommandKind::Stat, encode_utf8("/motd.txt"@)));
}

proof fn lemma_parse_echo()
    ensures
        spec_parse(encode_utf8("echo"@)) == (CommandKind::Unknown, Seq::<u8>::empty()),
{
    lemma_keyword_bytes();
    reveal_strlit("echo");
    assert("echo"@ =~= seq!['e', 'c', 'h', 'o']);
    assert(is_ascii_chars("echo"@));
    is_ascii_chars_encode_utf8("echo"@);
    assert(encode_utf8("echo"@) =~= seq![101u8, 99u8, 104u8, 111u8]);
    let b = encode_utf8("echo"@);
    lemma_no_space_line(b);
    assert(spec_parse(b) == (CommandKind::Unknown, Seq::<u8>::empty()));
}

proof fn lemma_parse_cat()
    ensures
        spec_parse(encode_utf8("cat"@)) == (CommandKind::Unknown, Seq::<u8>::empty()),
{
    lemma_keyword_bytes();
    reveal_strlit("cat");
    assert("cat"@ =~= seq!['c', 'a', 't']);
    assert(is_ascii_chars("cat"@));
    is_ascii_chars_encode_utf8("cat"@);
    assert(encode_utf8("cat"@) =~= seq![99u8, 97u8, 116u8]);
    let b = encode_utf8("cat"@);
    lemma_no_space_line(b);
    assert(spec_parse(b) == (CommandKind::Unknown, Seq::<u8>::empty()));
}

proof fn lemma_parse_stat()
    ensures
        spec_parse(encode_utf8("stat"@)) == (CommandKind::Unknown, Seq::<u8>::empty()),
{
    lemma_keyword_bytes();
    reveal_strlit("stat");
    assert("stat"@ =~= seq!['s', 't', 'a', 't']);
    assert(is_ascii_chars("stat"@));
    is_ascii_chars_encode_utf8("stat"@);
    assert(encode_utf8("stat"@) =~= seq![115u8, 116u8, 97u8, 116u8]);
    let b = encode_utf8("stat"@);
    lemma_no_space_line(b);
    assert(spec_parse(b) == (CommandKind::Unknown, Seq::<u8>::empty()));
}

proof fn lemma_parse_unknown()
    ensures
        spec_parse(encode_utf8("unknown"@)) == (CommandKind::Unknown, Seq::<u8>::empty()),
{
    lemma_keyword_bytes();
    reveal_strlit("unknown");
    assert("unknown"@ =~= seq!['u', 'n', 'k', 'n', 'o', 'w', 'n']);
    assert(is_ascii_chars("unknown"@));
    is_ascii_chars_encode_utf8("unknown"@);
    assert(encode_utf8("unknown"@) =~= seq![117u8, 110u8, 107u8, 110u8, 111u8, 119u8, 110u8]);
    let b = encode_utf8("unknown"@);
    lemma_no_space_line(b);
    assert(spec_parse(b) == (CommandKind::Unknown, Seq::<u8>::empty()));
}

/// Runs the fixed parse table the boot self-test checks; the table is also
/// proved, so the checks cannot fail.
pub fn run_command_self_tests() -> (r: bool)
    ensures
        r,
{
    proof {
        lemma_keyword_bytes();
        lemma_parse_empty_line();
        lemma_parse_help();
        lemma_parse_clear();
        lemma_parse_history();
        lemma_parse_mem();
        lemma_parse_ticks();
        lemma_parse_panic();
        lemma_parse_halt();
        lemma_parse_reboot();
        lemma_parse_echo_hello();
        lemma_parse_ls();
        lemma_parse_ls_root();
        lemma_parse_cat_path();
        lemma_parse_stat_path();
        lemma_parse_echo();
        lemma_parse_cat();
        lemma_parse_stat();
        lemma_parse_unknown();
    }
    let mut ok: bool = true;
    ok = ok && check_parse("".as_bytes(), CommandKind::Empty, "".as_bytes());
    ok = ok && check_parse("help".as_bytes(), CommandKind::Help, "".as_bytes());
    ok = ok && check_parse("clear".as_bytes(), CommandKind::Clear, "".as_bytes());
    ok = ok && check_parse("history".as_bytes(), CommandKind::History, "".as_bytes());
    ok = ok && check_parse("mem".as_bytes(), CommandKind::Mem, "".as_bytes());
    ok = ok && check_parse("ticks".as_bytes(), CommandKind::Ticks, "".as_bytes());
    ok = ok && check_parse("panic".as_bytes(), CommandKind::Panic, "".as_bytes());
    ok = ok && check_parse("halt".as_bytes(), CommandKind::Halt, "".as_bytes());
    ok = ok && check_parse("reboot".as_bytes(), CommandKind::Reboot, "".as_bytes());
    ok = ok && check_parse("echo hello".as_bytes(), CommandKind::Echo, "hello".as_bytes());
    ok = ok && check_parse("ls".as_bytes(), CommandKind::Ls, "/".as_bytes());
    ok = ok && check_parse("ls /".as_bytes(), CommandKind::Ls, "/".as_bytes());
    ok = ok && check_parse("cat /motd.txt".as_bytes(), CommandKind::Cat, "/motd.txt".as_bytes());
    ok = ok && check_parse("stat /motd.txt".as_bytes(), CommandKind::Stat, "/motd.txt".as_bytes());
    ok = ok && check_parse("echo".as_bytes(), CommandKind::Unknown, "".as_bytes());
    ok = ok && check_parse("cat".as_bytes(), CommandKind::Unknown, "".as_bytes());
    ok = ok && check_parse("stat".as_bytes(), CommandKind::Unknown, "".as_bytes());
    ok = ok && check_parse("unknown".as_bytes(), CommandKind::Unknown, "".as_bytes());
    ok
}

/// The help banner, with its newline.
pub fn help_text() -> (r: Vec<u8>)
    ensures
        r@ == encode_utf8(
            "commands: help echo clear history mem ticks ls cat stat panic halt reboot\n"@,
        ),
{
    "commands: help echo clear history mem ticks ls cat stat panic halt reboot\n".as_bytes_vec()
}

/// The `ticks` command's output.
pub fn ticks_response(ticks: u64) -> (r: Vec<u8>)
    ensures
        r@ == encode_utf8("ticks="@) + spec_decimal(ticks as int) + seq![10u8],
{
    let mut out: Vec<u8> = "ticks=".as_bytes_vec();
    let mut digits: Vec<u8> = format_u64(ticks);
    out.append(&mut digits);
    out.push(10);
    proof {
        assert(out@ =~= encode_utf8("ticks="@) + spec_decimal(ticks as int) + seq![10u8]);
    }
    out
}

/// The `mem` command's output.
pub fn mem_response(stats: Option<FrameStats>) -> (r: Vec<u8>)
    ensures
        match stats {
            None => r@ == encode_utf8("frame allocator not initialized\n"@),
            Some(s) => r@ == encode_utf8("frames total="@) + spec_decimal(s.total_frames as int)
                + encode_utf8(" allocated="@) + spec_decimal(s.allocated_frames as int)
                + encode_utf8(" free="@) + spec_decimal(s.free_frames as int) + seq![10u8],
        },
{
    match stats {
        None => "frame allocator not initialized\n".as_bytes_vec(),
        Some(s) => {
            let mut out: Vec<u8> = "frames total=".as_bytes_vec();
            let mut total: Vec<u8> = format_u64(s.total_frames);
            out.append(&mut total);
            let mut mid: Vec<u8> = " allocated=".as_bytes_vec();
            out.append(&mut mid);
            let mut allocated: Vec<u8> = format_u64(s.allocated_frames);
            out.append(&mut allocated);
            let mut mid2: Vec<u8> = " free=".as_bytes_vec();
            out.append(&mut mid2);
            let mut free: Vec<u8> = format_u64(s.free_frames);
            out.append(&mut free);
            out.push(10);
            proof {
                assert(out@ =~= encode_utf8("frames total="@) + spec_decimal(
                    s.total_frames as int,
                ) + encode_utf8(" allocated="@) + spec_decimal(s.allocated_frames as int)
                    + encode_utf8(" free="@) + spec_decimal(s.free_frames as int) + seq![10u8]);
            }
            out
        },
    }
}

/// What the history ring holds after committing `line`: full lines are kept,
/// the oldest leaves when the ring is full, empty lines are not recorded.
pub open spec fn spec_record(history: Seq<Seq<u8>>, line: Seq<u8>) -> Seq<Seq<u8>> {
    if line.len() == 0 {
        history
    } else if history.len() >= MAX_HISTORY {
        history.skip(1).push(line)
    } else {
        history.push(line)
    }
}

/// Line editor state: the current line, the committed-line ring, and the
/// history cursor.
pub struct ShellState {
    line: Vec<u8>,
    history: Vec<Vec<u8>>,
    history_index: Option<usize>,
}

impl ShellState {
    pub closed spec fn spec_line(&self) -> Seq<u8> {
        self.line@
    }

    pub closed spec fn spec_history(&self) -> Seq<Seq<u8>> {
        Seq::new(self.history@.len(), |i: int| self.history@[i]@)
    }

    pub closed spec fn spec_history_index(&self) -> Option<usize> {
        self.history_index
    }

    pub open spec fn wf(&self) -> bool {
        &&& self.spec_line().len() <= MAX_LINE
        &&& self.spec_history().len() <= MAX_HISTORY
        &&& (forall|i: int|
            0 <= i < self.spec_history().len() ==> (#[trigger] self.spec_history()[i]).len()
                <= MAX_LINE)
        &&& (self.spec_history_index() matches Some(i) ==> i < self.spec_history().len())
    }

    pub fn new() -> (r: ShellState)
        ensures
            r.wf(),
            r.spec_line() == Seq::<u8>::empty(),
            r.spec_history() == Seq::<Seq<u8>>::empty(),
            r.spec_history_index() is None,
    {
        let r = ShellState { line: Vec::new(), history: Vec::new(), history_index: None };
        proof {
            assert(r.spec_history() =~= Seq::<Seq<u8>>::empty());
        }
        r
    }

    /// Appends a printable byte to the line when there is room; tells the
    /// caller whether to echo it. Any typing leaves history browsing.
    pub fn insert_char(&mut self, byte: u8) -> (r: bool)
        requires
            old(self).wf(),
        ensures
            final(self).wf(),
            final(self).spec_history() == old(self).spec_history(),
            final(self).spec_history_index() is None,
            old(self).spec_line().len() < MAX_LINE ==> r && final(self).spec_line() == old(
                self,
            ).spec_line().push(byte),
            old(self).spec_line().len() >= MAX_LINE ==> !r && final(self).spec_line() == old(
                self,
            ).spec_line(),
    {
        self.history_index = None;
        if self.line.len() < MAX_LINE {
            self.line.push(byte);
            true
        } else {
            false
        }
    }

    /// Removes the last byte when there is one; tells the caller whether to
    /// echo a rub-out. Leaves history browsing.
    pub fn backspace(&mut self) -> (r: bool)
        requires
            old(self).wf(),
        ensures
            final(self).wf(),
            final(self).spec_history() == old(self).spec_history(),
            final(self).spec_history_index() is None,
            old(self).spec_line().len() > 0 ==> r && final(self).spec_line() == old(
                self,
            ).spec_line().drop_last(),
            old(self).spec_line().len() == 0 ==> !r && final(self).spec_line() == old(
                self,
            ).spec_line(),
    {
        self.history_index = None;
        if self.line.len() > 0 {
            let popped = self.line.pop();
            proof {
                assert(self.line@ =~= old(self).spec_line().drop_last());
            }
            true
        } else {
            false
        }
    }

    /// Commits the line: returns it for execution, records it in the
    /// history ring, clears the buffer and the history cursor.
    pub fn commit_line(&mut self) -> (r: Vec<u8>)
        requires
            old(self).wf(),
        ensures
            final(self).wf(),
            r@ == old(self).spec_line(),
            final(self).spec_line() == Seq::<u8>::empty(),
            final(self).spec_history_index() is None,
            final(self).spec_history() == spec_record(old(self).spec_history(), old(
                self,
            ).spec_line()),
    {
        self.history_index = None;
        let committed: Vec<u8> = vstd::slice::slice_to_vec(self.line.as_slice());
        if self.line.len() > 0 {
            if self.history.len() >= MAX_HISTORY {
                let ghost before = self.history@;
                let removed = self.history.remove(0);
                proof {
                    assert(Seq::new(self.history@.len(), |i: int| self.history@[i]@)
                        =~= Seq::new((before.len() - 1) as nat, |i: int| before[i + 1]@));
                }
            }
            let recorded: Vec<u8> = vstd::slice::slice_to_vec(self.line.as_slice());
            let ghost mid = self.history@;
            self.history.push(recorded);
            proof {
                assert(self.spec_history() =~= Seq::new(mid.len(), |i: int| mid[i]@).push(
                    old(self).spec_line(),
                ));
                if old(self).spec_history().len() >= MAX_HISTORY {
                    assert(Seq::new(mid.len(), |i: int| mid[i]@) =~= old(
                        self,
                    ).spec_history().skip(1));
                } else {
                    assert(Seq::new(mid.len(), |i: int| mid[i]@) =~= old(self).spec_history());
                }
            }
        }
        self.line.clear();
        proof {
            assert(self.spec_history() == spec_record(old(self).spec_history(), old(
                self,
            ).spec_line()));
        }
        committed
    }

    /// Steps the history cursor toward older lines and loads that line;
    /// returns the new line content for redraw, or nothing when there is no
    /// history.
    pub fn history_up(&mut self) -> (r: Option<Vec<u8>>)
        requires
            old(self).wf(),
        ensures
            final(self).wf(),
            final(self).spec_history() == old(self).spec_history(),
            old(self).spec_history().len() == 0 ==> r is None && *final(self) == *old(self),
            old(self).spec_history().len() > 0 ==> {
                let target = (match old(self).spec_history_index() {
                    Some(current) => if current > 0 {
                        (current - 1) as usize
                    } else {
                        current
                    },
                    None => (old(self).spec_history().len() - 1) as usize,
                });
                &&& final(self).spec_history_index() == Some(target)
                &&& final(self).spec_line() == old(self).spec_history()[target as int]
                &&& (r matches Some(v) && v@ == old(self).spec_history()[target as int])
            },
    {
        let hlen: usize = self.history.len();
        if hlen == 0 {
            return None;
        }
        let target: usize = match self.history_index {
            Some(current) => if current > 0 {
                current - 1
            } else {
                current
            },
            None => hlen - 1,
        };
        self.history_index = Some(target);
        let content: Vec<u8> = vstd::slice::slice_to_vec(self.history[target].as_slice());
        self.line = vstd::slice::slice_to_vec(self.history[target].as_slice());
        proof {
            assert(self.spec_history() =~= old(self).spec_history());
            assert(old(self).spec_history()[target as int].len() <= MAX_LINE);
        }
        Some(content)
    }

    /// Steps the history cursor toward newer lines; stepping past the
    /// newest clears the line and leaves browsing. Returns the new line
    /// content for redraw when anything changed.
    pub fn history_down(&mut self) -> (r: Option<Vec<u8>>)
        requires
            old(self).wf(),
        ensures
            final(self).wf(),
            final(self).spec_history() == old(self).spec_history(),
            old(self).spec_history().len() == 0 ==> r is None && *final(self) == *old(self),
            old(self).spec_history().len() > 0 ==> match old(self).spec_history_index() {
                None => r is None && *final(self) == *old(self),
                Some(current) => {
                    if current + 1 < old(self).spec_history().len() {
                        &&& final(self).spec_history_index() == Some((current + 1) as usize)
                        &&& final(self).spec_line() == old(self).spec_history()[current + 1]
                        &&& (r matches Some(v) && v@ == old(self).spec_history()[current + 1])
                    } else {
                        &&& final(self).spec_history_index() is None
                        &&& final(self).spec_line() == Seq::<u8>::empty()
                        &&& (r matches Some(v) && v@ == Seq::<u8>::empty())
                    }
                },
            },
    {
        let hlen: usize = self.history.len();
        if hlen == 0 {
            return None;
        }
        match self.history_index {
            Some(current) => {
                if current + 1 < hlen {
                    self.history_index = Some(current + 1);
                    let content: Vec<u8> = vstd::slice::slice_to_vec(
                        self.history[current + 1].as_slice(),
                    );
                    self.line = vstd::slice::slice_to_vec(
                        self.history[current + 1].as_slice(),
                    );
                    proof {
                        assert(self.spec_history() =~= old(self).spec_history());
                        assert(old(self).spec_history()[current + 1].len() <= MAX_LINE);
                    }
                    Some(content)
                } else {
                    self.history_index = None;
                    self.line.clear();
                    proof {
                        assert(self.spec_history() =~= old(self).spec_history());
                    }
                    Some(Vec::new())
                }
            },
            None => None,
        }
    }

    /// The committed lines, oldest first, for the `history` command.
    pub fn history_lines(&self) -> (r: Vec<Vec<u8>>)
        ensures
            r@.len() == self.spec_history().len(),
            forall|i: int| 0 <= i < r@.len() ==> (#[trigger] r@[i])@ == self.spec_history()[i],
    {
        let mut out: Vec<Vec<u8>> = Vec::new();
        let n: usize = self.history.len();
        let mut i: usize = 0;
        while i < n
            invariant
                n == self.history@.len(),
                i <= n,
                out@.len() == i,
                forall|j: int| 0 <= j < i ==> (#[trigger] out@[j])@ == self.history@[j]@,
            decreases n - i,
        {
            out.push(vstd::slice::slice_to_vec(self.history[i].as_slice()));
            i = i + 1;
        }
        out
    }
}

/// `s` without its leading spaces.
pub open spec fn spec_trim_chars_front(s: Seq<char>) -> Seq<char>
    decreases s.len(),
{
    if s.len() > 0 && s[0] == ' ' {
        spec_trim_chars_front(s.skip(1))
    } else {
        s
    }
}

/// `s` without its trailing spaces.
pub open spec fn spec_trim_chars_back(s: Seq<char>) -> Seq<char>
    decreases s.len(),
{
    if s.len() > 0 && s[s.len() - 1] == ' ' {
        spec_trim_chars_back(s.drop_last())
    } else {
        s
    }
}

/// What `normalize_simplefs_path` returns: the trimmed path, made absolute.
pub open spec fn spec_normalize(path: Seq<char>) -> Seq<char> {
    let t = spec_trim_chars_back(spec_trim_chars_front(path));
    if t.len() == 0 {
        seq!['/']
    } else if t[0] == '/' {
        t
    } else {
        seq!['/'] + t
    }
}

proof fn lemma_trim_chars_front_at(s: Seq<char>, k: int)
    requires
        0 <= k <= s.len(),
        forall|m: int| 0 <= m < k ==> s[m] == ' ',
        k == s.len() || s[k] != ' ',
    ensures
        spec_trim_chars_front(s) == s.skip(k),
    decreases k,
{
    if k == 0 {
        assert(s.skip(0) =~= s);
    } else {
        assert(s[0] == ' ');
        assert forall|m: int| 0 <= m < k - 1 implies s.skip(1)[m] == ' ' by {
            assert(s.skip(1)[m] == s[m + 1]);
        }
        if k < s.len() {
            assert(s.skip(1)[k - 1] == s[k]);
        }
        lemma_trim_chars_front_at(s.skip(1), k - 1);
        assert(s.skip(1).skip(k - 1) =~= s.skip(k));
    }
}

proof fn lemma_trim_chars_back_at(s: Seq<char>, e: int)
    requires
        0 <= e <= s.len(),
        forall|m: int| e <= m < s.len() ==> s[m] == ' ',
        e == 0 || s[e - 1] != ' ',
    ensures
        spec_trim_chars_back(s) == s.take(e),
    decreases s.len(),
{
    if e == s.len() {
        assert(s.take(e) =~= s);
    } else {
        assert(s[s.len() - 1] == ' ');
        assert forall|m: int| e <= m < s.drop_last().len() implies s.drop_last()[m] == ' ' by {
            assert(s.drop_last()[m] == s[m]);
        }
        if e > 0 {
            assert(s.drop_last()[e - 1] == s[e - 1]);
        }
        lemma_trim_chars_back_at(s.drop_last(), e);
        assert(s.drop_last().take(e) =~= s.take(e));
    }
}

/// Trims the path and roots it: a relative path gains a leading `/`.
pub fn normalize_simplefs_path(path: &str) -> (r: String)
    ensures
        r@ == spec_normalize(path@),
{
    let n: usize = path.unicode_len();
    let mut start: usize = 0;
    while start < n && path.get_char(start) == ' '
        invariant
            n == path@.len(),
            start <= n,
            forall|m: int| 0 <= m < start ==> path@[m] == ' ',
        decreases n - start,
    {
        start = start + 1;
    }
    let mut end: usize = n;
    while end > start && path.get_char(end - 1) == ' '
        invariant
            n == path@.len(),
            start <= end <= n,
            forall|m: int| 0 <= m < start ==> path@[m] == ' ',
            forall|m: int| end <= m < n ==> path@[m] == ' ',
        decreases end,
    {
        end = end - 1;
    }
    proof {
        lemma_trim_chars_front_at(path@, start as int);
        let t = path@.skip(start as int);
        assert forall|m: int| end - start <= m < t.len() implies t[m] == ' ' by {
            assert(t[m] == path@[start + m]);
        }
        if end > start {
            assert(t[end - start - 1] == path@[end - 1]);
        }
        lemma_trim_chars_back_at(t, end - start);
        assert(t.take(end - start as int) =~= path@.subrange(start as int, end as int));
    }
    if start == end {
        let r = String::from_str("/");
        proof {
            reveal_strlit("/");
            assert(r@ =~= seq!['/']);
        }
        return r;
    }
    let trimmed: &str = path.substring_char(start, end);
    if path.get_char(start) == '/' {
        trimmed.to_owned()
    } else {
        let mut out = String::from_str("/");
        out.append(trimmed);
        proof {
            reveal_strlit("/");
            assert(out@ =~= seq!['/'] + path@.subrange(start as int, end as int));
        }
        out
    }
}

/// Resolves a user-typed path after normalizing it.
pub fn resolve_simplefs_path<F: FileSystem>(fs: &F, path: &str) -> (r: Result<NodeId, VfsError>)
    requires
        fs.wf(),
    ensures
        r == spec_resolve(fs, spec_normalize(path@)),
{
    let normalized: String = normalize_simplefs_path(path);
    crate::vfs::resolve_path(fs, normalized.as_str())
}

/// The listing lines: each entry's name followed by a newline.
pub open spec fn spec_names_output(s: Seq<(Seq<u8>, NodeId, NodeType)>, n: int) -> Seq<u8>
    decreases n,
{
    if n <= 0 {
        Seq::empty()
    } else {
        spec_names_output(s, n - 1) + s[n - 1].0 + seq![10u8]
    }
}

/// What the `ls` command prints for `path`.
pub open spec fn spec_run_ls<F: FileSystem>(fs: &F, path: Seq<char>) -> Seq<u8> {
    match spec_resolve(fs, spec_normalize(path)) {
        Err(e) => encode_utf8("path not found\n"@),
        Ok(node) => match fs.metadata_spec(node) {
            Err(e2) => encode_utf8("stat failed\n"@),
            Ok(meta) => if meta.node_type != NodeType::Directory {
                encode_utf8("not a directory\n"@)
            } else {
                match fs.list_spec(node) {
                    Err(e3) => encode_utf8("list failed\n"@),
                    Ok(s) => if s.len() == 0 {
                        encode_utf8("(empty)\n"@)
                    } else {
                        spec_names_output(s, s.len() as int)
                    },
                }
            },
        },
    }
}

/// Lists a directory: one name per line, or a one-line message.
pub fn run_ls<F: FileSystem>(fs: &F, path: &str) -> (r: Vec<u8>)
    requires
        fs.wf(),
    ensures
        r@ == spec_run_ls(fs, path@),
{
    let node: NodeId = match resolve_simplefs_path(fs, path) {
        Ok(node) => node,
        Err(_) => {
            return "path not found\n".as_bytes_vec();
        },
    };
    let meta = match fs.metadata(node) {
        Ok(meta) => meta,
        Err(_) => {
            return "stat failed\n".as_bytes_vec();
        },
    };
    if meta.node_type != NodeType::Directory {
        return "not a directory\n".as_bytes_vec();
    }
    let entries = match fs.list(node) {
        Ok(entries) => entries,
        Err(_) => {
            return "list failed\n".as_bytes_vec();
        },
    };
    if entries.len() == 0 {
        return "(empty)\n".as_bytes_vec();
    }
    let ghost s = fs.list_spec(node).unwrap();
    let mut out: Vec<u8> = Vec::new();
    let n: usize = entries.len();
    let mut i: usize = 0;
    while i < n
        invariant
            n == entries@.len(),
            n == s.len(),
            i <= n,
            forall|k: int|
                0 <= k < n ==> {
                    &&& (#[trigger] entries@[k]).name_len == s[k].0.len()
                    &&& entries@[k].name_len <= 32
                    &&& entries@[k].spec_name_bytes() == s[k].0
                },
            out@ =~= spec_names_output(s, i as int),
        decreases n - i,
    {
        let entry = &entries[i];
        let ghost before = out@;
        let mut k: usize = 0;
        let len: usize = entry.name_len;
        while k < len
            invariant
                k <= len,
                len == entries@[i as int].name_len,
                len <= 32,
                i < entries@.len(),
                entries@[i as int].name@.len() == 32,
                out@ =~= before + entries@[i as int].name@.subrange(0, k as int),
            decreases len - k,
        {
            let b: u8 = entries[i].name[k];
            out.push(b);
            proof {
                assert(entries@[i as int].name@.subrange(0, k as int + 1)
                    =~= entries@[i as int].name@.subrange(0, k as int).push(
                    entries@[i as int].name@[k as int],
                ));
                assert(out@ =~= before + entries@[i as int].name@.subrange(0, k as int + 1));
            }
            k = k + 1;
        }
        out.push(10);
        proof {
            assert(entries@[i as int].name@.subrange(0, len as int) == s[i as int].0);
            assert(out@ =~= spec_names_output(s, i as int + 1));
        }
        i = i + 1;
    }
    out
}

/// What the `stat` command prints for `path`.
pub open spec fn spec_run_stat<F: FileSystem>(fs: &F, path: Seq<char>) -> Seq<u8> {
    match spec_resolve(fs, spec_normalize(path)) {
        Err(e) => encode_utf8("path not found\n"@),
        Ok(node) => match fs.metadata_spec(node) {
            Err(e2) => encode_utf8("stat failed\n"@),
            Ok(meta) => encode_utf8("type="@) + (if meta.node_type == NodeType::Directory {
                encode_utf8("directory"@)
            } else {
                encode_utf8("file"@)
            }) + encode_utf8(" size="@) + spec_decimal(meta.size as int) + seq![10u8],
        },
    }
}

/// Prints a node's type and size.
pub fn run_stat<F: FileSystem>(fs: &F, path: &str) -> (r: Vec<u8>)
    requires
        fs.wf(),
    ensures
        r@ == spec_run_stat(fs, path@),
{
    let node: NodeId = match resolve_simplefs_path(fs, path) {
        Ok(node) => node,
        Err(_) => {
            return "path not found\n".as_bytes_vec();
        },
    };
    let meta = match fs.metadata(node) {
        Ok(meta) => meta,
        Err(_) => {
            return "stat failed\n".as_bytes_vec();
        },
    };
    let mut out: Vec<u8> = "type=".as_bytes_vec();
    let mut kind: Vec<u8> = if meta.node_type == NodeType::Directory {
        "directory".as_bytes_vec()
    } else {
        "file".as_bytes_vec()
    };
    out.append(&mut kind);
    let mut mid: Vec<u8> = " size=".as_bytes_vec();
    out.append(&mut mid);
    let mut digits: Vec<u8> = format_u64(meta.size);
    out.append(&mut digits);
    out.push(10);
    proof {
        assert(out@ =~= spec_run_stat(fs, path@));
    }
    out
}

/// What `cat` prints for a file with the bytes `content`: the bytes, with
/// one newline appended when the last byte is not already one.
pub open spec fn spec_cat_output(content: Seq<u8>) -> Seq<u8> {
    if content.len() > 0 && content[content.len() - 1] == 10u8 {
        content
    } else {
        content.push(10u8)
    }
}

/// Prints a file's whole contents, ending with exactly one final newline;
/// failures come out as a one-line message.
pub fn run_cat<F: FileSystem>(fs: &mut F, path: &str) -> (r: Vec<u8>)
    requires
        old(fs).wf(),
    ensures
        final(fs).wf(),
        final(fs).root_spec() == old(fs).root_spec(),
        forall|p: NodeId, nm: Seq<char>|
            final(fs).lookup_spec(p, nm) == old(fs).lookup_spec(p, nm),
        forall|nd: NodeId| final(fs).metadata_spec(nd) == old(fs).metadata_spec(nd),
        forall|nd: NodeId| final(fs).list_spec(nd) == old(fs).list_spec(nd),
        forall|nd: NodeId| final(fs).file_spec(nd) == old(fs).file_spec(nd),
        match spec_resolve(old(fs), spec_normalize(path@)) {
            Err(e) => r@ == encode_utf8("path not found\n"@),
            Ok(node) => match old(fs).metadata_spec(node) {
                Err(e2) => r@ == encode_utf8("stat failed\n"@),
                Ok(meta) => {
                    &&& (meta.node_type != NodeType::File ==> r@ == encode_utf8("not a file\n"@))
                    &&& (meta.node_type == NodeType::File ==> (r@ == encode_utf8(
                        "read failed\n"@,
                    ) || r@ == spec_cat_output(old(fs).file_spec(node))))
                },
            },
        },
{
    let node: NodeId = match resolve_simplefs_path(&*fs, path) {
        Ok(node) => node,
        Err(_) => {
            return "path not found\n".as_bytes_vec();
        },
    };
    let meta = match fs.metadata(node) {
        Ok(meta) => meta,
        Err(_) => {
            return "stat failed\n".as_bytes_vec();
        },
    };
    if meta.node_type != NodeType::File {
        return "not a file\n".as_bytes_vec();
    }
    let size: u64 = meta.size;
    let ghost file_bytes = old(fs).file_spec(node);
    proof {
        assert(file_bytes.len() == size);
    }
    let mut content: Vec<u8> = Vec::new();
    let mut total: u64 = 0;
    while total < size
        invariant
            fs.wf(),
            fs.root_spec() == old(fs).root_spec(),
            forall|p: NodeId, nm: Seq<char>|
                fs.lookup_spec(p, nm) == old(fs).lookup_spec(p, nm),
            forall|nd: NodeId| fs.metadata_spec(nd) == old(fs).metadata_spec(nd),
            forall|nd: NodeId| fs.list_spec(nd) == old(fs).list_spec(nd),
            forall|nd: NodeId| fs.file_spec(nd) == old(fs).file_spec(nd),
            spec_resolve(old(fs), spec_normalize(path@)) == Ok::<NodeId, VfsError>(node),
            old(fs).metadata_spec(node) matches Ok(m) && m.node_type == NodeType::File,
            file_bytes == old(fs).file_spec(node),
            file_bytes.len() == size,
            total <= size,
            content@ == file_bytes.take(total as int),
        decreases size - total,
    {
        let want64: u64 = size - total;
        let want: usize = if want64 > 4096 {
            4096
        } else {
            want64 as usize
        };
        let mut chunk: Vec<u8> = crate::codec::zero_bytes(want);
        match fs.read(node, total, &mut chunk) {
            Ok(count) => {
                proof {
                    assert(count == vstd::math::min(want as int, file_bytes.len() - total));
                    assert(count == want);
                }
                let ghost before = content@;
                let mut k: usize = 0;
                while k < count
                    invariant
                        k <= count,
                        count <= chunk@.len(),
                        forall|j: int|
                            0 <= j < count ==> #[trigger] chunk@[j] == file_bytes[total + j],
                        content@ == before + chunk@.take(k as int),
                        before == file_bytes.take(total as int),
                        total + count <= file_bytes.len(),
                    decreases count - k,
                {
                    content.push(chunk[k]);
                    proof {
                        assert(content@ =~= before + chunk@.take(k as int + 1));
                    }
                    k = k + 1;
                }
                total = total + count as u64;
                proof {
                    assert(content@ =~= file_bytes.take(total as int));
                }
            },
            Err(_) => {
                return "read failed\n".as_bytes_vec();
            },
        }
    }
    proof {
        assert(content@ =~= file_bytes);
    }
    let last_is_newline: bool = content.len() > 0 && content[content.len() - 1] == 10;
    if !last_is_newline {
        content.push(10);
    }
    content
}

} // verus!
