//! Debugger commands: the command words and their arguments.
use vstd::prelude::*;
use vstd::string::*;

verus! {

/// The commands the debugger understands.
#[derive(Debug, Clone, Copy, PartialEq, Eq, Structural)]
pub enum Command {
    Registers,
    Help,
    Unknown,
    Step,
    Run,
    Quit,
    Breakpoint,
    Memory,
    Restart,
    Disassemble,
    DumpMemory,
    SetRegister,
    PrintStack,
    Jump,
}

/// The command that a command word names, long or short form.
pub open spec fn command_of(w: Seq<char>) -> Command {
    if w == "q"@ || w == "quit"@ {
        Command::Quit
    } else if w == "h"@ || w == "?"@ || w == "help"@ {
        Command::Help
    } else if w == "s"@ || w == "step"@ {
        Command::Step
    } else if w == "r"@ || w == "registers"@ {
        Command::Registers
    } else if w == "c"@ || w == "run"@ {
        Command::Run
    } else if w == "bp"@ || w == "breakpoint"@ {
        Command::Breakpoint
    } else if w == "m"@ || w == "memory"@ {
        Command::Memory
    } else if w == "restart"@ {
        Command::Restart
    } else if w == "l"@ || w == "list"@ {
        Command::Disassemble
    } else if w == "dump"@ {
        Command::DumpMemory
    } else if w == "set"@ {
        Command::SetRegister
    } else if w == "ps"@ || w == "stack"@ {
        Command::PrintStack
    } else if w == "jump"@ {
        Command::Jump
    } else {
        Command::Unknown
    }
}

/// Whether the characters of `s` equal those of `lit`.
fn word_is(s: &str, lit: &str) -> (r: bool)
    ensures
        r == (s@ == lit@),
{
    let n = s.unicode_len();
    if n != lit.unicode_len() {
        return false;
    }
    let mut i: usize = 0;
    while i < n
        invariant
            n == s@.len(),
            n == lit@.len(),
            i <= n,
            forall|k: int| 0 <= k < i ==> s@[k] == lit@[k],
        decreases n - i,
    {
        if s.get_char(i) != lit.get_char(i) {
            return false;
        }
        i += 1;
    }
    assert(s@ =~= lit@);
    true
}

impl Command {
    /// The command that a command word names; `Unknown` for any other word.
    pub fn from_word(w: &str) -> (r: Command)
        ensures
            r == command_of(w@),
    {
        proof {
            reveal_strlit("q");
            reveal_strlit("quit");
            reveal_strlit("h");
            reveal_strlit("?");
            reveal_strlit("help");
            reveal_strlit("s");
            reveal_strlit("step");
            reveal_strlit("r");
            reveal_strlit("registers");
            reveal_strlit("c");
            reveal_strlit("run");
            reveal_strlit("bp");
            reveal_strlit("breakpoint");
            reveal_strlit("m");
            reveal_strlit("memory");
            reveal_strlit("restart");
            reveal_strlit("l");
            reveal_strlit("list");
            reveal_strlit("dump");
            reveal_strlit("set");
            reveal_strlit("ps");
            reveal_strlit("stack");
            reveal_strlit("jump");
        }
        if word_is(w, "q") || word_is(w, "quit") {
            Command::Quit
        } else if word_is(w, "h") || word_is(w, "?") || word_is(w, "help") {
            Command::Help
        } else if word_is(w, "s") || word_is(w, "step") {
            Command::Step
        } else if word_is(w, "r") || word_is(w, "registers") {
            Command::Registers
        } else if word_is(w, "c") || word_is(w, "run") {
            Command::Run
        } else if word_is(w, "bp") || word_is(w, "breakpoint") {
            Command::Breakpoint
        } else if word_is(w, "m") || word_is(w, "memory") {
            Command::Memory
        } else if word_is(w, "restart") {
            Command::Restart
        } else if word_is(w, "l") || word_is(w, "list") {
            Command::Disassemble
        } else if word_is(w, "dump") {
            Command::DumpMemory
        } else if word_is(w, "set") {
            Command::SetRegister
        } else if word_is(w, "ps") || word_is(w, "stack") {
            Command::PrintStack
        } else if word_is(w, "jump") {
            Command::Jump
        } else {
            Command::Unknown
        }
    }
}

impl<'a> From<&'a str> for Command {
    fn from(w: &'a str) -> (r: Command)
        ensures
            r == command_of(w@),
    {
        Command::from_word(w)
    }
}

impl<'a> vstd::std_specs::convert::FromSpecImpl<&'a str> for Command {
    open spec fn obeys_from_spec() -> bool {
        true
    }

    open spec fn from_spec(w: &'a str) -> Command {
        command_of(w@)
    }
}

/// The value of `c` as a digit in base `radix` (10 or 16, lower or upper case
/// letters), or `None`.
pub open spec fn digit_value(c: char, radix: u32) -> Option<nat> {
    if '0' <= c && c <= '9' && (c as u32) - ('0' as u32) < radix {
        Some(((c as u32) - ('0' as u32)) as nat)
    } else if radix == 16 && 'a' <= c && c <= 'f' {
        Some(((c as u32) - ('a' as u32) + 10) as nat)
    } else if radix == 16 && 'A' <= c && c <= 'F' {
        Some(((c as u32) - ('A' as u32) + 10) as nat)
    } else {
        None
    }
}

/// Every character of `s` is a digit in base `radix`.
pub open spec fn all_digits(s: Seq<char>, radix: u32) -> bool {
    forall|k: int| 0 <= k < s.len() ==> (#[trigger] digit_value(s[k], radix)) is Some
}

/// The number that the digits `s` write in base `radix`.
pub open spec fn numeral_value(s: Seq<char>, radix: u32) -> nat
    decreases s.len(),
{
    if s.len() == 0 {
        0
    } else {
        numeral_value(s.drop_last(), radix) * radix as nat + digit_value(s.last(), radix)->0
    }
}

/// What a numeral parses to: `None` when empty, holding a non-digit, or above `max`.
pub open spec fn parse_spec(s: Seq<char>, radix: u32, max: nat) -> Option<nat> {
    if s.len() > 0 && all_digits(s, radix) && numeral_value(s, radix) <= max {
        Some(numeral_value(s, radix))
    } else {
        None
    }
}

/// The digits of a hexadecimal argument: the text after an optional `0x`.
pub open spec fn hex_digits(s: Seq<char>) -> Seq<char> {
    if s.len() >= 2 && s[0] == '0' && s[1] == 'x' {
        s.subrange(2, s.len() as int)
    } else {
        s
    }
}

/// The value of a digit character, if it is one in base `radix`.
fn digit_of(c: char, radix: u32) -> (r: Option<u64>)
    requires
        radix == 10 || radix == 16,
    ensures
        r matches Some(v) ==> digit_value(c, radix) == Some(v as nat) && v < radix,
        r is None ==> digit_value(c, radix) is None,
{
    if '0' <= c && c <= '9' && (c as u32) - ('0' as u32) < radix {
        Some(((c as u32) - ('0' as u32)) as u64)
    } else if radix == 16 && 'a' <= c && c <= 'f' {
        Some(((c as u32) - ('a' as u32) + 10) as u64)
    } else if radix == 16 && 'A' <= c && c <= 'F' {
        Some(((c as u32) - ('A' as u32) + 10) as u64)
    } else {
        None
    }
}

/// A numeral's value only grows as digits are appended.
proof fn lemma_value_grows(s: Seq<char>, radix: u32, k: int)
    requires
        radix == 10 || radix == 16,
        0 <= k <= s.len(),
    ensures
        numeral_value(s.subrange(0, k), radix) <= numeral_value(s, radix),
    decreases s.len() - k,
{
    if k < s.len() {
        lemma_value_grows(s, radix, k + 1);
        let t = s.subrange(0, k + 1);
        assert(t.drop_last() =~= s.subrange(0, k));
        let v = numeral_value(s.subrange(0, k), radix);
        assert(v <= v * radix as nat) by (nonlinear_arith)
            requires
                radix >= 1,
        ;
        assert(numeral_value(t, radix) == numeral_value(t.drop_last(), radix) * radix as nat
            + digit_value(t.last(), radix)->0);
    } else {
        assert(s.subrange(0, k) =~= s);
    }
}

/// Parses the characters `s[start..]` as a numeral in base `radix` whose value
/// is at most `max`.
fn parse_from(s: &str, start: usize, radix: u32, max: u64) -> (r: Option<u64>)
    requires
        radix == 10 || radix == 16,
        start <= s@.len(),
    ensures
        r matches Some(v) ==> parse_spec(s@.subrange(start as int, s@.len() as int), radix, max as nat)
            == Some(v as nat),
        r is None ==> parse_spec(s@.subrange(start as int, s@.len() as int), radix, max as nat)
            is None,
{
    let n = s.unicode_len();
    let ghost t = s@.subrange(start as int, n as int);
    if start >= n {
        return None;
    }
    let mut acc: u64 = 0;
    let mut i: usize = start;
    while i < n
        invariant
            n == s@.len(),
            start <= i <= n,
            radix == 10 || radix == 16,
            t == s@.subrange(start as int, n as int),
            all_digits(t.subrange(0, i - start), radix),
            acc as nat == numeral_value(t.subrange(0, i - start), radix),
            acc <= max,
        decreases n - i,
    {
        let c = s.get_char(i);
        let d = match digit_of(c, radix) {
            Some(d) => d,
            None => {
                assert(t[i - start] == c);
                return None;
            },
        };
        let ghost prefix = t.subrange(0, i - start + 1);
        assert(prefix.drop_last() =~= t.subrange(0, i - start));
        assert(prefix.last() == c);
        if d > max {
            proof {
                assert(numeral_value(prefix, radix) >= d) by (nonlinear_arith)
                    requires
                        numeral_value(prefix, radix) == acc * radix + d,
                        radix >= 1,
                ;
                lemma_value_grows(t, radix, i - start + 1);
            }
            return None;
        }
        if acc > (max - d) / (radix as u64) {
            proof {
                assert(acc * radix + d > max) by (nonlinear_arith)
                    requires
                        acc > (max - d) / (radix as int),
                        radix >= 1,
                        d <= max,
                ;
                lemma_value_grows(t, radix, i - start + 1);
            }
            return None;
        }
        proof {
            assert(acc * radix + d <= max) by (nonlinear_arith)
                requires
                    acc <= (max - d) / (radix as int),
                    radix >= 1,
                    d <= max,
            ;
        }
        acc = acc * (radix as u64) + d;
        i += 1;
    }
    assert(t.subrange(0, n - start) =~= t);
    Some(acc)
}

/// Parses a decimal number of at most `max`; `None` when the text is empty,
/// holds a non-digit, or the number is larger.
pub fn parse_decimal(s: &str, max: u64) -> (r: Option<u64>)
    ensures
        r matches Some(v) ==> parse_spec(s@, 10, max as nat) == Some(v as nat),
        r is None ==> parse_spec(s@, 10, max as nat) is None,
{
    let r = parse_from(s, 0, 10, max);
    assert(s@.subrange(0, s@.len() as int) =~= s@);
    r
}

/// Parses a hexadecimal number of at most `max`, with or without a leading
/// `0x`; `None` when no digits follow, one is not hexadecimal, or the number is
/// larger.
pub fn parse_hex(s: &str, max: u64) -> (r: Option<u64>)
    ensures
        r matches Some(v) ==> parse_spec(hex_digits(s@), 16, max as nat) == Some(v as nat),
        r is None ==> parse_spec(hex_digits(s@), 16, max as nat) is None,
{
    let n = s.unicode_len();
    if n >= 2 && s.get_char(0) == '0' && s.get_char(1) == 'x' {
        parse_from(s, 2, 16, max)
    } else {
        let r = parse_from(s, 0, 16, max);
        assert(s@.subrange(0, s@.len() as int) =~= s@);
        r
    }
}

} // verus!
