//! Operands: a 15-bit literal or one of the eight registers.
use vstd::prelude::*;
use vstd::string::*;

verus! {

/// The number of words of RAM; also the modulus of all arithmetic.
pub const RAM_SIZE: usize = 32768;

/// The first word that is neither a literal nor a register.
pub const FIRST_INVALID_WORD: u16 = 32776;

/// A decoded operand.
#[derive(Debug, Clone, Copy, PartialEq, Eq, Structural)]
pub enum SynInt {
    /// A literal value in `0..32768`.
    Literal(u16),
    /// A register index in `0..8`.
    Register(usize),
}

impl SynInt {
    /// An operand that the decoder can produce.
    pub open spec fn valid(self) -> bool {
        match self {
            SynInt::Literal(x) => x < 32768,
            SynInt::Register(r) => r < 8,
        }
    }

    /// The operand that a raw word in `0..32776` stands for.
    pub open spec fn spec_from_word(w: u16) -> SynInt {
        if w < 32768 {
            SynInt::Literal(w)
        } else {
            SynInt::Register((w - 32768) as usize)
        }
    }

    /// The raw word that encodes this operand.
    pub open spec fn spec_to_word(self) -> int {
        match self {
            SynInt::Literal(x) => x as int,
            SynInt::Register(r) => r + 32768,
        }
    }

    /// Classifies a raw word below `32776` as a literal or a register.
    pub fn from_word(w: u16) -> (r: SynInt)
        requires
            w < FIRST_INVALID_WORD,
        ensures
            r == SynInt::spec_from_word(w),
            r.valid(),
    {
        if w < 32768 {
            SynInt::Literal(w)
        } else {
            SynInt::Register((w - 32768) as usize)
        }
    }

    /// Encodes a valid operand back into its raw word.
    pub fn to_word(self) -> (r: u16)
        requires
            self.valid(),
        ensures
            r as int == self.spec_to_word(),
    {
        match self {
            SynInt::Literal(x) => x,
            SynInt::Register(r) => (r as u16) + 32768,
        }
    }
}

/// Decoding an in-range word and encoding the operand again gives the word back.
pub proof fn lemma_operand_round_trip(w: u16)
    requires
        w < FIRST_INVALID_WORD,
    ensures
        SynInt::spec_from_word(w).valid(),
        SynInt::spec_from_word(w).spec_to_word() == w as int,
{
}

/// Whether a raw word names a register rather than a literal.
pub fn is_reg(x: u16) -> (r: bool)
    ensures
        r == (x as int >= RAM_SIZE as int),
{
    x as usize >= RAM_SIZE
}

/// The character of a digit below sixteen.
pub open spec fn digit_char(d: nat) -> char {
    seq!['0', '1', '2', '3', '4', '5', '6', '7', '8', '9', 'a', 'b', 'c', 'd', 'e', 'f'][d as int]
}

/// `n` in decimal, without leading zeros.
pub open spec fn decimal_text(n: nat) -> Seq<char>
    decreases n,
{
    if n < 10 {
        seq![digit_char(n)]
    } else {
        decimal_text(n / 10).push(digit_char(n % 10))
    }
}

/// `n` in lower-case hexadecimal, without leading zeros.
pub open spec fn hex_text(n: nat) -> Seq<char>
    decreases n,
{
    if n < 16 {
        seq![digit_char(n)]
    } else {
        hex_text(n / 16).push(digit_char(n % 16))
    }
}

/// `s` padded with leading zeros to four characters.
pub open spec fn pad4(s: Seq<char>) -> Seq<char> {
    if s.len() >= 4 {
        s
    } else {
        Seq::new((4 - s.len()) as nat, |k: int| '0') + s
    }
}

/// The text of a raw operand word: `r<n>` for a register, else the literal in decimal.
pub open spec fn operand_text(x: u16) -> Seq<char> {
    if x >= 32768 {
        seq!['r'] + decimal_text((x - 32768) as nat)
    } else {
        decimal_text(x as nat)
    }
}

/// The text of a raw operand word: `r<n>` for a register, else `0x` and the
/// literal in four hexadecimal digits.
pub open spec fn operand_text_hex(x: u16) -> Seq<char> {
    if x >= 32768 {
        seq!['r'] + decimal_text((x - 32768) as nat)
    } else {
        seq!['0', 'x'] + pad4(hex_text(x as nat))
    }
}

/// The one-character text of a digit below sixteen.
fn digit_str(d: u16) -> (r: &'static str)
    requires
        d < 16,
    ensures
        r@ == seq![digit_char(d as nat)],
{
    proof {
        reveal_strlit("0");
        reveal_strlit("1");
        reveal_strlit("2");
        reveal_strlit("3");
        reveal_strlit("4");
        reveal_strlit("5");
        reveal_strlit("6");
        reveal_strlit("7");
        reveal_strlit("8");
        reveal_strlit("9");
        reveal_strlit("a");
        reveal_strlit("b");
        reveal_strlit("c");
        reveal_strlit("d");
        reveal_strlit("e");
        reveal_strlit("f");
    }
    match d {
        0 => "0",
        1 => "1",
        2 => "2",
        3 => "3",
        4 => "4",
        5 => "5",
        6 => "6",
        7 => "7",
        8 => "8",
        9 => "9",
        10 => "a",
        11 => "b",
        12 => "c",
        13 => "d",
        14 => "e",
        _ => "f",
    }
}

/// Appends `n` in decimal.
fn append_decimal(s: &mut String, n: u16)
    ensures
        final(s)@ == old(s)@ + decimal_text(n as nat),
    decreases n,
{
    if n >= 10 {
        append_decimal(s, n / 10);
    }
    let ghost mid = s@;
    s.append(digit_str(n % 10));
    if n >= 10 {
        assert(old(s)@ + decimal_text(n as nat) =~= mid + seq![digit_char((n % 10) as nat)]);
    } else {
        assert(old(s)@ + decimal_text(n as nat) =~= s@);
    }
}

/// Appends `n` in lower-case hexadecimal.
fn append_hex(s: &mut String, n: u16)
    ensures
        final(s)@ == old(s)@ + hex_text(n as nat),
    decreases n,
{
    if n >= 16 {
        append_hex(s, n / 16);
    }
    let ghost mid = s@;
    s.append(digit_str(n % 16));
    if n >= 16 {
        assert(old(s)@ + hex_text(n as nat) =~= mid + seq![digit_char((n % 16) as nat)]);
    } else {
        assert(old(s)@ + hex_text(n as nat) =~= s@);
    }
}

/// The number of hexadecimal digits of a word.
proof fn lemma_hex_len(n: nat)
    requires
        n < 65536,
    ensures
        hex_text(n).len() == if n < 16 {
            1nat
        } else if n < 256 {
            2nat
        } else if n < 4096 {
            3nat
        } else {
            4nat
        },
    decreases n,
{
    if n >= 16 {
        lemma_hex_len(n / 16);
    }
}

/// The text of a raw operand word: `r<n>` for a register, else the literal in decimal.
pub fn syn_int_str(x: u16) -> (r: String)
    ensures
        r@ == operand_text(x),
{
    if is_reg(x) {
        let mut s = "r".to_string();
        proof {
            reveal_strlit("r");
        }
        append_decimal(&mut s, x - 32768);
        assert(s@ =~= operand_text(x));
        s
    } else {
        let mut s = String::new();
        append_decimal(&mut s, x);
        assert(s@ =~= operand_text(x));
        s
    }
}

/// The text of a raw operand word: `r<n>` for a register, else `0x` and the
/// literal in four hexadecimal digits.
pub fn syn_int_str_hex(x: u16) -> (r: String)
    ensures
        r@ == operand_text_hex(x),
{
    if is_reg(x) {
        let mut s = "r".to_string();
        proof {
            reveal_strlit("r");
        }
        append_decimal(&mut s, x - 32768);
        assert(s@ =~= operand_text_hex(x));
        s
    } else {
        let mut s = "0x".to_string();
        proof {
            reveal_strlit("0x");
            reveal_strlit("0");
            lemma_hex_len(x as nat);
        }
        if x < 4096 {
            s.append("0");
        }
        if x < 256 {
            s.append("0");
        }
        if x < 16 {
            s.append("0");
        }
        append_hex(&mut s, x);
        assert(s@ =~= operand_text_hex(x));
        s
    }
}

} // verus!
