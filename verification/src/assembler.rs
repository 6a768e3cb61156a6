//! The assembler: translating UTF-8 source text, one instruction per
//! line, into instruction records. A line is split on blanks; the
//! first token must exactly match one of the fourteen mnemonics;
//! mnemonics other than `NOP`, `OUT` and `HLT` require a decimal
//! signed 64-bit operand token. Assembly fails atomically: one bad
//! line fails the whole source and no partial output is produced.

use vstd::prelude::*;

use crate::codec::RomLayout;
use crate::isa::Instruction;
use crate::isa::spec_takes_no_operand;

verus! {

/// The errors of assembly. Operands outside the encodable 56-bit
/// range are accepted here and rejected by the codec when the
/// records are serialized.
#[derive(Clone, Copy, Debug, PartialEq, Eq, Structural)]
pub enum AsmError {
    /// A line with no tokens at all (a blank line; not tolerated).
    EmptyLine,
    /// A line whose first token is not one of the fourteen mnemonics.
    UnknownMnemonic,
    /// An operand-taking mnemonic with no second token.
    MissingOperand,
    /// An operand token that is not a decimal signed 64-bit integer.
    MalformedOperand,
}

/// A token separator inside a line: a space or a tab.
pub open spec fn spec_is_blank(b: u8) -> bool {
    b == 32 || b == 9
}

/// Whitespace trimmed from the ends of the whole source: blanks and
/// line breaks.
pub open spec fn spec_is_space(b: u8) -> bool {
    b == 32 || b == 9 || b == 10 || b == 13
}

/// A decimal digit.
pub open spec fn spec_is_digit(b: u8) -> bool {
    48 <= b <= 57
}

/// Whether every byte of a token is a decimal digit.
pub open spec fn spec_all_digits(t: Seq<u8>) -> bool {
    forall|k: int| 0 <= k < t.len() ==> spec_is_digit(t[k])
}

/// The value of a sequence of decimal digits, most significant first.
pub open spec fn spec_digits_val(t: Seq<u8>) -> int
    decreases t.len(),
{
    if t.len() == 0 {
        0
    } else {
        spec_digits_val(t.drop_last()) * 10 + (t.last() - 48)
    }
}

/// The value of a digit sequence is never negative.
proof fn lemma_digits_val_nonneg(t: Seq<u8>)
    requires
        spec_all_digits(t),
    ensures
        spec_digits_val(t) >= 0,
    decreases t.len(),
{
    if t.len() > 0 {
        assert(spec_all_digits(t.drop_last()));
        lemma_digits_val_nonneg(t.drop_last());
    }
}

/// Appending digits never shrinks the value: a prefix of a digit
/// sequence is worth no more than the whole.
proof fn lemma_digits_val_prefix(t: Seq<u8>, i: int)
    requires
        spec_all_digits(t),
        0 <= i <= t.len(),
    ensures
        spec_digits_val(t.subrange(0, i)) <= spec_digits_val(t),
    decreases t.len() - i,
{
    if i < t.len() {
        let u = t.subrange(0, i + 1);
        assert(u.drop_last() =~= t.subrange(0, i));
        assert(spec_all_digits(u.drop_last()));
        lemma_digits_val_nonneg(u.drop_last());
        assert(spec_digits_val(u) == spec_digits_val(t.subrange(0, i)) * 10 + (t[i] - 48));
        lemma_digits_val_prefix(t, i + 1);
    } else {
        assert(t.subrange(0, i) =~= t);
    }
}

/// What a token is worth as a decimal signed 64-bit integer: an
/// optional `+` or `-` sign, then one or more digits, the whole
/// value within the 64-bit signed range; anything else is `None`.
pub open spec fn spec_dec_i64(t: Seq<u8>) -> Option<i64> {
    let signed = t.len() > 0 && (t[0] == 43 || t[0] == 45);
    let mag = if signed {
        t.drop_first()
    } else {
        t
    };
    let neg = t.len() > 0 && t[0] == 45;
    if mag.len() == 0 || !spec_all_digits(mag) {
        None
    } else {
        let v = if neg {
            -spec_digits_val(mag)
        } else {
            spec_digits_val(mag)
        };
        if i64::MIN <= v <= i64::MAX {
            Some(v as i64)
        } else {
            None
        }
    }
}

/// The blank-separated tokens of a line, in order, empties dropped:
/// a byte extends the current token when its left neighbour is not
/// a blank, and opens a new token otherwise.
pub open spec fn spec_tokens(s: Seq<u8>) -> Seq<Seq<u8>>
    decreases s.len(),
{
    if s.len() == 0 {
        seq![]
    } else {
        let pre = spec_tokens(s.drop_last());
        let c = s.last();
        if spec_is_blank(c) {
            pre
        } else if s.len() >= 2 && !spec_is_blank(s[s.len() - 2]) {
            pre.update(pre.len() - 1, pre.last().push(c))
        } else {
            pre.push(seq![c])
        }
    }
}

/// A line that ends in a byte that is not a blank has at least one
/// token.
proof fn lemma_tokens_nonempty(s: Seq<u8>)
    requires
        s.len() > 0,
        !spec_is_blank(s.last()),
    ensures
        spec_tokens(s).len() >= 1,
    decreases s.len(),
{
    if s.len() >= 2 && !spec_is_blank(s[s.len() - 2]) {
        lemma_tokens_nonempty(s.drop_last());
    }
}

/// The lines of a text, split on line feeds, empties kept: even an
/// empty text is one (empty) line.
pub open spec fn spec_lines(s: Seq<u8>) -> Seq<Seq<u8>>
    decreases s.len(),
{
    if s.len() == 0 {
        seq![seq![]]
    } else {
        let pre = spec_lines(s.drop_last());
        let c = s.last();
        if c == 10 {
            pre.push(seq![])
        } else {
            pre.update(pre.len() - 1, pre.last().push(c))
        }
    }
}

/// A text always has at least one line.
proof fn lemma_lines_nonempty(s: Seq<u8>)
    ensures
        spec_lines(s).len() >= 1,
    decreases s.len(),
{
    if s.len() > 0 {
        lemma_lines_nonempty(s.drop_last());
    }
}

/// Splits a line into its blank-separated tokens.
fn tokens_of(l: &[u8]) -> (r: Vec<Vec<u8>>)
    ensures
        r.deep_view() == spec_tokens(l@),
{
    let n = l.len();
    let mut r: Vec<Vec<u8>> = Vec::new();
    let mut i: usize = 0;
    while i < n
        invariant
            i <= n,
            n == l@.len(),
            r.deep_view() == spec_tokens(l@.subrange(0, i as int)),
        decreases n - i,
    {
        let ghost pre = spec_tokens(l@.subrange(0, i as int));
        let ghost cur = l@.subrange(0, i + 1);
        proof {
            assert(cur.drop_last() =~= l@.subrange(0, i as int));
        }
        let c = l[i];
        if c == 32 || c == 9 {
            // a blank: no token grows
        } else if i >= 1 && !(l[i - 1] == 32 || l[i - 1] == 9) {
            proof {
                lemma_tokens_nonempty(l@.subrange(0, i as int));
            }
            match r.pop() {
                Some(mut last) => {
                    last.push(c);
                    r.push(last);
                    proof {
                        assert(r.deep_view() =~~= pre.update(pre.len() - 1, pre.last().push(c)));
                    }
                },
                None => {
                    proof {
                        assert(false);
                    }
                },
            }
        } else {
            let mut fresh: Vec<u8> = Vec::new();
            fresh.push(c);
            r.push(fresh);
            proof {
                assert(r.deep_view() =~~= pre.push(seq![c]));
            }
        }
        i = i + 1;
    }
    proof {
        assert(l@.subrange(0, n as int) =~= l@);
    }
    r
}

/// Splits a text into its lines on line feeds.
fn lines_of(t: &[u8]) -> (r: Vec<Vec<u8>>)
    ensures
        r.deep_view() == spec_lines(t@),
{
    let n = t.len();
    let mut r: Vec<Vec<u8>> = Vec::new();
    r.push(Vec::new());
    proof {
        assert(r.deep_view() =~~= spec_lines(t@.subrange(0, 0)));
    }
    let mut i: usize = 0;
    while i < n
        invariant
            i <= n,
            n == t@.len(),
            r.deep_view() == spec_lines(t@.subrange(0, i as int)),
        decreases n - i,
    {
        let ghost pre = spec_lines(t@.subrange(0, i as int));
        let ghost cur = t@.subrange(0, i + 1);
        proof {
            assert(cur.drop_last() =~= t@.subrange(0, i as int));
            lemma_lines_nonempty(t@.subrange(0, i as int));
        }
        let c = t[i];
        if c == 10 {
            r.push(Vec::new());
            proof {
                assert(r.deep_view() =~~= pre.push(seq![]));
            }
        } else {
            match r.pop() {
                Some(mut last) => {
                    last.push(c);
                    r.push(last);
                    proof {
                        assert(r.deep_view() =~~= pre.update(pre.len() - 1, pre.last().push(c)));
                    }
                },
                None => {
                    proof {
                        assert(false);
                    }
                },
            }
        }
        i = i + 1;
    }
    proof {
        assert(t@.subrange(0, n as int) =~= t@);
    }
    r
}

/// Parses a token as a decimal signed 64-bit integer: exactly the
/// tokens `spec_dec_i64` accepts, with exactly that value.
pub fn parse_i64(t: &[u8]) -> (r: Option<i64>)
    ensures
        r == spec_dec_i64(t@),
{
    let n = t.len();
    let (neg, start): (bool, usize) = if n > 0 && (t[0] == 43 || t[0] == 45) {
        (t[0] == 45, 1)
    } else {
        (false, 0)
    };
    let ghost mag_seq = t@.subrange(start as int, n as int);
    proof {
        if start == 1 {
            assert(mag_seq =~= t@.drop_first());
        } else {
            assert(mag_seq =~= t@);
        }
    }
    if start >= n {
        return None;
    }
    let limit: u128 = if neg {
        0x8000_0000_0000_0000
    } else {
        0x7FFF_FFFF_FFFF_FFFF
    };
    let mut mag: u128 = 0;
    let mut i: usize = start;
    while i < n
        invariant
            start <= i <= n,
            start < n,
            n == t@.len(),
            start == if t@.len() > 0 && (t@[0] == 43 || t@[0] == 45) {
                1int
            } else {
                0int
            },
            neg == (t@.len() > 0 && t@[0] == 45),
            mag_seq == t@.subrange(start as int, n as int),
            mag_seq == if start == 1 {
                t@.drop_first()
            } else {
                t@
            },
            limit == if neg {
                0x8000_0000_0000_0000u128
            } else {
                0x7FFF_FFFF_FFFF_FFFFu128
            },
            forall|k: int| start <= k < i ==> spec_is_digit(t@[k]),
            mag == spec_digits_val(t@.subrange(start as int, i as int)),
            mag <= limit,
        decreases n - i,
    {
        let c = t[i];
        if c < 48 || c > 57 {
            proof {
                assert(!spec_is_digit(mag_seq[i - start as int]));
            }
            return None;
        }
        let ghost prev = t@.subrange(start as int, i as int);
        mag = mag * 10 + ((c - 48) as u128);
        proof {
            let cur = t@.subrange(start as int, i + 1);
            assert(cur.drop_last() =~= prev);
            assert(spec_digits_val(cur) == spec_digits_val(prev) * 10 + (t@[i as int] - 48));
        }
        if mag > limit {
            proof {
                if spec_all_digits(mag_seq) {
                    let cur = t@.subrange(start as int, i + 1);
                    let shifted = mag_seq.subrange(0, i + 1 - start);
                    assert(shifted =~= cur);
                    lemma_digits_val_prefix(mag_seq, i + 1 - start);
                    assert(spec_digits_val(mag_seq) > limit);
                }
            }
            return None;
        }
        i = i + 1;
    }
    proof {
        assert(t@.subrange(start as int, i as int) =~= mag_seq);
        assert(spec_all_digits(mag_seq));
    }
    if neg {
        if mag == 0x8000_0000_0000_0000 {
            Some(i64::MIN)
        } else {
            Some(-((mag as u64) as i64))
        }
    } else {
        Some((mag as u64) as i64)
    }
}

/// The opcode named by a mnemonic token, case-sensitive; `None` for
/// anything that is not exactly one of the fourteen names.
pub open spec fn spec_mnemonic(t: Seq<u8>) -> Option<Instruction> {
    if t == seq!['N' as u8, 'O' as u8, 'P' as u8] {
        Some(Instruction::NOP)
    } else if t == seq!['L' as u8, 'D' as u8, 'A' as u8] {
        Some(Instruction::LDA)
    } else if t == seq!['S' as u8, 'T' as u8, 'A' as u8] {
        Some(Instruction::STA)
    } else if t == seq!['A' as u8, 'D' as u8, 'D' as u8] {
        Some(Instruction::ADD)
    } else if t == seq!['S' as u8, 'U' as u8, 'B' as u8] {
        Some(Instruction::SUB)
    } else if t == seq!['O' as u8, 'U' as u8, 'T' as u8] {
        Some(Instruction::OUT)
    } else if t == seq!['J' as u8, 'M' as u8, 'P' as u8] {
        Some(Instruction::JMP)
    } else if t == seq!['J' as u8, 'C' as u8] {
        Some(Instruction::JC)
    } else if t == seq!['J' as u8, 'Z' as u8] {
        Some(Instruction::JZ)
    } else if t == seq!['H' as u8, 'L' as u8, 'T' as u8] {
        Some(Instruction::HLT)
    } else if t == seq!['L' as u8, 'D' as u8, 'I' as u8] {
        Some(Instruction::LDI)
    } else if t == seq!['A' as u8, 'D' as u8, 'I' as u8] {
        Some(Instruction::ADI)
    } else if t == seq!['L' as u8, 'D' as u8, 'R' as u8] {
        Some(Instruction::LDR)
    } else if t == seq!['A' as u8, 'D' as u8, 'R' as u8] {
        Some(Instruction::ADR)
    } else {
        None
    }
}

/// Looks a mnemonic token up: exactly the fourteen names, exactly
/// their opcodes.
fn token_mnemonic(t: &[u8]) -> (r: Option<Instruction>)
    ensures
        r == spec_mnemonic(t@),
{
    let n = t.len();
    if n == 2 {
        let r = if t[0] == 'J' as u8 && t[1] == 'C' as u8 {
            Some(Instruction::JC)
        } else if t[0] == 'J' as u8 && t[1] == 'Z' as u8 {
            Some(Instruction::JZ)
        } else {
            None
        };
        proof {
            if t@[0] == 'J' as u8 && t@[1] == 'C' as u8 {
                assert(t@ =~= seq!['J' as u8, 'C' as u8]);
            }
            if t@[0] == 'J' as u8 && t@[1] == 'Z' as u8 {
                assert(t@ =~= seq!['J' as u8, 'Z' as u8]);
            }
        }
        r
    } else if n == 3 {
        let (a, b, c) = (t[0], t[1], t[2]);
        let r = if a == 'N' as u8 && b == 'O' as u8 && c == 'P' as u8 {
            Some(Instruction::NOP)
        } else if a == 'L' as u8 && b == 'D' as u8 && c == 'A' as u8 {
            Some(Instruction::LDA)
        } else if a == 'S' as u8 && b == 'T' as u8 && c == 'A' as u8 {
            Some(Instruction::STA)
        } else if a == 'A' as u8 && b == 'D' as u8 && c == 'D' as u8 {
            Some(Instruction::ADD)
        } else if a == 'S' as u8 && b == 'U' as u8 && c == 'B' as u8 {
            Some(Instruction::SUB)
        } else if a == 'O' as u8 && b == 'U' as u8 && c == 'T' as u8 {
            Some(Instruction::OUT)
        } else if a == 'J' as u8 && b == 'M' as u8 && c == 'P' as u8 {
            Some(Instruction::JMP)
        } else if a == 'H' as u8 && b == 'L' as u8 && c == 'T' as u8 {
            Some(Instruction::HLT)
        } else if a == 'L' as u8 && b == 'D' as u8 && c == 'I' as u8 {
            Some(Instruction::LDI)
        } else if a == 'A' as u8 && b == 'D' as u8 && c == 'I' as u8 {
            Some(Instruction::ADI)
        } else if a == 'L' as u8 && b == 'D' as u8 && c == 'R' as u8 {
            Some(Instruction::LDR)
        } else if a == 'A' as u8 && b == 'D' as u8 && c == 'R' as u8 {
            Some(Instruction::ADR)
        } else {
            None
        };
        proof {
            if r is Some {
                assert(t@ =~= seq![t@[0], t@[1], t@[2]]);
            }
        }
        r
    } else {
        None
    }
}

/// A line with its one trailing carriage return removed, so that
/// sources with carriage-return-and-line-feed line breaks assemble
/// the same as sources with bare line feeds.
pub open spec fn spec_strip_cr(l: Seq<u8>) -> Seq<u8> {
    if l.len() > 0 && l.last() == 13 {
        l.drop_last()
    } else {
        l
    }
}

/// What one line of tokens assembles to: the first token names the
/// opcode; `NOP`, `OUT` and `HLT` take operand 0; every other opcode
/// requires a second token holding a decimal signed 64-bit integer.
/// Extra trailing tokens are ignored.
pub open spec fn spec_parse_tokens(toks: Seq<Seq<u8>>) -> Result<RomLayout, AsmError> {
    if toks.len() == 0 {
        Err(AsmError::EmptyLine)
    } else {
        match spec_mnemonic(toks[0]) {
            None => Err(AsmError::UnknownMnemonic),
            Some(op) => if spec_takes_no_operand(op) {
                Ok(RomLayout { instruction: op, value: 0 })
            } else if toks.len() < 2 {
                Err(AsmError::MissingOperand)
            } else {
                match spec_dec_i64(toks[1]) {
                    None => Err(AsmError::MalformedOperand),
                    Some(v) => Ok(RomLayout { instruction: op, value: v }),
                }
            },
        }
    }
}

/// What one source line assembles to.
pub open spec fn spec_parse_line(l: Seq<u8>) -> Result<RomLayout, AsmError> {
    spec_parse_tokens(spec_tokens(spec_strip_cr(l)))
}

/// Parses one source line into an instruction record; exactly
/// `spec_parse_line`, error by error.
pub fn parse_line(line: &[u8]) -> (r: Result<RomLayout, AsmError>)
    ensures
        r == spec_parse_line(line@),
{
    let n = line.len();
    let stripped: &[u8] = if n > 0 && line[n - 1] == 13 {
        vstd::slice::slice_subrange(line, 0, n - 1)
    } else {
        line
    };
    proof {
        assert(stripped@ =~= spec_strip_cr(line@));
    }
    let tokens = tokens_of(stripped);
    proof {
        assert(tokens.deep_view().len() == tokens@.len());
        assert(forall|k: int| 0 <= k < tokens@.len() ==> tokens.deep_view()[k] == #[trigger] tokens@[k]@);
    }
    if tokens.len() == 0 {
        return Err(AsmError::EmptyLine);
    }
    let op = match token_mnemonic(tokens[0].as_slice()) {
        None => {
            return Err(AsmError::UnknownMnemonic);
        },
        Some(op) => op,
    };
    if op.takes_no_operand() {
        return Ok(RomLayout::new(op, 0));
    }
    if tokens.len() < 2 {
        return Err(AsmError::MissingOperand);
    }
    match parse_i64(tokens[1].as_slice()) {
        None => Err(AsmError::MalformedOperand),
        Some(v) => Ok(RomLayout::new(op, v)),
    }
}

/// How many whitespace bytes the source starts with.
pub open spec fn spec_ltrim_count(s: Seq<u8>) -> nat
    decreases s.len(),
{
    if s.len() == 0 || !spec_is_space(s[0]) {
        0
    } else {
        1 + spec_ltrim_count(s.drop_first())
    }
}

/// How many whitespace bytes the source ends with.
pub open spec fn spec_rtrim_count(s: Seq<u8>) -> nat
    decreases s.len(),
{
    if s.len() == 0 || !spec_is_space(s.last()) {
        0
    } else {
        1 + spec_rtrim_count(s.drop_last())
    }
}

/// The source with leading and trailing whitespace removed.
pub open spec fn spec_trim(s: Seq<u8>) -> Seq<u8> {
    let l = spec_ltrim_count(s) as int;
    let u = s.subrange(l, s.len() as int);
    u.subrange(0, u.len() - spec_rtrim_count(u))
}

/// The leading whitespace of a source is exactly the bytes before
/// the first byte that is not whitespace.
proof fn lemma_ltrim_count(s: Seq<u8>, i: int)
    requires
        0 <= i <= s.len(),
        forall|j: int| 0 <= j < i ==> spec_is_space(s[j]),
        i < s.len() ==> !spec_is_space(s[i]),
    ensures
        spec_ltrim_count(s) == i,
    decreases i,
{
    if i == 0 {
    } else {
        assert(spec_is_space(s[0]));
        lemma_ltrim_count(s.drop_first(), i - 1);
    }
}

/// The trailing whitespace of a source is exactly the bytes from
/// the last byte that is not whitespace onward.
proof fn lemma_rtrim_count(s: Seq<u8>, k: int)
    requires
        0 <= k <= s.len(),
        forall|j: int| k <= j < s.len() ==> spec_is_space(s[j]),
        k > 0 ==> !spec_is_space(s[k - 1]),
    ensures
        spec_rtrim_count(s) == s.len() - k,
    decreases s.len() - k,
{
    if k < s.len() {
        assert(spec_is_space(s.last()));
        lemma_rtrim_count(s.drop_last(), k);
    }
}

/// What a sequence of lines assembles to: each line's record in
/// order, or the first failing line's error.
pub open spec fn spec_parse_lines(lines: Seq<Seq<u8>>) -> Result<Seq<RomLayout>, AsmError>
    decreases lines.len(),
{
    if lines.len() == 0 {
        Ok(seq![])
    } else {
        match spec_parse_line(lines.first()) {
            Err(e) => Err(e),
            Ok(rec) => match spec_parse_lines(lines.drop_first()) {
                Err(e) => Err(e),
                Ok(rest) => Ok(seq![rec] + rest),
            },
        }
    }
}

/// What a whole source assembles to: the source is trimmed of
/// leading and trailing whitespace; an empty remainder is the empty
/// program; otherwise every line must parse, atomically.
pub open spec fn spec_assemble(src: Seq<u8>) -> Result<Seq<RomLayout>, AsmError> {
    let t = spec_trim(src);
    if t.len() == 0 {
        Ok(seq![])
    } else {
        spec_parse_lines(spec_lines(t))
    }
}

/// Assembles a whole source text into instruction records, line by
/// line; exactly `spec_assemble`, error by error. No partial result
/// is produced: one bad line fails the whole source.
pub fn compile_rom(program: &[u8]) -> (r: Result<Vec<RomLayout>, AsmError>)
    ensures
        r matches Ok(rom) ==> spec_assemble(program@) == Ok::<Seq<RomLayout>, AsmError>(rom@),
        r matches Err(e) ==> spec_assemble(program@) == Err::<Seq<RomLayout>, AsmError>(e),
{
    let n = program.len();
    let mut lo: usize = 0;
    while lo < n && (program[lo] == 32 || program[lo] == 9 || program[lo] == 10 || program[lo]
        == 13)
        invariant
            lo <= n,
            n == program@.len(),
            forall|j: int| 0 <= j < lo ==> spec_is_space(program@[j]),
        decreases n - lo,
    {
        lo = lo + 1;
    }
    proof {
        lemma_ltrim_count(program@, lo as int);
    }
    let mut hi: usize = n;
    while hi > lo && (program[hi - 1] == 32 || program[hi - 1] == 9 || program[hi - 1] == 10
        || program[hi - 1] == 13)
        invariant
            lo <= hi <= n,
            n == program@.len(),
            forall|j: int| hi <= j < n ==> spec_is_space(program@[j]),
        decreases hi,
    {
        hi = hi - 1;
    }
    let ghost u = program@.subrange(lo as int, n as int);
    proof {
        if hi > lo {
            lemma_rtrim_count(u, hi - lo);
        } else {
            lemma_rtrim_count(u, 0);
        }
        assert(spec_trim(program@) =~= program@.subrange(lo as int, hi as int));
    }
    if hi == lo {
        return Ok(Vec::new());
    }
    let trimmed = vstd::slice::slice_subrange(program, lo, hi);
    let lines = lines_of(trimmed);
    proof {
        assert(lines.deep_view().len() == lines@.len());
        assert(forall|k: int|
            0 <= k < lines@.len() ==> lines.deep_view()[k] == #[trigger] lines@[k]@);
    }
    let ghost all = lines.deep_view();
    proof {
        assert(all.subrange(0, all.len() as int) =~= all);
    }
    let mut rom: Vec<RomLayout> = Vec::new();
    let mut i: usize = 0;
    while i < lines.len()
        invariant
            i <= lines@.len(),
            all == lines.deep_view(),
            all == spec_lines(spec_trim(program@)),
            spec_trim(program@).len() != 0,
            all.len() == lines@.len(),
            forall|k: int| 0 <= k < lines@.len() ==> all[k] == #[trigger] lines@[k]@,
            rom@.len() == i,
            spec_parse_lines(all.subrange(i as int, all.len() as int)) matches Ok(rest) ==>
                spec_parse_lines(all) == Ok::<Seq<RomLayout>, AsmError>(rom@ + rest),
            spec_parse_lines(all.subrange(i as int, all.len() as int)) matches Err(e) ==>
                spec_parse_lines(all) == Err::<Seq<RomLayout>, AsmError>(e),
        decreases lines@.len() - i,
    {
        let ghost suffix = all.subrange(i as int, all.len() as int);
        proof {
            assert(suffix.first() == all[i as int]);
            assert(suffix.drop_first() =~= all.subrange(i + 1, all.len() as int));
        }
        match parse_line(lines[i].as_slice()) {
            Err(e) => {
                proof {
                    assert(spec_parse_lines(suffix) == Err::<Seq<RomLayout>, AsmError>(e));
                }
                return Err(e);
            },
            Ok(rec) => {
                let ghost rom_prev = rom@;
                rom.push(rec);
                proof {
                    let next = all.subrange(i + 1, all.len() as int);
                    match spec_parse_lines(next) {
                        Ok(rest) => {
                            assert(spec_parse_lines(suffix) == Ok::<Seq<RomLayout>, AsmError>(
                                seq![rec] + rest,
                            ));
                            assert(rom_prev + (seq![rec] + rest) =~= rom@ + rest);
                        },
                        Err(_) => {},
                    }
                }
            },
        }
        i = i + 1;
    }
    proof {
        let tail = all.subrange(all.len() as int, all.len() as int);
        assert(tail =~= Seq::<Seq<u8>>::empty());
        assert(spec_parse_lines(tail) == Ok::<Seq<RomLayout>, AsmError>(seq![]));
        assert(rom@ + seq![] =~= rom@);
    }
    Ok(rom)
}

} // verus!
