//! Two-pass symbolic assembler.
//!
//! Source text is split into lines; each line is truncated at the first `;`
//! and split on whitespace.  A first pass walks the lines with a running
//! address counter, binding every label (a leading token ending in `:`) to
//! the address the next instruction will occupy; a second pass resolves
//! case-insensitive mnemonics to their fixed formats, parses operands, looks
//! branch targets up in the label table, and emits one 6-byte word per
//! instruction.  Forward references are supported by construction.  The
//! second pass stops at the first error, reporting its 1-based line number.
//!
//! The whole pipeline is specified functionally: [`assemble_spec`] is the
//! mathematical assembler over a sequence of characters, and the executable
//! [`assemble`] is proved to return exactly its result.

use vstd::prelude::*;
use crate::isa;
use crate::machine::{wrap_add, wrap_sub};

verus! {

// ---------------------------------------------------------------------------
// Errors.
// ---------------------------------------------------------------------------

/// What went wrong on a source line.
#[derive(Clone, Copy, PartialEq, Eq, Structural, Debug)]
pub enum AsmErrorKind {
    /// The first token is no known mnemonic.
    UnrecognizedInstruction,
    /// A known mnemonic was given the wrong number of operands.
    InvalidOperandCount,
    /// An operand that must name a register does not.
    InvalidRegister,
    /// An immediate operand is no valid literal.
    InvalidImmediate,
    /// A branch or call target is neither an immediate nor a known label.
    InvalidJumpTarget,
    /// A jump form with an extra operand expects the relative flag first.
    ExpectedRegisterOrRelFlag,
}

impl AsmErrorKind {
    /// The human-readable defect message.
    pub fn message(&self) -> (r: &'static str)
        ensures
            self is UnrecognizedInstruction ==> r@ == "unrecognized instruction"@,
            self is InvalidOperandCount ==> r@ == "invalid operand count"@,
            self is InvalidRegister ==> r@ == "invalid register"@,
            self is InvalidImmediate ==> r@ == "invalid immediate"@,
            self is InvalidJumpTarget ==> r@ == "invalid jump target"@,
            self is ExpectedRegisterOrRelFlag ==> r@ == "expected register or relative flag"@,
    {
        match self {
            AsmErrorKind::UnrecognizedInstruction => "unrecognized instruction",
            AsmErrorKind::InvalidOperandCount => "invalid operand count",
            AsmErrorKind::InvalidRegister => "invalid register",
            AsmErrorKind::InvalidImmediate => "invalid immediate",
            AsmErrorKind::InvalidJumpTarget => "invalid jump target",
            AsmErrorKind::ExpectedRegisterOrRelFlag => "expected register or relative flag",
        }
    }
}

/// An assembly error: the 1-based source line and the defect found there.
#[derive(Clone, Copy, PartialEq, Eq, Structural, Debug)]
pub struct AsmError {
    pub line: usize,
    pub kind: AsmErrorKind,
}

// ---------------------------------------------------------------------------
// Characters and tokens.
// ---------------------------------------------------------------------------

/// Whitespace that separates tokens within a line.
pub open spec fn is_space(c: char) -> bool {
    c == ' ' || c == '\t' || c == '\r'
}

/// An ASCII letter folded to lower case; any other character is unchanged.
pub open spec fn lower_char(c: char) -> char {
    if 65 <= c as u32 && c as u32 <= 90 {
        ((c as u32 + 32) as char)
    } else {
        c
    }
}

/// A token folded to lower case, character by character.
pub open spec fn lower_seq(s: Seq<char>) -> Seq<char> {
    s.map_values(|c: char| lower_char(c))
}

/// The collected characters of a string slice.
fn chars_of(s: &str) -> (r: Vec<char>)
    ensures
        r@ == s@,
{
    let n = s.unicode_len();
    let mut r: Vec<char> = Vec::new();
    let mut i: usize = 0;
    while i < n
        invariant
            i <= n,
            n == s@.len(),
            r@ == s@.take(i as int),
        decreases n - i,
    {
        r.push(s.get_char(i));
        proof {
            assert(r@ =~= s@.take(i + 1));
        }
        i = i + 1;
    }
    proof {
        assert(s@.take(n as int) =~= s@);
    }
    r
}

/// Whether two character vectors hold the same characters.
fn chars_eq(a: &Vec<char>, b: &Vec<char>) -> (r: bool)
    ensures
        r == (a@ == b@),
{
    if a.len() != b.len() {
        return false;
    }
    let n = a.len();
    let mut i: usize = 0;
    while i < n
        invariant
            i <= n,
            n == a@.len() == b@.len(),
            forall|j: int| 0 <= j < i ==> a@[j] == b@[j],
        decreases n - i,
    {
        if a[i] != b[i] {
            return false;
        }
        i = i + 1;
    }
    proof {
        assert(a@ =~= b@);
    }
    true
}

/// Whether the token equals the given (lower-case ASCII) string exactly.
fn token_eq(tok: &Vec<char>, s: &str) -> (r: bool)
    ensures
        r == (tok@ == s@),
{
    let n = s.unicode_len();
    if tok.len() != n {
        return false;
    }
    let mut i: usize = 0;
    while i < n
        invariant
            i <= n,
            n == tok@.len() == s@.len(),
            forall|j: int| 0 <= j < i ==> tok@[j] == s@[j],
        decreases n - i,
    {
        if tok[i] != s.get_char(i) {
            return false;
        }
        i = i + 1;
    }
    proof {
        assert(tok@ =~= s@);
    }
    true
}

/// Whether the token, folded to lower case, equals the given lower-case
/// ASCII string.
fn token_eq_ci(tok: &Vec<char>, s: &str) -> (r: bool)
    ensures
        r == (lower_seq(tok@) == s@),
{
    let n = s.unicode_len();
    if tok.len() != n {
        proof {
            assert(lower_seq(tok@).len() == tok@.len());
        }
        return false;
    }
    let mut i: usize = 0;
    while i < n
        invariant
            i <= n,
            n == tok@.len() == s@.len(),
            lower_seq(tok@).len() == n,
            forall|j: int| 0 <= j < i ==> lower_seq(tok@)[j] == s@[j],
        decreases n - i,
    {
        let c = tok[i];
        let l = s.get_char(i);
        let cu = c as u32;
        let lu = l as u32;
        let matches_here = if 65 <= cu && cu <= 90 {
            cu + 32 == lu
        } else {
            cu == lu
        };
        proof {
            assert(lower_seq(tok@)[i as int] == lower_char(c));
        }
        if !matches_here {
            proof {
                assert(lower_seq(tok@)[i as int] != s@[i as int]);
            }
            return false;
        }
        i = i + 1;
    }
    proof {
        assert(lower_seq(tok@) =~= s@);
    }
    true
}

// ---------------------------------------------------------------------------
// Tokenization.
//
// A line is cut at the first `;`; the rest splits on whitespace.  Both steps
// are folded into one scan: a `;` ends the scan, whitespace separates.
// ---------------------------------------------------------------------------

/// The first position at or after `i` where the token starting at `i` ends:
/// the next whitespace, comment marker, or the end of the line.
pub open spec fn token_end(line: Seq<char>, i: int) -> int
    decreases line.len() - i,
{
    if i < 0 || i >= line.len() || is_space(line[i]) || line[i] == ';' {
        i
    } else {
        token_end(line, i + 1)
    }
}

/// The token end never runs past the line and never moves backwards.
pub proof fn lemma_token_end_bounds(line: Seq<char>, i: int)
    requires
        0 <= i <= line.len(),
    ensures
        i <= token_end(line, i) <= line.len(),
    decreases line.len() - i,
{
    if i < line.len() && !is_space(line[i]) && line[i] != ';' {
        lemma_token_end_bounds(line, i + 1);
    }
}

/// The tokens of `line` from position `i` on: maximal runs of
/// non-whitespace characters, stopping at the first comment marker.
pub open spec fn tokens_from(line: Seq<char>, i: int) -> Seq<Seq<char>>
    decreases line.len() - i, 1int
        when 0 <= i <= line.len()
    via tokens_from_decreases
{
    if i >= line.len() {
        Seq::empty()
    } else if line[i] == ';' {
        Seq::empty()
    } else if is_space(line[i]) {
        tokens_from(line, i + 1)
    } else {
        seq![line.subrange(i, token_end(line, i))] + tokens_from(line, token_end(line, i))
    }
}

#[via_fn]
proof fn tokens_from_decreases(line: Seq<char>, i: int) {
    if 0 <= i < line.len() && !is_space(line[i]) && line[i] != ';' {
        lemma_token_end_bounds(line, i + 1);
    }
}

/// The tokens of one source line.
pub open spec fn line_tokens(line: Seq<char>) -> Seq<Seq<char>> {
    tokens_from(line, 0)
}

/// Every token is non-empty.
pub proof fn lemma_tokens_nonempty(line: Seq<char>, i: int)
    requires
        0 <= i <= line.len(),
    ensures
        forall|k: int|
            0 <= k < tokens_from(line, i).len() ==> #[trigger] tokens_from(line, i)[k].len() > 0,
    decreases line.len() - i,
{
    if i >= line.len() || line[i] == ';' {
        assert(tokens_from(line, i).len() == 0);
    } else if is_space(line[i]) {
        lemma_tokens_nonempty(line, i + 1);
        assert(tokens_from(line, i) == tokens_from(line, i + 1));
        assert(forall|k: int|
            0 <= k < tokens_from(line, i).len() ==> #[trigger] tokens_from(line, i)[k].len() > 0);
    } else {
        let e = token_end(line, i);
        lemma_token_end_bounds(line, i + 1);
        lemma_tokens_nonempty(line, e);
        let ts = tokens_from(line, i);
        assert(i < e) by {
            assert(token_end(line, i) == token_end(line, i + 1));
        }
        assert(ts == seq![line.subrange(i, e)] + tokens_from(line, e));
        assert forall|k: int| 0 <= k < ts.len() implies #[trigger] ts[k].len() > 0 by {
            if k == 0 {
                assert(ts[0] == line.subrange(i, e));
            } else {
                assert(ts[k] == tokens_from(line, e)[k - 1]);
                assert(tokens_from(line, e)[k - 1].len() > 0);
            }
        }
        assert(forall|k: int|
            0 <= k < tokens_from(line, i).len() ==> #[trigger] tokens_from(line, i)[k].len() > 0);
    }
}

/// The sequences of characters that a vector of tokens views to.
pub open spec fn views(ts: Seq<Vec<char>>) -> Seq<Seq<char>> {
    Seq::new(ts.len(), |i: int| ts[i]@)
}

/// Whether a character separates or ends tokens.
fn is_sep(c: char) -> (r: bool)
    ensures
        r == (is_space(c) || c == ';'),
{
    c == ' ' || c == '\t' || c == '\r' || c == ';'
}

/// Split one line into its tokens.
fn tokenize(line: &Vec<char>) -> (toks: Vec<Vec<char>>)
    ensures
        views(toks@) == line_tokens(line@),
{
    let n = line.len();
    let mut toks: Vec<Vec<char>> = Vec::new();
    let mut i: usize = 0;
    while i < n
        invariant
            i <= n,
            n == line@.len(),
            line_tokens(line@) == views(toks@) + tokens_from(line@, i as int),
        decreases n - i,
    {
        let c = line[i];
        if c == ';' {
            proof {
                assert(tokens_from(line@, i as int) =~= Seq::<Seq<char>>::empty());
                assert(line_tokens(line@) =~= views(toks@));
            }
            return toks;
        }
        if c == ' ' || c == '\t' || c == '\r' {
            proof {
                assert(tokens_from(line@, i as int) == tokens_from(line@, i + 1));
            }
            i = i + 1;
        } else {
            let ghost start = i as int;
            let mut j: usize = i + 1;
            while j < n && !is_sep(line[j])
                invariant
                    start < j <= n,
                    n == line@.len(),
                    token_end(line@, start) == token_end(line@, j as int),
                decreases n - j,
            {
                proof {
                    assert(token_end(line@, j as int) == token_end(line@, j + 1));
                }
                j = j + 1;
            }
            proof {
                assert(token_end(line@, j as int) == j as int);
            }
            let mut tok: Vec<char> = Vec::new();
            let mut k: usize = i;
            while k < j
                invariant
                    i <= k <= j <= n,
                    n == line@.len(),
                    tok@ == line@.subrange(i as int, k as int),
                decreases j - k,
            {
                tok.push(line[k]);
                proof {
                    assert(tok@ =~= line@.subrange(i as int, k + 1));
                }
                k = k + 1;
            }
            let ghost old_toks = views(toks@);
            toks.push(tok);
            proof {
                assert(views(toks@) =~= old_toks.push(line@.subrange(start, j as int)));
                assert(tokens_from(line@, start) == seq![line@.subrange(start, j as int)]
                    + tokens_from(line@, j as int));
                assert(line_tokens(line@) =~= views(toks@) + tokens_from(line@, j as int));
            }
            i = j;
        }
    }
    proof {
        assert(tokens_from(line@, n as int) =~= Seq::<Seq<char>>::empty());
        assert(line_tokens(line@) =~= views(toks@));
    }
    toks
}

// ---------------------------------------------------------------------------
// Lines.
// ---------------------------------------------------------------------------

/// The position of the newline that ends the line starting at `i`, or the
/// end of the source.
pub open spec fn line_break(src: Seq<char>, i: int) -> int
    decreases src.len() - i,
{
    if i < 0 || i >= src.len() {
        src.len() as int
    } else if src[i] == '\n' {
        i
    } else {
        line_break(src, i + 1)
    }
}

/// The line break never runs past the source and never moves backwards.
pub proof fn lemma_line_break_bounds(src: Seq<char>, i: int)
    requires
        0 <= i <= src.len(),
    ensures
        i <= line_break(src, i) <= src.len(),
    decreases src.len() - i,
{
    if i < src.len() && src[i] != '\n' {
        lemma_line_break_bounds(src, i + 1);
    }
}

/// The source split at newlines, starting from position `i`.
pub open spec fn lines_from(src: Seq<char>, i: int) -> Seq<Seq<char>>
    decreases src.len() - i
        when 0 <= i <= src.len()
    via lines_from_decreases
{
    if line_break(src, i) >= src.len() {
        seq![src.subrange(i, src.len() as int)]
    } else {
        seq![src.subrange(i, line_break(src, i))] + lines_from(src, line_break(src, i) + 1)
    }
}

#[via_fn]
proof fn lines_from_decreases(src: Seq<char>, i: int) {
    lemma_line_break_bounds(src, i);
}

/// The lines of the source text.
pub open spec fn source_lines(src: Seq<char>) -> Seq<Seq<char>> {
    lines_from(src, 0)
}

/// Split the source into lines.
fn split_lines(src: &Vec<char>) -> (lines: Vec<Vec<char>>)
    ensures
        views(lines@) == source_lines(src@),
{
    let n = src.len();
    let mut lines: Vec<Vec<char>> = Vec::new();
    let mut i: usize = 0;
    loop
        invariant
            i <= n,
            n == src@.len(),
            source_lines(src@) == views(lines@) + lines_from(src@, i as int),
        decreases n - i,
    {
        let ghost start = i as int;
        let mut j: usize = i;
        while j < n && src[j] != '\n'
            invariant
                start <= j <= n,
                n == src@.len(),
                line_break(src@, start) == line_break(src@, j as int),
            decreases n - j,
        {
            proof {
                assert(line_break(src@, j as int) == line_break(src@, j + 1));
            }
            j = j + 1;
        }
        proof {
            assert(line_break(src@, start) == j as int || (j == n && line_break(src@, start)
                == n as int));
        }
        let mut line: Vec<char> = Vec::new();
        let mut k: usize = i;
        while k < j
            invariant
                i <= k <= j <= n,
                n == src@.len(),
                line@ == src@.subrange(i as int, k as int),
            decreases j - k,
        {
            line.push(src[k]);
            proof {
                assert(line@ =~= src@.subrange(i as int, k + 1));
            }
            k = k + 1;
        }
        let ghost old_lines = views(lines@);
        lines.push(line);
        proof {
            assert(views(lines@) =~= old_lines.push(src@.subrange(start, j as int)));
        }
        if j >= n {
            proof {
                assert(lines_from(src@, start) =~= seq![src@.subrange(start, n as int)]);
                assert(source_lines(src@) =~= views(lines@));
            }
            return lines;
        }
        proof {
            assert(lines_from(src@, start) == seq![src@.subrange(start, j as int)] + lines_from(
                src@,
                j + 1,
            ));
            assert(source_lines(src@) =~= views(lines@) + lines_from(src@, j + 1));
        }
        i = j + 1;
    }
}

// ---------------------------------------------------------------------------
// Immediate literals.
//
// An immediate is a decimal literal, an `0x`/`0b`/`0o`-prefixed literal, or a
// single-quoted character literal with the escapes `\n \t \r \\ \'`.  A
// leading sign is folded by the operand parser, not here.
// ---------------------------------------------------------------------------

/// The value of `c` as a digit, if it is one below `radix`.  Letter digits
/// are accepted in either case.
pub open spec fn digit_in_radix(c: char, radix: u32) -> Option<u32> {
    let u = c as u32;
    let v: u32 = if 48 <= u && u <= 57 {
        (u - 48) as u32
    } else if 97 <= u && u <= 102 {
        (u - 87) as u32
    } else if 65 <= u && u <= 70 {
        (u - 55) as u32
    } else {
        99
    };
    if v < radix {
        Some(v)
    } else {
        None
    }
}

/// The digits of `s` from position `i` on, folded left onto `acc` in the
/// given radix; `None` on a non-digit or when the value exceeds 32 bits.
pub open spec fn radix_value_from(s: Seq<char>, i: int, radix: u32, acc: u32) -> Option<u32>
    decreases s.len() - i,
{
    if i < 0 || i >= s.len() {
        Some(acc)
    } else {
        match digit_in_radix(s[i], radix) {
            Option::None => None,
            Option::Some(d) => if acc * radix + d > 0xFFFF_FFFF {
                None
            } else {
                radix_value_from(s, i + 1, radix, (acc * radix + d) as u32)
            },
        }
    }
}

/// The value of the digits of `s` from `start` on; at least one digit is
/// required.
pub open spec fn radix_value(s: Seq<char>, start: int, radix: u32) -> Option<u32> {
    if start >= s.len() {
        None
    } else {
        radix_value_from(s, start, radix, 0)
    }
}

/// The code point named by a character-literal escape.
pub open spec fn escape_value(c: char) -> Option<u32> {
    if c == 'n' {
        Some(10)
    } else if c == 't' {
        Some(9)
    } else if c == 'r' {
        Some(13)
    } else if c == '\\' {
        Some(92)
    } else if c == '\'' {
        Some(39)
    } else {
        None
    }
}

/// The code point of a single-quoted character literal: one character, or
/// one backslash escape, between two quotes.
pub open spec fn char_lit_value(s: Seq<char>) -> Option<u32> {
    if s.len() >= 3 && s[s.len() - 1] == '\'' {
        if s.len() == 3 {
            Some(s[1] as u32)
        } else if s.len() == 4 && s[1] == '\\' {
            escape_value(s[2])
        } else {
            None
        }
    } else {
        None
    }
}

/// The value of an unsigned immediate literal, if it is one.
pub open spec fn imm_value(s: Seq<char>) -> Option<u32> {
    if s.len() >= 2 && s[0] == '0' && s[1] == 'x' {
        radix_value(s, 2, 16)
    } else if s.len() >= 2 && s[0] == '0' && s[1] == 'b' {
        radix_value(s, 2, 2)
    } else if s.len() >= 2 && s[0] == '0' && s[1] == 'o' {
        radix_value(s, 2, 8)
    } else if s.len() >= 1 && s[0] == '\'' {
        char_lit_value(s)
    } else {
        radix_value(s, 0, 10)
    }
}

/// Fold the digits of `v` from `start` on in the given radix.
fn radix_of_chars(v: &Vec<char>, start: usize, radix: u32) -> (r: Option<u32>)
    ensures
        r == radix_value(v@, start as int, radix),
{
    let n = v.len();
    if start >= n {
        return None;
    }
    let mut acc: u32 = 0;
    let mut i: usize = start;
    while i < n
        invariant
            start <= i <= n,
            n == v@.len(),
            radix_value(v@, start as int, radix) == radix_value_from(v@, i as int, radix, acc),
        decreases n - i,
    {
        let u = v[i] as u32;
        let d: u32 = if 48 <= u && u <= 57 {
            u - 48
        } else if 97 <= u && u <= 102 {
            u - 87
        } else if 65 <= u && u <= 70 {
            u - 55
        } else {
            99
        };
        if d >= radix {
            return None;
        }
        let m = match acc.checked_mul(radix) {
            Some(m) => m,
            None => {
                return None;
            },
        };
        let a = match m.checked_add(d) {
            Some(a) => a,
            None => {
                return None;
            },
        };
        acc = a;
        i = i + 1;
    }
    Some(acc)
}

/// The value of an unsigned immediate literal held in a token.
fn imm_of_token(t: &Vec<char>) -> (r: Option<u32>)
    ensures
        r == imm_value(t@),
{
    let n = t.len();
    if n >= 2 && t[0] == '0' && t[1] == 'x' {
        radix_of_chars(t, 2, 16)
    } else if n >= 2 && t[0] == '0' && t[1] == 'b' {
        radix_of_chars(t, 2, 2)
    } else if n >= 2 && t[0] == '0' && t[1] == 'o' {
        radix_of_chars(t, 2, 8)
    } else if n >= 1 && t[0] == '\'' {
        if n >= 3 && t[n - 1] == '\'' {
            if n == 3 {
                Some(t[1] as u32)
            } else if n == 4 && t[1] == '\\' {
                let e = t[2];
                if e == 'n' {
                    Some(10)
                } else if e == 't' {
                    Some(9)
                } else if e == 'r' {
                    Some(13)
                } else if e == '\\' {
                    Some(92)
                } else if e == '\'' {
                    Some(39)
                } else {
                    None
                }
            } else {
                None
            }
        } else {
            None
        }
    } else {
        radix_of_chars(t, 0, 10)
    }
}

/// Parse an unsigned immediate literal: decimal, `0x`/`0b`/`0o`-prefixed, or
/// a single-quoted character literal with the escapes `\n \t \r \\ \'`.
/// Returns exactly the value [`imm_value`] gives the literal, and an error
/// exactly on the tokens to which it gives none.
pub fn parse_immediate(s: &str) -> (r: Result<u32, AsmErrorKind>)
    ensures
        (imm_value(s@) is Some) ==> r == Ok::<u32, AsmErrorKind>(imm_value(s@)->Some_0),
        (imm_value(s@) is None) ==> r == Err::<u32, AsmErrorKind>(AsmErrorKind::InvalidImmediate),
{
    let v = chars_of(s);
    match imm_of_token(&v) {
        Some(x) => Ok(x),
        None => Err(AsmErrorKind::InvalidImmediate),
    }
}

// ---------------------------------------------------------------------------
// Registers.
// ---------------------------------------------------------------------------

/// The index of the register that `s` names, case-insensitively: `rds`,
/// `gr0` .. `gr11` (with `gra`/`grb` for the last two), `rsp`, `csp`, `rpc`.
pub open spec fn reg_index(s: Seq<char>) -> Option<u8> {
    let t = lower_seq(s);
    if t == "rds"@ {
        Some(isa::RDS)
    } else if t == "gr0"@ {
        Some(isa::GR0)
    } else if t == "gr1"@ {
        Some(isa::GR1)
    } else if t == "gr2"@ {
        Some(isa::GR2)
    } else if t == "gr3"@ {
        Some(isa::GR3)
    } else if t == "gr4"@ {
        Some(isa::GR4)
    } else if t == "gr5"@ {
        Some(isa::GR5)
    } else if t == "gr6"@ {
        Some(isa::GR6)
    } else if t == "gr7"@ {
        Some(isa::GR7)
    } else if t == "gr8"@ {
        Some(isa::GR8)
    } else if t == "gr9"@ {
        Some(isa::GR9)
    } else if t == "gr10"@ || t == "gra"@ {
        Some(isa::GRA)
    } else if t == "gr11"@ || t == "grb"@ {
        Some(isa::GRB)
    } else if t == "rsp"@ {
        Some(isa::RSP)
    } else if t == "csp"@ {
        Some(isa::CSP)
    } else if t == "rpc"@ {
        Some(isa::RPC)
    } else {
        None
    }
}

/// Every register index that [`reg_index`] yields names one of the sixteen
/// registers.
pub proof fn lemma_reg_index_bounded(s: Seq<char>)
    ensures
        (reg_index(s) is Some) ==> reg_index(s)->Some_0 < 16,
{
}

/// The register index a token names, if any.
fn reg_of_token(t: &Vec<char>) -> (r: Option<u8>)
    ensures
        r == reg_index(t@),
{
    if token_eq_ci(t, "rds") {
        Some(isa::RDS)
    } else if token_eq_ci(t, "gr0") {
        Some(isa::GR0)
    } else if token_eq_ci(t, "gr1") {
        Some(isa::GR1)
    } else if token_eq_ci(t, "gr2") {
        Some(isa::GR2)
    } else if token_eq_ci(t, "gr3") {
        Some(isa::GR3)
    } else if token_eq_ci(t, "gr4") {
        Some(isa::GR4)
    } else if token_eq_ci(t, "gr5") {
        Some(isa::GR5)
    } else if token_eq_ci(t, "gr6") {
        Some(isa::GR6)
    } else if token_eq_ci(t, "gr7") {
        Some(isa::GR7)
    } else if token_eq_ci(t, "gr8") {
        Some(isa::GR8)
    } else if token_eq_ci(t, "gr9") {
        Some(isa::GR9)
    } else if token_eq_ci(t, "gr10") || token_eq_ci(t, "gra") {
        Some(isa::GRA)
    } else if token_eq_ci(t, "gr11") || token_eq_ci(t, "grb") {
        Some(isa::GRB)
    } else if token_eq_ci(t, "rsp") {
        Some(isa::RSP)
    } else if token_eq_ci(t, "csp") {
        Some(isa::CSP)
    } else if token_eq_ci(t, "rpc") {
        Some(isa::RPC)
    } else {
        None
    }
}

/// Parse a register name, case-insensitively.  Returns exactly the index
/// [`reg_index`] gives the name, and an error exactly on the tokens to which
/// it gives none.
pub fn parse_register(s: &str) -> (r: Result<u8, AsmErrorKind>)
    ensures
        (reg_index(s@) is Some) ==> r == Ok::<u8, AsmErrorKind>(reg_index(s@)->Some_0),
        (reg_index(s@) is None) ==> r == Err::<u8, AsmErrorKind>(AsmErrorKind::InvalidRegister),
{
    let v = chars_of(s);
    match reg_of_token(&v) {
        Some(x) => Ok(x),
        None => Err(AsmErrorKind::InvalidRegister),
    }
}

// ---------------------------------------------------------------------------
// The label table.
// ---------------------------------------------------------------------------

/// The map that a sequence of label bindings builds up, later bindings
/// overriding earlier ones.
pub open spec fn map_of(entries: Seq<(Vec<char>, u32)>) -> Map<Seq<char>, u32>
    decreases entries.len(),
{
    if entries.len() == 0 {
        Map::empty()
    } else {
        map_of(entries.drop_last()).insert(entries.last().0@, entries.last().1)
    }
}

/// The label table of one assembly call: name-to-address bindings in the
/// order the first pass made them, viewed as a map in which the latest
/// binding of a name wins.
pub struct LabelTable {
    entries: Vec<(Vec<char>, u32)>,
}

impl View for LabelTable {
    type V = Map<Seq<char>, u32>;

    closed spec fn view(&self) -> Map<Seq<char>, u32> {
        map_of(self.entries@)
    }
}

impl LabelTable {
    /// An empty table.
    pub fn new() -> (t: LabelTable)
        ensures
            t@ == Map::<Seq<char>, u32>::empty(),
    {
        LabelTable { entries: Vec::new() }
    }

    /// Bind `name` to `addr`, overriding any earlier binding.
    pub fn insert(&mut self, name: Vec<char>, addr: u32)
        ensures
            final(self)@ == old(self)@.insert(name@, addr),
    {
        self.entries.push((name, addr));
        proof {
            assert(self.entries@.drop_last() =~= old(self).entries@);
        }
    }

    /// Look a name up: the latest binding, if any.
    pub fn get(&self, name: &Vec<char>) -> (r: Option<u32>)
        ensures
            self@.contains_key(name@) ==> r == Some(self@[name@]),
            !self@.contains_key(name@) ==> r is None,
    {
        let n = self.entries.len();
        let mut i: usize = n;
        proof {
            assert(self.entries@.take(n as int) =~= self.entries@);
        }
        while i > 0
            invariant
                i <= n,
                n == self.entries@.len(),
                self@.contains_key(name@) == map_of(self.entries@.take(i as int)).contains_key(
                    name@,
                ),
                self@.contains_key(name@) ==> self@[name@] == map_of(
                    self.entries@.take(i as int),
                )[name@],
            decreases i,
        {
            i = i - 1;
            let entry_name = &self.entries[i].0;
            proof {
                assert(self.entries@.take(i + 1).drop_last() =~= self.entries@.take(i as int));
                assert(self.entries@.take(i + 1).last() == self.entries@[i as int]);
            }
            if chars_eq(entry_name, name) {
                return Some(self.entries[i].1);
            }
        }
        proof {
            assert(self.entries@.take(0) =~= Seq::<(Vec<char>, u32)>::empty());
        }
        None
    }
}


// ---------------------------------------------------------------------------
// Mnemonics and instruction formats.
// ---------------------------------------------------------------------------

/// The operand format of a mnemonic: how many operands it takes and how they
/// are laid out in the word.
#[derive(Clone, Copy, PartialEq, Eq, Structural, Debug)]
pub enum Format {
    /// No operands.
    Fixed0,
    /// Destination and two source registers.
    Reg3,
    /// Destination and source register.
    Reg2,
    /// One register.
    Reg1,
    /// Destination register and a nibble-packed signed immediate.
    LoadImm,
    /// Destination register, source register, and a byte-aligned signed
    /// immediate.
    RegImm,
    /// A target register, optionally preceded by the relative flag.
    JumpReg,
    /// A target and a condition register, optionally preceded by the
    /// relative flag.
    JumpRegCond,
    /// An immediate or label target, optionally preceded by the relative
    /// flag.
    JumpImm,
    /// An immediate or label target and a condition register, optionally
    /// preceded by the relative flag.
    JumpImmCond,
}

/// The opcode and format of the mnemonic that `s` names,
/// case-insensitively.
pub open spec fn mnemonic_spec(s: Seq<char>) -> Option<(u8, Format)> {
    let t = lower_seq(s);
    if t == "nop"@ {
        Some((isa::NOP, Format::Fixed0))
    } else if t == "hlt"@ {
        Some((isa::HLT, Format::Fixed0))
    } else if t == "ret"@ {
        Some((isa::RET, Format::Fixed0))
    } else if t == "ldi"@ {
        Some((isa::LDI, Format::LoadImm))
    } else if t == "add"@ {
        Some((isa::ADD, Format::Reg3))
    } else if t == "sub"@ {
        Some((isa::SUB, Format::Reg3))
    } else if t == "bor"@ {
        Some((isa::BOR, Format::Reg3))
    } else if t == "band"@ {
        Some((isa::BAND, Format::Reg3))
    } else if t == "bxor"@ {
        Some((isa::BXOR, Format::Reg3))
    } else if t == "lor"@ {
        Some((isa::LOR, Format::Reg3))
    } else if t == "land"@ {
        Some((isa::LAND, Format::Reg3))
    } else if t == "lxor"@ {
        Some((isa::LXOR, Format::Reg3))
    } else if t == "eq"@ {
        Some((isa::EQ, Format::Reg3))
    } else if t == "ne"@ {
        Some((isa::NE, Format::Reg3))
    } else if t == "gt"@ {
        Some((isa::GT, Format::Reg3))
    } else if t == "lt"@ {
        Some((isa::LT, Format::Reg3))
    } else if t == "ge"@ {
        Some((isa::GE, Format::Reg3))
    } else if t == "le"@ {
        Some((isa::LE, Format::Reg3))
    } else if t == "shl"@ {
        Some((isa::SHL, Format::Reg3))
    } else if t == "lshr"@ {
        Some((isa::LSHR, Format::Reg3))
    } else if t == "ashr"@ {
        Some((isa::ASHR, Format::Reg3))
    } else if t == "rotl"@ {
        Some((isa::ROTL, Format::Reg3))
    } else if t == "rotr"@ {
        Some((isa::ROTR, Format::Reg3))
    } else if t == "mul"@ {
        Some((isa::MUL, Format::Reg3))
    } else if t == "div"@ {
        Some((isa::DIV, Format::Reg3))
    } else if t == "rem"@ {
        Some((isa::REM, Format::Reg3))
    } else if t == "muhs"@ {
        Some((isa::MUHS, Format::Reg3))
    } else if t == "muhu"@ {
        Some((isa::MUHU, Format::Reg3))
    } else if t == "fadd"@ {
        Some((isa::FADD, Format::Reg3))
    } else if t == "fsub"@ {
        Some((isa::FSUB, Format::Reg3))
    } else if t == "fmul"@ {
        Some((isa::FMUL, Format::Reg3))
    } else if t == "fdiv"@ {
        Some((isa::FDIV, Format::Reg3))
    } else if t == "frem"@ {
        Some((isa::FREM, Format::Reg3))
    } else if t == "bnot"@ {
        Some((isa::BNOT, Format::Reg2))
    } else if t == "lnot"@ {
        Some((isa::LNOT, Format::Reg2))
    } else if t == "sb"@ {
        Some((isa::SB, Format::Reg2))
    } else if t == "sw"@ {
        Some((isa::SW, Format::Reg2))
    } else if t == "lbs"@ {
        Some((isa::LBS, Format::Reg2))
    } else if t == "lbu"@ {
        Some((isa::LBU, Format::Reg2))
    } else if t == "lw"@ {
        Some((isa::LW, Format::Reg2))
    } else if t == "inc"@ {
        Some((isa::INC, Format::Reg1))
    } else if t == "dec"@ {
        Some((isa::DEC, Format::Reg1))
    } else if t == "pb"@ {
        Some((isa::PB, Format::Reg1))
    } else if t == "pw"@ {
        Some((isa::PW, Format::Reg1))
    } else if t == "pobs"@ {
        Some((isa::POBS, Format::Reg1))
    } else if t == "pobu"@ {
        Some((isa::POBU, Format::Reg1))
    } else if t == "pow"@ {
        Some((isa::POW, Format::Reg1))
    } else if t == "addi"@ {
        Some((isa::ADDI, Format::RegImm))
    } else if t == "subi"@ {
        Some((isa::SUBI, Format::RegImm))
    } else if t == "jmr"@ {
        Some((isa::JMR, Format::JumpReg))
    } else if t == "car"@ {
        Some((isa::CAR, Format::JumpReg))
    } else if t == "jri"@ {
        Some((isa::JRI, Format::JumpRegCond))
    } else if t == "cri"@ {
        Some((isa::CRI, Format::JumpRegCond))
    } else if t == "jmi"@ {
        Some((isa::JMI, Format::JumpImm))
    } else if t == "cai"@ {
        Some((isa::CAI, Format::JumpImm))
    } else if t == "jii"@ {
        Some((isa::JII, Format::JumpImmCond))
    } else if t == "cii"@ {
        Some((isa::CII, Format::JumpImmCond))
    } else {
        None
    }
}

/// Look a mnemonic token up.
fn lookup_mnemonic(t: &Vec<char>) -> (r: Option<(u8, Format)>)
    ensures
        r == mnemonic_spec(t@),
{
    if token_eq_ci(t, "nop") {
        Some((isa::NOP, Format::Fixed0))
    } else if token_eq_ci(t, "hlt") {
        Some((isa::HLT, Format::Fixed0))
    } else if token_eq_ci(t, "ret") {
        Some((isa::RET, Format::Fixed0))
    } else if token_eq_ci(t, "ldi") {
        Some((isa::LDI, Format::LoadImm))
    } else if token_eq_ci(t, "add") {
        Some((isa::ADD, Format::Reg3))
    } else if token_eq_ci(t, "sub") {
        Some((isa::SUB, Format::Reg3))
    } else if token_eq_ci(t, "bor") {
        Some((isa::BOR, Format::Reg3))
    } else if token_eq_ci(t, "band") {
        Some((isa::BAND, Format::Reg3))
    } else if token_eq_ci(t, "bxor") {
        Some((isa::BXOR, Format::Reg3))
    } else if token_eq_ci(t, "lor") {
        Some((isa::LOR, Format::Reg3))
    } else if token_eq_ci(t, "land") {
        Some((isa::LAND, Format::Reg3))
    } else if token_eq_ci(t, "lxor") {
        Some((isa::LXOR, Format::Reg3))
    } else if token_eq_ci(t, "eq") {
        Some((isa::EQ, Format::Reg3))
    } else if token_eq_ci(t, "ne") {
        Some((isa::NE, Format::Reg3))
    } else if token_eq_ci(t, "gt") {
        Some((isa::GT, Format::Reg3))
    } else if token_eq_ci(t, "lt") {
        Some((isa::LT, Format::Reg3))
    } else if token_eq_ci(t, "ge") {
        Some((isa::GE, Format::Reg3))
    } else if token_eq_ci(t, "le") {
        Some((isa::LE, Format::Reg3))
    } else if token_eq_ci(t, "shl") {
        Some((isa::SHL, Format::Reg3))
    } else if token_eq_ci(t, "lshr") {
        Some((isa::LSHR, Format::Reg3))
    } else if token_eq_ci(t, "ashr") {
        Some((isa::ASHR, Format::Reg3))
    } else if token_eq_ci(t, "rotl") {
        Some((isa::ROTL, Format::Reg3))
    } else if token_eq_ci(t, "rotr") {
        Some((isa::ROTR, Format::Reg3))
    } else if token_eq_ci(t, "mul") {
        Some((isa::MUL, Format::Reg3))
    } else if token_eq_ci(t, "div") {
        Some((isa::DIV, Format::Reg3))
    } else if token_eq_ci(t, "rem") {
        Some((isa::REM, Format::Reg3))
    } else if token_eq_ci(t, "muhs") {
        Some((isa::MUHS, Format::Reg3))
    } else if token_eq_ci(t, "muhu") {
        Some((isa::MUHU, Format::Reg3))
    } else if token_eq_ci(t, "fadd") {
        Some((isa::FADD, Format::Reg3))
    } else if token_eq_ci(t, "fsub") {
        Some((isa::FSUB, Format::Reg3))
    } else if token_eq_ci(t, "fmul") {
        Some((isa::FMUL, Format::Reg3))
    } else if token_eq_ci(t, "fdiv") {
        Some((isa::FDIV, Format::Reg3))
    } else if token_eq_ci(t, "frem") {
        Some((isa::FREM, Format::Reg3))
    } else if token_eq_ci(t, "bnot") {
        Some((isa::BNOT, Format::Reg2))
    } else if token_eq_ci(t, "lnot") {
        Some((isa::LNOT, Format::Reg2))
    } else if token_eq_ci(t, "sb") {
        Some((isa::SB, Format::Reg2))
    } else if token_eq_ci(t, "sw") {
        Some((isa::SW, Format::Reg2))
    } else if token_eq_ci(t, "lbs") {
        Some((isa::LBS, Format::Reg2))
    } else if token_eq_ci(t, "lbu") {
        Some((isa::LBU, Format::Reg2))
    } else if token_eq_ci(t, "lw") {
        Some((isa::LW, Format::Reg2))
    } else if token_eq_ci(t, "inc") {
        Some((isa::INC, Format::Reg1))
    } else if token_eq_ci(t, "dec") {
        Some((isa::DEC, Format::Reg1))
    } else if token_eq_ci(t, "pb") {
        Some((isa::PB, Format::Reg1))
    } else if token_eq_ci(t, "pw") {
        Some((isa::PW, Format::Reg1))
    } else if token_eq_ci(t, "pobs") {
        Some((isa::POBS, Format::Reg1))
    } else if token_eq_ci(t, "pobu") {
        Some((isa::POBU, Format::Reg1))
    } else if token_eq_ci(t, "pow") {
        Some((isa::POW, Format::Reg1))
    } else if token_eq_ci(t, "addi") {
        Some((isa::ADDI, Format::RegImm))
    } else if token_eq_ci(t, "subi") {
        Some((isa::SUBI, Format::RegImm))
    } else if token_eq_ci(t, "jmr") {
        Some((isa::JMR, Format::JumpReg))
    } else if token_eq_ci(t, "car") {
        Some((isa::CAR, Format::JumpReg))
    } else if token_eq_ci(t, "jri") {
        Some((isa::JRI, Format::JumpRegCond))
    } else if token_eq_ci(t, "cri") {
        Some((isa::CRI, Format::JumpRegCond))
    } else if token_eq_ci(t, "jmi") {
        Some((isa::JMI, Format::JumpImm))
    } else if token_eq_ci(t, "cai") {
        Some((isa::CAI, Format::JumpImm))
    } else if token_eq_ci(t, "jii") {
        Some((isa::JII, Format::JumpImmCond))
    } else if token_eq_ci(t, "cii") {
        Some((isa::CII, Format::JumpImmCond))
    } else {
        None
    }
}


// ---------------------------------------------------------------------------
// Operands.
// ---------------------------------------------------------------------------

/// The case-variant tokens that select relative addressing when they stand
/// as the first operand of a jump or call.
pub open spec fn is_rel_flag(t: Seq<char>) -> bool {
    t == "rel"@ || t == "relative"@ || t == "REL"@ || t == "RELATIVE"@ || t == "r"@ || t == "R"@
}

/// Whether the token is one of the relative-flag spellings.
fn rel_flag(t: &Vec<char>) -> (r: bool)
    ensures
        r == is_rel_flag(t@),
{
    token_eq(t, "rel") || token_eq(t, "relative") || token_eq(t, "REL") || token_eq(t, "RELATIVE")
        || token_eq(t, "r") || token_eq(t, "R")
}

/// The value of an immediate operand with an optional leading sign, the
/// minus folded via two's complement.
pub open spec fn signed_imm_value(t: Seq<char>) -> Option<u32> {
    if t.len() >= 1 && t[0] == '+' {
        imm_value(t.drop_first())
    } else if t.len() >= 1 && t[0] == '-' {
        match imm_value(t.drop_first()) {
            Option::None => None,
            Option::Some(v) => Some(wrap_sub(0, v)),
        }
    } else {
        imm_value(t)
    }
}

/// The token without its first character.
fn tail_of(t: &Vec<char>) -> (r: Vec<char>)
    requires
        t@.len() >= 1,
    ensures
        r@ == t@.drop_first(),
{
    let n = t.len();
    let mut r: Vec<char> = Vec::new();
    let mut i: usize = 1;
    while i < n
        invariant
            1 <= i <= n,
            n == t@.len(),
            r@ == t@.subrange(1, i as int),
        decreases n - i,
    {
        r.push(t[i]);
        proof {
            assert(r@ =~= t@.subrange(1, i + 1));
        }
        i = i + 1;
    }
    proof {
        assert(t@.subrange(1, n as int) =~= t@.drop_first());
    }
    r
}

/// The value of a signed immediate operand token.
fn signed_imm_of_token(t: &Vec<char>) -> (r: Option<u32>)
    ensures
        r == signed_imm_value(t@),
{
    if t.len() >= 1 && t[0] == '+' {
        let rest = tail_of(t);
        imm_of_token(&rest)
    } else if t.len() >= 1 && t[0] == '-' {
        let rest = tail_of(t);
        match imm_of_token(&rest) {
            Some(v) => Some(0u32.wrapping_sub(v)),
            None => None,
        }
    } else {
        imm_of_token(t)
    }
}

/// Resolve a branch or call target: a signed immediate if the token parses
/// as one, else a label, encoded as the signed distance from the address of
/// the *following* instruction to the label.
pub open spec fn jump_target_value(
    t: Seq<char>,
    labels: Map<Seq<char>, u32>,
    addr: u32,
) -> Result<u32, AsmErrorKind> {
    match signed_imm_value(t) {
        Option::Some(v) => Ok(v),
        Option::None => if labels.contains_key(t) {
            Ok(wrap_sub(labels[t], wrap_add(addr, 6)))
        } else {
            Err(AsmErrorKind::InvalidJumpTarget)
        },
    }
}

/// Resolve a branch or call target token.
fn jump_target_of(t: &Vec<char>, labels: &LabelTable, addr: u32) -> (r: Result<u32, AsmErrorKind>)
    ensures
        r == jump_target_value(t@, labels@, addr),
{
    match signed_imm_of_token(t) {
        Some(v) => Ok(v),
        None => match labels.get(t) {
            Some(a) => Ok(a.wrapping_sub(addr.wrapping_add(6))),
            None => Err(AsmErrorKind::InvalidJumpTarget),
        },
    }
}

// ---------------------------------------------------------------------------
// Encoding one instruction.
// ---------------------------------------------------------------------------

/// The low nibble and the low byte of a word fit in a byte.
proof fn lemma_u32_low_bits(x: u32)
    ensures
        x & 0xF < 16,
        x & 0xFF < 256,
{
    assert(x & 0xF < 16 && x & 0xFF < 256) by (bit_vector);
}

/// A 6-byte word.
fn word(b0: u8, b1: u8, b2: u8, b3: u8, b4: u8, b5: u8) -> (r: Vec<u8>)
    ensures
        r@ == seq![b0, b1, b2, b3, b4, b5],
{
    let mut r: Vec<u8> = Vec::new();
    r.push(b0);
    r.push(b1);
    r.push(b2);
    r.push(b3);
    r.push(b4);
    r.push(b5);
    proof {
        assert(r@ =~= seq![b0, b1, b2, b3, b4, b5]);
    }
    r
}

/// The 6-byte encoding of the instruction held in `parts` — the mnemonic
/// token and its operand tokens — or the defect that stops it from encoding:
/// an unknown mnemonic, a wrong operand count for its format, or a bad
/// operand, in the order the operands stand on the line.
pub open spec fn encode_parts(
    parts: Seq<Seq<char>>,
    labels: Map<Seq<char>, u32>,
    addr: u32,
) -> Result<Seq<u8>, AsmErrorKind> {
    if parts.len() == 0 {
        Err(AsmErrorKind::UnrecognizedInstruction)
    } else {
        match mnemonic_spec(parts[0]) {
            Option::None => Err(AsmErrorKind::UnrecognizedInstruction),
            Option::Some((op, fmt)) => match fmt {
                Format::Fixed0 => if parts.len() != 1 {
                    Err(AsmErrorKind::InvalidOperandCount)
                } else {
                    Ok(isa::enc_none(op))
                },
                Format::Reg3 => if parts.len() != 4 {
                    Err(AsmErrorKind::InvalidOperandCount)
                } else if reg_index(parts[1]) is None {
                    Err(AsmErrorKind::InvalidRegister)
                } else if reg_index(parts[2]) is None {
                    Err(AsmErrorKind::InvalidRegister)
                } else if reg_index(parts[3]) is None {
                    Err(AsmErrorKind::InvalidRegister)
                } else {
                    Ok(
                        isa::enc_rrr(
                            op,
                            reg_index(parts[1])->Some_0,
                            reg_index(parts[2])->Some_0,
                            reg_index(parts[3])->Some_0,
                        ),
                    )
                },
                Format::Reg2 => if parts.len() != 3 {
                    Err(AsmErrorKind::InvalidOperandCount)
                } else if reg_index(parts[1]) is None {
                    Err(AsmErrorKind::InvalidRegister)
                } else if reg_index(parts[2]) is None {
                    Err(AsmErrorKind::InvalidRegister)
                } else {
                    Ok(isa::enc_rr(op, reg_index(parts[1])->Some_0, reg_index(parts[2])->Some_0))
                },
                Format::Reg1 => if parts.len() != 2 {
                    Err(AsmErrorKind::InvalidOperandCount)
                } else if reg_index(parts[1]) is None {
                    Err(AsmErrorKind::InvalidRegister)
                } else {
                    Ok(isa::enc_r(op, reg_index(parts[1])->Some_0))
                },
                Format::LoadImm => if parts.len() != 3 {
                    Err(AsmErrorKind::InvalidOperandCount)
                } else if reg_index(parts[1]) is None {
                    Err(AsmErrorKind::InvalidRegister)
                } else if signed_imm_value(parts[2]) is None {
                    Err(AsmErrorKind::InvalidImmediate)
                } else {
                    Ok(isa::enc_ldi(reg_index(parts[1])->Some_0, signed_imm_value(parts[2])->Some_0))
                },
                Format::RegImm => if parts.len() != 4 {
                    Err(AsmErrorKind::InvalidOperandCount)
                } else if reg_index(parts[1]) is None {
                    Err(AsmErrorKind::InvalidRegister)
                } else if reg_index(parts[2]) is None {
                    Err(AsmErrorKind::InvalidRegister)
                } else if signed_imm_value(parts[3]) is None {
                    Err(AsmErrorKind::InvalidImmediate)
                } else {
                    Ok(
                        isa::enc_reg_imm(
                            op,
                            reg_index(parts[1])->Some_0,
                            reg_index(parts[2])->Some_0,
                            signed_imm_value(parts[3])->Some_0,
                        ),
                    )
                },
                Format::JumpReg => if parts.len() == 2 {
                    if reg_index(parts[1]) is None {
                        Err(AsmErrorKind::InvalidRegister)
                    } else {
                        Ok(isa::enc_jump_reg(op, reg_index(parts[1])->Some_0, false))
                    }
                } else if parts.len() == 3 {
                    if !is_rel_flag(parts[1]) {
                        Err(AsmErrorKind::ExpectedRegisterOrRelFlag)
                    } else if reg_index(parts[2]) is None {
                        Err(AsmErrorKind::InvalidRegister)
                    } else {
                        Ok(isa::enc_jump_reg(op, reg_index(parts[2])->Some_0, true))
                    }
                } else {
                    Err(AsmErrorKind::InvalidOperandCount)
                },
                Format::JumpRegCond => if parts.len() == 3 {
                    if reg_index(parts[1]) is None {
                        Err(AsmErrorKind::InvalidRegister)
                    } else if reg_index(parts[2]) is None {
                        Err(AsmErrorKind::InvalidRegister)
                    } else {
                        Ok(
                            isa::enc_jump_reg_cond(
                                op,
                                reg_index(parts[1])->Some_0,
                                reg_index(parts[2])->Some_0,
                                false,
                            ),
                        )
                    }
                } else if parts.len() == 4 {
                    if !is_rel_flag(parts[1]) {
                        Err(AsmErrorKind::ExpectedRegisterOrRelFlag)
                    } else if reg_index(parts[2]) is None {
                        Err(AsmErrorKind::InvalidRegister)
                    } else if reg_index(parts[3]) is None {
                        Err(AsmErrorKind::InvalidRegister)
                    } else {
                        Ok(
                            isa::enc_jump_reg_cond(
                                op,
                                reg_index(parts[2])->Some_0,
                                reg_index(parts[3])->Some_0,
                                true,
                            ),
                        )
                    }
                } else {
                    Err(AsmErrorKind::InvalidOperandCount)
                },
                Format::JumpImm => if parts.len() == 2 {
                    match jump_target_value(parts[1], labels, addr) {
                        Result::Err(k) => Err(k),
                        Result::Ok(v) => Ok(isa::enc_jump_imm(op, v, false)),
                    }
                } else if parts.len() == 3 {
                    if !is_rel_flag(parts[1]) {
                        Err(AsmErrorKind::ExpectedRegisterOrRelFlag)
                    } else {
                        match jump_target_value(parts[2], labels, addr) {
                            Result::Err(k) => Err(k),
                            Result::Ok(v) => Ok(isa::enc_jump_imm(op, v, true)),
                        }
                    }
                } else {
                    Err(AsmErrorKind::InvalidOperandCount)
                },
                Format::JumpImmCond => if parts.len() == 3 {
                    match jump_target_value(parts[1], labels, addr) {
                        Result::Err(k) => Err(k),
                        Result::Ok(v) => if reg_index(parts[2]) is None {
                            Err(AsmErrorKind::InvalidRegister)
                        } else {
                            Ok(isa::enc_jump_imm_cond(op, v, reg_index(parts[2])->Some_0, false))
                        },
                    }
                } else if parts.len() == 4 {
                    if !is_rel_flag(parts[1]) {
                        Err(AsmErrorKind::ExpectedRegisterOrRelFlag)
                    } else {
                        match jump_target_value(parts[2], labels, addr) {
                            Result::Err(k) => Err(k),
                            Result::Ok(v) => if reg_index(parts[3]) is None {
                                Err(AsmErrorKind::InvalidRegister)
                            } else {
                                Ok(isa::enc_jump_imm_cond(op, v, reg_index(parts[3])->Some_0, true))
                            },
                        }
                    }
                } else {
                    Err(AsmErrorKind::InvalidOperandCount)
                },
            },
        }
    }
}

/// Encode the instruction held in `parts` (the mnemonic token and its
/// operand tokens, labels already stripped) into its 6-byte word, or report
/// the defect with the 1-based line number `idx + 1`.
pub fn assemble_parts(
    idx: usize,
    parts: &Vec<Vec<char>>,
    labels: &LabelTable,
    current_addr: u32,
) -> (r: Result<Vec<u8>, AsmError>)
    requires
        parts@.len() >= 1,
        idx < usize::MAX,
    ensures
        (encode_parts(views(parts@), labels@, current_addr) is Ok) ==> (r is Ok) && r->Ok_0@
            == encode_parts(views(parts@), labels@, current_addr)->Ok_0,
        (encode_parts(views(parts@), labels@, current_addr) is Err) ==> r == Err::<
            Vec<u8>,
            AsmError,
        >(
            AsmError {
                line: (idx + 1) as usize,
                kind: encode_parts(views(parts@), labels@, current_addr)->Err_0,
            },
        ),
{
    proof {
        assert(views(parts@)[0] == parts@[0]@);
    }
    let looked = lookup_mnemonic(&parts[0]);
    let (op, fmt) = match looked {
        Some(p) => p,
        None => {
            return Err(AsmError { line: idx + 1, kind: AsmErrorKind::UnrecognizedInstruction });
        },
    };
    match fmt {
        Format::Fixed0 => {
            if parts.len() != 1 {
                return Err(AsmError { line: idx + 1, kind: AsmErrorKind::InvalidOperandCount });
            }
            Ok(word(op, 0, 0, 0, 0, 0))
        },
        Format::Reg3 => {
            if parts.len() != 4 {
                return Err(AsmError { line: idx + 1, kind: AsmErrorKind::InvalidOperandCount });
            }
            let d = match reg_of_token(&parts[1]) {
                Some(d) => d,
                None => {
                    return Err(AsmError { line: idx + 1, kind: AsmErrorKind::InvalidRegister });
                },
            };
            let s1 = match reg_of_token(&parts[2]) {
                Some(s) => s,
                None => {
                    return Err(AsmError { line: idx + 1, kind: AsmErrorKind::InvalidRegister });
                },
            };
            let s2 = match reg_of_token(&parts[3]) {
                Some(s) => s,
                None => {
                    return Err(AsmError { line: idx + 1, kind: AsmErrorKind::InvalidRegister });
                },
            };
            Ok(word(op, d | (s1 << 4), s2, 0, 0, 0))
        },
        Format::Reg2 => {
            if parts.len() != 3 {
                return Err(AsmError { line: idx + 1, kind: AsmErrorKind::InvalidOperandCount });
            }
            let d = match reg_of_token(&parts[1]) {
                Some(d) => d,
                None => {
                    return Err(AsmError { line: idx + 1, kind: AsmErrorKind::InvalidRegister });
                },
            };
            let s = match reg_of_token(&parts[2]) {
                Some(s) => s,
                None => {
                    return Err(AsmError { line: idx + 1, kind: AsmErrorKind::InvalidRegister });
                },
            };
            Ok(word(op, d | (s << 4), 0, 0, 0, 0))
        },
        Format::Reg1 => {
            if parts.len() != 2 {
                return Err(AsmError { line: idx + 1, kind: AsmErrorKind::InvalidOperandCount });
            }
            let d = match reg_of_token(&parts[1]) {
                Some(d) => d,
                None => {
                    return Err(AsmError { line: idx + 1, kind: AsmErrorKind::InvalidRegister });
                },
            };
            Ok(word(op, d, 0, 0, 0, 0))
        },
        Format::LoadImm => {
            if parts.len() != 3 {
                return Err(AsmError { line: idx + 1, kind: AsmErrorKind::InvalidOperandCount });
            }
            let d = match reg_of_token(&parts[1]) {
                Some(d) => d,
                None => {
                    return Err(AsmError { line: idx + 1, kind: AsmErrorKind::InvalidRegister });
                },
            };
            let imm = match signed_imm_of_token(&parts[2]) {
                Some(v) => v,
                None => {
                    return Err(AsmError { line: idx + 1, kind: AsmErrorKind::InvalidImmediate });
                },
            };
            proof {
                lemma_u32_low_bits(imm);
                lemma_u32_low_bits(imm >> 4);
                lemma_u32_low_bits(imm >> 12);
                lemma_u32_low_bits(imm >> 20);
                lemma_u32_low_bits(imm >> 28);
            }
            Ok(
                word(
                    isa::LDI,
                    d | (((imm & 0xF) as u8) << 4),
                    ((imm >> 4) & 0xFF) as u8,
                    ((imm >> 12) & 0xFF) as u8,
                    ((imm >> 20) & 0xFF) as u8,
                    ((imm >> 28) & 0xF) as u8,
                ),
            )
        },
        Format::RegImm => {
            if parts.len() != 4 {
                return Err(AsmError { line: idx + 1, kind: AsmErrorKind::InvalidOperandCount });
            }
            let d = match reg_of_token(&parts[1]) {
                Some(d) => d,
                None => {
                    return Err(AsmError { line: idx + 1, kind: AsmErrorKind::InvalidRegister });
                },
            };
            let s = match reg_of_token(&parts[2]) {
                Some(s) => s,
                None => {
                    return Err(AsmError { line: idx + 1, kind: AsmErrorKind::InvalidRegister });
                },
            };
            let imm = match signed_imm_of_token(&parts[3]) {
                Some(v) => v,
                None => {
                    return Err(AsmError { line: idx + 1, kind: AsmErrorKind::InvalidImmediate });
                },
            };
            proof {
                lemma_u32_low_bits(imm);
                lemma_u32_low_bits(imm >> 8);
                lemma_u32_low_bits(imm >> 16);
                lemma_u32_low_bits(imm >> 24);
            }
            Ok(
                word(
                    op,
                    d | (s << 4),
                    (imm & 0xFF) as u8,
                    ((imm >> 8) & 0xFF) as u8,
                    ((imm >> 16) & 0xFF) as u8,
                    ((imm >> 24) & 0xFF) as u8,
                ),
            )
        },
        Format::JumpReg => {
            if parts.len() == 2 {
                let d = match reg_of_token(&parts[1]) {
                    Some(d) => d,
                    None => {
                        return Err(AsmError { line: idx + 1, kind: AsmErrorKind::InvalidRegister });
                    },
                };
                Ok(word(op, d, 0, 0, 0, 0))
            } else if parts.len() == 3 {
                if !rel_flag(&parts[1]) {
                    return Err(
                        AsmError { line: idx + 1, kind: AsmErrorKind::ExpectedRegisterOrRelFlag },
                    );
                }
                let d = match reg_of_token(&parts[2]) {
                    Some(d) => d,
                    None => {
                        return Err(AsmError { line: idx + 1, kind: AsmErrorKind::InvalidRegister });
                    },
                };
                Ok(word(op, d | 0x10, 0, 0, 0, 0))
            } else {
                Err(AsmError { line: idx + 1, kind: AsmErrorKind::InvalidOperandCount })
            }
        },
        Format::JumpRegCond => {
            if parts.len() == 3 {
                let d = match reg_of_token(&parts[1]) {
                    Some(d) => d,
                    None => {
                        return Err(AsmError { line: idx + 1, kind: AsmErrorKind::InvalidRegister });
                    },
                };
                let c = match reg_of_token(&parts[2]) {
                    Some(c) => c,
                    None => {
                        return Err(AsmError { line: idx + 1, kind: AsmErrorKind::InvalidRegister });
                    },
                };
                Ok(word(op, d | (c << 4), 0, 0, 0, 0))
            } else if parts.len() == 4 {
                if !rel_flag(&parts[1]) {
                    return Err(
                        AsmError { line: idx + 1, kind: AsmErrorKind::ExpectedRegisterOrRelFlag },
                    );
                }
                let d = match reg_of_token(&parts[2]) {
                    Some(d) => d,
                    None => {
                        return Err(AsmError { line: idx + 1, kind: AsmErrorKind::InvalidRegister });
                    },
                };
                let c = match reg_of_token(&parts[3]) {
                    Some(c) => c,
                    None => {
                        return Err(AsmError { line: idx + 1, kind: AsmErrorKind::InvalidRegister });
                    },
                };
                Ok(word(op, d | (c << 4), 1, 0, 0, 0))
            } else {
                Err(AsmError { line: idx + 1, kind: AsmErrorKind::InvalidOperandCount })
            }
        },
        Format::JumpImm => {
            if parts.len() == 2 {
                let v = match jump_target_of(&parts[1], labels, current_addr) {
                    Ok(v) => v,
                    Err(k) => {
                        return Err(AsmError { line: idx + 1, kind: k });
                    },
                };
                proof {
                    lemma_u32_low_bits(v);
                    lemma_u32_low_bits(v >> 8);
                    lemma_u32_low_bits(v >> 16);
                    lemma_u32_low_bits(v >> 24);
                }
                Ok(
                    word(
                        op,
                        (v & 0xFF) as u8,
                        ((v >> 8) & 0xFF) as u8,
                        ((v >> 16) & 0xFF) as u8,
                        ((v >> 24) & 0xFF) as u8,
                        0,
                    ),
                )
            } else if parts.len() == 3 {
                if !rel_flag(&parts[1]) {
                    return Err(
                        AsmError { line: idx + 1, kind: AsmErrorKind::ExpectedRegisterOrRelFlag },
                    );
                }
                let v = match jump_target_of(&parts[2], labels, current_addr) {
                    Ok(v) => v,
                    Err(k) => {
                        return Err(AsmError { line: idx + 1, kind: k });
                    },
                };
                proof {
                    lemma_u32_low_bits(v);
                    lemma_u32_low_bits(v >> 8);
                    lemma_u32_low_bits(v >> 16);
                    lemma_u32_low_bits(v >> 24);
                }
                Ok(
                    word(
                        op,
                        (v & 0xFF) as u8,
                        ((v >> 8) & 0xFF) as u8,
                        ((v >> 16) & 0xFF) as u8,
                        ((v >> 24) & 0xFF) as u8,
                        1,
                    ),
                )
            } else {
                Err(AsmError { line: idx + 1, kind: AsmErrorKind::InvalidOperandCount })
            }
        },
        Format::JumpImmCond => {
            if parts.len() == 3 {
                let v = match jump_target_of(&parts[1], labels, current_addr) {
                    Ok(v) => v,
                    Err(k) => {
                        return Err(AsmError { line: idx + 1, kind: k });
                    },
                };
                let c = match reg_of_token(&parts[2]) {
                    Some(c) => c,
                    None => {
                        return Err(AsmError { line: idx + 1, kind: AsmErrorKind::InvalidRegister });
                    },
                };
                proof {
                    lemma_u32_low_bits(v);
                    lemma_u32_low_bits(v >> 8);
                    lemma_u32_low_bits(v >> 16);
                    lemma_u32_low_bits(v >> 24);
                }
                Ok(
                    word(
                        op,
                        (v & 0xFF) as u8,
                        ((v >> 8) & 0xFF) as u8,
                        ((v >> 16) & 0xFF) as u8,
                        ((v >> 24) & 0xFF) as u8,
                        c,
                    ),
                )
            } else if parts.len() == 4 {
                if !rel_flag(&parts[1]) {
                    return Err(
                        AsmError { line: idx + 1, kind: AsmErrorKind::ExpectedRegisterOrRelFlag },
                    );
                }
                let v = match jump_target_of(&parts[2], labels, current_addr) {
                    Ok(v) => v,
                    Err(k) => {
                        return Err(AsmError { line: idx + 1, kind: k });
                    },
                };
                let c = match reg_of_token(&parts[3]) {
                    Some(c) => c,
                    None => {
                        return Err(AsmError { line: idx + 1, kind: AsmErrorKind::InvalidRegister });
                    },
                };
                proof {
                    lemma_u32_low_bits(v);
                    lemma_u32_low_bits(v >> 8);
                    lemma_u32_low_bits(v >> 16);
                    lemma_u32_low_bits(v >> 24);
                }
                Ok(
                    word(
                        op,
                        (v & 0xFF) as u8,
                        ((v >> 8) & 0xFF) as u8,
                        ((v >> 16) & 0xFF) as u8,
                        ((v >> 24) & 0xFF) as u8,
                        c | 0x10,
                    ),
                )
            } else {
                Err(AsmError { line: idx + 1, kind: AsmErrorKind::InvalidOperandCount })
            }
        },
    }
}


// ---------------------------------------------------------------------------
// The two passes.
// ---------------------------------------------------------------------------

/// A token that binds a label: it ends in the separator `:`.
pub open spec fn is_label_tok(t: Seq<char>) -> bool {
    t.len() > 0 && t[t.len() - 1] == ':'
}

/// The name a label token binds: the token without its separator.
pub open spec fn label_name(t: Seq<char>) -> Seq<char> {
    t.take(t.len() - 1)
}

/// How many label tokens stand at the head of the line's tokens.
pub open spec fn leading_labels(toks: Seq<Seq<char>>) -> int
    decreases toks.len(),
{
    if toks.len() == 0 || !is_label_tok(toks[0]) {
        0
    } else {
        1 + leading_labels(toks.drop_first())
    }
}

/// There are never more leading labels than tokens.
pub proof fn lemma_leading_labels_bounds(toks: Seq<Seq<char>>)
    ensures
        0 <= leading_labels(toks) <= toks.len(),
    decreases toks.len(),
{
    if toks.len() > 0 && is_label_tok(toks[0]) {
        lemma_leading_labels_bounds(toks.drop_first());
    }
}

/// Whether an instruction remains on the line once its labels are stripped.
/// Only such lines advance the address counter, by exactly six bytes.
pub open spec fn line_has_instr(line: Seq<char>) -> bool {
    leading_labels(line_tokens(line)) < line_tokens(line).len()
}

/// The address of the instruction that line `i` would emit: six bytes for
/// every earlier instruction-bearing line.  Blank, comment-only and
/// label-only lines emit nothing and do not advance the counter.
pub open spec fn addr_at(lines: Seq<Seq<char>>, i: int) -> u32
    decreases i,
{
    if i <= 0 {
        0
    } else {
        wrap_add(
            addr_at(lines, i - 1),
            if line_has_instr(lines[i - 1]) {
                6
            } else {
                0
            },
        )
    }
}

/// The first `n` label bindings of a line, each bound to `addr`.
pub open spec fn bind_labels(
    m: Map<Seq<char>, u32>,
    toks: Seq<Seq<char>>,
    n: int,
    addr: u32,
) -> Map<Seq<char>, u32>
    decreases n,
{
    if n <= 0 {
        m
    } else {
        bind_labels(m, toks, n - 1, addr).insert(label_name(toks[n - 1]), addr)
    }
}

/// The label table after the first pass has walked lines `0 .. i`: every
/// leading label token of a line binds its name to the address the next
/// instruction will occupy, later definitions overriding earlier ones.
pub open spec fn labels_upto(lines: Seq<Seq<char>>, i: int) -> Map<Seq<char>, u32>
    decreases i,
{
    if i <= 0 {
        Map::empty()
    } else {
        bind_labels(
            labels_upto(lines, i - 1),
            line_tokens(lines[i - 1]),
            leading_labels(line_tokens(lines[i - 1])),
            addr_at(lines, i - 1),
        )
    }
}

/// The full label table of the source: what the first pass builds.
pub open spec fn label_table(lines: Seq<Seq<char>>) -> Map<Seq<char>, u32> {
    labels_upto(lines, lines.len() as int)
}

/// The output of the second pass over lines `0 .. i`: the concatenated
/// 6-byte words of the instruction-bearing lines, or the first error, with
/// its 1-based line number.
pub open spec fn out_upto(
    lines: Seq<Seq<char>>,
    i: int,
    labels: Map<Seq<char>, u32>,
) -> Result<Seq<u8>, AsmError>
    decreases i,
{
    if i <= 0 {
        Ok(Seq::empty())
    } else {
        match out_upto(lines, i - 1, labels) {
            Result::Err(e) => Err(e),
            Result::Ok(pre) => {
                let toks = line_tokens(lines[i - 1]);
                let nl = leading_labels(toks);
                if nl >= toks.len() {
                    Ok(pre)
                } else {
                    match encode_parts(toks.skip(nl), labels, addr_at(lines, i - 1)) {
                        Result::Ok(b) => Ok(pre + b),
                        Result::Err(k) => Err(AsmError { line: i as usize, kind: k }),
                    }
                }
            },
        }
    }
}

/// An error found at line `i` stops the whole assembly with that error.
pub proof fn lemma_out_upto_sticky(
    lines: Seq<Seq<char>>,
    i: int,
    j: int,
    labels: Map<Seq<char>, u32>,
)
    requires
        0 <= i <= j,
        out_upto(lines, i, labels) is Err,
    ensures
        out_upto(lines, j, labels) == out_upto(lines, i, labels),
    decreases j,
{
    if j > i {
        lemma_out_upto_sticky(lines, i, j - 1, labels);
    }
}

/// What [`assemble`] returns: the binary stream that the two passes produce
/// from the source text, or the first error of the second pass.
pub open spec fn assemble_spec(src: Seq<char>) -> Result<Seq<u8>, AsmError> {
    out_upto(
        source_lines(src),
        source_lines(src).len() as int,
        label_table(source_lines(src)),
    )
}

/// A copy of a token.
fn copy_token(t: &Vec<char>) -> (r: Vec<char>)
    ensures
        r@ == t@,
{
    let n = t.len();
    let mut r: Vec<char> = Vec::new();
    let mut i: usize = 0;
    while i < n
        invariant
            i <= n,
            n == t@.len(),
            r@ == t@.take(i as int),
        decreases n - i,
    {
        r.push(t[i]);
        proof {
            assert(r@ =~= t@.take(i + 1));
        }
        i = i + 1;
    }
    proof {
        assert(t@.take(n as int) =~= t@);
    }
    r
}

/// Whether the token binds a label.
fn is_label_token(t: &Vec<char>) -> (r: bool)
    ensures
        r == is_label_tok(t@),
{
    t.len() > 0 && t[t.len() - 1] == ':'
}

/// Count the label tokens at the head of the line's tokens.
fn count_labels(toks: &Vec<Vec<char>>) -> (k: usize)
    ensures
        k == leading_labels(views(toks@)),
{
    let ghost tv = views(toks@);
    proof {
        lemma_leading_labels_bounds(tv);
        assert(tv.skip(0) =~= tv);
    }
    let n = toks.len();
    let mut k: usize = 0;
    while k < n && is_label_token(&toks[k])
        invariant
            k <= n,
            n == toks@.len(),
            tv == views(toks@),
            leading_labels(tv) == k + leading_labels(tv.skip(k as int)),
        decreases n - k,
    {
        proof {
            assert(views(toks@)[k as int] == toks@[k as int]@);
            assert(tv.skip(k as int)[0] == tv[k as int]);
            assert(is_label_tok(tv.skip(k as int)[0]));
            assert(tv.skip(k as int).drop_first() =~= tv.skip(k + 1));
            assert(leading_labels(tv.skip(k as int)) == 1 + leading_labels(
                tv.skip(k as int).drop_first(),
            ));
        }
        k = k + 1;
    }
    proof {
        if k < n {
            assert(views(toks@)[k as int] == toks@[k as int]@);
            assert(tv.skip(k as int)[0] == tv[k as int]);
            assert(leading_labels(tv.skip(k as int)) == 0);
        } else {
            assert(tv.skip(k as int) =~= Seq::<Seq<char>>::empty());
        }
    }
    k
}

/// Assemble the source text into its binary instruction stream: one 6-byte
/// word per instruction in source order, with every label reference
/// resolved.  On a defect, the error names the 1-based offending line; the
/// second pass stops at the first error found, and nothing is returned of
/// the lines before it.  The result is exactly [`assemble_spec`] of the
/// source.
pub fn assemble(source: &str) -> (r: Result<Vec<u8>, AsmError>)
    ensures
        (assemble_spec(source@) is Ok) ==> (r is Ok) && r->Ok_0@ == assemble_spec(source@)->Ok_0,
        (assemble_spec(source@) is Err) ==> r == Err::<Vec<u8>, AsmError>(
            assemble_spec(source@)->Err_0,
        ),
{
    let chars = chars_of(source);
    let lines = split_lines(&chars);
    let ghost lns = source_lines(source@);
    let n = lines.len();

    let mut labels = LabelTable::new();
    let mut addr: u32 = 0;
    let mut i: usize = 0;
    while i < n
        invariant
            i <= n,
            n == lns.len(),
            views(lines@) == lns,
            lines@.len() == n,
            labels@ == labels_upto(lns, i as int),
            addr == addr_at(lns, i as int),
        decreases n - i,
    {
        let toks = tokenize(&lines[i]);
        let ghost tv = line_tokens(lns[i as int]);
        proof {
            assert(views(lines@)[i as int] == lines@[i as int]@);
            assert(views(toks@) == tv);
            lemma_leading_labels_bounds(tv);
        }
        let nl = count_labels(&toks);
        let mut k: usize = 0;
        while k < nl
            invariant
                k <= nl,
                nl == leading_labels(tv),
                nl <= toks@.len(),
                views(toks@) == tv,
                addr == addr_at(lns, i as int),
                labels@ == bind_labels(labels_upto(lns, i as int), tv, k as int, addr),
            decreases nl - k,
        {
            let t = &toks[k];
            proof {
                assert(tv[k as int] == toks@[k as int]@);
                lemma_is_label_at(tv, k as int);
            }
            let mut name = copy_token(t);
            name.truncate(t.len() - 1);
            proof {
                assert(name@ =~= label_name(tv[k as int]));
            }
            labels.insert(name, addr);
            k = k + 1;
        }
        if nl < toks.len() {
            addr = addr.wrapping_add(6);
        }
        proof {
            assert(labels@ == labels_upto(lns, i + 1));
            assert(addr == addr_at(lns, i + 1));
        }
        i = i + 1;
    }
    proof {
        assert(labels@ == label_table(lns));
    }

    let mut out: Vec<u8> = Vec::new();
    let mut addr2: u32 = 0;
    let mut j: usize = 0;
    while j < n
        invariant
            j <= n,
            n == lns.len(),
            lns == source_lines(source@),
            views(lines@) == lns,
            lines@.len() == n,
            labels@ == label_table(lns),
            addr2 == addr_at(lns, j as int),
            out_upto(lns, j as int, labels@) == Ok::<Seq<u8>, AsmError>(out@),
        decreases n - j,
    {
        let toks = tokenize(&lines[j]);
        let ghost tv = line_tokens(lns[j as int]);
        proof {
            assert(views(lines@)[j as int] == lines@[j as int]@);
            assert(views(toks@) == tv);
        }
        let nl = count_labels(&toks);
        if nl < toks.len() {
            let mut parts: Vec<Vec<char>> = Vec::new();
            let mut k: usize = nl;
            while k < toks.len()
                invariant
                    nl <= k <= toks@.len(),
                    views(toks@) == tv,
                    parts@.len() == k - nl,
                    views(parts@) == tv.subrange(nl as int, k as int),
                decreases toks@.len() - k,
            {
                let t = copy_token(&toks[k]);
                parts.push(t);
                proof {
                    assert(views(toks@)[k as int] == toks@[k as int]@);
                    assert(parts@.len() == k + 1 - nl);
                    assert(parts@[k - nl]@ == tv[k as int]);
                    assert(views(parts@) =~= tv.subrange(nl as int, k + 1));
                }
                k = k + 1;
            }
            proof {
                assert(views(parts@) =~= tv.skip(nl as int));
            }
            match assemble_parts(j, &parts, &labels, addr2) {
                Ok(mut w) => {
                    let ghost old_out = out@;
                    out.append(&mut w);
                    addr2 = addr2.wrapping_add(6);
                    proof {
                        assert(out_upto(lns, j + 1, labels@) == Ok::<Seq<u8>, AsmError>(out@));
                        assert(addr2 == addr_at(lns, j + 1));
                    }
                },
                Err(e) => {
                    proof {
                        assert(out_upto(lns, j + 1, labels@) == Err::<Seq<u8>, AsmError>(e));
                        lemma_out_upto_sticky(lns, j + 1, n as int, labels@);
                        assert(out_upto(lns, n as int, labels@) == Err::<Seq<u8>, AsmError>(e));
                        assert(lns == source_lines(source@));
                        assert(n as int == lns.len() as int);
                        assert(assemble_spec(source@) == out_upto(lns, n as int, labels@));
                    }
                    return Err(e);
                },
            }
        } else {
            proof {
                assert(out_upto(lns, j + 1, labels@) == Ok::<Seq<u8>, AsmError>(out@));
                assert(addr2 == addr_at(lns, j + 1));
            }
        }
        j = j + 1;
    }
    Ok(out)
}

/// Within the leading labels of a line, each token is a label token.
proof fn lemma_is_label_at(toks: Seq<Seq<char>>, k: int)
    requires
        0 <= k < leading_labels(toks),
    ensures
        k < toks.len() && is_label_tok(toks[k]),
    decreases toks.len(),
{
    lemma_leading_labels_bounds(toks);
    if k > 0 {
        lemma_is_label_at(toks.drop_first(), k - 1);
    }
}


// ---------------------------------------------------------------------------
// Laws.
// ---------------------------------------------------------------------------

/// The operand counts each format accepts, the mnemonic token included.
pub open spec fn arity_ok(fmt: Format, n: int) -> bool {
    match fmt {
        Format::Fixed0 => n == 1,
        Format::Reg3 => n == 4,
        Format::Reg2 => n == 3,
        Format::Reg1 => n == 2,
        Format::LoadImm => n == 3,
        Format::RegImm => n == 4,
        Format::JumpReg => n == 2 || n == 3,
        Format::JumpRegCond => n == 3 || n == 4,
        Format::JumpImm => n == 2 || n == 3,
        Format::JumpImmCond => n == 3 || n == 4,
    }
}

/// A known mnemonic given the wrong number of operands fails with exactly
/// the invalid-operand-count defect, whatever the operands hold.
pub proof fn lemma_wrong_operand_count(
    parts: Seq<Seq<char>>,
    labels: Map<Seq<char>, u32>,
    addr: u32,
)
    requires
        parts.len() >= 1,
        mnemonic_spec(parts[0]) is Some,
        !arity_ok(mnemonic_spec(parts[0])->Some_0.1, parts.len() as int),
    ensures
        encode_parts(parts, labels, addr) == Err::<Seq<u8>, AsmErrorKind>(
            AsmErrorKind::InvalidOperandCount,
        ),
{
}

/// The first defective line stops the assembly, and the error reports
/// exactly that line's 1-based number.
pub proof fn lemma_first_error_line(
    lines: Seq<Seq<char>>,
    k: int,
    labels: Map<Seq<char>, u32>,
    kind: AsmErrorKind,
)
    requires
        0 <= k < lines.len(),
        out_upto(lines, k, labels) is Ok,
        leading_labels(line_tokens(lines[k])) < line_tokens(lines[k]).len(),
        encode_parts(
            line_tokens(lines[k]).skip(leading_labels(line_tokens(lines[k]))),
            labels,
            addr_at(lines, k),
        ) == Err::<Seq<u8>, AsmErrorKind>(kind),
    ensures
        out_upto(lines, lines.len() as int, labels) == Err::<Seq<u8>, AsmError>(
            AsmError { line: (k + 1) as usize, kind },
        ),
{
    lemma_out_upto_sticky(lines, k + 1, lines.len() as int, labels);
}

} // verus!
