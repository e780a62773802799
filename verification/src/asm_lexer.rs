//! The lexer: assembly source bytes to tokens.
//!
//! Tokens are delimiter-separated words classified as directives,
//! mnemonics, registers, `BR` variants, numbers or labels; plus comma
//! separators, quoted strings, comments and whitespace.  Keywords are
//! case-insensitive; labels and hex digits keep their case.  A byte run
//! that fits no class becomes an error token, which the parser rejects
//! if it ever reaches it.

use vstd::prelude::*;

use vstd::slice::{slice_subrange, slice_to_vec};

use crate::asm_parser::Nzp;

verus! {

/// One token of assembly source.
#[derive(Debug, Clone, PartialEq, Eq)]
pub enum Token {
    Orig,
    Fill,
    Blkw,
    Stringz,
    End,
    Add,
    And,
    Br(Nzp),
    Jmp,
    Jsr,
    Jsrr,
    Ld,
    Ldi,
    Ldr,
    Lea,
    Not,
    Ret,
    Rti,
    St,
    Sti,
    Str,
    Trap,
    Getc,
    Halt,
    In,
    Out,
    Puts,
    Putsp,
    /// A numeric literal, decimal or hex, sign included.
    Number(i64),
    /// A label: a letter or underscore followed by word characters.
    Label(Vec<u8>),
    /// The raw bytes between the quotes of a string literal, escape
    /// sequences not yet processed.
    StrLit(Vec<u8>),
    /// `R0` through `R7`.
    Register(u16),
    /// A comma.
    Sep,
    /// An unclassifiable word or an unterminated string.
    Bad,
}

/// The view of a [`Token`].
pub enum TokenV {
    Orig,
    Fill,
    Blkw,
    Stringz,
    End,
    Add,
    And,
    Br(Nzp),
    Jmp,
    Jsr,
    Jsrr,
    Ld,
    Ldi,
    Ldr,
    Lea,
    Not,
    Ret,
    Rti,
    St,
    Sti,
    Str,
    Trap,
    Getc,
    Halt,
    In,
    Out,
    Puts,
    Putsp,
    Number(i64),
    Label(Seq<u8>),
    StrLit(Seq<u8>),
    Register(u16),
    Sep,
    Bad,
}

impl View for Token {
    type V = TokenV;

    open spec fn view(&self) -> TokenV {
        match self {
            Token::Orig => TokenV::Orig,
            Token::Fill => TokenV::Fill,
            Token::Blkw => TokenV::Blkw,
            Token::Stringz => TokenV::Stringz,
            Token::End => TokenV::End,
            Token::Add => TokenV::Add,
            Token::And => TokenV::And,
            Token::Br(nzp) => TokenV::Br(*nzp),
            Token::Jmp => TokenV::Jmp,
            Token::Jsr => TokenV::Jsr,
            Token::Jsrr => TokenV::Jsrr,
            Token::Ld => TokenV::Ld,
            Token::Ldi => TokenV::Ldi,
            Token::Ldr => TokenV::Ldr,
            Token::Lea => TokenV::Lea,
            Token::Not => TokenV::Not,
            Token::Ret => TokenV::Ret,
            Token::Rti => TokenV::Rti,
            Token::St => TokenV::St,
            Token::Sti => TokenV::Sti,
            Token::Str => TokenV::Str,
            Token::Trap => TokenV::Trap,
            Token::Getc => TokenV::Getc,
            Token::Halt => TokenV::Halt,
            Token::In => TokenV::In,
            Token::Out => TokenV::Out,
            Token::Puts => TokenV::Puts,
            Token::Putsp => TokenV::Putsp,
            Token::Number(n) => TokenV::Number(*n),
            Token::Label(l) => TokenV::Label(l@),
            Token::StrLit(s) => TokenV::StrLit(s@),
            Token::Register(r) => TokenV::Register(*r),
            Token::Sep => TokenV::Sep,
            Token::Bad => TokenV::Bad,
        }
    }
}

/// The view of a token sequence.
pub open spec fn view_tokens(ts: Seq<Token>) -> Seq<TokenV> {
    ts.map_values(|t: Token| t@)
}

// ------------------------------------------------------------------
// Character classes
// ------------------------------------------------------------------

/// Space, tab, carriage return or newline.
pub open spec fn is_ws(c: u8) -> bool {
    c == 32 || c == 9 || c == 13 || c == 10
}

/// Any byte that can stand inside a word: everything but whitespace,
/// the comma, the semicolon and the double quote.
pub open spec fn is_word_char(c: u8) -> bool {
    !is_ws(c) && c != 44 && c != 59 && c != 34
}

/// ASCII upper case folded to lower case; other bytes unchanged.
pub open spec fn to_lower(c: u8) -> u8 {
    if 65 <= c <= 90 {
        (c + 32) as u8
    } else {
        c
    }
}

/// A word folded to lower case.
pub open spec fn lower_seq(w: Seq<u8>) -> Seq<u8> {
    w.map_values(|c: u8| to_lower(c))
}

/// `0` through `9`.
pub open spec fn is_dec_digit(c: u8) -> bool {
    48 <= c <= 57
}

/// `0`-`9`, `a`-`f`, `A`-`F`.
pub open spec fn is_hex_digit(c: u8) -> bool {
    is_dec_digit(c) || (97 <= c <= 102) || (65 <= c <= 70)
}

/// The numeric value of one hex digit.
pub open spec fn hex_digit_val(c: u8) -> int {
    if is_dec_digit(c) {
        c - 48
    } else {
        to_lower(c) - 87
    }
}

/// A letter or underscore: what may start a label.
pub open spec fn is_label_start(c: u8) -> bool {
    (65 <= c <= 90) || (97 <= c <= 122) || c == 95
}

/// What may continue a label: letters, digits, underscore.
pub open spec fn is_label_char(c: u8) -> bool {
    is_label_start(c) || is_dec_digit(c)
}

// ------------------------------------------------------------------
// Numeric words
// ------------------------------------------------------------------

/// The value of a decimal digit string, most significant digit first.
pub open spec fn dec_val(d: Seq<u8>) -> int
    decreases d.len(),
{
    if d.len() == 0 {
        0
    } else {
        dec_val(d.drop_last()) * 10 + (d.last() - 48)
    }
}

/// The value of a hex digit string, most significant digit first.
pub open spec fn hex_val(d: Seq<u8>) -> int
    decreases d.len(),
{
    if d.len() == 0 {
        0
    } else {
        hex_val(d.drop_last()) * 16 + hex_digit_val(d.last())
    }
}

/// Every byte is a decimal digit.
pub open spec fn all_dec(d: Seq<u8>) -> bool {
    forall|k: int| 0 <= k < d.len() ==> is_dec_digit(#[trigger] d[k])
}

/// Every byte is a hex digit.
pub open spec fn all_hex(d: Seq<u8>) -> bool {
    forall|k: int| 0 <= k < d.len() ==> is_hex_digit(#[trigger] d[k])
}

/// A decimal numeral: an optional `#`, an optional `-`, then digits.
pub open spec fn is_dec_word(w: Seq<u8>) -> bool {
    let b = if w.len() > 0 && w[0] == 35 {
        w.drop_first()
    } else {
        w
    };
    let d = if b.len() > 0 && b[0] == 45 {
        b.drop_first()
    } else {
        b
    };
    d.len() >= 1 && all_dec(d)
}

/// The signed value of a decimal numeral.
pub open spec fn dec_word_val(w: Seq<u8>) -> int {
    let b = if w.len() > 0 && w[0] == 35 {
        w.drop_first()
    } else {
        w
    };
    if b.len() > 0 && b[0] == 45 {
        -dec_val(b.drop_first())
    } else {
        dec_val(b)
    }
}

/// A hex numeral: an optional `0`, a lowercase `x`, an optional `-`
/// (the sign follows the `x`), then hex digits.
pub open spec fn is_hex_word(w: Seq<u8>) -> bool {
    let b = if w.len() > 0 && w[0] == 48 {
        w.drop_first()
    } else {
        w
    };
    let c = if b.len() > 0 && b[0] == 120 {
        b.drop_first()
    } else {
        b
    };
    let d = if c.len() > 0 && c[0] == 45 {
        c.drop_first()
    } else {
        c
    };
    b.len() > 0 && b[0] == 120 && d.len() >= 1 && all_hex(d)
}

/// The signed value of a hex numeral.
pub open spec fn hex_word_val(w: Seq<u8>) -> int {
    let b = if w.len() > 0 && w[0] == 48 {
        w.drop_first()
    } else {
        w
    };
    let c = b.drop_first();
    if c.len() > 0 && c[0] == 45 {
        -hex_val(c.drop_first())
    } else {
        hex_val(c)
    }
}

/// A numeric value becomes a token when it fits a signed 64-bit
/// integer; a numeral too wide even for that is an error token.
pub open spec fn num_token(v: int) -> TokenV {
    if -0x8000000000000000 <= v <= 0x7FFFFFFFFFFFFFFF {
        TokenV::Number(v as i64)
    } else {
        TokenV::Bad
    }
}

// ------------------------------------------------------------------
// Word classification
// ------------------------------------------------------------------

/// The condition mask of a `BR` mnemonic: the lowered bytes after `br`
/// must be a subsequence, in order, of `n`, `z`, `p`.
pub open spec fn br_flags(t: Seq<u8>) -> Option<Nzp> {
    if t.len() == 0 {
        Some(Nzp { n: false, z: false, p: false })
    } else if t.len() == 1 {
        if t[0] == 110 {
            Some(Nzp { n: true, z: false, p: false })
        } else if t[0] == 122 {
            Some(Nzp { n: false, z: true, p: false })
        } else if t[0] == 112 {
            Some(Nzp { n: false, z: false, p: true })
        } else {
            None
        }
    } else if t.len() == 2 {
        if t[0] == 110 && t[1] == 122 {
            Some(Nzp { n: true, z: true, p: false })
        } else if t[0] == 110 && t[1] == 112 {
            Some(Nzp { n: true, z: false, p: true })
        } else if t[0] == 122 && t[1] == 112 {
            Some(Nzp { n: false, z: true, p: true })
        } else {
            None
        }
    } else if t.len() == 3 {
        if t[0] == 110 && t[1] == 122 && t[2] == 112 {
            Some(Nzp { n: true, z: true, p: true })
        } else {
            None
        }
    } else {
        None
    }
}

/// Whether `w` is a well-formed label.
pub open spec fn is_label_word(w: Seq<u8>) -> bool {
    w.len() >= 1 && is_label_start(w[0]) && (forall|k: int|
        0 <= k < w.len() ==> is_label_char(#[trigger] w[k]))
}

/// What one delimiter-separated word means.  Keywords (compared in
/// lower case) take precedence over registers, `BR` variants, numbers
/// and labels, in that order.
pub open spec fn classify(w: Seq<u8>) -> TokenV {
    let l = lower_seq(w);
    if l == seq![46u8, 111u8, 114u8, 105u8, 103u8] {
        TokenV::Orig
    } else if l == seq![46u8, 102u8, 105u8, 108u8, 108u8] {
        TokenV::Fill
    } else if l == seq![46u8, 98u8, 108u8, 107u8, 119u8] {
        TokenV::Blkw
    } else if l == seq![46u8, 115u8, 116u8, 114u8, 105u8, 110u8, 103u8, 122u8] {
        TokenV::Stringz
    } else if l == seq![46u8, 101u8, 110u8, 100u8] {
        TokenV::End
    } else if l == seq![97u8, 100u8, 100u8] {
        TokenV::Add
    } else if l == seq![97u8, 110u8, 100u8] {
        TokenV::And
    } else if l == seq![106u8, 109u8, 112u8] {
        TokenV::Jmp
    } else if l == seq![106u8, 115u8, 114u8, 114u8] {
        TokenV::Jsrr
    } else if l == seq![106u8, 115u8, 114u8] {
        TokenV::Jsr
    } else if l == seq![108u8, 100u8, 105u8] {
        TokenV::Ldi
    } else if l == seq![108u8, 100u8, 114u8] {
        TokenV::Ldr
    } else if l == seq![108u8, 100u8] {
        TokenV::Ld
    } else if l == seq![108u8, 101u8, 97u8] {
        TokenV::Lea
    } else if l == seq![110u8, 111u8, 116u8] {
        TokenV::Not
    } else if l == seq![114u8, 101u8, 116u8] {
        TokenV::Ret
    } else if l == seq![114u8, 116u8, 105u8] {
        TokenV::Rti
    } else if l == seq![115u8, 116u8, 105u8] {
        TokenV::Sti
    } else if l == seq![115u8, 116u8, 114u8] {
        TokenV::Str
    } else if l == seq![115u8, 116u8] {
        TokenV::St
    } else if l == seq![116u8, 114u8, 97u8, 112u8] {
        TokenV::Trap
    } else if l == seq![103u8, 101u8, 116u8, 99u8] {
        TokenV::Getc
    } else if l == seq![104u8, 97u8, 108u8, 116u8] {
        TokenV::Halt
    } else if l == seq![105u8, 110u8] {
        TokenV::In
    } else if l == seq![111u8, 117u8, 116u8] {
        TokenV::Out
    } else if l == seq![112u8, 117u8, 116u8, 115u8, 112u8] {
        TokenV::Putsp
    } else if l == seq![112u8, 117u8, 116u8, 115u8] {
        TokenV::Puts
    } else if w.len() == 2 && (w[0] == 114 || w[0] == 82) && 48 <= w[1] <= 55 {
        TokenV::Register((w[1] - 48) as u16)
    } else if l.len() >= 2 && l[0] == 98 && l[1] == 114 && br_flags(l.skip(2)) is Some {
        TokenV::Br(br_flags(l.skip(2)).unwrap())
    } else if is_hex_word(w) {
        num_token(hex_word_val(w))
    } else if is_dec_word(w) {
        num_token(dec_word_val(w))
    } else if is_label_word(w) {
        TokenV::Label(w)
    } else {
        TokenV::Bad
    }
}

// ------------------------------------------------------------------
// The token stream
// ------------------------------------------------------------------

/// The first index at or after `i` that ends the word starting there.
pub open spec fn word_end(s: Seq<u8>, i: nat) -> nat
    decreases s.len() - i,
{
    if i >= s.len() || !is_word_char(s[i as int]) {
        i
    } else {
        word_end(s, i + 1)
    }
}

/// The first index at or after `i` past the end of a comment: the
/// position of the next newline, or the end of input.
pub open spec fn comment_end(s: Seq<u8>, i: nat) -> nat
    decreases s.len() - i,
{
    if i >= s.len() || s[i as int] == 10 {
        i
    } else {
        comment_end(s, i + 1)
    }
}

/// Bounds of [`word_end`]: it never runs past the input, never moves
/// backwards, and consumes at least the word character it starts on.
pub proof fn lemma_word_end(s: Seq<u8>, i: nat)
    requires
        i <= s.len(),
    ensures
        i <= word_end(s, i) <= s.len(),
        i < s.len() && is_word_char(s[i as int]) ==> i < word_end(s, i),
    decreases s.len() - i,
{
    if i < s.len() && is_word_char(s[i as int]) {
        lemma_word_end(s, i + 1);
    }
}

/// Bounds of [`comment_end`].
pub proof fn lemma_comment_end(s: Seq<u8>, i: nat)
    requires
        i <= s.len(),
    ensures
        i <= comment_end(s, i) <= s.len(),
    decreases s.len() - i,
{
    if i < s.len() && s[i as int] != 10 {
        lemma_comment_end(s, i + 1);
    }
}

/// The tokens of the source from position `i` on.  Whitespace and
/// comments vanish; a comma is a separator token; a quoted string
/// becomes a string token (or an error token that ends the stream when
/// unterminated); every other byte run is a word, classified whole.
pub open spec fn spec_lex(s: Seq<u8>, i: nat) -> Seq<TokenV>
    decreases s.len() - i, 0nat
        when i <= s.len()
        via spec_lex_decreases
{
    if i >= s.len() {
        Seq::empty()
    } else if is_ws(s[i as int]) {
        spec_lex(s, i + 1)
    } else if s[i as int] == 59 {
        spec_lex(s, comment_end(s, i + 1))
    } else if s[i as int] == 44 {
        seq![TokenV::Sep] + spec_lex(s, i + 1)
    } else if s[i as int] == 34 {
        spec_lex_str(s, i + 1, i + 1)
    } else {
        seq![classify(s.subrange(i as int, word_end(s, i) as int))] + spec_lex(s, word_end(s, i))
    }
}

/// Scanning a string literal: the body began at `start`, and `j` is the
/// next byte to look at.  A backslash escapes the following byte; a
/// newline or the end of input before the closing quote is an error
/// that ends the token stream.
pub open spec fn spec_lex_str(s: Seq<u8>, start: nat, j: nat) -> Seq<TokenV>
    decreases s.len() - j, 1nat
        when start <= j <= s.len()
        via spec_lex_str_decreases
{
    if j >= s.len() || s[j as int] == 10 {
        seq![TokenV::Bad]
    } else if s[j as int] == 34 {
        seq![TokenV::StrLit(s.subrange(start as int, j as int))] + spec_lex(s, j + 1)
    } else if s[j as int] == 92 {
        if j + 1 < s.len() && s[j + 1 as int] != 10 {
            spec_lex_str(s, start, j + 2)
        } else {
            seq![TokenV::Bad]
        }
    } else {
        spec_lex_str(s, start, j + 1)
    }
}

#[via_fn]
proof fn spec_lex_decreases(s: Seq<u8>, i: nat) {
    if i < s.len() {
        if s[i as int] == 59 {
            lemma_comment_end(s, i + 1);
        } else if !is_ws(s[i as int]) && s[i as int] != 44 && s[i as int] != 34 {
            lemma_word_end(s, i);
        }
    }
}

#[via_fn]
proof fn spec_lex_str_decreases(s: Seq<u8>, start: nat, j: nat) {
}

/// The index of the closing quote of a string body starting at `j`,
/// honouring backslash escapes; nothing when the line or input ends
/// first.
pub open spec fn str_close(s: Seq<u8>, j: nat) -> Option<nat>
    decreases s.len() - j,
{
    if j >= s.len() || s[j as int] == 10 {
        None
    } else if s[j as int] == 34 {
        Some(j)
    } else if s[j as int] == 92 {
        if j + 1 < s.len() && s[j + 1 as int] != 10 {
            str_close(s, j + 2)
        } else {
            None
        }
    } else {
        str_close(s, j + 1)
    }
}

/// Whether a byte may stand inside a word.
fn is_word_byte(d: u8) -> (r: bool)
    ensures
        r == is_word_char(d),
{
    !(d == 32 || d == 9 || d == 13 || d == 10 || d == 44 || d == 59 || d == 34)
}

// ------------------------------------------------------------------
// Executable lexer
// ------------------------------------------------------------------

/// Folds one ASCII byte to lower case.
fn lower_byte(c: u8) -> (r: u8)
    ensures
        r == to_lower(c),
{
    if 65 <= c && c <= 90 {
        c + 32
    } else {
        c
    }
}

/// Whether the lowered word equals the given two bytes.
fn kw2(w: &[u8], a: u8, b: u8) -> (r: bool)
    ensures
        r == (lower_seq(w@) == seq![a, b]),
{
    proof {
        assert(lower_seq(w@).len() == w@.len());
    }
    if w.len() != 2 {
        return false;
    }
    proof {
        assert(lower_seq(w@)[0] == to_lower(w@[0]));
        assert(lower_seq(w@)[1] == to_lower(w@[1]));
    }
    let r = lower_byte(w[0]) == a && lower_byte(w[1]) == b;
    proof {
        if r {
            assert(lower_seq(w@) =~= seq![a, b]);
        }
    }
    r
}

/// Whether the lowered word equals the given three bytes.
fn kw3(w: &[u8], a: u8, b: u8, c: u8) -> (r: bool)
    ensures
        r == (lower_seq(w@) == seq![a, b, c]),
{
    proof {
        assert(lower_seq(w@).len() == w@.len());
    }
    if w.len() != 3 {
        return false;
    }
    proof {
        assert(lower_seq(w@)[0] == to_lower(w@[0]));
        assert(lower_seq(w@)[1] == to_lower(w@[1]));
        assert(lower_seq(w@)[2] == to_lower(w@[2]));
    }
    let r = lower_byte(w[0]) == a && lower_byte(w[1]) == b && lower_byte(w[2]) == c;
    proof {
        if r {
            assert(lower_seq(w@) =~= seq![a, b, c]);
        }
    }
    r
}

/// Whether the lowered word equals the given four bytes.
fn kw4(w: &[u8], a: u8, b: u8, c: u8, d: u8) -> (r: bool)
    ensures
        r == (lower_seq(w@) == seq![a, b, c, d]),
{
    proof {
        assert(lower_seq(w@).len() == w@.len());
    }
    if w.len() != 4 {
        return false;
    }
    proof {
        assert(lower_seq(w@)[0] == to_lower(w@[0]));
        assert(lower_seq(w@)[1] == to_lower(w@[1]));
        assert(lower_seq(w@)[2] == to_lower(w@[2]));
        assert(lower_seq(w@)[3] == to_lower(w@[3]));
    }
    let r = lower_byte(w[0]) == a && lower_byte(w[1]) == b && lower_byte(w[2]) == c && lower_byte(
        w[3],
    ) == d;
    proof {
        if r {
            assert(lower_seq(w@) =~= seq![a, b, c, d]);
        }
    }
    r
}

/// Whether the lowered word equals the given five bytes.
fn kw5(w: &[u8], a: u8, b: u8, c: u8, d: u8, e: u8) -> (r: bool)
    ensures
        r == (lower_seq(w@) == seq![a, b, c, d, e]),
{
    proof {
        assert(lower_seq(w@).len() == w@.len());
    }
    if w.len() != 5 {
        return false;
    }
    proof {
        assert(lower_seq(w@)[0] == to_lower(w@[0]));
        assert(lower_seq(w@)[1] == to_lower(w@[1]));
        assert(lower_seq(w@)[2] == to_lower(w@[2]));
        assert(lower_seq(w@)[3] == to_lower(w@[3]));
        assert(lower_seq(w@)[4] == to_lower(w@[4]));
    }
    let r = lower_byte(w[0]) == a && lower_byte(w[1]) == b && lower_byte(w[2]) == c && lower_byte(
        w[3],
    ) == d && lower_byte(w[4]) == e;
    proof {
        if r {
            assert(lower_seq(w@) =~= seq![a, b, c, d, e]);
        }
    }
    r
}

/// Whether the lowered word is `.stringz`.
fn kw_stringz(w: &[u8]) -> (r: bool)
    ensures
        r == (lower_seq(w@) == seq![46u8, 115u8, 116u8, 114u8, 105u8, 110u8, 103u8, 122u8]),
{
    proof {
        assert(lower_seq(w@).len() == w@.len());
    }
    if w.len() != 8 {
        return false;
    }
    proof {
        assert forall|k: int| 0 <= k < 8 implies lower_seq(w@)[k] == to_lower(w@[k]) by {}
    }
    let r = w[0] == 46 && lower_byte(w[1]) == 115 && lower_byte(w[2]) == 116 && lower_byte(w[3])
        == 114 && lower_byte(w[4]) == 105 && lower_byte(w[5]) == 110 && lower_byte(w[6]) == 103
        && lower_byte(w[7]) == 122;
    proof {
        if r {
            assert(lower_seq(w@) =~= seq![46u8, 115u8, 116u8, 114u8, 105u8, 110u8, 103u8, 122u8]);
        }
    }
    r
}

/// Whether every byte from `from` on is a hex digit.
fn check_all_hex(w: &[u8], from: usize) -> (r: bool)
    requires
        from <= w@.len(),
    ensures
        r == all_hex(w@.skip(from as int)),
{
    let mut k: usize = from;
    while k < w.len()
        invariant
            from <= k <= w@.len(),
            forall|t: int| from <= t < k ==> is_hex_digit(#[trigger] w@[t]),
        decreases w@.len() - k,
    {
        let c = w[k];
        if !((48 <= c && c <= 57) || (97 <= c && c <= 102) || (65 <= c && c <= 70)) {
            proof {
                assert(w@.skip(from as int)[k - from] == w@[k as int]);
            }
            return false;
        }
        k += 1;
    }
    proof {
        assert forall|t: int| 0 <= t < w@.skip(from as int).len() implies is_hex_digit(
            #[trigger] w@.skip(from as int)[t],
        ) by {
            assert(w@.skip(from as int)[t] == w@[t + from]);
        }
    }
    true
}

/// Whether every byte from `from` on is a decimal digit.
fn check_all_dec(w: &[u8], from: usize) -> (r: bool)
    requires
        from <= w@.len(),
    ensures
        r == all_dec(w@.skip(from as int)),
{
    let mut k: usize = from;
    while k < w.len()
        invariant
            from <= k <= w@.len(),
            forall|t: int| from <= t < k ==> is_dec_digit(#[trigger] w@[t]),
        decreases w@.len() - k,
    {
        let c = w[k];
        if !(48 <= c && c <= 57) {
            proof {
                assert(w@.skip(from as int)[k - from] == w@[k as int]);
            }
            return false;
        }
        k += 1;
    }
    proof {
        assert forall|t: int| 0 <= t < w@.skip(from as int).len() implies is_dec_digit(
            #[trigger] w@.skip(from as int)[t],
        ) by {
            assert(w@.skip(from as int)[t] == w@[t + from]);
        }
    }
    true
}

/// The magnitude of the digit string from `from` on, in the given base,
/// or nothing when it exceeds 2^63.
fn digits_magnitude(w: &[u8], from: usize, hex: bool) -> (r: Option<u64>)
    requires
        from <= w@.len(),
        hex ==> all_hex(w@.skip(from as int)),
        !hex ==> all_dec(w@.skip(from as int)),
    ensures
        ({
            let v = if hex {
                hex_val(w@.skip(from as int))
            } else {
                dec_val(w@.skip(from as int))
            };
            match r {
                Some(m) => m as int == v && m <= 0x8000000000000000,
                None => v > 0x8000000000000000,
            }
        }),
{
    let base: u64 = if hex {
        16
    } else {
        10
    };
    let mut mag: u64 = 0;
    let mut over: bool = false;
    let mut k: usize = from;
    proof {
        assert(w@.subrange(from as int, from as int) =~= Seq::<u8>::empty());
    }
    while k < w.len()
        invariant
            from <= k <= w@.len(),
            base == if hex { 16u64 } else { 10u64 },
            hex ==> all_hex(w@.skip(from as int)),
            !hex ==> all_dec(w@.skip(from as int)),
            ({
                let v = if hex {
                    hex_val(w@.subrange(from as int, k as int))
                } else {
                    dec_val(w@.subrange(from as int, k as int))
                };
                if over {
                    v > 0x8000000000000000
                } else {
                    mag as int == v && mag <= 0x8000000000000000
                }
            }),
        decreases w@.len() - k,
    {
        let c = w[k];
        proof {
            assert(w@.skip(from as int)[k - from] == w@[k as int]);
        }
        let d: u64 = if 48 <= c && c <= 57 {
            (c - 48) as u64
        } else {
            (lower_byte(c) - 87) as u64
        };
        let ghost pre = w@.subrange(from as int, k as int);
        let ghost cur = w@.subrange(from as int, (k + 1) as int);
        proof {
            assert(cur.drop_last() =~= pre);
            assert(cur.last() == w@[k as int]);
        }
        if over {
            proof {
                if hex {
                    assert(hex_val(cur) == hex_val(pre) * 16 + hex_digit_val(w@[k as int]));
                } else {
                    assert(dec_val(cur) == dec_val(pre) * 10 + (w@[k as int] - 48));
                }
            }
        } else {
            let wide: u128 = (mag as u128) * (base as u128) + (d as u128);
            if wide > 0x8000000000000000u128 {
                over = true;
            } else {
                mag = wide as u64;
            }
        }
        k += 1;
    }
    proof {
        assert(w@.subrange(from as int, w@.len() as int) =~= w@.skip(from as int));
    }
    if over {
        None
    } else {
        Some(mag)
    }
}

/// The numeric token a word denotes, if it is a numeral at all.
fn number_token(w: &[u8]) -> (r: Option<Token>)
    ensures
        (r is Some) == (is_hex_word(w@) || is_dec_word(w@)),
        r matches Some(tok) ==> tok@ == (if is_hex_word(w@) {
            num_token(hex_word_val(w@))
        } else {
            num_token(dec_word_val(w@))
        }),
{
    let n = w.len();
    // hex: 0?x-?[hex digits]+
    let xpos: usize = if n >= 1 && w[0] == 120 {
        0
    } else if n >= 2 && w[0] == 48 && w[1] == 120 {
        1
    } else {
        n
    };
    proof {
        if n >= 1 && w@[0] == 48 {
            assert(w@.drop_first() =~= w@.skip(1));
        }
    }
    if xpos < n {
        // the word has the hex prefix; it is a numeral or nothing
        let neg: bool = xpos + 1 < n && w[xpos + 1] == 45;
        let d0: usize = if neg {
            xpos + 2
        } else {
            xpos + 1
        };
        proof {
            lemma_hex_shape(w@, xpos as int, d0 as int, neg);
        }
        if d0 < n && check_all_hex(w, d0) {
            let mag = digits_magnitude(w, d0, true);
            proof {
                lemma_hex_value(w@, xpos as int, d0 as int, neg);
            }
            match mag {
                Some(m) => {
                    if neg {
                        Some(Token::Number((-(m as i128)) as i64))
                    } else {
                        if m > 0x7FFFFFFFFFFFFFFF {
                            Some(Token::Bad)
                        } else {
                            Some(Token::Number(m as i64))
                        }
                    }
                },
                None => Some(Token::Bad),
            }
        } else {
            proof {
                lemma_hex_prefix_not_dec(w@, xpos as int);
            }
            None
        }
    } else {
        // decimal: #?-?[digits]+
        let h: usize = if n >= 1 && w[0] == 35 {
            1
        } else {
            0
        };
        let neg: bool = h < n && w[h] == 45;
        let d0: usize = if neg {
            h + 1
        } else {
            h
        };
        proof {
            lemma_dec_shape(w@, h as int, d0 as int, neg, xpos == n);
        }
        if d0 < n && check_all_dec(w, d0) {
            let mag = digits_magnitude(w, d0, false);
            match mag {
                Some(m) => {
                    if neg {
                        Some(Token::Number((-(m as i128)) as i64))
                    } else {
                        if m > 0x7FFFFFFFFFFFFFFF {
                            Some(Token::Bad)
                        } else {
                            Some(Token::Number(m as i64))
                        }
                    }
                },
                None => Some(Token::Bad),
            }
        } else {
            None
        }
    }
}

/// Shape facts connecting index arithmetic on a hex numeral to the
/// sequence strips in its specification.
proof fn lemma_hex_shape(w: Seq<u8>, xpos: int, d0: int, neg: bool)
    requires
        0 <= xpos < w.len(),
        w[xpos] == 120,
        xpos == 0 || (xpos == 1 && w[0] == 48),
        neg == (xpos + 1 < w.len() && w[xpos + 1] == 45),
        d0 == if neg {
            xpos + 2
        } else {
            xpos + 1
        },
    ensures
        is_hex_word(w) == (d0 < w.len() && all_hex(w.skip(d0))),
{
    let b = if w.len() > 0 && w[0] == 48 {
        w.drop_first()
    } else {
        w
    };
    if xpos == 1 {
        assert(b =~= w.skip(1));
    }
    let c = if b.len() > 0 && b[0] == 120 {
        b.drop_first()
    } else {
        b
    };
    assert(c =~= w.skip(xpos + 1));
    let d = if c.len() > 0 && c[0] == 45 {
        c.drop_first()
    } else {
        c
    };
    assert(d =~= w.skip(d0));
}

/// Value facts connecting index arithmetic on a hex numeral to the
/// sequence strips in its specification.
proof fn lemma_hex_value(w: Seq<u8>, xpos: int, d0: int, neg: bool)
    requires
        0 <= xpos < w.len(),
        w[xpos] == 120,
        xpos == 0 || (xpos == 1 && w[0] == 48),
        neg == (xpos + 1 < w.len() && w[xpos + 1] == 45),
        d0 == if neg {
            xpos + 2
        } else {
            xpos + 1
        },
    ensures
        hex_word_val(w) == if neg {
            -hex_val(w.skip(d0))
        } else {
            hex_val(w.skip(d0))
        },
{
    let b = if w.len() > 0 && w[0] == 48 {
        w.drop_first()
    } else {
        w
    };
    if xpos == 1 {
        assert(b =~= w.skip(1));
    }
    let c = b.drop_first();
    assert(c =~= w.skip(xpos + 1));
    if neg {
        assert(c.drop_first() =~= w.skip(d0));
    }
}

/// A word carrying the hex prefix is never a decimal numeral: the `x`
/// is not a digit.
proof fn lemma_hex_prefix_not_dec(w: Seq<u8>, xpos: int)
    requires
        0 <= xpos < w.len(),
        w[xpos] == 120,
        xpos == 0 || (xpos == 1 && w[0] == 48),
    ensures
        !is_dec_word(w),
{
    let b = if w.len() > 0 && w[0] == 35 {
        w.drop_first()
    } else {
        w
    };
    let d = if b.len() > 0 && b[0] == 45 {
        b.drop_first()
    } else {
        b
    };
    assert(d =~= w);
    if is_dec_word(w) {
        assert(is_dec_digit(d[xpos]));
    }
}

/// Shape facts for a decimal numeral, given the word has no hex prefix.
proof fn lemma_dec_shape(w: Seq<u8>, h: int, d0: int, neg: bool, no_hex: bool)
    requires
        0 <= h <= w.len(),
        h == if w.len() >= 1 && w[0] == 35 {
            1int
        } else {
            0int
        },
        neg == (h < w.len() && w[h] == 45),
        d0 == if neg {
            h + 1
        } else {
            h
        },
        no_hex,
        !(w.len() >= 1 && w[0] == 120),
        !(w.len() >= 2 && w[0] == 48 && w[1] == 120),
    ensures
        is_dec_word(w) == (d0 < w.len() && all_dec(w.skip(d0))),
        is_dec_word(w) ==> dec_word_val(w) == (if neg {
            -dec_val(w.skip(d0))
        } else {
            dec_val(w.skip(d0))
        }),
        !is_hex_word(w),
{
    let b = if w.len() > 0 && w[0] == 35 {
        w.drop_first()
    } else {
        w
    };
    if h == 1 {
        assert(b =~= w.skip(1));
    } else {
        assert(b =~= w.skip(0));
        assert(w.skip(0) =~= w);
    }
    let d = if b.len() > 0 && b[0] == 45 {
        b.drop_first()
    } else {
        b
    };
    assert(d =~= w.skip(d0));
    // no hex prefix: the byte after an optional leading 0 is not x
    let hb = if w.len() > 0 && w[0] == 48 {
        w.drop_first()
    } else {
        w
    };
    if w.len() > 0 && w[0] == 48 {
        assert(hb =~= w.skip(1));
    }
}

/// Classifies one delimiter-separated word.
fn classify_word(w: &[u8]) -> (t: Token)
    ensures
        t@ == classify(w@),
{
    if kw5(w, 46, 111, 114, 105, 103) {
        Token::Orig
    } else if kw5(w, 46, 102, 105, 108, 108) {
        Token::Fill
    } else if kw5(w, 46, 98, 108, 107, 119) {
        Token::Blkw
    } else if kw_stringz(w) {
        Token::Stringz
    } else if kw4(w, 46, 101, 110, 100) {
        Token::End
    } else if kw3(w, 97, 100, 100) {
        Token::Add
    } else if kw3(w, 97, 110, 100) {
        Token::And
    } else if kw3(w, 106, 109, 112) {
        Token::Jmp
    } else if kw4(w, 106, 115, 114, 114) {
        Token::Jsrr
    } else if kw3(w, 106, 115, 114) {
        Token::Jsr
    } else if kw3(w, 108, 100, 105) {
        Token::Ldi
    } else if kw3(w, 108, 100, 114) {
        Token::Ldr
    } else if kw2(w, 108, 100) {
        Token::Ld
    } else if kw3(w, 108, 101, 97) {
        Token::Lea
    } else if kw3(w, 110, 111, 116) {
        Token::Not
    } else if kw3(w, 114, 101, 116) {
        Token::Ret
    } else if kw3(w, 114, 116, 105) {
        Token::Rti
    } else if kw3(w, 115, 116, 105) {
        Token::Sti
    } else if kw3(w, 115, 116, 114) {
        Token::Str
    } else if kw2(w, 115, 116) {
        Token::St
    } else if kw4(w, 116, 114, 97, 112) {
        Token::Trap
    } else if kw4(w, 103, 101, 116, 99) {
        Token::Getc
    } else if kw4(w, 104, 97, 108, 116) {
        Token::Halt
    } else if kw2(w, 105, 110) {
        Token::In
    } else if kw3(w, 111, 117, 116) {
        Token::Out
    } else if kw5(w, 112, 117, 116, 115, 112) {
        Token::Putsp
    } else if kw4(w, 112, 117, 116, 115) {
        Token::Puts
    } else if w.len() == 2 && (w[0] == 114 || w[0] == 82) && 48 <= w[1] && w[1] <= 55 {
        Token::Register((w[1] - 48) as u16)
    } else {
        let brf: Option<Nzp> = br_token(w);
        match brf {
            Some(nzp) => Token::Br(nzp),
            None => {
                match number_token(w) {
                    Some(tok) => tok,
                    None => {
                        if is_label(w) {
                            Token::Label(slice_to_vec(w))
                        } else {
                            Token::Bad
                        }
                    },
                }
            },
        }
    }
}

/// Recognises the `BR` family: a lowered `br` prefix followed by a
/// subsequence, in order, of `n`, `z`, `p`.
fn br_token(w: &[u8]) -> (r: Option<Nzp>)
    ensures
        ({
            let l = lower_seq(w@);
            match r {
                Some(nzp) => l.len() >= 2 && l[0] == 98 && l[1] == 114 && br_flags(l.skip(2))
                    == Some(nzp),
                None => !(l.len() >= 2 && l[0] == 98 && l[1] == 114 && br_flags(l.skip(2)) is Some),
            }
        }),
{
    proof {
        assert(lower_seq(w@).len() == w@.len());
    }
    if !(w.len() >= 2 && lower_byte(w[0]) == 98 && lower_byte(w[1]) == 114) {
        proof {
            if w@.len() >= 2 {
                assert(lower_seq(w@)[0] == to_lower(w@[0]));
                assert(lower_seq(w@)[1] == to_lower(w@[1]));
            }
        }
        return None;
    }
    proof {
        assert(lower_seq(w@)[0] == to_lower(w@[0]));
        assert(lower_seq(w@)[1] == to_lower(w@[1]));
    }
    if w.len() == 2 {
        proof {
            assert(lower_seq(w@).skip(2).len() == 0);
        }
        Some(Nzp { n: false, z: false, p: false })
    } else if w.len() == 3 {
        let c2 = lower_byte(w[2]);
        proof {
            assert(lower_seq(w@)[2] == to_lower(w@[2]));
            assert(lower_seq(w@).skip(2).len() == 1);
            assert(lower_seq(w@).skip(2)[0] == to_lower(w@[2]));
        }
        if c2 == 110 {
            Some(Nzp { n: true, z: false, p: false })
        } else if c2 == 122 {
            Some(Nzp { n: false, z: true, p: false })
        } else if c2 == 112 {
            Some(Nzp { n: false, z: false, p: true })
        } else {
            None
        }
    } else if w.len() == 4 {
        let c2 = lower_byte(w[2]);
        let c3 = lower_byte(w[3]);
        proof {
            assert(lower_seq(w@).skip(2).len() == 2);
            assert(lower_seq(w@).skip(2)[0] == to_lower(w@[2]));
            assert(lower_seq(w@).skip(2)[1] == to_lower(w@[3]));
        }
        if c2 == 110 && c3 == 122 {
            Some(Nzp { n: true, z: true, p: false })
        } else if c2 == 110 && c3 == 112 {
            Some(Nzp { n: true, z: false, p: true })
        } else if c2 == 122 && c3 == 112 {
            Some(Nzp { n: false, z: true, p: true })
        } else {
            None
        }
    } else if w.len() == 5 {
        let c2 = lower_byte(w[2]);
        let c3 = lower_byte(w[3]);
        let c4 = lower_byte(w[4]);
        proof {
            assert(lower_seq(w@).skip(2).len() == 3);
            assert(lower_seq(w@).skip(2)[0] == to_lower(w@[2]));
            assert(lower_seq(w@).skip(2)[1] == to_lower(w@[3]));
            assert(lower_seq(w@).skip(2)[2] == to_lower(w@[4]));
        }
        if c2 == 110 && c3 == 122 && c4 == 112 {
            Some(Nzp { n: true, z: true, p: true })
        } else {
            None
        }
    } else {
        proof {
            lemma_long_br_suffix(lower_seq(w@));
        }
        None
    }
}

/// A suffix longer than three bytes never spells a condition mask.
proof fn lemma_long_br_suffix(l: Seq<u8>)
    requires
        l.len() >= 6,
    ensures
        br_flags(l.skip(2)) is None,
{
    assert(l.skip(2).len() >= 4);
}

/// Whether the word is a well-formed label.
fn is_label(w: &[u8]) -> (r: bool)
    ensures
        r == is_label_word(w@),
{
    if w.len() == 0 {
        return false;
    }
    let c0 = w[0];
    if !((65 <= c0 && c0 <= 90) || (97 <= c0 && c0 <= 122) || c0 == 95) {
        return false;
    }
    let mut k: usize = 1;
    while k < w.len()
        invariant
            1 <= k <= w@.len(),
            is_label_start(w@[0]),
            forall|t: int| 0 <= t < k ==> is_label_char(#[trigger] w@[t]),
        decreases w@.len() - k,
    {
        let c = w[k];
        if !((65 <= c && c <= 90) || (97 <= c && c <= 122) || c == 95 || (48 <= c && c <= 57)) {
            return false;
        }
        k += 1;
    }
    true
}

/// Finds the closing quote of a string literal whose body starts at
/// `j`, honouring backslash escapes; nothing when the string is
/// unterminated on its line.
fn string_close(src: &[u8], j: usize) -> (r: Option<usize>)
    requires
        j <= src@.len(),
    ensures
        match r {
            Some(q) => str_close(src@, j as nat) == Some(q as nat) && j <= q < src@.len(),
            None => str_close(src@, j as nat) is None,
        },
    decreases src@.len() - j,
{
    if j >= src.len() || src[j] == 10 {
        None
    } else if src[j] == 34 {
        Some(j)
    } else if src[j] == 92 {
        if j + 1 < src.len() && src[j + 1] != 10 {
            string_close(src, j + 2)
        } else {
            None
        }
    } else {
        string_close(src, j + 1)
    }
}

/// How [`spec_lex_str`] reads through [`str_close`]: a found closing
/// quote yields the string token and the lexing of what follows; an
/// unterminated string yields a final error token.
proof fn lemma_lex_str(s: Seq<u8>, start: nat, j: nat)
    requires
        start <= j <= s.len(),
    ensures
        match str_close(s, j) {
            Some(q) => q < s.len() && j <= q && spec_lex_str(s, start, j) == seq![
                TokenV::StrLit(s.subrange(start as int, q as int)),
            ] + spec_lex(s, q + 1),
            None => spec_lex_str(s, start, j) == seq![TokenV::Bad],
        },
    decreases s.len() - j,
{
    if j >= s.len() || s[j as int] == 10 {
    } else if s[j as int] == 34 {
    } else if s[j as int] == 92 {
        if j + 1 < s.len() && s[j + 1 as int] != 10 {
            lemma_lex_str(s, start, j + 2);
        }
    } else {
        lemma_lex_str(s, start, j + 1);
    }
}

/// Tokenizes assembly source.  Unlexable bytes become error tokens; an
/// unterminated string ends the stream with an error token.
pub fn tokenize(src: &[u8]) -> (r: Vec<Token>)
    ensures
        view_tokens(r@) == spec_lex(src@, 0),
{
    let mut out: Vec<Token> = Vec::new();
    let mut i: usize = 0;
    proof {
        assert(view_tokens(out@) + spec_lex(src@, 0) =~= spec_lex(src@, 0));
    }
    while i < src.len()
        invariant
            i <= src@.len(),
            spec_lex(src@, 0) == view_tokens(out@) + spec_lex(src@, i as nat),
        decreases src@.len() - i,
    {
        let ghost prefix = view_tokens(out@);
        let c = src[i];
        if c == 32 || c == 9 || c == 13 || c == 10 {
            i += 1;
        } else if c == 59 {
            // comment: skip to the end of the line
            let mut j: usize = i + 1;
            while j < src.len() && src[j] != 10
                invariant
                    i + 1 <= j <= src@.len(),
                    comment_end(src@, (i + 1) as nat) == comment_end(src@, j as nat),
                decreases src@.len() - j,
            {
                j += 1;
            }
            i = j;
        } else if c == 44 {
            out.push(Token::Sep);
            proof {
                assert(view_tokens(out@) =~= prefix + seq![TokenV::Sep]);
                assert(prefix + (seq![TokenV::Sep] + spec_lex(src@, (i + 1) as nat)) =~= (prefix
                    + seq![TokenV::Sep]) + spec_lex(src@, (i + 1) as nat));
            }
            i += 1;
        } else if c == 34 {
            let start: usize = i + 1;
            match string_close(src, start) {
                Some(q) => {
                    let body: Vec<u8> = slice_to_vec(slice_subrange(src, start, q));
                    out.push(Token::StrLit(body));
                    proof {
                        lemma_lex_str(src@, start as nat, start as nat);
                        let tok = TokenV::StrLit(src@.subrange(start as int, q as int));
                        assert(view_tokens(out@) =~= prefix + seq![tok]);
                        assert(prefix + (seq![tok] + spec_lex(src@, (q + 1) as nat)) =~= (prefix
                            + seq![tok]) + spec_lex(src@, (q + 1) as nat));
                    }
                    i = q + 1;
                },
                None => {
                    out.push(Token::Bad);
                    proof {
                        lemma_lex_str(src@, start as nat, start as nat);
                        assert(view_tokens(out@) =~= prefix + seq![TokenV::Bad]);
                        assert(spec_lex(src@, i as nat) == seq![TokenV::Bad]);
                        assert(prefix + seq![TokenV::Bad] =~= spec_lex(src@, 0));
                    }
                    return out;
                },
            }
        } else {
            // a word: scan to its end and classify it whole
            let mut j: usize = i;
            while j < src.len() && is_word_byte(src[j])
                invariant
                    i <= j <= src@.len(),
                    word_end(src@, i as nat) == word_end(src@, j as nat),
                decreases src@.len() - j,
            {
                j += 1;
            }
            proof {
                assert(word_end(src@, j as nat) == j);
                lemma_word_end(src@, i as nat);
            }
            let wslice: &[u8] = slice_subrange(src, i, j);
            let tok = classify_word(wslice);
            out.push(tok);
            proof {
                let tv = classify(src@.subrange(i as int, j as int));
                assert(view_tokens(out@) =~= prefix + seq![tv]);
                assert(prefix + (seq![tv] + spec_lex(src@, j as nat)) =~= (prefix + seq![tv])
                    + spec_lex(src@, j as nat));
            }
            i = j;
        }
    }
    proof {
        assert(view_tokens(out@) + Seq::<TokenV>::empty() =~= view_tokens(out@));
    }
    out
}


/// Every register token the lexer makes names one of the eight real
/// registers.
pub open spec fn tokens_wf(ts: Seq<TokenV>) -> bool {
    forall|k: int|
        0 <= k < ts.len() ==> ((#[trigger] ts[k]) is Register ==> ts[k]->Register_0 < 8)
}

/// A classified word never yields a register beyond `R7`.
proof fn lemma_classify_register(w: Seq<u8>)
    ensures
        classify(w) is Register ==> classify(w)->Register_0 < 8,
{
}

/// The tokens of any source are well formed.
pub proof fn lemma_lex_wf(s: Seq<u8>, i: nat)
    requires
        i <= s.len(),
    ensures
        tokens_wf(spec_lex(s, i)),
    decreases s.len() - i, 0nat,
{
    if i >= s.len() {
    } else if is_ws(s[i as int]) {
        lemma_lex_wf(s, i + 1);
    } else if s[i as int] == 59 {
        lemma_comment_end(s, i + 1);
        lemma_lex_wf(s, comment_end(s, i + 1));
    } else if s[i as int] == 44 {
        lemma_lex_wf(s, i + 1);
        assert forall|k: int|
            0 <= k < spec_lex(s, i).len() implies ((#[trigger] spec_lex(s, i)[k]) is Register
            ==> spec_lex(s, i)[k]->Register_0 < 8) by {
            if k > 0 {
                assert(spec_lex(s, i)[k] == spec_lex(s, i + 1)[k - 1]);
            }
        }
    } else if s[i as int] == 34 {
        lemma_lex_str_wf(s, i + 1, i + 1);
    } else {
        lemma_word_end(s, i);
        lemma_classify_register(s.subrange(i as int, word_end(s, i) as int));
        lemma_lex_wf(s, word_end(s, i));
        assert forall|k: int|
            0 <= k < spec_lex(s, i).len() implies ((#[trigger] spec_lex(s, i)[k]) is Register
            ==> spec_lex(s, i)[k]->Register_0 < 8) by {
            if k > 0 {
                assert(spec_lex(s, i)[k] == spec_lex(s, word_end(s, i))[k - 1]);
            }
        }
    }
}

/// The tokens after a string literal are well formed too.
proof fn lemma_lex_str_wf(s: Seq<u8>, start: nat, j: nat)
    requires
        start <= j <= s.len(),
    ensures
        tokens_wf(spec_lex_str(s, start, j)),
    decreases s.len() - j, 1nat,
{
    if j >= s.len() || s[j as int] == 10 {
    } else if s[j as int] == 34 {
        lemma_lex_wf(s, j + 1);
        assert forall|k: int|
            0 <= k < spec_lex_str(s, start, j).len() implies ((#[trigger] spec_lex_str(
            s,
            start,
            j,
        )[k]) is Register ==> spec_lex_str(s, start, j)[k]->Register_0 < 8) by {
            if k > 0 {
                assert(spec_lex_str(s, start, j)[k] == spec_lex(s, j + 1)[k - 1]);
            }
        }
    } else if s[j as int] == 92 {
        if j + 1 < s.len() && s[j + 1 as int] != 10 {
            lemma_lex_str_wf(s, start, j + 2);
        }
    } else {
        lemma_lex_str_wf(s, start, j + 1);
    }
}

} // verus!
