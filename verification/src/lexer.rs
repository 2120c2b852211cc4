//! The lexer: raw source bytes to an ordered token sequence.
//!
//! Keywords are fixed; there are no user-defined names.  Spaces, carriage
//! returns and commas separate tokens and are otherwise insignificant; a
//! newline does too, and bumps the line counter.  Numbers take an
//! optional leading minus and a single decimal point, and are read into
//! fixed-point thousandths (at most nine whole-part digits; fraction digits
//! beyond the third are dropped).  The line counter is 1-based and used
//! only for diagnostics.

use vstd::prelude::*;
use crate::num::NUM_MAX;

verus! {

/// A lexical error: the line it was found on, and what went wrong.
#[derive(Clone, Copy, Debug, PartialEq, Eq, Structural)]
pub struct LexError {
    pub line: usize,
    pub detail: LexDetail,
}

/// What a lexical error found.
#[derive(Clone, Copy, Debug, PartialEq, Eq, Structural)]
pub enum LexDetail {
    /// A quoted string with no closing quote before the end of the source.
    UnterminatedString,
    /// An alphabetic run that is not one of the fixed keywords.
    UnknownIdentifier,
    /// A `v` not followed by the digit `2`.
    BadVectorMarker,
    /// A minus sign not followed by a digit.
    BareMinus,
    /// A numeric run with more than one decimal point.
    MalformedNumber,
    /// A number with more than nine whole-part digits.
    NumberTooLarge,
    /// A byte that cannot start any token.
    UnexpectedByte(u8),
}

/// What a token is, with its payload where it has one.
#[derive(Clone, Debug, PartialEq)]
pub enum TokenKind {
    Ocurly,
    Ccurly,
    Oparen,
    Cparen,
    Semicolon,
    /// A number, in fixed-point thousandths.
    Number(i64),
    /// A quoted string's content, quotes excluded.
    Text(Vec<u8>),
    ColorDef,
    Vector2Def,
    On,
    Off,
    Init,
    Loop,
    RectObj,
    TextObj,
    Grow,
    Wait,
    Fade,
    Move,
}

/// The mathematical image of a [`TokenKind`]: text as a byte sequence.
pub enum TokenKindV {
    Ocurly,
    Ccurly,
    Oparen,
    Cparen,
    Semicolon,
    Number(i64),
    Text(Seq<u8>),
    ColorDef,
    Vector2Def,
    On,
    Off,
    Init,
    Loop,
    RectObj,
    TextObj,
    Grow,
    Wait,
    Fade,
    Move,
}

impl View for TokenKind {
    type V = TokenKindV;

    open spec fn view(&self) -> TokenKindV {
        match self {
            TokenKind::Ocurly => TokenKindV::Ocurly,
            TokenKind::Ccurly => TokenKindV::Ccurly,
            TokenKind::Oparen => TokenKindV::Oparen,
            TokenKind::Cparen => TokenKindV::Cparen,
            TokenKind::Semicolon => TokenKindV::Semicolon,
            TokenKind::Number(v) => TokenKindV::Number(*v),
            TokenKind::Text(t) => TokenKindV::Text(t@),
            TokenKind::ColorDef => TokenKindV::ColorDef,
            TokenKind::Vector2Def => TokenKindV::Vector2Def,
            TokenKind::On => TokenKindV::On,
            TokenKind::Off => TokenKindV::Off,
            TokenKind::Init => TokenKindV::Init,
            TokenKind::Loop => TokenKindV::Loop,
            TokenKind::RectObj => TokenKindV::RectObj,
            TokenKind::TextObj => TokenKindV::TextObj,
            TokenKind::Grow => TokenKindV::Grow,
            TokenKind::Wait => TokenKindV::Wait,
            TokenKind::Fade => TokenKindV::Fade,
            TokenKind::Move => TokenKindV::Move,
        }
    }
}

/// A token, carrying the 1-based line it started on (for diagnostics only).
#[derive(Clone, Debug, PartialEq)]
pub struct Token {
    pub kind: TokenKind,
    pub line: usize,
}

/// The mathematical image of a [`Token`].
pub struct TokenV {
    pub kind: TokenKindV,
    pub line: usize,
}

impl View for Token {
    type V = TokenV;

    open spec fn view(&self) -> TokenV {
        TokenV { kind: self.kind@, line: self.line }
    }
}

/// The views of a sequence of tokens, element-wise.
pub open spec fn view_tokens(ts: Seq<Token>) -> Seq<TokenV> {
    ts.map_values(|t: Token| t@)
}

/// Whether `b` is an ASCII decimal digit.
pub open spec fn is_digit(b: u8) -> bool {
    48 <= b <= 57
}

/// Whether `b` is an ASCII letter.
pub open spec fn is_alpha(b: u8) -> bool {
    (65 <= b <= 90) || (97 <= b <= 122)
}

/// Whether `b` can continue a numeric run: a digit or a decimal point.
pub open spec fn is_num_byte(b: u8) -> bool {
    is_digit(b) || b == 46
}

/// The index of the closing quote at or after `i`, or the length of `s`.
pub open spec fn scan_text_end(s: Seq<u8>, i: int) -> int
    recommends
        0 <= i <= s.len(),
    decreases s.len() - i when 0 <= i <= s.len()
{
    if i >= s.len() {
        i
    } else if s[i] == 34 {
        i
    } else {
        scan_text_end(s, i + 1)
    }
}

/// The index of the first non-letter at or after `i`, or the length of `s`.
pub open spec fn scan_alpha_end(s: Seq<u8>, i: int) -> int
    recommends
        0 <= i <= s.len(),
    decreases s.len() - i when 0 <= i <= s.len()
{
    if i >= s.len() {
        i
    } else if !is_alpha(s[i]) {
        i
    } else {
        scan_alpha_end(s, i + 1)
    }
}

/// The index of the first byte at or after `i` that is neither a digit nor
/// a decimal point, or the length of `s`.
pub open spec fn scan_num_end(s: Seq<u8>, i: int) -> int
    recommends
        0 <= i <= s.len(),
    decreases s.len() - i when 0 <= i <= s.len()
{
    if i >= s.len() {
        i
    } else if !is_num_byte(s[i]) {
        i
    } else {
        scan_num_end(s, i + 1)
    }
}

/// Every scan lands between its start and the end of the sequence.
pub proof fn lemma_scan_bounds(s: Seq<u8>, i: int)
    requires
        0 <= i <= s.len(),
    ensures
        i <= scan_text_end(s, i) <= s.len(),
        i <= scan_alpha_end(s, i) <= s.len(),
        i <= scan_num_end(s, i) <= s.len(),
    decreases s.len() - i,
{
    if i < s.len() {
        lemma_scan_bounds(s, i + 1);
    }
}

/// Every byte of a numeric run is a digit or a decimal point.
pub proof fn lemma_scan_num_all(s: Seq<u8>, i: int)
    requires
        0 <= i <= s.len(),
    ensures
        forall|k: int| i <= k < scan_num_end(s, i) ==> is_num_byte(#[trigger] s[k]),
    decreases s.len() - i,
{
    lemma_scan_bounds(s, i);
    if i < s.len() && is_num_byte(s[i]) {
        lemma_scan_num_all(s, i + 1);
    }
}

/// The index of the first decimal point in `s[i .. j]`, or `j`.
pub open spec fn dot_pos(s: Seq<u8>, i: int, j: int) -> int
    recommends
        0 <= i <= j <= s.len(),
    decreases j - i when i <= j
{
    if i >= j {
        j
    } else if s[i] == 46 {
        i
    } else {
        dot_pos(s, i + 1, j)
    }
}

/// Where the first decimal point lies, and that none lies before it.
pub proof fn lemma_dot_pos(s: Seq<u8>, i: int, j: int)
    requires
        0 <= i <= j <= s.len(),
    ensures
        i <= dot_pos(s, i, j) <= j,
        dot_pos(s, i, j) < j ==> s[dot_pos(s, i, j)] == 46,
        forall|k: int| i <= k < dot_pos(s, i, j) ==> #[trigger] s[k] != 46,
    decreases j - i,
{
    if i < j && s[i] != 46 {
        lemma_dot_pos(s, i + 1, j);
    }
}

/// The value of the digit run `s[i .. j]` read in base ten.
pub open spec fn digits_val(s: Seq<u8>, i: int, j: int) -> int
    recommends
        0 <= i <= j <= s.len(),
    decreases j - i when i <= j
{
    if i >= j {
        0
    } else {
        digits_val(s, i, j - 1) * 10 + (s[j - 1] - 48)
    }
}

/// Ten to the `n`.
pub open spec fn pow10(n: nat) -> nat
    decreases n,
{
    if n == 0 {
        1
    } else {
        10 * pow10((n - 1) as nat)
    }
}

/// The powers of ten up to the ninth, as plain numbers.
pub proof fn lemma_pow10_values()
    ensures
        pow10(0) == 1,
        pow10(1) == 10,
        pow10(2) == 100,
        pow10(3) == 1000,
        pow10(8) == 100_000_000,
        pow10(9) == 1_000_000_000,
{
    reveal_with_fuel(pow10, 10);
}

/// A digit run's value is non-negative and below ten to its length.
pub proof fn lemma_digits_val_bound(s: Seq<u8>, i: int, j: int)
    requires
        0 <= i <= j <= s.len(),
        forall|k: int| i <= k < j ==> is_digit(#[trigger] s[k]),
    ensures
        0 <= digits_val(s, i, j) < pow10((j - i) as nat),
    decreases j - i,
{
    if i < j {
        lemma_digits_val_bound(s, i, j - 1);
        let prev = digits_val(s, i, j - 1);
        let p = pow10((j - 1 - i) as nat);
        assert(prev * 10 + (s[j - 1] - 48) < p * 10) by (nonlinear_arith)
            requires
                0 <= prev < p,
                0 <= s[j - 1] - 48 <= 9,
        ;
    }
}

/// The value, in thousandths, of the fraction digits `s[i .. j]`: the first
/// three digits, padded with zeros on the right if there are fewer.
pub open spec fn frac_val(s: Seq<u8>, i: int, j: int) -> int
    recommends
        0 <= i <= j <= s.len(),
{
    let m = if j - i >= 3 {
        i + 3
    } else {
        j
    };
    digits_val(s, i, m) * pow10((3 - (m - i)) as nat) as int
}

/// A fraction's value lies in `0 ..= 999`.
pub proof fn lemma_frac_val_bound(s: Seq<u8>, i: int, j: int)
    requires
        0 <= i <= j <= s.len(),
        forall|k: int| i <= k < j ==> is_digit(#[trigger] s[k]),
    ensures
        0 <= frac_val(s, i, j) <= 999,
{
    let m = if j - i >= 3 {
        i + 3
    } else {
        j
    };
    lemma_digits_val_bound(s, i, m);
    lemma_pow10_values();
    let dv = digits_val(s, i, m);
    if m - i == 0 {
        assert(frac_val(s, i, j) == dv * 1000);
    } else if m - i == 1 {
        assert(frac_val(s, i, j) == dv * 100);
    } else if m - i == 2 {
        assert(frac_val(s, i, j) == dv * 10);
    } else {
        assert(frac_val(s, i, j) == dv * 1);
    }
}

/// The fixed-point value of the numeric run `s[i .. j]`, or why it is
/// rejected: a second decimal point, or more than nine whole-part digits.
pub open spec fn spec_number(s: Seq<u8>, i: int, j: int) -> Result<i64, LexDetail>
    recommends
        0 <= i < j <= s.len(),
{
    let dp = dot_pos(s, i, j);
    if dp < j && dot_pos(s, dp + 1, j) < j {
        Err(LexDetail::MalformedNumber)
    } else if dp - i > 9 {
        Err(LexDetail::NumberTooLarge)
    } else {
        let fr = if dp >= j {
            0
        } else {
            frac_val(s, dp + 1, j)
        };
        Ok((digits_val(s, i, dp) * 1000 + fr) as i64)
    }
}

/// An accepted number lies in `0 ..< NUM_MAX`.
pub proof fn lemma_spec_number_bound(s: Seq<u8>, i: int, j: int)
    requires
        0 <= i < j <= s.len(),
        forall|k: int| i <= k < j ==> is_num_byte(#[trigger] s[k]),
    ensures
        spec_number(s, i, j) matches Ok(v) ==> 0 <= v < NUM_MAX
            && v == digits_val(s, i, dot_pos(s, i, j)) * 1000 + (if dot_pos(s, i, j) >= j {
            0
        } else {
            frac_val(s, dot_pos(s, i, j) + 1, j)
        }),
{
    let dp = dot_pos(s, i, j);
    lemma_dot_pos(s, i, j);
    if spec_number(s, i, j) is Ok {
        lemma_digits_val_bound(s, i, dp);
        lemma_pow10_values();
        if dp < j {
            lemma_dot_pos(s, dp + 1, j);
            assert(forall|k: int| dp + 1 <= k < j ==> is_digit(#[trigger] s[k]));
            lemma_frac_val_bound(s, dp + 1, j);
        }
        assert(digits_val(s, i, dp) <= 999_999_999) by {
            assert(pow10((dp - i) as nat) <= pow10(9nat)) by {
                lemma_pow10_monotone((dp - i) as nat, 9nat);
            }
        }
    }
}

/// Powers of ten never decrease with the exponent.
proof fn lemma_pow10_monotone(a: nat, b: nat)
    requires
        a <= b,
    ensures
        pow10(a) <= pow10(b),
    decreases b,
{
    if a < b {
        lemma_pow10_monotone(a, (b - 1) as nat);
        assert(pow10(b) == 10 * pow10((b - 1) as nat));
    }
}

/// Whether `w` spells `INIT`.
pub open spec fn kw_init(w: Seq<u8>) -> bool {
    w.len() == 4 && w[0] == 73 && w[1] == 78 && w[2] == 73 && w[3] == 84
}

/// Whether `w` spells `LOOP`.
pub open spec fn kw_loop(w: Seq<u8>) -> bool {
    w.len() == 4 && w[0] == 76 && w[1] == 79 && w[2] == 79 && w[3] == 80
}

/// Whether `w` spells `RECT`.
pub open spec fn kw_rect(w: Seq<u8>) -> bool {
    w.len() == 4 && w[0] == 82 && w[1] == 69 && w[2] == 67 && w[3] == 84
}

/// Whether `w` spells `TEXT`.
pub open spec fn kw_text(w: Seq<u8>) -> bool {
    w.len() == 4 && w[0] == 84 && w[1] == 69 && w[2] == 88 && w[3] == 84
}

/// Whether `w` spells `GROW`.
pub open spec fn kw_grow(w: Seq<u8>) -> bool {
    w.len() == 4 && w[0] == 71 && w[1] == 82 && w[2] == 79 && w[3] == 87
}

/// Whether `w` spells `WAIT`.
pub open spec fn kw_wait(w: Seq<u8>) -> bool {
    w.len() == 4 && w[0] == 87 && w[1] == 65 && w[2] == 73 && w[3] == 84
}

/// Whether `w` spells `FADE`.
pub open spec fn kw_fade(w: Seq<u8>) -> bool {
    w.len() == 4 && w[0] == 70 && w[1] == 65 && w[2] == 68 && w[3] == 69
}

/// Whether `w` spells `MOVE`.
pub open spec fn kw_move(w: Seq<u8>) -> bool {
    w.len() == 4 && w[0] == 77 && w[1] == 79 && w[2] == 86 && w[3] == 69
}

/// Whether `w` spells `ON`.
pub open spec fn kw_on(w: Seq<u8>) -> bool {
    w.len() == 2 && w[0] == 79 && w[1] == 78
}

/// Whether `w` spells `OFF`.
pub open spec fn kw_off(w: Seq<u8>) -> bool {
    w.len() == 3 && w[0] == 79 && w[1] == 70 && w[2] == 70
}

/// The token an alphabetic run denotes, if it is one of the fixed keywords.
pub open spec fn spec_keyword(w: Seq<u8>) -> Option<TokenKindV> {
    if kw_init(w) {
        Some(TokenKindV::Init)
    } else if kw_loop(w) {
        Some(TokenKindV::Loop)
    } else if kw_rect(w) {
        Some(TokenKindV::RectObj)
    } else if kw_text(w) {
        Some(TokenKindV::TextObj)
    } else if kw_grow(w) {
        Some(TokenKindV::Grow)
    } else if kw_wait(w) {
        Some(TokenKindV::Wait)
    } else if kw_fade(w) {
        Some(TokenKindV::Fade)
    } else if kw_move(w) {
        Some(TokenKindV::Move)
    } else if kw_on(w) {
        Some(TokenKindV::On)
    } else if kw_off(w) {
        Some(TokenKindV::Off)
    } else {
        None
    }
}

/// The line counter after a newline; it saturates rather than wraps.
pub open spec fn bump(line: usize) -> usize {
    if line < usize::MAX {
        (line + 1) as usize
    } else {
        line
    }
}

/// Prefixes a token onto a lexing result, keeping an error as it is.
pub open spec fn with_token(t: TokenV, rest: Result<Seq<TokenV>, LexError>) -> Result<
    Seq<TokenV>,
    LexError,
> {
    match rest {
        Ok(ts) => Ok(seq![t] + ts),
        Err(e) => Err(e),
    }
}

/// The tokens of `s` from index `i` on, with the line counter at `line`;
/// or the first lexical error.
pub open spec fn lex_from(s: Seq<u8>, i: int, line: usize) -> Result<Seq<TokenV>, LexError>
    recommends
        0 <= i <= s.len(),
    decreases s.len() - i when 0 <= i <= s.len() via lex_from_decreases
{
    if i >= s.len() {
        Ok(Seq::empty())
    } else {
        let b = s[i];
        if b == 40 {
            with_token(TokenV { kind: TokenKindV::Oparen, line }, lex_from(s, i + 1, line))
        } else if b == 41 {
            with_token(TokenV { kind: TokenKindV::Cparen, line }, lex_from(s, i + 1, line))
        } else if b == 123 {
            with_token(TokenV { kind: TokenKindV::Ocurly, line }, lex_from(s, i + 1, line))
        } else if b == 125 {
            with_token(TokenV { kind: TokenKindV::Ccurly, line }, lex_from(s, i + 1, line))
        } else if b == 59 {
            with_token(TokenV { kind: TokenKindV::Semicolon, line }, lex_from(s, i + 1, line))
        } else if b == 32 || b == 13 || b == 44 {
            lex_from(s, i + 1, line)
        } else if b == 10 {
            lex_from(s, i + 1, bump(line))
        } else if b == 34 {
            let e = scan_text_end(s, i + 1);
            if e >= s.len() {
                Err(LexError { line, detail: LexDetail::UnterminatedString })
            } else {
                with_token(
                    TokenV { kind: TokenKindV::Text(s.subrange(i + 1, e)), line },
                    lex_from(s, e + 1, line),
                )
            }
        } else if b == 99 {
            with_token(TokenV { kind: TokenKindV::ColorDef, line }, lex_from(s, i + 1, line))
        } else if b == 45 {
            if i + 1 < s.len() && is_digit(s[i + 1]) {
                let e = scan_num_end(s, i + 1);
                match spec_number(s, i + 1, e) {
                    Ok(v) => with_token(
                        TokenV { kind: TokenKindV::Number((-(v as int)) as i64), line },
                        lex_from(s, e, line),
                    ),
                    Err(d) => Err(LexError { line, detail: d }),
                }
            } else {
                Err(LexError { line, detail: LexDetail::BareMinus })
            }
        } else if b == 118 {
            if i + 1 < s.len() && s[i + 1] == 50 {
                with_token(TokenV { kind: TokenKindV::Vector2Def, line }, lex_from(s, i + 2, line))
            } else {
                Err(LexError { line, detail: LexDetail::BadVectorMarker })
            }
        } else if is_digit(b) {
            let e = scan_num_end(s, i);
            match spec_number(s, i, e) {
                Ok(v) => with_token(
                    TokenV { kind: TokenKindV::Number(v), line },
                    lex_from(s, e, line),
                ),
                Err(d) => Err(LexError { line, detail: d }),
            }
        } else if is_alpha(b) {
            let e = scan_alpha_end(s, i);
            match spec_keyword(s.subrange(i, e)) {
                Some(k) => with_token(TokenV { kind: k, line }, lex_from(s, e, line)),
                None => Err(LexError { line, detail: LexDetail::UnknownIdentifier }),
            }
        } else {
            Err(LexError { line, detail: LexDetail::UnexpectedByte(b) })
        }
    }
}

#[via_fn]
proof fn lex_from_decreases(s: Seq<u8>, i: int, line: usize) {
    if 0 <= i < s.len() {
        lemma_scan_bounds(s, i);
        lemma_scan_bounds(s, i + 1);
        if is_num_byte(s[i]) {
            assert(scan_num_end(s, i) == scan_num_end(s, i + 1));
        }
        if is_alpha(s[i]) {
            assert(scan_alpha_end(s, i) == scan_alpha_end(s, i + 1));
        }
    }
}

/// The token sequence of a whole source, or its first lexical error.
pub open spec fn spec_lex(s: Seq<u8>) -> Result<Seq<TokenV>, LexError> {
    lex_from(s, 0, 1)
}

/// Appends a lexing tail onto already-produced tokens, keeping an error.
pub open spec fn prepend(ts: Seq<TokenV>, rest: Result<Seq<TokenV>, LexError>) -> Result<
    Seq<TokenV>,
    LexError,
> {
    match rest {
        Ok(more) => Ok(ts + more),
        Err(e) => Err(e),
    }
}

/// Shifting one token from the tail into the prefix keeps the whole result.
proof fn lemma_prepend_shift(ts: Seq<TokenV>, t: TokenV, rest: Result<Seq<TokenV>, LexError>)
    ensures
        prepend(ts, with_token(t, rest)) == prepend(ts.push(t), rest),
{
    match rest {
        Ok(more) => {
            assert(ts + (seq![t] + more) =~= ts.push(t) + more);
        },
        Err(_) => {},
    }
}

/// Pushing a token commutes with taking views.
proof fn lemma_view_push(ts: Seq<Token>, t: Token)
    ensures
        view_tokens(ts.push(t)) =~= view_tokens(ts).push(t@),
{
}

/// Whether every number token of `ts` lies in the fixed-point range.
pub open spec fn all_numbers_in_range(ts: Seq<TokenV>) -> bool {
    forall|k: int|
        0 <= k < ts.len() ==> match (#[trigger] ts[k]).kind {
            TokenKindV::Number(v) => crate::num::in_range(v),
            _ => true,
        }
}

/// A token with an in-range payload prefixed onto a bounded tail keeps the
/// whole result bounded.
proof fn lemma_bounded_cons(t: TokenV, rest: Result<Seq<TokenV>, LexError>)
    requires
        match rest {
            Ok(ts) => all_numbers_in_range(ts),
            Err(_) => true,
        },
        t.kind matches TokenKindV::Number(v) ==> crate::num::in_range(v),
    ensures
        match with_token(t, rest) {
            Ok(ts2) => all_numbers_in_range(ts2),
            Err(_) => true,
        },
{
    match rest {
        Ok(ts) => {
            let ts2 = seq![t] + ts;
            assert forall|k: int| 0 <= k < ts2.len() implies match (#[trigger] ts2[k]).kind {
                TokenKindV::Number(v) => crate::num::in_range(v),
                _ => true,
            } by {
                if k == 0 {
                    assert(ts2[0] == t);
                } else {
                    assert(ts2[k] == ts[k - 1]);
                }
            }
        },
        Err(_) => {},
    }
}

/// Every number token the lexer produces lies in the fixed-point range.
pub proof fn lemma_lex_bounded(s: Seq<u8>, i: int, line: usize)
    requires
        0 <= i <= s.len(),
    ensures
        lex_from(s, i, line) matches Ok(ts) ==> all_numbers_in_range(ts),
    decreases s.len() - i,
{
    lemma_scan_bounds(s, i);
    if i < s.len() {
        lemma_scan_bounds(s, i + 1);
        let b = s[i];
        if b == 40 || b == 41 || b == 123 || b == 125 || b == 59 || b == 99 {
            lemma_lex_bounded(s, i + 1, line);
            let t = lex_head(s, i, line);
            lemma_bounded_cons(t, lex_from(s, i + 1, line));
        } else if b == 32 || b == 13 || b == 44 {
            lemma_lex_bounded(s, i + 1, line);
        } else if b == 10 {
            lemma_lex_bounded(s, i + 1, bump(line));
        } else if b == 34 {
            let e = scan_text_end(s, i + 1);
            if e < s.len() {
                lemma_lex_bounded(s, e + 1, line);
                lemma_bounded_cons(
                    TokenV { kind: TokenKindV::Text(s.subrange(i + 1, e)), line },
                    lex_from(s, e + 1, line),
                );
            }
        } else if b == 45 {
            if i + 1 < s.len() && is_digit(s[i + 1]) {
                let e = scan_num_end(s, i + 1);
                lemma_scan_num_all(s, i + 1);
                assert(scan_num_end(s, i + 1) == scan_num_end(s, i + 2) || !is_num_byte(
                    s[i + 1],
                ));
                lemma_scan_bounds(s, i + 2);
                lemma_spec_number_bound(s, i + 1, e);
                match spec_number(s, i + 1, e) {
                    Ok(v) => {
                        lemma_lex_bounded(s, e, line);
                        lemma_bounded_cons(
                            TokenV { kind: TokenKindV::Number((-(v as int)) as i64), line },
                            lex_from(s, e, line),
                        );
                    },
                    Err(_) => {},
                }
            }
        } else if b == 118 {
            if i + 1 < s.len() && s[i + 1] == 50 {
                lemma_lex_bounded(s, i + 2, line);
                lemma_bounded_cons(
                    TokenV { kind: TokenKindV::Vector2Def, line },
                    lex_from(s, i + 2, line),
                );
            }
        } else if is_digit(b) {
            let e = scan_num_end(s, i);
            lemma_scan_num_all(s, i);
            assert(scan_num_end(s, i) == scan_num_end(s, i + 1));
            lemma_spec_number_bound(s, i, e);
            match spec_number(s, i, e) {
                Ok(v) => {
                    lemma_lex_bounded(s, e, line);
                    lemma_bounded_cons(
                        TokenV { kind: TokenKindV::Number(v), line },
                        lex_from(s, e, line),
                    );
                },
                Err(_) => {},
            }
        } else if is_alpha(b) {
            let e = scan_alpha_end(s, i);
            assert(scan_alpha_end(s, i) == scan_alpha_end(s, i + 1));
            match spec_keyword(s.subrange(i, e)) {
                Some(k) => {
                    lemma_lex_bounded(s, e, line);
                    lemma_bounded_cons(TokenV { kind: k, line }, lex_from(s, e, line));
                },
                None => {},
            }
        }
    }
}

/// The first token of the simple one-byte cases, for the proof above.
spec fn lex_head(s: Seq<u8>, i: int, line: usize) -> TokenV
    recommends
        0 <= i < s.len(),
{
    let b = s[i];
    if b == 40 {
        TokenV { kind: TokenKindV::Oparen, line }
    } else if b == 41 {
        TokenV { kind: TokenKindV::Cparen, line }
    } else if b == 123 {
        TokenV { kind: TokenKindV::Ocurly, line }
    } else if b == 125 {
        TokenV { kind: TokenKindV::Ccurly, line }
    } else if b == 59 {
        TokenV { kind: TokenKindV::Semicolon, line }
    } else {
        TokenV { kind: TokenKindV::ColorDef, line }
    }
}

/// Prefixing nothing changes nothing.
proof fn lemma_prepend_empty(rest: Result<Seq<TokenV>, LexError>)
    ensures
        prepend(Seq::empty(), rest) == rest,
{
    match rest {
        Ok(more) => {
            assert(Seq::empty() + more =~= more);
        },
        Err(_) => {},
    }
}

/// Matches a word of the source against the fixed keyword table.
fn match_word(src: &Vec<u8>, start: usize, end: usize) -> (r: Option<TokenKind>)
    requires
        start <= end <= src@.len(),
    ensures
        match r {
            Some(k) => spec_keyword(src@.subrange(start as int, end as int)) == Some(k@),
            None => spec_keyword(src@.subrange(start as int, end as int)) is None,
        },
{
    let ghost w = src@.subrange(start as int, end as int);
    let n = end - start;
    if n == 4 {
        let b0 = src[start];
        let b1 = src[start + 1];
        let b2 = src[start + 2];
        let b3 = src[start + 3];
        proof {
            assert(w.len() == 4 && w[0] == b0 && w[1] == b1 && w[2] == b2 && w[3] == b3);
        }
        if b0 == 73 && b1 == 78 && b2 == 73 && b3 == 84 {
            Some(TokenKind::Init)
        } else if b0 == 76 && b1 == 79 && b2 == 79 && b3 == 80 {
            Some(TokenKind::Loop)
        } else if b0 == 82 && b1 == 69 && b2 == 67 && b3 == 84 {
            Some(TokenKind::RectObj)
        } else if b0 == 84 && b1 == 69 && b2 == 88 && b3 == 84 {
            Some(TokenKind::TextObj)
        } else if b0 == 71 && b1 == 82 && b2 == 79 && b3 == 87 {
            Some(TokenKind::Grow)
        } else if b0 == 87 && b1 == 65 && b2 == 73 && b3 == 84 {
            Some(TokenKind::Wait)
        } else if b0 == 70 && b1 == 65 && b2 == 68 && b3 == 69 {
            Some(TokenKind::Fade)
        } else if b0 == 77 && b1 == 79 && b2 == 86 && b3 == 69 {
            Some(TokenKind::Move)
        } else {
            None
        }
    } else if n == 2 {
        let b0 = src[start];
        let b1 = src[start + 1];
        proof {
            assert(w.len() == 2 && w[0] == b0 && w[1] == b1);
        }
        if b0 == 79 && b1 == 78 {
            Some(TokenKind::On)
        } else {
            None
        }
    } else if n == 3 {
        let b0 = src[start];
        let b1 = src[start + 1];
        let b2 = src[start + 2];
        proof {
            assert(w.len() == 3 && w[0] == b0 && w[1] == b1 && w[2] == b2);
        }
        if b0 == 79 && b1 == 70 && b2 == 70 {
            Some(TokenKind::Off)
        } else {
            None
        }
    } else {
        proof {
            assert(w.len() == n);
        }
        None
    }
}

/// Reads the numeric run that starts at `start` (a digit): returns where it
/// ends and its fixed-point value, or why it is rejected.
fn scan_number(src: &Vec<u8>, start: usize) -> (r: (usize, Result<i64, LexDetail>))
    requires
        start < src@.len(),
        is_digit(src@[start as int]),
    ensures
        r.0 == scan_num_end(src@, start as int),
        start < r.0 <= src@.len(),
        r.1 == spec_number(src@, start as int, r.0 as int),
        r.1 matches Ok(v) ==> 0 <= v < NUM_MAX,
{
    let ghost s = src@;
    let n = src.len();
    let mut j: usize = start;
    while j < n && ((src[j] >= 48 && src[j] <= 57) || src[j] == 46)
        invariant
            start <= j <= n,
            n == s.len(),
            s == src@,
            scan_num_end(s, start as int) == scan_num_end(s, j as int),
        decreases n - j,
    {
        j += 1;
    }
    proof {
        assert(scan_num_end(s, start as int) == j);
        lemma_scan_num_all(s, start as int);
        lemma_dot_pos(s, start as int, j as int);
        assert(j > start) by {
            lemma_scan_bounds(s, start as int + 1);
            assert(scan_num_end(s, start as int) == scan_num_end(s, start as int + 1));
        }
    }
    // first decimal point, if any
    let mut dp: usize = start;
    while dp < j && src[dp] != 46
        invariant
            start <= dp <= j,
            j <= n == s.len(),
            s == src@,
            dot_pos(s, start as int, j as int) == dot_pos(s, dp as int, j as int),
        decreases j - dp,
    {
        dp += 1;
    }
    proof {
        assert(dot_pos(s, start as int, j as int) == dp);
    }
    if dp < j {
        // a second decimal point makes the run malformed
        let mut d2: usize = dp + 1;
        while d2 < j && src[d2] != 46
            invariant
                dp + 1 <= d2 <= j,
                j <= n == s.len(),
                s == src@,
                dot_pos(s, dp as int + 1, j as int) == dot_pos(s, d2 as int, j as int),
            decreases j - d2,
        {
            d2 += 1;
        }
        proof {
            assert(dot_pos(s, dp as int + 1, j as int) == d2);
        }
        if d2 < j {
            return (j, Err(LexDetail::MalformedNumber));
        }
    }
    if dp - start > 9 {
        return (j, Err(LexDetail::NumberTooLarge));
    }
    proof {
        lemma_pow10_values();
        lemma_dot_pos(s, start as int, j as int);
    }
    // whole part
    let mut acc: i64 = 0;
    let mut k: usize = start;
    while k < dp
        invariant
            start <= k <= dp <= j,
            dp - start <= 9,
            j <= n == s.len(),
            s == src@,
            dot_pos(s, start as int, j as int) == dp,
            scan_num_end(s, start as int) == j,
            acc == digits_val(s, start as int, k as int),
            0 <= acc < pow10((k - start) as nat),
        decreases dp - k,
    {
        proof {
            lemma_scan_num_all(s, start as int);
            lemma_dot_pos(s, start as int, j as int);
            lemma_pow10_values();
            lemma_pow10_monotone((k - start) as nat, 8nat);
            assert(is_num_byte(s[k as int]) && s[k as int] != 46);
        }
        acc = acc * 10 + ((src[k] - 48) as i64);
        k += 1;
    }
    proof {
        lemma_pow10_values();
        lemma_pow10_monotone((dp - start) as nat, 9nat);
    }
    // fraction part: the first three digits, padded on the right
    let mut frac: i64 = 0;
    if dp < j {
        let mut fv: i64 = 0;
        let mut cnt: usize = 0;
        let mut k2: usize = dp + 1;
        while k2 < j && cnt < 3
            invariant
                dp + 1 <= k2 <= j,
                cnt == k2 - (dp + 1),
                cnt <= 3,
                j <= n == s.len(),
                s == src@,
                start <= dp < j,
                dot_pos(s, start as int, j as int) == dp,
                dot_pos(s, dp as int + 1, j as int) == j,
                scan_num_end(s, start as int) == j,
                fv == digits_val(s, dp as int + 1, k2 as int),
                0 <= fv < pow10(cnt as nat),
            decreases j - k2,
        {
            proof {
                lemma_scan_num_all(s, start as int);
                lemma_dot_pos(s, dp as int + 1, j as int);
                lemma_pow10_values();
                assert(is_num_byte(s[k2 as int]) && s[k2 as int] != 46);
            }
            fv = fv * 10 + ((src[k2] - 48) as i64);
            cnt += 1;
            k2 += 1;
        }
        frac = if cnt == 0 {
            fv * 1000
        } else if cnt == 1 {
            fv * 100
        } else if cnt == 2 {
            fv * 10
        } else {
            fv
        };
        proof {
            lemma_pow10_values();
            let a = dp as int + 1;
            let m = if j - a >= 3 {
                a + 3
            } else {
                j as int
            };
            assert(k2 == m);
            assert(fv == digits_val(s, a, m));
            assert(m - a == cnt);
            assert(frac_val(s, a, j as int) == digits_val(s, a, m) * pow10((3 - cnt) as nat));
            let p = pow10((3 - cnt) as nat) as int;
            if cnt == 0 {
                assert(p == 1000);
                assert(fv * p == fv * 1000) by (nonlinear_arith)
                    requires
                        p == 1000,
                ;
            } else if cnt == 1 {
                assert(p == 100);
                assert(fv * p == fv * 100) by (nonlinear_arith)
                    requires
                        p == 100,
                ;
            } else if cnt == 2 {
                assert(p == 10);
                assert(fv * p == fv * 10) by (nonlinear_arith)
                    requires
                        p == 10,
                ;
            } else {
                assert(p == 1);
                assert(fv * p == fv * 1) by (nonlinear_arith)
                    requires
                        p == 1,
                ;
            }
            assert(frac == fv * p);
            assert(frac == frac_val(s, a, j as int));
        }
    }
    let v = acc * 1000 + frac;
    proof {
        lemma_scan_num_all(s, start as int);
        lemma_spec_number_bound(s, start as int, j as int);
        assert(spec_number(s, start as int, j as int) matches Ok(u) && u == v);
    }
    (j, Ok(v))
}

/// Turns raw source bytes into the ordered token sequence the grammar is
/// parsed from, or reports the first lexical error with its 1-based line.
pub fn tokenize(source: &Vec<u8>) -> (r: Result<Vec<Token>, LexError>)
    ensures
        r matches Ok(ts) ==> spec_lex(source@) == Ok::<Seq<TokenV>, LexError>(view_tokens(ts@)),
        r matches Err(e) ==> spec_lex(source@) == Err::<Seq<TokenV>, LexError>(e),
{
    let ghost s = source@;
    let n = source.len();
    let mut toks: Vec<Token> = Vec::new();
    let mut i: usize = 0;
    let mut line: usize = 1;
    proof {
        assert(view_tokens(toks@) =~= Seq::<TokenV>::empty());
        lemma_prepend_empty(lex_from(s, 0, 1));
    }
    while i < n
        invariant
            i <= n,
            n == s.len(),
            s == source@,
            spec_lex(s) == prepend(view_tokens(toks@), lex_from(s, i as int, line)),
        decreases n - i,
    {
        let b = source[i];
        if b == 40 || b == 41 || b == 123 || b == 125 || b == 59 || b == 99 {
            let kind = if b == 40 {
                TokenKind::Oparen
            } else if b == 41 {
                TokenKind::Cparen
            } else if b == 123 {
                TokenKind::Ocurly
            } else if b == 125 {
                TokenKind::Ccurly
            } else if b == 59 {
                TokenKind::Semicolon
            } else {
                TokenKind::ColorDef
            };
            let ghost tv = TokenV { kind: kind@, line };
            proof {
                lemma_prepend_shift(view_tokens(toks@), tv, lex_from(s, i as int + 1, line));
                lemma_view_push(toks@, Token { kind, line });
            }
            toks.push(Token { kind, line });
            i += 1;
        } else if b == 32 || b == 13 || b == 44 {
            i += 1;
        } else if b == 10 {
            line = if line < usize::MAX {
                line + 1
            } else {
                line
            };
            i += 1;
        } else if b == 34 {
            let start = i + 1;
            let mut j: usize = start;
            while j < n && source[j] != 34
                invariant
                    start <= j <= n,
                    n == s.len(),
                    s == source@,
                    scan_text_end(s, start as int) == scan_text_end(s, j as int),
                decreases n - j,
            {
                j += 1;
            }
            proof {
                assert(scan_text_end(s, start as int) == j);
            }
            if j >= n {
                return Err(LexError { line, detail: LexDetail::UnterminatedString });
            }
            let mut content: Vec<u8> = Vec::new();
            let mut k: usize = start;
            while k < j
                invariant
                    start <= k <= j < n == s.len(),
                    s == source@,
                    content@ == s.subrange(start as int, k as int),
                decreases j - k,
            {
                content.push(source[k]);
                proof {
                    assert(content@ =~= s.subrange(start as int, k as int + 1));
                }
                k += 1;
            }
            let ghost tv = TokenV { kind: TokenKindV::Text(s.subrange(start as int, j as int)), line };
            proof {
                lemma_prepend_shift(view_tokens(toks@), tv, lex_from(s, j as int + 1, line));
                lemma_view_push(toks@, Token { kind: TokenKind::Text(content), line });
            }
            toks.push(Token { kind: TokenKind::Text(content), line });
            i = j + 1;
        } else if b == 45 {
            if i + 1 < n && source[i + 1] >= 48 && source[i + 1] <= 57 {
                let (e, res) = scan_number(source, i + 1);
                match res {
                    Ok(v) => {
                        let nv: i64 = -v;
                        let ghost tv = TokenV { kind: TokenKindV::Number((-(v as int)) as i64), line };
                        proof {
                            lemma_prepend_shift(view_tokens(toks@), tv, lex_from(s, e as int, line));
                            lemma_view_push(toks@, Token { kind: TokenKind::Number(nv), line });
                        }
                        toks.push(Token { kind: TokenKind::Number(nv), line });
                        i = e;
                    },
                    Err(d) => {
                        return Err(LexError { line, detail: d });
                    },
                }
            } else {
                return Err(LexError { line, detail: LexDetail::BareMinus });
            }
        } else if b == 118 {
            if i + 1 < n && source[i + 1] == 50 {
                let ghost tv = TokenV { kind: TokenKindV::Vector2Def, line };
                proof {
                    lemma_prepend_shift(view_tokens(toks@), tv, lex_from(s, i as int + 2, line));
                    lemma_view_push(toks@, Token { kind: TokenKind::Vector2Def, line });
                }
                toks.push(Token { kind: TokenKind::Vector2Def, line });
                i += 2;
            } else {
                return Err(LexError { line, detail: LexDetail::BadVectorMarker });
            }
        } else if b >= 48 && b <= 57 {
            let (e, res) = scan_number(source, i);
            match res {
                Ok(v) => {
                    let ghost tv = TokenV { kind: TokenKindV::Number(v), line };
                    proof {
                        lemma_prepend_shift(view_tokens(toks@), tv, lex_from(s, e as int, line));
                        lemma_view_push(toks@, Token { kind: TokenKind::Number(v), line });
                    }
                    toks.push(Token { kind: TokenKind::Number(v), line });
                    i = e;
                },
                Err(d) => {
                    return Err(LexError { line, detail: d });
                },
            }
        } else if (b >= 65 && b <= 90) || (b >= 97 && b <= 122) {
            let mut j: usize = i;
            while j < n && ((source[j] >= 65 && source[j] <= 90) || (source[j] >= 97 && source[j]
                <= 122))
                invariant
                    i <= j <= n,
                    n == s.len(),
                    s == source@,
                    scan_alpha_end(s, i as int) == scan_alpha_end(s, j as int),
                decreases n - j,
            {
                j += 1;
            }
            proof {
                assert(scan_alpha_end(s, i as int) == j);
                assert(j > i) by {
                    lemma_scan_bounds(s, i as int + 1);
                    assert(scan_alpha_end(s, i as int) == scan_alpha_end(s, i as int + 1));
                }
            }
            match match_word(source, i, j) {
                Some(kind) => {
                    let ghost tv = TokenV { kind: kind@, line };
                    proof {
                        lemma_prepend_shift(view_tokens(toks@), tv, lex_from(s, j as int, line));
                        lemma_view_push(toks@, Token { kind, line });
                    }
                    toks.push(Token { kind, line });
                    i = j;
                },
                None => {
                    return Err(LexError { line, detail: LexDetail::UnknownIdentifier });
                },
            }
        } else {
            return Err(LexError { line, detail: LexDetail::UnexpectedByte(b) });
        }
    }
    proof {
        assert(view_tokens(toks@) + Seq::<TokenV>::empty() =~= view_tokens(toks@));
    }
    Ok(toks)
}

} // verus!
