//! The lexer: classifies raw bytes into tokens by longest-match scanning.
//!
//! `find_token` inspects the byte at a position and greedily extends the
//! token (multi-character operators win over their single-character
//! prefixes, numeric literals fold an optional integer-width suffix into
//! their length, string-like literals run to a closing quote on the same
//! line).  Unrecognized bytes and unterminated string literals lex as an
//! `ERROR` token of length one, so that lexing never fails and always
//! covers the whole input.

use vstd::prelude::*;
use vstd::slice::slice_subrange;
use crate::syntax_kind::SyntaxKind;

verus! {

pub open spec fn is_ws_byte(b: u8) -> bool {
    b == ' ' as u8 || b == '\n' as u8 || b == '\t' as u8
}

pub open spec fn is_digit_byte(b: u8) -> bool {
    '0' as u8 <= b && b <= '9' as u8
}

pub open spec fn is_hex_byte(b: u8) -> bool {
    is_digit_byte(b) || ('a' as u8 <= b && b <= 'f' as u8) || ('A' as u8 <= b && b <= 'F' as u8)
}

pub open spec fn is_name_start_byte(b: u8) -> bool {
    ('a' as u8 <= b && b <= 'z' as u8) || ('A' as u8 <= b && b <= 'Z' as u8) || b == '_' as u8
}

pub open spec fn is_name_byte(b: u8) -> bool {
    is_name_start_byte(b) || is_digit_byte(b)
}

/// Length of the maximal run of whitespace bytes starting at `pos`.
pub open spec fn ws_run(text: Seq<u8>, pos: int) -> int
    decreases text.len() - pos,
{
    if pos < 0 || pos >= text.len() || !is_ws_byte(text[pos]) {
        0
    } else {
        1 + ws_run(text, pos + 1)
    }
}

/// Length of the maximal run of decimal digits starting at `pos`.
pub open spec fn digit_run(text: Seq<u8>, pos: int) -> int
    decreases text.len() - pos,
{
    if pos < 0 || pos >= text.len() || !is_digit_byte(text[pos]) {
        0
    } else {
        1 + digit_run(text, pos + 1)
    }
}

/// Length of the maximal run of hexadecimal digits starting at `pos`.
pub open spec fn hex_run(text: Seq<u8>, pos: int) -> int
    decreases text.len() - pos,
{
    if pos < 0 || pos >= text.len() || !is_hex_byte(text[pos]) {
        0
    } else {
        1 + hex_run(text, pos + 1)
    }
}

/// Length of the maximal run of identifier bytes starting at `pos`.
pub open spec fn name_run(text: Seq<u8>, pos: int) -> int
    decreases text.len() - pos,
{
    if pos < 0 || pos >= text.len() || !is_name_byte(text[pos]) {
        0
    } else {
        1 + name_run(text, pos + 1)
    }
}

/// Length of an integer-width suffix (`u8`, `u64`, `u128`) at `pos`, or 0.
pub open spec fn suffix_len(text: Seq<u8>, pos: int) -> int {
    if text.len() - pos >= 2 && text[pos] == 'u' as u8 && text[pos + 1] == '8' as u8 {
        2
    } else if text.len() - pos >= 3 && text[pos] == 'u' as u8 && text[pos + 1] == '6' as u8
        && text[pos + 2] == '4' as u8 {
        3
    } else if text.len() - pos >= 4 && text[pos] == 'u' as u8 && text[pos + 1] == '1' as u8
        && text[pos + 2] == '2' as u8 && text[pos + 3] == '8' as u8 {
        4
    } else {
        0
    }
}

/// Offset of the closing quote of a string-like literal scanned from `pos`,
/// honouring backslash escapes, or `None` if the line ends first.
pub open spec fn string_close(text: Seq<u8>, pos: int) -> Option<int>
    decreases text.len() - pos,
{
    if pos < 0 || pos >= text.len() || text[pos] == '\n' as u8 {
        None
    } else if text[pos] == '"' as u8 {
        Some(0)
    } else if text[pos] == '\\' as u8 && pos + 1 < text.len() && text[pos + 1] != '\n' as u8 {
        match string_close(text, pos + 2) {
            Some(k) => Some(k + 2),
            None => None,
        }
    } else {
        match string_close(text, pos + 1) {
            Some(k) => Some(k + 1),
            None => None,
        }
    }
}

/// What `find_token` returns: the kind and byte length of the token that
/// starts at `pos`.  At the end of the text the token is `(EOF, 0)`.
pub open spec fn find_token_spec(text: Seq<u8>, pos: int) -> (SyntaxKind, int) {
    if pos >= text.len() {
        (SyntaxKind::EOF, 0)
    } else {
        let c = text[pos];
        if is_ws_byte(c) {
            (SyntaxKind::WHITESPACE, ws_run(text, pos))
        } else if is_digit_byte(c) {
            if c == '0' as u8 && text.len() - pos > 2 && text[pos + 1] == 'x' as u8 {
                let h = hex_run(text, pos + 2);
                let hl = h + suffix_len(text, pos + 2 + h);
                if hl == 0 {
                    (SyntaxKind::INTEGER_NUMBER, 1)
                } else {
                    (SyntaxKind::INTEGER_NUMBER, 2 + hl)
                }
            } else {
                let d = digit_run(text, pos);
                (SyntaxKind::INTEGER_NUMBER, d + suffix_len(text, pos + d))
            }
        } else if is_name_start_byte(c) {
            if (c == 'x' as u8 || c == 'b' as u8) && pos + 1 < text.len()
                && text[pos + 1] == '"' as u8 {
                match string_close(text, pos + 2) {
                    Some(k) => (SyntaxKind::BYTE_STRING, 2 + k + 1),
                    None => (SyntaxKind::ERROR, 1),
                }
            } else {
                let n = name_run(text, pos);
                match SyntaxKind::keyword_kind(text.subrange(pos, pos + n)) {
                    Some(kw) => (kw, n),
                    None => (SyntaxKind::IDENT, n),
                }
            }
        } else if c == '&' as u8 {
            if text.len() - pos >= 4 && text[pos + 1] == 'm' as u8 && text[pos + 2] == 'u' as u8
                && text[pos + 3] == 't' as u8 {
                (SyntaxKind::AMP_MUT, 4)
            } else if text.len() - pos >= 2 && text[pos + 1] == '&' as u8 {
                (SyntaxKind::AMP_AMP, 2)
            } else {
                (SyntaxKind::AMP, 1)
            }
        } else if c == '|' as u8 {
            if text.len() - pos >= 2 && text[pos + 1] == '|' as u8 {
                (SyntaxKind::PIPE_PIPE, 2)
            } else {
                (SyntaxKind::PIPE, 1)
            }
        } else if c == '=' as u8 {
            if text.len() - pos >= 3 && text[pos + 1] == '=' as u8 && text[pos + 2] == '>' as u8 {
                (SyntaxKind::EQ_EQ_GT, 3)
            } else if text.len() - pos >= 2 && text[pos + 1] == '=' as u8 {
                (SyntaxKind::EQ_EQ, 2)
            } else {
                (SyntaxKind::EQ, 1)
            }
        } else if c == '!' as u8 {
            if text.len() - pos >= 2 && text[pos + 1] == '=' as u8 {
                (SyntaxKind::BANG_EQ, 2)
            } else {
                (SyntaxKind::BANG, 1)
            }
        } else if c == '<' as u8 {
            if text.len() - pos >= 4 && text[pos + 1] == '=' as u8 && text[pos + 2] == '=' as u8
                && text[pos + 3] == '>' as u8 {
                (SyntaxKind::LT_EQ_EQ_GT, 4)
            } else if text.len() - pos >= 2 && text[pos + 1] == '=' as u8 {
                (SyntaxKind::LT_EQ, 2)
            } else if text.len() - pos >= 2 && text[pos + 1] == '<' as u8 {
                (SyntaxKind::LT_LT, 2)
            } else {
                (SyntaxKind::LT, 1)
            }
        } else if c == '>' as u8 {
            if text.len() - pos >= 2 && text[pos + 1] == '=' as u8 {
                (SyntaxKind::GT_EQ, 2)
            } else if text.len() - pos >= 2 && text[pos + 1] == '>' as u8 {
                (SyntaxKind::GT_GT, 2)
            } else {
                (SyntaxKind::GT, 1)
            }
        } else if c == ':' as u8 {
            if text.len() - pos >= 2 && text[pos + 1] == ':' as u8 {
                (SyntaxKind::COLON_COLON, 2)
            } else {
                (SyntaxKind::COLON, 1)
            }
        } else if c == '.' as u8 {
            if text.len() - pos >= 2 && text[pos + 1] == '.' as u8 {
                (SyntaxKind::DOTDOT, 2)
            } else {
                (SyntaxKind::DOT, 1)
            }
        } else if c == '%' as u8 {
            (SyntaxKind::MOD, 1)
        } else if c == '(' as u8 {
            (SyntaxKind::L_PAREN, 1)
        } else if c == ')' as u8 {
            (SyntaxKind::R_PAREN, 1)
        } else if c == '[' as u8 {
            (SyntaxKind::L_BRACK, 1)
        } else if c == ']' as u8 {
            (SyntaxKind::R_BRACK, 1)
        } else if c == '*' as u8 {
            (SyntaxKind::STAR, 1)
        } else if c == '+' as u8 {
            (SyntaxKind::PLUS, 1)
        } else if c == ',' as u8 {
            (SyntaxKind::COMMA, 1)
        } else if c == '-' as u8 {
            (SyntaxKind::MINUS, 1)
        } else if c == '/' as u8 {
            (SyntaxKind::SLASH, 1)
        } else if c == ';' as u8 {
            (SyntaxKind::SEMICOLON, 1)
        } else if c == '^' as u8 {
            (SyntaxKind::CARET, 1)
        } else if c == '{' as u8 {
            (SyntaxKind::L_BRACE, 1)
        } else if c == '}' as u8 {
            (SyntaxKind::R_BRACE, 1)
        } else if c == '#' as u8 {
            (SyntaxKind::NUMSIGN, 1)
        } else if c == '@' as u8 {
            (SyntaxKind::ATSIGN, 1)
        } else {
            (SyntaxKind::ERROR, 1)
        }
    }
}

proof fn lemma_ws_run_bound(text: Seq<u8>, pos: int)
    requires
        0 <= pos <= text.len(),
    ensures
        0 <= ws_run(text, pos) <= text.len() - pos,
        pos < text.len() && is_ws_byte(text[pos]) ==> ws_run(text, pos) >= 1,
    decreases text.len() - pos,
{
    if pos < text.len() && is_ws_byte(text[pos]) {
        lemma_ws_run_bound(text, pos + 1);
    }
}

proof fn lemma_digit_run_bound(text: Seq<u8>, pos: int)
    requires
        0 <= pos <= text.len(),
    ensures
        0 <= digit_run(text, pos) <= text.len() - pos,
        pos < text.len() && is_digit_byte(text[pos]) ==> digit_run(text, pos) >= 1,
    decreases text.len() - pos,
{
    if pos < text.len() && is_digit_byte(text[pos]) {
        lemma_digit_run_bound(text, pos + 1);
    }
}

proof fn lemma_hex_run_bound(text: Seq<u8>, pos: int)
    requires
        0 <= pos <= text.len(),
    ensures
        0 <= hex_run(text, pos) <= text.len() - pos,
        pos < text.len() && is_hex_byte(text[pos]) ==> hex_run(text, pos) >= 1,
    decreases text.len() - pos,
{
    if pos < text.len() && is_hex_byte(text[pos]) {
        lemma_hex_run_bound(text, pos + 1);
    }
}

proof fn lemma_name_run_bound(text: Seq<u8>, pos: int)
    requires
        0 <= pos <= text.len(),
    ensures
        0 <= name_run(text, pos) <= text.len() - pos,
        pos < text.len() && is_name_byte(text[pos]) ==> name_run(text, pos) >= 1,
    decreases text.len() - pos,
{
    if pos < text.len() && is_name_byte(text[pos]) {
        lemma_name_run_bound(text, pos + 1);
    }
}

proof fn lemma_string_close_bound(text: Seq<u8>, pos: int)
    requires
        0 <= pos <= text.len(),
    ensures
        string_close(text, pos) matches Some(k) ==> 0 <= k && pos + k < text.len(),
    decreases text.len() - pos,
{
    if pos < text.len() && text[pos] != '\n' as u8 && text[pos] != '"' as u8 {
        if text[pos] == '\\' as u8 && pos + 1 < text.len() && text[pos + 1] != '\n' as u8 {
            lemma_string_close_bound(text, pos + 2);
        } else {
            lemma_string_close_bound(text, pos + 1);
        }
    }
}

/// Everything the rest of the pipeline needs to know about one lexed token:
/// the scan stays inside the text, makes progress off the end-of-text case,
/// and uses the sentinels only as designed.
pub proof fn lemma_find_token_props(text: Seq<u8>, pos: int)
    requires
        0 <= pos <= text.len(),
    ensures
        ({
            let (kind, len) = find_token_spec(text, pos);
            &&& pos + len <= text.len()
            &&& (pos < text.len() ==> 1 <= len && !(kind is EOF))
            &&& (pos == text.len() ==> kind is EOF && len == 0)
            &&& !(kind is TOMBSTONE)
            &&& (kind.is_trivia_spec() <==> pos < text.len() && is_ws_byte(text[pos]))
        }),
{
    if pos < text.len() {
        let c = text[pos];
        lemma_ws_run_bound(text, pos);
        lemma_digit_run_bound(text, pos);
        lemma_name_run_bound(text, pos);
        if pos + 2 <= text.len() {
            lemma_hex_run_bound(text, pos + 2);
            lemma_string_close_bound(text, pos + 2);
        }
        if is_digit_byte(c) {
            if c == '0' as u8 && text.len() - pos > 2 && text[pos + 1] == 'x' as u8 {
                let h = hex_run(text, pos + 2);
                assert(suffix_len(text, pos + 2 + h) >= 0);
                assert(pos + 2 + h + suffix_len(text, pos + 2 + h) <= text.len());
            } else {
                let d = digit_run(text, pos);
                assert(d >= 1);
                assert(pos + d + suffix_len(text, pos + d) <= text.len());
            }
        }
        if is_name_start_byte(c) && !((c == 'x' as u8 || c == 'b' as u8) && pos + 1 < text.len()
            && text[pos + 1] == '"' as u8) {
            let n = name_run(text, pos);
            assert(n >= 1);
            crate::syntax_kind::reveal_all_keywords();
            let sub = text.subrange(pos, pos + n);
            let kk = SyntaxKind::keyword_kind(sub);
            assert(kk matches Some(kw) ==> !(kw is EOF) && !(kw is TOMBSTONE)
                && !kw.is_trivia_spec());
        }
    }
}

fn is_ws_b(b: u8) -> (r: bool)
    ensures
        r == is_ws_byte(b),
{
    b == ' ' as u8 || b == '\n' as u8 || b == '\t' as u8
}

fn is_digit_b(b: u8) -> (r: bool)
    ensures
        r == is_digit_byte(b),
{
    '0' as u8 <= b && b <= '9' as u8
}

fn is_hex_b(b: u8) -> (r: bool)
    ensures
        r == is_hex_byte(b),
{
    is_digit_b(b) || ('a' as u8 <= b && b <= 'f' as u8) || ('A' as u8 <= b && b <= 'F' as u8)
}

fn is_name_start_b(b: u8) -> (r: bool)
    ensures
        r == is_name_start_byte(b),
{
    ('a' as u8 <= b && b <= 'z' as u8) || ('A' as u8 <= b && b <= 'Z' as u8) || b == '_' as u8
}

fn is_name_b(b: u8) -> (r: bool)
    ensures
        r == is_name_byte(b),
{
    is_name_start_b(b) || is_digit_b(b)
}

fn scan_ws(text: &[u8], pos: usize) -> (r: usize)
    requires
        pos <= text@.len(),
    ensures
        r as int == ws_run(text@, pos as int),
        pos + r <= text@.len(),
{
    let mut i: usize = pos;
    while i < text.len() && is_ws_b(text[i])
        invariant
            pos <= i <= text@.len(),
            ws_run(text@, pos as int) == (i - pos) + ws_run(text@, i as int),
        decreases text@.len() - i,
    {
        i = i + 1;
    }
    i - pos
}

fn scan_digits(text: &[u8], pos: usize) -> (r: usize)
    requires
        pos <= text@.len(),
    ensures
        r as int == digit_run(text@, pos as int),
        pos + r <= text@.len(),
{
    let mut i: usize = pos;
    while i < text.len() && is_digit_b(text[i])
        invariant
            pos <= i <= text@.len(),
            digit_run(text@, pos as int) == (i - pos) + digit_run(text@, i as int),
        decreases text@.len() - i,
    {
        i = i + 1;
    }
    i - pos
}

fn scan_hex(text: &[u8], pos: usize) -> (r: usize)
    requires
        pos <= text@.len(),
    ensures
        r as int == hex_run(text@, pos as int),
        pos + r <= text@.len(),
{
    let mut i: usize = pos;
    while i < text.len() && is_hex_b(text[i])
        invariant
            pos <= i <= text@.len(),
            hex_run(text@, pos as int) == (i - pos) + hex_run(text@, i as int),
        decreases text@.len() - i,
    {
        i = i + 1;
    }
    i - pos
}

fn get_name_len(text: &[u8], pos: usize) -> (r: usize)
    requires
        pos <= text@.len(),
    ensures
        r as int == name_run(text@, pos as int),
        pos + r <= text@.len(),
{
    let mut i: usize = pos;
    while i < text.len() && is_name_b(text[i])
        invariant
            pos <= i <= text@.len(),
            name_run(text@, pos as int) == (i - pos) + name_run(text@, i as int),
        decreases text@.len() - i,
    {
        i = i + 1;
    }
    i - pos
}

fn scan_suffix(text: &[u8], pos: usize) -> (r: usize)
    requires
        pos <= text@.len(),
    ensures
        r as int == suffix_len(text@, pos as int),
        pos + r <= text@.len(),
{
    if text.len() - pos >= 2 && text[pos] == 'u' as u8 && text[pos + 1] == '8' as u8 {
        2
    } else if text.len() - pos >= 3 && text[pos] == 'u' as u8 && text[pos + 1] == '6' as u8
        && text[pos + 2] == '4' as u8 {
        3
    } else if text.len() - pos >= 4 && text[pos] == 'u' as u8 && text[pos + 1] == '1' as u8
        && text[pos + 2] == '2' as u8 && text[pos + 3] == '8' as u8 {
        4
    } else {
        0
    }
}

fn get_string_len(text: &[u8], pos: usize) -> (r: Option<usize>)
    requires
        pos <= text@.len(),
    ensures
        match r {
            Some(k) => string_close(text@, pos as int) == Some(k as int) && pos + k
                < text@.len(),
            None => string_close(text@, pos as int) is None,
        },
{
    let mut i: usize = pos;
    loop
        invariant
            pos <= i <= text@.len(),
            string_close(text@, pos as int) == (match string_close(text@, i as int) {
                Some(k) => Some(k + (i - pos)),
                None => None::<int>,
            }),
        ensures
            match string_close(text@, i as int) {
                Some(k) => k == 0 && i < text@.len() && text@[i as int] == '"' as u8,
                None => true,
            },
            string_close(text@, pos as int) == (match string_close(text@, i as int) {
                Some(k) => Some(k + (i - pos)),
                None => None::<int>,
            }),
            pos <= i <= text@.len(),
        decreases text@.len() - i,
    {
        if i >= text.len() || text[i] == '\n' as u8 {
            break;
        }
        if text[i] == '"' as u8 {
            break;
        }
        if text[i] == '\\' as u8 && i + 1 < text.len() && text[i + 1] != '\n' as u8 {
            i = i + 2;
        } else {
            i = i + 1;
        }
    }
    if i < text.len() && text[i] == '"' as u8 && !(text[i] == '\n' as u8) {
        Some(i - pos)
    } else {
        None
    }
}

/// Finds the kind and byte length of the token starting at `pos`, without
/// changing any state.  At the end of the text this is `(EOF, 0)`.
pub fn find_token(text: &[u8], pos: usize) -> (r: (SyntaxKind, usize))
    requires
        pos <= text@.len(),
    ensures
        ({
            let (kind, len) = r;
            (kind, len as int) == find_token_spec(text@, pos as int)
        }),
{
    if pos >= text.len() {
        return (SyntaxKind::EOF, 0);
    }
    let c = text[pos];
    if is_ws_b(c) {
        let n = scan_ws(text, pos);
        (SyntaxKind::WHITESPACE, n)
    } else if is_digit_b(c) {
        if c == '0' as u8 && text.len() - pos > 2 && text[pos + 1] == 'x' as u8 {
            let h = scan_hex(text, pos + 2);
            let sfx = scan_suffix(text, pos + 2 + h);
            let hl = h + sfx;
            if hl == 0 {
                (SyntaxKind::INTEGER_NUMBER, 1)
            } else {
                (SyntaxKind::INTEGER_NUMBER, 2 + hl)
            }
        } else {
            let d = scan_digits(text, pos);
            let sfx = scan_suffix(text, pos + d);
            (SyntaxKind::INTEGER_NUMBER, d + sfx)
        }
    } else if is_name_start_b(c) {
        if (c == 'x' as u8 || c == 'b' as u8) && text.len() - pos > 1 && text[pos + 1] == '"' as u8
        {
            match get_string_len(text, pos + 2) {
                Some(k) => (SyntaxKind::BYTE_STRING, 2 + k + 1),
                None => (SyntaxKind::ERROR, 1),
            }
        } else {
            let n = get_name_len(text, pos);
            let ident = slice_subrange(text, pos, pos + n);
            match SyntaxKind::from_keyword(ident) {
                Some(kw) => (kw, n),
                None => (SyntaxKind::IDENT, n),
            }
        }
    } else if c == '&' as u8 {
        if text.len() - pos >= 4 && text[pos + 1] == 'm' as u8 && text[pos + 2] == 'u' as u8
            && text[pos + 3] == 't' as u8 {
            (SyntaxKind::AMP_MUT, 4)
        } else if text.len() - pos >= 2 && text[pos + 1] == '&' as u8 {
            (SyntaxKind::AMP_AMP, 2)
        } else {
            (SyntaxKind::AMP, 1)
        }
    } else if c == '|' as u8 {
        if text.len() - pos >= 2 && text[pos + 1] == '|' as u8 {
            (SyntaxKind::PIPE_PIPE, 2)
        } else {
            (SyntaxKind::PIPE, 1)
        }
    } else if c == '=' as u8 {
        if text.len() - pos >= 3 && text[pos + 1] == '=' as u8 && text[pos + 2] == '>' as u8 {
            (SyntaxKind::EQ_EQ_GT, 3)
        } else if text.len() - pos >= 2 && text[pos + 1] == '=' as u8 {
            (SyntaxKind::EQ_EQ, 2)
        } else {
            (SyntaxKind::EQ, 1)
        }
    } else if c == '!' as u8 {
        if text.len() - pos >= 2 && text[pos + 1] == '=' as u8 {
            (SyntaxKind::BANG_EQ, 2)
        } else {
            (SyntaxKind::BANG, 1)
        }
    } else if c == '<' as u8 {
        if text.len() - pos >= 4 && text[pos + 1] == '=' as u8 && text[pos + 2] == '=' as u8
            && text[pos + 3] == '>' as u8 {
            (SyntaxKind::LT_EQ_EQ_GT, 4)
        } else if text.len() - pos >= 2 && text[pos + 1] == '=' as u8 {
            (SyntaxKind::LT_EQ, 2)
        } else if text.len() - pos >= 2 && text[pos + 1] == '<' as u8 {
            (SyntaxKind::LT_LT, 2)
        } else {
            (SyntaxKind::LT, 1)
        }
    } else if c == '>' as u8 {
        if text.len() - pos >= 2 && text[pos + 1] == '=' as u8 {
            (SyntaxKind::GT_EQ, 2)
        } else if text.len() - pos >= 2 && text[pos + 1] == '>' as u8 {
            (SyntaxKind::GT_GT, 2)
        } else {
            (SyntaxKind::GT, 1)
        }
    } else if c == ':' as u8 {
        if text.len() - pos >= 2 && text[pos + 1] == ':' as u8 {
            (SyntaxKind::COLON_COLON, 2)
        } else {
            (SyntaxKind::COLON, 1)
        }
    } else if c == '.' as u8 {
        if text.len() - pos >= 2 && text[pos + 1] == '.' as u8 {
            (SyntaxKind::DOTDOT, 2)
        } else {
            (SyntaxKind::DOT, 1)
        }
    } else if c == '%' as u8 {
        (SyntaxKind::MOD, 1)
    } else if c == '(' as u8 {
        (SyntaxKind::L_PAREN, 1)
    } else if c == ')' as u8 {
        (SyntaxKind::R_PAREN, 1)
    } else if c == '[' as u8 {
        (SyntaxKind::L_BRACK, 1)
    } else if c == ']' as u8 {
        (SyntaxKind::R_BRACK, 1)
    } else if c == '*' as u8 {
        (SyntaxKind::STAR, 1)
    } else if c == '+' as u8 {
        (SyntaxKind::PLUS, 1)
    } else if c == ',' as u8 {
        (SyntaxKind::COMMA, 1)
    } else if c == '-' as u8 {
        (SyntaxKind::MINUS, 1)
    } else if c == '/' as u8 {
        (SyntaxKind::SLASH, 1)
    } else if c == ';' as u8 {
        (SyntaxKind::SEMICOLON, 1)
    } else if c == '^' as u8 {
        (SyntaxKind::CARET, 1)
    } else if c == '{' as u8 {
        (SyntaxKind::L_BRACE, 1)
    } else if c == '}' as u8 {
        (SyntaxKind::R_BRACE, 1)
    } else if c == '#' as u8 {
        (SyntaxKind::NUMSIGN, 1)
    } else if c == '@' as u8 {
        (SyntaxKind::ATSIGN, 1)
    } else {
        (SyntaxKind::ERROR, 1)
    }
}

/// A token: its kind and its byte length.
#[derive(Clone, Copy, PartialEq, Eq, Structural, Debug, Hash)]
pub struct Token {
    pub kind: SyntaxKind,
    pub len: usize,
}

impl Token {
    pub fn new(kind: SyntaxKind, len: usize) -> (t: Token)
        ensures
            t.kind == kind && t.len == len,
    {
        Token { kind, len }
    }
}

/// The total byte length of a sequence of tokens.
pub open spec fn lens_sum(toks: Seq<Token>) -> int
    decreases toks.len(),
{
    if toks.len() == 0 {
        0
    } else {
        lens_sum(toks.drop_last()) + toks.last().len
    }
}

proof fn lemma_lens_sum_push(toks: Seq<Token>, t: Token)
    ensures
        lens_sum(toks.push(t)) == lens_sum(toks) + t.len,
{
    assert(toks.push(t).drop_last() =~= toks);
    assert(toks.push(t).last() == t);
}

/// Token lengths are non-negative, so every prefix sum is too.
pub proof fn lemma_lens_sum_nonneg(toks: Seq<Token>)
    ensures
        lens_sum(toks) >= 0,
    decreases toks.len(),
{
    if toks.len() > 0 {
        lemma_lens_sum_nonneg(toks.drop_last());
    }
}

/// Taking one more token adds exactly its length.
pub proof fn lemma_lens_sum_take_succ(toks: Seq<Token>, c: int)
    requires
        0 <= c < toks.len(),
    ensures
        lens_sum(toks.take(c + 1)) == lens_sum(toks.take(c)) + toks[c].len,
{
    assert(toks.take(c + 1).drop_last() =~= toks.take(c));
    assert(toks.take(c + 1).last() == toks[c]);
}

/// A prefix never sums to more than the whole.
pub proof fn lemma_lens_sum_take_bound(toks: Seq<Token>, c: int)
    requires
        0 <= c <= toks.len(),
    ensures
        lens_sum(toks.take(c)) <= lens_sum(toks),
    decreases toks.len() - c,
{
    if c < toks.len() {
        lemma_lens_sum_take_succ(toks, c);
        lemma_lens_sum_take_bound(toks, c + 1);
    } else {
        assert(toks.take(c) =~= toks);
    }
}

/// The lexer: scans tokens on demand from a byte buffer.  A fresh lexer
/// holds the first raw token of the text, which may be trivia; `bump`
/// then always advances to a semantic token or `EOF`, absorbing trivia
/// into the retained history.  Every scanned token (trivia included) is
/// retained in order in `all_tokens` for later replay by the tree sink.
pub struct Lexer {
    pub text: Vec<u8>,
    pub cur_start: usize,
    pub cur_end: usize,
    pub token: Token,
    pub all_tokens: Vec<Token>,
}

impl Lexer {
    /// The retained token history exactly tiles `text[0 .. cur_end]`, the
    /// current token is its last entry, and the `EOF` sentinel appears
    /// exactly when the whole text has been scanned.
    pub open spec fn wf(self) -> bool {
        &&& self.cur_start <= self.cur_end <= self.text@.len()
        &&& self.all_tokens@.len() >= 1
        &&& self.all_tokens@.last() == self.token
        &&& lens_sum(self.all_tokens@) == self.cur_end
        &&& self.token.len == self.cur_end - self.cur_start
        &&& (self.token.kind is EOF <==> self.cur_start == self.text@.len())
        &&& (!(self.token.kind is EOF) ==> self.token.len >= 1)
        &&& (forall|i: int|
            0 <= i < self.all_tokens@.len() ==> !(#[trigger] self.all_tokens@[i].kind
                is TOMBSTONE))
        &&& (forall|i: int|
            0 <= i < self.all_tokens@.len() - 1 ==> !(#[trigger] self.all_tokens@[i].kind is EOF))
    }

    /// Bytes not yet consumed, counting from the start of the current token;
    /// the measure that shows every parser loop terminates.
    pub open spec fn remaining(self) -> int {
        self.text@.len() - self.cur_start
    }

    pub open spec fn text_view(self) -> Seq<u8> {
        self.text@
    }

    /// A fresh lexer holds the first raw token of the text — possibly a
    /// trivia token — and exactly that one token in its history.
    pub fn new(text: &[u8]) -> (l: Lexer)
        ensures
            l.wf(),
            l.text_view() == text@,
            l.cur_start == 0,
            (l.token.kind, l.token.len as int) == find_token_spec(text@, 0),
            l.all_tokens@ =~= seq![l.token],
    {
        let text_v: Vec<u8> = slice_to_vec_u8(text);
        let (kind, len) = find_token(&text_v, 0);
        proof {
            lemma_find_token_props(text_v@, 0);
            assert(text_v@.len() == text_v.len());
        }
        let token = Token::new(kind, len);
        let mut all_tokens: Vec<Token> = Vec::new();
        proof {
            lemma_lens_sum_push(all_tokens@, token);
        }
        all_tokens.push(token);
        Lexer { text: text_v, cur_start: 0, cur_end: len, token, all_tokens }
    }

    /// The already-computed current token.
    pub fn current(&self) -> (t: Token)
        ensures
            t == self.token,
    {
        self.token
    }

    pub open spec fn spec_current(self) -> Token {
        self.token
    }

    pub fn peek(&self) -> (t: Token)
        ensures
            t == self.token,
    {
        self.token
    }

    /// The token `n` positions past the current one, computed by re-scanning
    /// from the current end offset without trimming anything: intervening
    /// trivia becomes the lookahead token itself.
    pub open spec fn lookahead_spec(self, n: int) -> Token {
        if n == 0 {
            self.token
        } else {
            let (k1, l1) = find_token_spec(self.text@, self.cur_end as int);
            if n == 1 {
                Token { kind: k1, len: l1 as usize }
            } else {
                let (k2, l2) = find_token_spec(self.text@, self.cur_end + l1);
                Token { kind: k2, len: l2 as usize }
            }
        }
    }

    /// Look ahead to the next token after the current one without advancing
    /// the state of the lexer.
    pub fn lookahead(&self) -> (t: Token)
        requires
            self.wf(),
        ensures
            t == self.lookahead_spec(1),
    {
        let (kind, len) = find_token(&self.text, self.cur_end);
        Token::new(kind, len)
    }

    /// Look ahead to the next two tokens after the current one without
    /// advancing the state of the lexer.
    pub fn lookahead_2(&self) -> (r: (Token, Token))
        requires
            self.wf(),
        ensures
            r.0 == self.lookahead_spec(1),
            r.1 == self.lookahead_spec(2),
    {
        let (k1, l1) = find_token(&self.text, self.cur_end);
        proof {
            lemma_find_token_props(self.text@, self.cur_end as int);
            assert(self.text@.len() == self.text.len());
        }
        let (k2, l2) = find_token(&self.text, self.cur_end + l1);
        (Token::new(k1, l1), Token::new(k2, l2))
    }

    pub fn lookahead_nth(&self, n: usize) -> (t: Token)
        requires
            self.wf(),
            n <= 2,
        ensures
            t == self.lookahead_spec(n as int),
    {
        if n == 0 {
            self.current()
        } else if n == 1 {
            self.lookahead()
        } else {
            self.lookahead_2().1
        }
    }

    /// Advances past the current token, absorbing any following trivia into
    /// the retained history, so that the new current token is a semantic
    /// token or `EOF`.  At `EOF` this is a no-op.  Every token appended is
    /// exactly what `find_token_spec` yields scanning from the old end
    /// offset: first each trivia token individually, then the first
    /// non-trivia (or `EOF`) token, which becomes current.
    pub fn bump(&mut self)
        requires
            old(self).wf(),
        ensures
            final(self).wf(),
            final(self).text_view() == old(self).text_view(),
            old(self).spec_current().kind is EOF ==> *final(self) == *old(self),
            !(old(self).spec_current().kind is EOF) ==> {
                let app = final(self).all_tokens@.skip(old(self).all_tokens@.len() as int);
                &&& final(self).remaining() < old(self).remaining()
                &&& old(self).all_tokens@.is_prefix_of(final(self).all_tokens@)
                &&& app.len() >= 1
                &&& app.last() == final(self).token
                &&& !final(self).token.kind.is_trivia_spec()
                &&& (forall|k: int|
                    0 <= k < app.len() - 1 ==> (#[trigger] app[k].kind).is_trivia_spec())
                &&& (forall|k: int|
                    0 <= k < app.len() ==> ((#[trigger] app[k]).kind, app[k].len as int)
                        == find_token_spec(
                        old(self).text@,
                        old(self).cur_end + lens_sum(app.take(k)),
                    ))
            },
    {
        if self.token.kind == SyntaxKind::EOF {
            return;
        }
        let ghost old_all = self.all_tokens@;
        let ghost base = self.cur_end as int;
        let mut pos: usize = self.cur_end;
        proof {
            assert(self.all_tokens@.skip(old_all.len() as int) =~= Seq::<Token>::empty());
        }
        loop
            invariant
                self.cur_end <= pos <= self.text@.len(),
                lens_sum(self.all_tokens@) == pos,
                self.all_tokens@.len() >= 1,
                old_all.is_prefix_of(self.all_tokens@),
                forall|i: int|
                    0 <= i < self.all_tokens@.len() ==> !(#[trigger] self.all_tokens@[i].kind
                        is TOMBSTONE),
                forall|i: int|
                    0 <= i < self.all_tokens@.len() ==> !(#[trigger] self.all_tokens@[i].kind
                        is EOF),
                self.text@ == old(self).text@,
                self.cur_start == old(self).cur_start,
                self.cur_end == old(self).cur_end,
                self.token == old(self).token,
                base == old(self).cur_end as int,
                ({
                    let app = self.all_tokens@.skip(old_all.len() as int);
                    &&& pos == base + lens_sum(app)
                    &&& (forall|k: int|
                        0 <= k < app.len() ==> (#[trigger] app[k].kind).is_trivia_spec())
                    &&& (forall|k: int|
                        0 <= k < app.len() ==> ((#[trigger] app[k]).kind, app[k].len as int)
                            == find_token_spec(self.text@, base + lens_sum(app.take(k))))
                }),
            ensures
                self.cur_end <= pos <= self.text@.len(),
                lens_sum(self.all_tokens@) == pos,
                self.all_tokens@.len() >= 1,
                old_all.is_prefix_of(self.all_tokens@),
                forall|i: int|
                    0 <= i < self.all_tokens@.len() ==> !(#[trigger] self.all_tokens@[i].kind
                        is TOMBSTONE),
                forall|i: int|
                    0 <= i < self.all_tokens@.len() ==> !(#[trigger] self.all_tokens@[i].kind
                        is EOF),
                self.text@ == old(self).text@,
                self.cur_start == old(self).cur_start,
                self.cur_end == old(self).cur_end,
                self.token == old(self).token,
                base == old(self).cur_end as int,
                ({
                    let app = self.all_tokens@.skip(old_all.len() as int);
                    &&& pos == base + lens_sum(app)
                    &&& (forall|k: int|
                        0 <= k < app.len() ==> (#[trigger] app[k].kind).is_trivia_spec())
                    &&& (forall|k: int|
                        0 <= k < app.len() ==> ((#[trigger] app[k]).kind, app[k].len as int)
                            == find_token_spec(self.text@, base + lens_sum(app.take(k))))
                }),
                !(find_token_spec(self.text@, pos as int).0.is_trivia_spec()),
            decreases self.text@.len() - pos,
        {
            let (kind, len) = find_token(&self.text, pos);
            proof {
                lemma_find_token_props(self.text@, pos as int);
                assert(self.text@.len() == self.text.len());
            }
            if !kind.is_trivia() {
                break;
            }
            let ghost app0 = self.all_tokens@.skip(old_all.len() as int);
            proof {
                lemma_lens_sum_push(self.all_tokens@, Token { kind, len });
                lemma_lens_sum_push(app0, Token { kind, len });
            }
            self.all_tokens.push(Token::new(kind, len));
            proof {
                let app1 = self.all_tokens@.skip(old_all.len() as int);
                assert(app1 =~= app0.push(Token { kind, len }));
                assert forall|k: int| 0 <= k < app1.len() implies ((#[trigger] app1[k]).kind,
                app1[k].len as int) == find_token_spec(self.text@, base + lens_sum(app1.take(k)))
                    by {
                    if k < app0.len() {
                        assert(app1.take(k) =~= app0.take(k));
                        assert(app1[k] == app0[k]);
                    } else {
                        assert(app1.take(k) =~= app0);
                        assert(app1[k] == Token { kind, len });
                    }
                }
            }
            pos = pos + len;
        }
        let (kind, len) = find_token(&self.text, pos);
        let ghost app0 = self.all_tokens@.skip(old_all.len() as int);
        proof {
            lemma_find_token_props(self.text@, pos as int);
            lemma_lens_sum_push(self.all_tokens@, Token { kind, len });
            lemma_lens_sum_push(app0, Token { kind, len });
            assert(self.text@.len() == self.text.len());
        }
        let token = Token::new(kind, len);
        self.all_tokens.push(token);
        self.cur_start = pos;
        self.cur_end = pos + len;
        self.token = token;
        proof {
            let app1 = self.all_tokens@.skip(old_all.len() as int);
            assert(app1 =~= app0.push(token));
            assert forall|k: int| 0 <= k < app1.len() implies ((#[trigger] app1[k]).kind,
            app1[k].len as int) == find_token_spec(self.text@, base + lens_sum(app1.take(k))) by {
                if k < app0.len() {
                    assert(app1.take(k) =~= app0.take(k));
                    assert(app1[k] == app0[k]);
                } else {
                    assert(app1.take(k) =~= app0);
                    assert(app1[k] == token);
                }
            }
            assert(app1.last() == token);
            assert forall|k: int| 0 <= k < app1.len() - 1 implies (
            #[trigger] app1[k].kind).is_trivia_spec() by {
                assert(app1[k] == app0[k]);
            }
        }
    }
}

fn slice_to_vec_u8(s: &[u8]) -> (v: Vec<u8>)
    ensures
        v@ == s@,
{
    let mut v: Vec<u8> = Vec::new();
    let mut i: usize = 0;
    while i < s.len()
        invariant
            i <= s@.len(),
            v@ =~= s@.subrange(0, i as int),
        decreases s@.len() - i,
    {
        v.push(s[i]);
        i = i + 1;
    }
    proof {
        assert(v@ =~= s@);
    }
    v
}

} // verus!
