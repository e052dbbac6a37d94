//! The closed, totally ordered enumeration of token and node kinds.
//!
//! Three disjoint-by-convention partitions: punctuation, keywords, and
//! literals/trivia/identifier token kinds, followed by one node kind per
//! grammar production.  The `TOMBSTONE` and `EOF`/`__LAST` sentinels are
//! bookkeeping values that never appear as real tree content.

use vstd::prelude::*;

verus! {

/// The kind of a syntax node or token, e.g. `IDENT`, `USE_KW`, or `STRUCT`.
#[allow(non_camel_case_types)]
#[derive(Clone, Copy, PartialEq, Eq, Structural, Debug, Hash)]
pub enum SyntaxKind {
    TOMBSTONE,
    EOF,
    COLON,
    COLON_COLON,
    SEMICOLON,
    COMMA,
    L_PAREN,
    R_PAREN,
    L_BRACE,
    R_BRACE,
    L_BRACK,
    R_BRACK,
    PLUS,
    MINUS,
    STAR,
    SLASH,
    MOD,
    NUMSIGN,
    ATSIGN,
    DOT,
    DOTDOT,
    AMP,
    AMP_AMP,
    AMP_MUT,
    CARET,
    PIPE,
    PIPE_PIPE,
    BANG,
    BANG_EQ,
    EQ,
    EQ_EQ,
    EQ_EQ_GT,
    GT,
    GT_GT,
    GT_EQ,
    LT,
    LT_LT,
    LT_EQ,
    LT_EQ_EQ_GT,
    WILDCARD,
    STRUCT_KW,
    SCRIPT_KW,
    MODULE_KW,
    CONST_KW,
    USE_KW,
    AS_KW,
    LET_KW,
    MUT_KW,
    RETURN_KW,
    FUN_KW,
    TRUE_KW,
    FALSE_KW,
    MOVE_KW,
    WHILE_KW,
    IF_KW,
    ELSE_KW,
    BREAK_KW,
    CONTINUE_KW,
    INTEGER_NUMBER,
    BYTE_STRING,
    HEX_STRING,
    ERROR,
    IDENT,
    WHITESPACE,
    COMMENT,
    SOURCE_FILE,
    MODULE,
    SCRIPT_DEF,
    FUNCTION_DEF,
    ITEM_LIST,
    NAME_REF,
    STRUCT,
    RECORD_FIELD_LIST,
    RECORD_FIELD,
    GENERIC_PARAM_LIST,
    TYPE_PARAM,
    TYPE_BOUND_LIST,
    TYPE_BOUND,
    PARAM_LIST,
    PARAM,
    RET_TYPE,
    EXPR,
    BLOCK_EXPR,
    DOT_EXPR,
    CALL_EXPR,
    ARG_LIST,
    RECORD_EXPR,
    RECORD_EXPR_FIELD_LIST,
    RECORD_EXPR_FIELD,
    LITERAL,
    PATH,
    PATH_SEGMENT,
    NAME,
    BIN_EXPR,
    PREFIX_EXPR,
    PATH_EXPR,
    PAREN_EXPR,
    EXPR_STMT,
    LET_STMT,
    REF_TYPE,
    PATH_TYPE,
    PAREN_PAT,
    TUPLE_PAT,
    RECORD_PAT,
    RECORD_PAT_FIELD_LIST,
    RECORD_PAT_FIELD,
    PATH_PAT,
    WILDCARD_PAT,
    REST_PAT,
    IDENT_PAT,
    __LAST,
}

impl SyntaxKind {
    /// Trivia kinds carry no grammatical meaning but are kept for losslessness.
    pub open spec fn is_trivia_spec(self) -> bool {
        self is WHITESPACE || self is COMMENT
    }

    pub fn is_trivia(self) -> (r: bool)
        ensures
            r == self.is_trivia_spec(),
    {
        match self {
            SyntaxKind::WHITESPACE | SyntaxKind::COMMENT => true,
            _ => false,
        }
    }

    pub open spec fn is_keyword_spec(self) -> bool {
        ||| self is STRUCT_KW
        ||| self is SCRIPT_KW
        ||| self is MODULE_KW
        ||| self is CONST_KW
        ||| self is USE_KW
        ||| self is AS_KW
        ||| self is LET_KW
        ||| self is MUT_KW
        ||| self is RETURN_KW
        ||| self is FUN_KW
        ||| self is TRUE_KW
        ||| self is FALSE_KW
        ||| self is MOVE_KW
        ||| self is WHILE_KW
        ||| self is IF_KW
        ||| self is ELSE_KW
        ||| self is BREAK_KW
        ||| self is CONTINUE_KW
    }

    pub fn is_keyword(self) -> (r: bool)
        ensures
            r == self.is_keyword_spec(),
    {
        match self {
            SyntaxKind::STRUCT_KW
            | SyntaxKind::SCRIPT_KW
            | SyntaxKind::MODULE_KW
            | SyntaxKind::CONST_KW
            | SyntaxKind::USE_KW
            | SyntaxKind::AS_KW
            | SyntaxKind::LET_KW
            | SyntaxKind::MUT_KW
            | SyntaxKind::RETURN_KW
            | SyntaxKind::FUN_KW
            | SyntaxKind::TRUE_KW
            | SyntaxKind::FALSE_KW
            | SyntaxKind::MOVE_KW
            | SyntaxKind::WHILE_KW
            | SyntaxKind::IF_KW
            | SyntaxKind::ELSE_KW
            | SyntaxKind::BREAK_KW
            | SyntaxKind::CONTINUE_KW => true,
            _ => false,
        }
    }

    pub open spec fn is_punct_spec(self) -> bool {
        ||| self is COLON
        ||| self is COLON_COLON
        ||| self is SEMICOLON
        ||| self is COMMA
        ||| self is L_PAREN
        ||| self is R_PAREN
        ||| self is L_BRACE
        ||| self is R_BRACE
        ||| self is L_BRACK
        ||| self is R_BRACK
        ||| self is PLUS
        ||| self is MINUS
        ||| self is STAR
        ||| self is SLASH
        ||| self is MOD
        ||| self is NUMSIGN
        ||| self is ATSIGN
        ||| self is DOT
        ||| self is DOTDOT
        ||| self is AMP
        ||| self is AMP_AMP
        ||| self is AMP_MUT
        ||| self is CARET
        ||| self is PIPE
        ||| self is PIPE_PIPE
        ||| self is BANG
        ||| self is BANG_EQ
        ||| self is EQ
        ||| self is EQ_EQ
        ||| self is EQ_EQ_GT
        ||| self is GT
        ||| self is GT_GT
        ||| self is GT_EQ
        ||| self is LT
        ||| self is LT_LT
        ||| self is LT_EQ
        ||| self is LT_EQ_EQ_GT
        ||| self is WILDCARD
    }

    pub fn is_punct(self) -> (r: bool)
        ensures
            r == self.is_punct_spec(),
    {
        match self {
            SyntaxKind::COLON
            | SyntaxKind::COLON_COLON
            | SyntaxKind::SEMICOLON
            | SyntaxKind::COMMA
            | SyntaxKind::L_PAREN
            | SyntaxKind::R_PAREN
            | SyntaxKind::L_BRACE
            | SyntaxKind::R_BRACE
            | SyntaxKind::L_BRACK
            | SyntaxKind::R_BRACK
            | SyntaxKind::PLUS
            | SyntaxKind::MINUS
            | SyntaxKind::STAR
            | SyntaxKind::SLASH
            | SyntaxKind::MOD
            | SyntaxKind::NUMSIGN
            | SyntaxKind::ATSIGN
            | SyntaxKind::DOT
            | SyntaxKind::DOTDOT
            | SyntaxKind::AMP
            | SyntaxKind::AMP_AMP
            | SyntaxKind::AMP_MUT
            | SyntaxKind::CARET
            | SyntaxKind::PIPE
            | SyntaxKind::PIPE_PIPE
            | SyntaxKind::BANG
            | SyntaxKind::BANG_EQ
            | SyntaxKind::EQ
            | SyntaxKind::EQ_EQ
            | SyntaxKind::EQ_EQ_GT
            | SyntaxKind::GT
            | SyntaxKind::GT_GT
            | SyntaxKind::GT_EQ
            | SyntaxKind::LT
            | SyntaxKind::LT_LT
            | SyntaxKind::LT_EQ
            | SyntaxKind::LT_EQ_EQ_GT
            | SyntaxKind::WILDCARD => true,
            _ => false,
        }
    }

    pub open spec fn is_literal_spec(self) -> bool {
        self is INTEGER_NUMBER || self is BYTE_STRING || self is HEX_STRING
    }

    pub fn is_literal(self) -> (r: bool)
        ensures
            r == self.is_literal_spec(),
    {
        match self {
            SyntaxKind::INTEGER_NUMBER | SyntaxKind::BYTE_STRING | SyntaxKind::HEX_STRING => true,
            _ => false,
        }
    }

    /// The keyword table: which identifier spellings are reclassified as
    /// keyword tokens at lex time.
    pub open spec fn keyword_kind(s: Seq<u8>) -> Option<SyntaxKind> {
        if s == kw_bytes("struct") {
            Some(SyntaxKind::STRUCT_KW)
        } else if s == kw_bytes("script") {
            Some(SyntaxKind::SCRIPT_KW)
        } else if s == kw_bytes("module") {
            Some(SyntaxKind::MODULE_KW)
        } else if s == kw_bytes("const") {
            Some(SyntaxKind::CONST_KW)
        } else if s == kw_bytes("use") {
            Some(SyntaxKind::USE_KW)
        } else if s == kw_bytes("as") {
            Some(SyntaxKind::AS_KW)
        } else if s == kw_bytes("let") {
            Some(SyntaxKind::LET_KW)
        } else if s == kw_bytes("mut") {
            Some(SyntaxKind::MUT_KW)
        } else if s == kw_bytes("return") {
            Some(SyntaxKind::RETURN_KW)
        } else if s == kw_bytes("fun") {
            Some(SyntaxKind::FUN_KW)
        } else if s == kw_bytes("true") {
            Some(SyntaxKind::TRUE_KW)
        } else if s == kw_bytes("false") {
            Some(SyntaxKind::FALSE_KW)
        } else if s == kw_bytes("move") {
            Some(SyntaxKind::MOVE_KW)
        } else if s == kw_bytes("while") {
            Some(SyntaxKind::WHILE_KW)
        } else if s == kw_bytes("if") {
            Some(SyntaxKind::IF_KW)
        } else if s == kw_bytes("else") {
            Some(SyntaxKind::ELSE_KW)
        } else if s == kw_bytes("break") {
            Some(SyntaxKind::BREAK_KW)
        } else if s == kw_bytes("continue") {
            Some(SyntaxKind::CONTINUE_KW)
        } else {
            None
        }
    }

    /// Reclassifies an identifier spelling as a keyword kind, if it is one.
    pub fn from_keyword(ident: &[u8]) -> (r: Option<SyntaxKind>)
        ensures
            r == Self::keyword_kind(ident@),
    {
        proof {
            reveal_all_keywords();
        }
        let n = ident.len();
        if n == 2 {
            if bytes2(ident, 'a', 's') {
                return Some(SyntaxKind::AS_KW);
            }
            if bytes2(ident, 'i', 'f') {
                return Some(SyntaxKind::IF_KW);
            }
        } else if n == 3 {
            if bytes3(ident, 'u', 's', 'e') {
                return Some(SyntaxKind::USE_KW);
            }
            if bytes3(ident, 'l', 'e', 't') {
                return Some(SyntaxKind::LET_KW);
            }
            if bytes3(ident, 'm', 'u', 't') {
                return Some(SyntaxKind::MUT_KW);
            }
            if bytes3(ident, 'f', 'u', 'n') {
                return Some(SyntaxKind::FUN_KW);
            }
        } else if n == 4 {
            if bytes4(ident, 't', 'r', 'u', 'e') {
                return Some(SyntaxKind::TRUE_KW);
            }
            if bytes4(ident, 'm', 'o', 'v', 'e') {
                return Some(SyntaxKind::MOVE_KW);
            }
            if bytes4(ident, 'e', 'l', 's', 'e') {
                return Some(SyntaxKind::ELSE_KW);
            }
        } else if n == 5 {
            if bytes5(ident, 'c', 'o', 'n', 's', 't') {
                return Some(SyntaxKind::CONST_KW);
            }
            if bytes5(ident, 'f', 'a', 'l', 's', 'e') {
                return Some(SyntaxKind::FALSE_KW);
            }
            if bytes5(ident, 'w', 'h', 'i', 'l', 'e') {
                return Some(SyntaxKind::WHILE_KW);
            }
            if bytes5(ident, 'b', 'r', 'e', 'a', 'k') {
                return Some(SyntaxKind::BREAK_KW);
            }
        } else if n == 6 {
            if bytes6(ident, 's', 't', 'r', 'u', 'c', 't') {
                return Some(SyntaxKind::STRUCT_KW);
            }
            if bytes6(ident, 's', 'c', 'r', 'i', 'p', 't') {
                return Some(SyntaxKind::SCRIPT_KW);
            }
            if bytes6(ident, 'm', 'o', 'd', 'u', 'l', 'e') {
                return Some(SyntaxKind::MODULE_KW);
            }
            if bytes6(ident, 'r', 'e', 't', 'u', 'r', 'n') {
                return Some(SyntaxKind::RETURN_KW);
            }
        } else if n == 8 {
            if bytes8(ident, 'c', 'o', 'n', 't', 'i', 'n', 'u', 'e') {
                return Some(SyntaxKind::CONTINUE_KW);
            }
        }
        None
    }

    /// The single-character punctuation table.
    pub open spec fn char_kind(c: char) -> Option<SyntaxKind> {
        match c {
            ':' => Some(SyntaxKind::COLON),
            ';' => Some(SyntaxKind::SEMICOLON),
            ',' => Some(SyntaxKind::COMMA),
            '(' => Some(SyntaxKind::L_PAREN),
            ')' => Some(SyntaxKind::R_PAREN),
            '{' => Some(SyntaxKind::L_BRACE),
            '}' => Some(SyntaxKind::R_BRACE),
            '[' => Some(SyntaxKind::L_BRACK),
            ']' => Some(SyntaxKind::R_BRACK),
            '+' => Some(SyntaxKind::PLUS),
            '-' => Some(SyntaxKind::MINUS),
            '*' => Some(SyntaxKind::STAR),
            '/' => Some(SyntaxKind::SLASH),
            '%' => Some(SyntaxKind::MOD),
            '#' => Some(SyntaxKind::NUMSIGN),
            '@' => Some(SyntaxKind::ATSIGN),
            '.' => Some(SyntaxKind::DOT),
            '&' => Some(SyntaxKind::AMP),
            '^' => Some(SyntaxKind::CARET),
            '|' => Some(SyntaxKind::PIPE),
            '!' => Some(SyntaxKind::BANG),
            '=' => Some(SyntaxKind::EQ),
            '>' => Some(SyntaxKind::GT),
            '<' => Some(SyntaxKind::LT),
            '_' => Some(SyntaxKind::WILDCARD),
            _ => None,
        }
    }

    /// Looks up the token kind for a single punctuation character.
    pub fn from_char(c: char) -> (r: Option<SyntaxKind>)
        ensures
            r == Self::char_kind(c),
    {
        match c {
            ':' => Some(SyntaxKind::COLON),
            ';' => Some(SyntaxKind::SEMICOLON),
            ',' => Some(SyntaxKind::COMMA),
            '(' => Some(SyntaxKind::L_PAREN),
            ')' => Some(SyntaxKind::R_PAREN),
            '{' => Some(SyntaxKind::L_BRACE),
            '}' => Some(SyntaxKind::R_BRACE),
            '[' => Some(SyntaxKind::L_BRACK),
            ']' => Some(SyntaxKind::R_BRACK),
            '+' => Some(SyntaxKind::PLUS),
            '-' => Some(SyntaxKind::MINUS),
            '*' => Some(SyntaxKind::STAR),
            '/' => Some(SyntaxKind::SLASH),
            '%' => Some(SyntaxKind::MOD),
            '#' => Some(SyntaxKind::NUMSIGN),
            '@' => Some(SyntaxKind::ATSIGN),
            '.' => Some(SyntaxKind::DOT),
            '&' => Some(SyntaxKind::AMP),
            '^' => Some(SyntaxKind::CARET),
            '|' => Some(SyntaxKind::PIPE),
            '!' => Some(SyntaxKind::BANG),
            '=' => Some(SyntaxKind::EQ),
            '>' => Some(SyntaxKind::GT),
            '<' => Some(SyntaxKind::LT),
            '_' => Some(SyntaxKind::WILDCARD),
            _ => None,
        }
    }
}

/// The byte sequence of a keyword spelling (all keywords are ASCII).
pub open spec fn kw_bytes(s: &str) -> Seq<u8> {
    s@.map_values(|c: char| c as u8)
}

/// Reveals the spellings of every keyword literal, so that byte-by-byte
/// comparisons can be related to `keyword_kind`.
pub proof fn reveal_all_keywords()
    ensures
        kw_bytes("struct") == seq!['s' as u8, 't' as u8, 'r' as u8, 'u' as u8, 'c' as u8, 't' as u8],
        kw_bytes("script") == seq!['s' as u8, 'c' as u8, 'r' as u8, 'i' as u8, 'p' as u8, 't' as u8],
        kw_bytes("module") == seq!['m' as u8, 'o' as u8, 'd' as u8, 'u' as u8, 'l' as u8, 'e' as u8],
        kw_bytes("const") == seq!['c' as u8, 'o' as u8, 'n' as u8, 's' as u8, 't' as u8],
        kw_bytes("use") == seq!['u' as u8, 's' as u8, 'e' as u8],
        kw_bytes("as") == seq!['a' as u8, 's' as u8],
        kw_bytes("let") == seq!['l' as u8, 'e' as u8, 't' as u8],
        kw_bytes("mut") == seq!['m' as u8, 'u' as u8, 't' as u8],
        kw_bytes("return") == seq!['r' as u8, 'e' as u8, 't' as u8, 'u' as u8, 'r' as u8, 'n' as u8],
        kw_bytes("fun") == seq!['f' as u8, 'u' as u8, 'n' as u8],
        kw_bytes("true") == seq!['t' as u8, 'r' as u8, 'u' as u8, 'e' as u8],
        kw_bytes("false") == seq!['f' as u8, 'a' as u8, 'l' as u8, 's' as u8, 'e' as u8],
        kw_bytes("move") == seq!['m' as u8, 'o' as u8, 'v' as u8, 'e' as u8],
        kw_bytes("while") == seq!['w' as u8, 'h' as u8, 'i' as u8, 'l' as u8, 'e' as u8],
        kw_bytes("if") == seq!['i' as u8, 'f' as u8],
        kw_bytes("else") == seq!['e' as u8, 'l' as u8, 's' as u8, 'e' as u8],
        kw_bytes("break") == seq!['b' as u8, 'r' as u8, 'e' as u8, 'a' as u8, 'k' as u8],
        kw_bytes("continue") == seq![
            'c' as u8, 'o' as u8, 'n' as u8, 't' as u8, 'i' as u8, 'n' as u8, 'u' as u8, 'e' as u8,
        ],
{
    reveal_strlit("struct");
    reveal_strlit("script");
    reveal_strlit("module");
    reveal_strlit("const");
    reveal_strlit("use");
    reveal_strlit("as");
    reveal_strlit("let");
    reveal_strlit("mut");
    reveal_strlit("return");
    reveal_strlit("fun");
    reveal_strlit("true");
    reveal_strlit("false");
    reveal_strlit("move");
    reveal_strlit("while");
    reveal_strlit("if");
    reveal_strlit("else");
    reveal_strlit("break");
    reveal_strlit("continue");
    assert(kw_bytes("struct") =~= seq![
        's' as u8, 't' as u8, 'r' as u8, 'u' as u8, 'c' as u8, 't' as u8,
    ]);
    assert(kw_bytes("script") =~= seq![
        's' as u8, 'c' as u8, 'r' as u8, 'i' as u8, 'p' as u8, 't' as u8,
    ]);
    assert(kw_bytes("module") =~= seq![
        'm' as u8, 'o' as u8, 'd' as u8, 'u' as u8, 'l' as u8, 'e' as u8,
    ]);
    assert(kw_bytes("const") =~= seq!['c' as u8, 'o' as u8, 'n' as u8, 's' as u8, 't' as u8]);
    assert(kw_bytes("use") =~= seq!['u' as u8, 's' as u8, 'e' as u8]);
    assert(kw_bytes("as") =~= seq!['a' as u8, 's' as u8]);
    assert(kw_bytes("let") =~= seq!['l' as u8, 'e' as u8, 't' as u8]);
    assert(kw_bytes("mut") =~= seq!['m' as u8, 'u' as u8, 't' as u8]);
    assert(kw_bytes("return") =~= seq![
        'r' as u8, 'e' as u8, 't' as u8, 'u' as u8, 'r' as u8, 'n' as u8,
    ]);
    assert(kw_bytes("fun") =~= seq!['f' as u8, 'u' as u8, 'n' as u8]);
    assert(kw_bytes("true") =~= seq!['t' as u8, 'r' as u8, 'u' as u8, 'e' as u8]);
    assert(kw_bytes("false") =~= seq!['f' as u8, 'a' as u8, 'l' as u8, 's' as u8, 'e' as u8]);
    assert(kw_bytes("move") =~= seq!['m' as u8, 'o' as u8, 'v' as u8, 'e' as u8]);
    assert(kw_bytes("while") =~= seq!['w' as u8, 'h' as u8, 'i' as u8, 'l' as u8, 'e' as u8]);
    assert(kw_bytes("if") =~= seq!['i' as u8, 'f' as u8]);
    assert(kw_bytes("else") =~= seq!['e' as u8, 'l' as u8, 's' as u8, 'e' as u8]);
    assert(kw_bytes("break") =~= seq!['b' as u8, 'r' as u8, 'e' as u8, 'a' as u8, 'k' as u8]);
    assert(kw_bytes("continue") =~= seq![
        'c' as u8, 'o' as u8, 'n' as u8, 't' as u8, 'i' as u8, 'n' as u8, 'u' as u8, 'e' as u8,
    ]);
}

fn bytes2(s: &[u8], a: char, b: char) -> (r: bool)
    requires
        s@.len() == 2,
    ensures
        r == (s@ =~= seq![a as u8, b as u8]),
{
    s[0] == a as u8 && s[1] == b as u8
}

fn bytes3(s: &[u8], a: char, b: char, c: char) -> (r: bool)
    requires
        s@.len() == 3,
    ensures
        r == (s@ =~= seq![a as u8, b as u8, c as u8]),
{
    s[0] == a as u8 && s[1] == b as u8 && s[2] == c as u8
}

fn bytes4(s: &[u8], a: char, b: char, c: char, d: char) -> (r: bool)
    requires
        s@.len() == 4,
    ensures
        r == (s@ =~= seq![a as u8, b as u8, c as u8, d as u8]),
{
    s[0] == a as u8 && s[1] == b as u8 && s[2] == c as u8 && s[3] == d as u8
}

fn bytes5(s: &[u8], a: char, b: char, c: char, d: char, e: char) -> (r: bool)
    requires
        s@.len() == 5,
    ensures
        r == (s@ =~= seq![a as u8, b as u8, c as u8, d as u8, e as u8]),
{
    s[0] == a as u8 && s[1] == b as u8 && s[2] == c as u8 && s[3] == d as u8 && s[4] == e as u8
}

fn bytes6(s: &[u8], a: char, b: char, c: char, d: char, e: char, f: char) -> (r: bool)
    requires
        s@.len() == 6,
    ensures
        r == (s@ =~= seq![a as u8, b as u8, c as u8, d as u8, e as u8, f as u8]),
{
    s[0] == a as u8 && s[1] == b as u8 && s[2] == c as u8 && s[3] == d as u8 && s[4] == e as u8
        && s[5] == f as u8
}

fn bytes8(s: &[u8], a: char, b: char, c: char, d: char, e: char, f: char, g: char, h: char) -> (r:
    bool)
    requires
        s@.len() == 8,
    ensures
        r == (s@ =~= seq![
            a as u8, b as u8, c as u8, d as u8, e as u8, f as u8, g as u8, h as u8,
        ]),
{
    s[0] == a as u8 && s[1] == b as u8 && s[2] == c as u8 && s[3] == d as u8 && s[4] == e as u8
        && s[5] == f as u8 && s[6] == g as u8 && s[7] == h as u8
}

} // verus!

