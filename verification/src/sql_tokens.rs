use vstd::prelude::*;

use crate::numeric::{digit_chars_ok, is_digit_char};
use crate::strutil::{chars_to_string, push_char, str_to_chars};

verus! {

/// A binary operator token of the SQL surface.
#[derive(Debug, Clone, Copy, PartialEq, Eq, Structural)]
pub enum BinOpToken {
    And,
    Or,
    Eq,
    Neq,
    Gt,
    Gte,
    Lt,
    Lte,
    Add,
    Sub,
    Mul,
    Div,
    Mod,
}

/// One token of a SQL statement.
#[derive(Debug)]
pub enum Token {
    /// A bare word: a keyword or an identifier.
    Word(String),
    /// An unsigned number literal.
    Number(String),
    /// A single-quoted string literal, quotes stripped.
    Str(String),
    Comma,
    LParen,
    RParen,
    Star,
    Op(BinOpToken),
}

impl Token {
    /// Copies the token.
    pub fn duplicate(&self) -> (r: Token)
        ensures
            r == *self,
    {
        match self {
            Token::Word(s) => Token::Word(s.clone()),
            Token::Number(s) => Token::Number(s.clone()),
            Token::Str(s) => Token::Str(s.clone()),
            Token::Comma => Token::Comma,
            Token::LParen => Token::LParen,
            Token::RParen => Token::RParen,
            Token::Star => Token::Star,
            Token::Op(o) => Token::Op(*o),
        }
    }
}

/// Whether the character may start a word: a letter or an underscore.
pub open spec fn is_word_start(c: char) -> bool {
    (97 <= c as u32 <= 122) || (65 <= c as u32 <= 90) || c as u32 == 95
}

/// Whether the character may continue a word.
pub open spec fn is_word_char(c: char) -> bool {
    is_word_start(c) || is_digit_char(c)
}

/// Whether the character is blank space between tokens.
pub open spec fn is_space(c: char) -> bool {
    c as u32 == 32 || c as u32 == 9 || c as u32 == 10 || c as u32 == 13
}

/// Decides `is_word_start`.
pub fn word_start_exec(c: char) -> (r: bool)
    ensures
        r == is_word_start(c),
{
    let u = c as u32;
    (97 <= u && u <= 122) || (65 <= u && u <= 90) || u == 95
}

/// Decides `is_word_char`.
pub fn word_char_exec(c: char) -> (r: bool)
    ensures
        r == is_word_char(c),
{
    let u = c as u32;
    word_start_exec(c) || (48 <= u && u <= 57)
}

/// Decides `is_space`.
pub fn space_exec(c: char) -> (r: bool)
    ensures
        r == is_space(c),
{
    let u = c as u32;
    u == 32 || u == 9 || u == 10 || u == 13
}

/// The same character sequence with ASCII capitals folded to small letters.
pub open spec fn ascii_lower_spec(s: Seq<char>) -> Seq<char> {
    Seq::new(s.len(), |i: int| lower_char(s[i]))
}

/// One character with an ASCII capital folded to its small letter.
pub open spec fn lower_char(c: char) -> char {
    if 65 <= c as u32 <= 90 {
        ((c as u32 + 32) as u8) as char
    } else {
        c
    }
}

/// Folds ASCII capitals to small letters; keywords compare case-insensitively.
pub fn ascii_lower(s: &str) -> (r: String)
    ensures
        r@ == ascii_lower_spec(s@),
{
    let cs = str_to_chars(s);
    let mut out = String::new();
    let mut i: usize = 0;
    while i < cs.len()
        invariant
            cs@ == s@,
            i <= cs@.len(),
            out@ == ascii_lower_spec(s@).take(i as int),
        decreases cs@.len() - i,
    {
        let c = cs[i];
        let u = c as u32;
        let lc: char = if 65 <= u && u <= 90 {
            proof {
                vstd::utf8::char_u32_cast(c, u);
            }
            ((u + 32) as u8) as char
        } else {
            c
        };
        proof {
            assert(lc == lower_char(c));
            assert(ascii_lower_spec(s@).take(i + 1) =~= ascii_lower_spec(s@).take(i as int).push(
                lower_char(s@[i as int]),
            ));
        }
        push_char(&mut out, lc);
        i = i + 1;
    }
    proof {
        assert(ascii_lower_spec(s@).take(s@.len() as int) =~= ascii_lower_spec(s@));
    }
    out
}


/// The spec-level shape of a token, its text as characters.
pub enum TokenV {
    Word(Seq<char>),
    Number(Seq<char>),
    Str(Seq<char>),
    Comma,
    LParen,
    RParen,
    Star,
    Op(BinOpToken),
}

impl Token {
    /// The token's spec-level shape.
    pub open spec fn view_token(self) -> TokenV {
        match self {
            Token::Word(s) => TokenV::Word(s@),
            Token::Number(s) => TokenV::Number(s@),
            Token::Str(s) => TokenV::Str(s@),
            Token::Comma => TokenV::Comma,
            Token::LParen => TokenV::LParen,
            Token::RParen => TokenV::RParen,
            Token::Star => TokenV::Star,
            Token::Op(o) => TokenV::Op(o),
        }
    }
}

/// What the tokenizer is in the middle of: nothing, a word, a number, or a
/// quoted string literal.
pub enum LexMode {
    Normal,
    InWord(Seq<char>),
    InNumber(Seq<char>),
    InStr(Seq<char>),
}

impl LexMode {
    /// An ordering measure: a pending token flushes before the scan goes on.
    pub open spec fn rank(self) -> int {
        match self {
            LexMode::Normal => 0,
            _ => 1,
        }
    }
}

/// One step of the tokenizer: blanks split tokens, words and numbers run as
/// long as their characters do, single quotes enclose text, and the
/// operator characters stand alone or pair up.
pub open spec fn lex_scan(s: Seq<char>, acc: Seq<TokenV>, mode: LexMode) -> Option<Seq<TokenV>>
    decreases s.len(), mode.rank(),
{
    match mode {
        LexMode::InWord(w) => {
            if s.len() > 0 && is_word_char(s[0]) {
                lex_scan(s.skip(1), acc, LexMode::InWord(w.push(s[0])))
            } else {
                lex_scan(s, acc.push(TokenV::Word(w)), LexMode::Normal)
            }
        },
        LexMode::InNumber(w) => {
            if s.len() > 0 && (is_digit_char(s[0]) || s[0] == '.') {
                lex_scan(s.skip(1), acc, LexMode::InNumber(w.push(s[0])))
            } else {
                lex_scan(s, acc.push(TokenV::Number(w)), LexMode::Normal)
            }
        },
        LexMode::InStr(w) => {
            if s.len() == 0 {
                None
            } else if s[0] == '\'' {
                lex_scan(s.skip(1), acc.push(TokenV::Str(w)), LexMode::Normal)
            } else {
                lex_scan(s.skip(1), acc, LexMode::InStr(w.push(s[0])))
            }
        },
        LexMode::Normal => {
            if s.len() == 0 {
                Some(acc)
            } else {
                let c = s[0];
                if is_space(c) {
                    lex_scan(s.skip(1), acc, LexMode::Normal)
                } else if is_word_start(c) {
                    lex_scan(s.skip(1), acc, LexMode::InWord(seq![c]))
                } else if is_digit_char(c) {
                    lex_scan(s.skip(1), acc, LexMode::InNumber(seq![c]))
                } else if c == '\'' {
                    lex_scan(s.skip(1), acc, LexMode::InStr(Seq::empty()))
                } else if c == ',' {
                    lex_scan(s.skip(1), acc.push(TokenV::Comma), LexMode::Normal)
                } else if c == '(' {
                    lex_scan(s.skip(1), acc.push(TokenV::LParen), LexMode::Normal)
                } else if c == ')' {
                    lex_scan(s.skip(1), acc.push(TokenV::RParen), LexMode::Normal)
                } else if c == '*' {
                    lex_scan(s.skip(1), acc.push(TokenV::Star), LexMode::Normal)
                } else if c == '=' {
                    lex_scan(s.skip(1), acc.push(TokenV::Op(BinOpToken::Eq)), LexMode::Normal)
                } else if c == '+' {
                    lex_scan(s.skip(1), acc.push(TokenV::Op(BinOpToken::Add)), LexMode::Normal)
                } else if c == '-' {
                    lex_scan(s.skip(1), acc.push(TokenV::Op(BinOpToken::Sub)), LexMode::Normal)
                } else if c == '/' {
                    lex_scan(s.skip(1), acc.push(TokenV::Op(BinOpToken::Div)), LexMode::Normal)
                } else if c == '%' {
                    lex_scan(s.skip(1), acc.push(TokenV::Op(BinOpToken::Mod)), LexMode::Normal)
                } else if c == '<' {
                    if s.len() > 1 && s[1] == '=' {
                        lex_scan(s.skip(2), acc.push(TokenV::Op(BinOpToken::Lte)), LexMode::Normal)
                    } else if s.len() > 1 && s[1] == '>' {
                        lex_scan(s.skip(2), acc.push(TokenV::Op(BinOpToken::Neq)), LexMode::Normal)
                    } else {
                        lex_scan(s.skip(1), acc.push(TokenV::Op(BinOpToken::Lt)), LexMode::Normal)
                    }
                } else if c == '>' {
                    if s.len() > 1 && s[1] == '=' {
                        lex_scan(s.skip(2), acc.push(TokenV::Op(BinOpToken::Gte)), LexMode::Normal)
                    } else {
                        lex_scan(s.skip(1), acc.push(TokenV::Op(BinOpToken::Gt)), LexMode::Normal)
                    }
                } else {
                    None
                }
            }
        },
    }
}

/// The tokens of a SQL text; a stray character or an unclosed string
/// literal is a parse error.
pub open spec fn tokens_spec(s: Seq<char>) -> Option<Seq<TokenV>> {
    lex_scan(s, Seq::empty(), LexMode::Normal)
}

/// Splits a SQL text into its tokens.
pub fn tokenize(s: &str) -> (r: Result<Vec<Token>, crate::error::ZakuError>)
    ensures
        match r {
            Ok(toks) => tokens_spec(s@) matches Some(m) && m.len() == toks@.len() && (forall|
                i: int,
            |
                0 <= i < toks@.len() ==> (#[trigger] toks@[i]).view_token() == m[i]),
            Err(e) => tokens_spec(s@) is None && e is ParseError,
        },
{
    let cs = str_to_chars(s);
    let n = cs.len();
    let mut toks: Vec<Token> = Vec::new();
    let mut i: usize = 0;
    // 0 plain, 1 in a word, 2 in a number, 3 in a string literal
    let mut mode: u8 = 0;
    let mut pending = String::new();
    proof {
        assert(cs@.skip(0) =~= cs@);
        assert(toks@.map_values(|t: Token| t.view_token()) =~= Seq::<TokenV>::empty());
    }
    while i < n || mode != 0
        invariant
            cs@ == s@,
            n == cs@.len(),
            i <= n,
            mode <= 3,
            mode == 0 ==> pending@ == Seq::<char>::empty(),
            tokens_spec(s@) == lex_scan(
                cs@.skip(i as int),
                toks@.map_values(|t: Token| t.view_token()),
                (if mode == 0 {
                    LexMode::Normal
                } else if mode == 1 {
                    LexMode::InWord(pending@)
                } else if mode == 2 {
                    LexMode::InNumber(pending@)
                } else {
                    LexMode::InStr(pending@)
                }),
            ),
        decreases n - i, (if mode == 0 { 0int } else { 1int }),
    {
        let ghost gacc = toks@.map_values(|t: Token| t.view_token());
        proof {
            if i < n {
                assert(cs@.skip(i as int)[0] == cs@[i as int]);
                assert(cs@.skip(i as int).skip(1) =~= cs@.skip(i + 1));
            } else {
                assert(cs@.skip(i as int).len() == 0);
            }
        }
        if mode == 1 {
            if i < n && word_char_exec(cs[i]) {
                push_char(&mut pending, cs[i]);
                i = i + 1;
            } else {
                let ghost w = pending@;
                let done = pending;
                pending = String::new();
                toks.push(Token::Word(done));
                mode = 0;
                proof {
                    assert(toks@.map_values(|t: Token| t.view_token()) =~~= gacc.push(
                        TokenV::Word(w),
                    ));
                }
            }
        } else if mode == 2 {
            let cont = if i < n {
                let c = cs[i];
                let u = c as u32;
                (48 <= u && u <= 57) || c == '.'
            } else {
                false
            };
            if cont {
                push_char(&mut pending, cs[i]);
                i = i + 1;
            } else {
                let ghost w = pending@;
                let done = pending;
                pending = String::new();
                toks.push(Token::Number(done));
                mode = 0;
                proof {
                    assert(toks@.map_values(|t: Token| t.view_token()) =~~= gacc.push(
                        TokenV::Number(w),
                    ));
                }
            }
        } else if mode == 3 {
            if i >= n {
                return Err(
                    crate::error::ZakuError::ParseError(
                        String::from_str("unclosed string literal"),
                    ),
                );
            }
            let c = cs[i];
            if c == '\'' {
                let ghost w = pending@;
                let done = pending;
                pending = String::new();
                toks.push(Token::Str(done));
                mode = 0;
                i = i + 1;
                proof {
                    assert(toks@.map_values(|t: Token| t.view_token()) =~~= gacc.push(
                        TokenV::Str(w),
                    ));
                }
            } else {
                push_char(&mut pending, c);
                i = i + 1;
            }
        } else {
            // plain scanning
            let c = cs[i];
            if space_exec(c) {
                i = i + 1;
            } else if word_start_exec(c) {
                push_char(&mut pending, c);
                proof {
                    assert(pending@ =~= seq![cs@[i as int]]);
                }
                mode = 1;
                i = i + 1;
            } else {
                let u = c as u32;
                if 48 <= u && u <= 57 {
                    push_char(&mut pending, c);
                    proof {
                        assert(pending@ =~= seq![cs@[i as int]]);
                    }
                    mode = 2;
                    i = i + 1;
                } else if c == '\'' {
                    mode = 3;
                    i = i + 1;
                } else if c == ',' {
                    toks.push(Token::Comma);
                    i = i + 1;
                } else if c == '(' {
                    toks.push(Token::LParen);
                    i = i + 1;
                } else if c == ')' {
                    toks.push(Token::RParen);
                    i = i + 1;
                } else if c == '*' {
                    toks.push(Token::Star);
                    i = i + 1;
                } else if c == '=' {
                    toks.push(Token::Op(BinOpToken::Eq));
                    i = i + 1;
                } else if c == '+' {
                    toks.push(Token::Op(BinOpToken::Add));
                    i = i + 1;
                } else if c == '-' {
                    toks.push(Token::Op(BinOpToken::Sub));
                    i = i + 1;
                } else if c == '/' {
                    toks.push(Token::Op(BinOpToken::Div));
                    i = i + 1;
                } else if c == '%' {
                    toks.push(Token::Op(BinOpToken::Mod));
                    i = i + 1;
                } else if c == '<' {
                    if i + 1 < n && cs[i + 1] == '=' {
                        toks.push(Token::Op(BinOpToken::Lte));
                        proof {
                            assert(cs@.skip(i as int)[1] == cs@[i + 1]);
                            assert(cs@.skip(i as int).skip(2) =~= cs@.skip(i + 2));
                        }
                        i = i + 2;
                    } else if i + 1 < n && cs[i + 1] == '>' {
                        toks.push(Token::Op(BinOpToken::Neq));
                        proof {
                            assert(cs@.skip(i as int)[1] == cs@[i + 1]);
                            assert(cs@.skip(i as int).skip(2) =~= cs@.skip(i + 2));
                        }
                        i = i + 2;
                    } else {
                        toks.push(Token::Op(BinOpToken::Lt));
                        i = i + 1;
                    }
                } else if c == '>' {
                    if i + 1 < n && cs[i + 1] == '=' {
                        toks.push(Token::Op(BinOpToken::Gte));
                        proof {
                            assert(cs@.skip(i as int)[1] == cs@[i + 1]);
                            assert(cs@.skip(i as int).skip(2) =~= cs@.skip(i + 2));
                        }
                        i = i + 2;
                    } else {
                        toks.push(Token::Op(BinOpToken::Gt));
                        i = i + 1;
                    }
                } else {
                    return Err(
                        crate::error::ZakuError::ParseError(
                            String::from_str("unexpected character"),
                        ),
                    );
                }
            }
        }
        proof {
            if toks@.len() > gacc.len() {
                assert(toks@.map_values(|t: Token| t.view_token()) =~~= gacc.push(
                    toks@.last().view_token(),
                ));
            } else {
                assert(toks@.map_values(|t: Token| t.view_token()) =~~= gacc);
            }
        }
    }
    proof {
        assert(cs@.skip(n as int).len() == 0);
        assert(tokens_spec(s@) matches Some(m) && m =~~= toks@.map_values(
            |t: Token| t.view_token(),
        ));
    }
    Ok(toks)
}

} // verus!