//! The lexer: scans raw text into an ordered sequence of lexical tokens.
//!
//! Scanning keeps an accumulation buffer and a mode (building a name or
//! building a number). Whitespace and operator characters finalize the
//! buffer; a finished name is matched against the recognized keywords, a
//! finished number is parsed as a [`Number`]. Characters outside the
//! recognized classes fail the scan.

use vstd::prelude::*;
use vstd::string::*;

use crate::number::{push_char, spec_number_from, Number, NumberV};

verus! {

/// Mathematical model of a [`LexerToken`].
pub enum TokenV {
    Variable(Seq<char>),
    Number(NumberV),
    Constant(Seq<char>),
    AddOperator,
    SubOperator,
    MulOperator,
    DivOperator,
    PowOperator,
    LeftParenthesis,
    RightParenthesis,
    LogFunction,
    SinFunction,
    CosFunction,
    TanFunction,
    SqrtFunction,
    PiConstant,
    EConstant,
}

#[derive(Debug, PartialEq)]
pub enum LexerToken {
    Variable(String),
    Number(Number),
    Constant(String),
    AddOperator,
    SubOperator,
    MulOperator,
    DivOperator,
    PowOperator,
    LeftParenthesis,
    RightParenthesis,
    LogFunction,
    SinFunction,
    CosFunction,
    TanFunction,
    SqrtFunction,
    PiConstant,
    EConstant,
}

impl View for LexerToken {
    type V = TokenV;

    open spec fn view(&self) -> TokenV {
        match self {
            LexerToken::Variable(s) => TokenV::Variable(s@),
            LexerToken::Number(n) => TokenV::Number(n@),
            LexerToken::Constant(s) => TokenV::Constant(s@),
            LexerToken::AddOperator => TokenV::AddOperator,
            LexerToken::SubOperator => TokenV::SubOperator,
            LexerToken::MulOperator => TokenV::MulOperator,
            LexerToken::DivOperator => TokenV::DivOperator,
            LexerToken::PowOperator => TokenV::PowOperator,
            LexerToken::LeftParenthesis => TokenV::LeftParenthesis,
            LexerToken::RightParenthesis => TokenV::RightParenthesis,
            LexerToken::LogFunction => TokenV::LogFunction,
            LexerToken::SinFunction => TokenV::SinFunction,
            LexerToken::CosFunction => TokenV::CosFunction,
            LexerToken::TanFunction => TokenV::TanFunction,
            LexerToken::SqrtFunction => TokenV::SqrtFunction,
            LexerToken::PiConstant => TokenV::PiConstant,
            LexerToken::EConstant => TokenV::EConstant,
        }
    }
}

impl DeepView for LexerToken {
    type V = TokenV;

    open spec fn deep_view(&self) -> TokenV {
        self.view()
    }
}

pub open spec fn is_operator_v(t: TokenV) -> bool {
    ||| t is AddOperator
    ||| t is SubOperator
    ||| t is MulOperator
    ||| t is DivOperator
    ||| t is PowOperator
}

impl LexerToken {
    /// An equal copy of the token.
    pub(crate) fn clone_value(&self) -> (r: LexerToken)
        ensures
            r@ == self@,
    {
        match self {
            LexerToken::Variable(s) => LexerToken::Variable(s.clone()),
            LexerToken::Number(n) => LexerToken::Number(n.clone_value()),
            LexerToken::Constant(s) => LexerToken::Constant(s.clone()),
            LexerToken::AddOperator => LexerToken::AddOperator,
            LexerToken::SubOperator => LexerToken::SubOperator,
            LexerToken::MulOperator => LexerToken::MulOperator,
            LexerToken::DivOperator => LexerToken::DivOperator,
            LexerToken::PowOperator => LexerToken::PowOperator,
            LexerToken::LeftParenthesis => LexerToken::LeftParenthesis,
            LexerToken::RightParenthesis => LexerToken::RightParenthesis,
            LexerToken::LogFunction => LexerToken::LogFunction,
            LexerToken::SinFunction => LexerToken::SinFunction,
            LexerToken::CosFunction => LexerToken::CosFunction,
            LexerToken::TanFunction => LexerToken::TanFunction,
            LexerToken::SqrtFunction => LexerToken::SqrtFunction,
            LexerToken::PiConstant => LexerToken::PiConstant,
            LexerToken::EConstant => LexerToken::EConstant,
        }
    }

    /// Whether this token is one of the five binary operators.
    pub fn is_operator(&self) -> (r: bool)
        ensures
            r == is_operator_v(self@),
    {
        match self {
            LexerToken::AddOperator => true,
            LexerToken::SubOperator => true,
            LexerToken::MulOperator => true,
            LexerToken::DivOperator => true,
            LexerToken::PowOperator => true,
            _ => false,
        }
    }
}

/// Mathematical model of a [`LexerError`].
pub enum LexerErrV {
    InvalidCharacter(char),
    InvalidNumber(Seq<char>),
}

#[derive(Debug, PartialEq)]
pub enum LexerError {
    InvalidCharacter(char),
    InvalidNumber(String),
}

impl View for LexerError {
    type V = LexerErrV;

    open spec fn view(&self) -> LexerErrV {
        match self {
            LexerError::InvalidCharacter(c) => LexerErrV::InvalidCharacter(*c),
            LexerError::InvalidNumber(s) => LexerErrV::InvalidNumber(s@),
        }
    }
}

impl DeepView for LexerError {
    type V = LexerErrV;

    open spec fn deep_view(&self) -> LexerErrV {
        self.view()
    }
}

/// The accumulation mode of the scan: building a number or building a
/// name.
#[derive(Debug, PartialEq, Eq, Structural)]
pub enum ParsingType {
    Number,
    Variable,
}

pub uninterp spec fn char_is_whitespace(c: char) -> bool;

pub uninterp spec fn char_is_alphabetic(c: char) -> bool;

pub uninterp spec fn char_is_numeric(c: char) -> bool;

/// Relies on char::is_whitespace: whether a character has the Unicode
/// whitespace property depends on the character alone.
#[verifier::external_body]
fn is_whitespace_char(c: char) -> (r: bool)
    ensures
        r == char_is_whitespace(c),
{
    c.is_whitespace()
}

/// Relies on char::is_alphabetic: whether a character is a Unicode
/// letter depends on the character alone.
#[verifier::external_body]
fn is_alphabetic_char(c: char) -> (r: bool)
    ensures
        r == char_is_alphabetic(c),
{
    c.is_alphabetic()
}

/// Relies on char::is_numeric: whether a character is a Unicode numeric
/// character depends on the character alone.
#[verifier::external_body]
fn is_numeric_char(c: char) -> (r: bool)
    ensures
        r == char_is_numeric(c),
{
    c.is_numeric()
}

/// Character-by-character string comparison.
fn str_eq(a: &str, b: &str) -> (r: bool)
    ensures
        r == (a@ == b@),
{
    let n = a.unicode_len();
    if n != b.unicode_len() {
        return false;
    }
    for i in 0..n
        invariant
            n == a@.len(),
            n == b@.len(),
            forall|j: int| 0 <= j < i ==> a@[j] == b@[j],
    {
        if a.get_char(i) != b.get_char(i) {
            return false;
        }
    }
    proof {
        assert(a@ =~= b@);
    }
    true
}

/// The token denoted by a recognized keyword, if the text is one.
pub open spec fn keyword_token(s: Seq<char>) -> Option<TokenV> {
    if s == "ln"@ {
        Some(TokenV::LogFunction)
    } else if s == "sin"@ {
        Some(TokenV::SinFunction)
    } else if s == "cos"@ {
        Some(TokenV::CosFunction)
    } else if s == "tan"@ {
        Some(TokenV::TanFunction)
    } else if s == "sqrt"@ {
        Some(TokenV::SqrtFunction)
    } else if s == "pi"@ {
        Some(TokenV::PiConstant)
    } else if s == "e"@ {
        Some(TokenV::EConstant)
    } else {
        None
    }
}

/// The token denoted by an operator or parenthesis character, if the
/// character is one.
pub open spec fn operator_token(c: char) -> Option<TokenV> {
    if c == '+' {
        Some(TokenV::AddOperator)
    } else if c == '-' {
        Some(TokenV::SubOperator)
    } else if c == '*' {
        Some(TokenV::MulOperator)
    } else if c == '/' {
        Some(TokenV::DivOperator)
    } else if c == '^' {
        Some(TokenV::PowOperator)
    } else if c == '(' {
        Some(TokenV::LeftParenthesis)
    } else if c == ')' {
        Some(TokenV::RightParenthesis)
    } else {
        None
    }
}

/// Finalizing the accumulation buffer: an empty buffer adds nothing, a
/// name becomes a keyword or a free variable token, a number is parsed
/// as a [`Number`].
pub open spec fn spec_flush(
    mode: Option<ParsingType>,
    buf: Seq<char>,
    out: Seq<TokenV>,
) -> Result<Seq<TokenV>, LexerErrV> {
    if buf.len() == 0 {
        Ok(out)
    } else if mode matches Some(ParsingType::Variable) {
        match keyword_token(buf) {
            Some(t) => Ok(out.push(t)),
            None => Ok(out.push(TokenV::Variable(buf))),
        }
    } else if mode matches Some(ParsingType::Number) {
        match spec_number_from(buf) {
            Some(n) => Ok(out.push(TokenV::Number(n))),
            None => Err(LexerErrV::InvalidNumber(buf)),
        }
    } else {
        Ok(out)
    }
}

/// One step of the scan per character, carried out from position `i`
/// with the given accumulation state.
pub open spec fn spec_lex(
    s: Seq<char>,
    i: int,
    mode: Option<ParsingType>,
    buf: Seq<char>,
    out: Seq<TokenV>,
) -> Result<Seq<TokenV>, LexerErrV>
    decreases s.len() - i,
{
    if i < 0 || i >= s.len() {
        spec_flush(mode, buf, out)
    } else {
        let c = s[i];
        if char_is_whitespace(c) {
            match spec_flush(mode, buf, out) {
                Ok(out2) => spec_lex(s, i + 1, None, Seq::empty(), out2),
                Err(e) => Err(e),
            }
        } else if char_is_alphabetic(c) {
            if mode matches Some(ParsingType::Variable) {
                spec_lex(s, i + 1, mode, buf.push(c), out)
            } else {
                match spec_flush(mode, buf, out) {
                    Ok(out2) => spec_lex(s, i + 1, Some(ParsingType::Variable), seq![c], out2),
                    Err(e) => Err(e),
                }
            }
        } else if char_is_numeric(c) || c == '.' {
            if mode matches Some(ParsingType::Number) {
                spec_lex(s, i + 1, mode, buf.push(c), out)
            } else {
                match spec_flush(mode, buf, out) {
                    Ok(out2) => spec_lex(s, i + 1, Some(ParsingType::Number), seq![c], out2),
                    Err(e) => Err(e),
                }
            }
        } else {
            match operator_token(c) {
                Some(t) => match spec_flush(mode, buf, out) {
                    Ok(out2) => spec_lex(s, i + 1, None, Seq::empty(), out2.push(t)),
                    Err(e) => Err(e),
                },
                None => Err(LexerErrV::InvalidCharacter(c)),
            }
        }
    }
}

/// The token sequence denoted by a text, or the first scan error.
pub open spec fn spec_tokenize(s: Seq<char>) -> Result<Seq<TokenV>, LexerErrV> {
    spec_lex(s, 0, None, Seq::empty(), Seq::empty())
}

/// The token a finished name denotes: a keyword token when the name is
/// recognized, else a free variable token.
fn variable_to_token(s: &str) -> (r: Option<LexerToken>)
    ensures
        match keyword_token(s@) {
            Some(tv) => r matches Some(t) && t@ == tv,
            None => r is None,
        },
{
    if str_eq(s, "ln") {
        Some(LexerToken::LogFunction)
    } else if str_eq(s, "sin") {
        Some(LexerToken::SinFunction)
    } else if str_eq(s, "cos") {
        Some(LexerToken::CosFunction)
    } else if str_eq(s, "tan") {
        Some(LexerToken::TanFunction)
    } else if str_eq(s, "sqrt") {
        Some(LexerToken::SqrtFunction)
    } else if str_eq(s, "pi") {
        Some(LexerToken::PiConstant)
    } else if str_eq(s, "e") {
        Some(LexerToken::EConstant)
    } else {
        None
    }
}

fn operator_to_token(c: char) -> (r: Option<LexerToken>)
    ensures
        match operator_token(c) {
            Some(tv) => r matches Some(t) && t@ == tv,
            None => r is None,
        },
{
    if c == '+' {
        Some(LexerToken::AddOperator)
    } else if c == '-' {
        Some(LexerToken::SubOperator)
    } else if c == '*' {
        Some(LexerToken::MulOperator)
    } else if c == '/' {
        Some(LexerToken::DivOperator)
    } else if c == '^' {
        Some(LexerToken::PowOperator)
    } else if c == '(' {
        Some(LexerToken::LeftParenthesis)
    } else if c == ')' {
        Some(LexerToken::RightParenthesis)
    } else {
        None
    }
}

/// Finalizes the accumulation buffer into `tokens`, clearing the buffer
/// and the mode.
fn add_current(
    tokens: &mut Vec<LexerToken>,
    current_parsing: &mut String,
    current_parsing_type: &mut Option<ParsingType>,
) -> (r: Result<(), LexerError>)
    ensures
        match r {
            Ok(_) => {
                &&& spec_flush(
                    *old(current_parsing_type),
                    old(current_parsing)@,
                    old(tokens).deep_view(),
                ) == Ok::<Seq<TokenV>, LexerErrV>(final(tokens).deep_view())
                &&& final(current_parsing)@ == Seq::<char>::empty()
                &&& *final(current_parsing_type) is None
            },
            Err(e) => spec_flush(
                *old(current_parsing_type),
                old(current_parsing)@,
                old(tokens).deep_view(),
            ) == Err::<Seq<TokenV>, LexerErrV>(e@),
        },
{
    if current_parsing.as_str().unicode_len() == 0 {
        *current_parsing_type = None;
        return Ok(());
    }
    match current_parsing_type {
        Some(ParsingType::Variable) => {
            let ghost out0 = tokens.deep_view();
            match variable_to_token(current_parsing.as_str()) {
                Some(token) => {
                    let ghost tv = token@;
                    tokens.push(token);
                    proof {
                        assert(tokens.deep_view() =~= out0.push(tv));
                    }
                },
                None => {
                    let token = LexerToken::Variable(current_parsing.clone());
                    let ghost tv = token@;
                    tokens.push(token);
                    proof {
                        assert(tokens.deep_view() =~= out0.push(tv));
                    }
                },
            }
            *current_parsing = String::new();
            *current_parsing_type = None;
            Ok(())
        },
        Some(ParsingType::Number) => {
            match Number::from_str(current_parsing.as_str()) {
                Ok(n) => {
                    let ghost out0 = tokens.deep_view();
                    let token = LexerToken::Number(n);
                    let ghost tv = token@;
                    tokens.push(token);
                    proof {
                        assert(tokens.deep_view() =~= out0.push(tv));
                    }
                    *current_parsing = String::new();
                    *current_parsing_type = None;
                    Ok(())
                },
                Err(_) => Err(LexerError::InvalidNumber(current_parsing.clone())),
            }
        },
        None => {
            *current_parsing = String::new();
            Ok(())
        },
    }
}

/// Tokenizes input string into a vector of LexerToken
pub fn tokenize(input: &str) -> (r: Result<Vec<LexerToken>, LexerError>)
    ensures
        match r {
            Ok(tokens) => spec_tokenize(input@) == Ok::<Seq<TokenV>, LexerErrV>(tokens.deep_view()),
            Err(e) => spec_tokenize(input@) == Err::<Seq<TokenV>, LexerErrV>(e@),
        },
{
    let ghost s = input@;
    let mut tokens: Vec<LexerToken> = Vec::new();
    let mut current_parsing_type: Option<ParsingType> = None;
    let mut current_parsing = String::new();
    proof {
        assert(tokens.deep_view() =~= Seq::<TokenV>::empty());
    }
    let len = input.unicode_len();
    for i in 0..len
        invariant
            s == input@,
            len == s.len(),
            spec_lex(s, i as int, current_parsing_type, current_parsing@, tokens.deep_view())
                == spec_tokenize(s),
    {
        let c = input.get_char(i);
        if is_whitespace_char(c) {
            match add_current(&mut tokens, &mut current_parsing, &mut current_parsing_type) {
                Ok(_) => (),
                Err(e) => {
                    return Err(e);
                },
            }
        } else if is_alphabetic_char(c) {
            match current_parsing_type {
                Some(ParsingType::Variable) => {
                    push_char(&mut current_parsing, c);
                },
                _ => {
                    match add_current(&mut tokens, &mut current_parsing, &mut current_parsing_type)
                        {
                        Ok(_) => (),
                        Err(e) => {
                            return Err(e);
                        },
                    }
                    current_parsing_type = Some(ParsingType::Variable);
                    push_char(&mut current_parsing, c);
                    proof {
                        assert(current_parsing@ =~= seq![c]);
                    }
                },
            }
        } else if is_numeric_char(c) || c == '.' {
            match current_parsing_type {
                Some(ParsingType::Number) => {
                    push_char(&mut current_parsing, c);
                },
                _ => {
                    match add_current(&mut tokens, &mut current_parsing, &mut current_parsing_type)
                        {
                        Ok(_) => (),
                        Err(e) => {
                            return Err(e);
                        },
                    }
                    current_parsing_type = Some(ParsingType::Number);
                    push_char(&mut current_parsing, c);
                    proof {
                        assert(current_parsing@ =~= seq![c]);
                    }
                },
            }
        } else {
            match operator_to_token(c) {
                Some(token) => {
                    match add_current(&mut tokens, &mut current_parsing, &mut current_parsing_type)
                        {
                        Ok(_) => (),
                        Err(e) => {
                            return Err(e);
                        },
                    }
                    let ghost out0 = tokens.deep_view();
                    let ghost tv = token@;
                    tokens.push(token);
                    proof {
                        assert(tokens.deep_view() =~= out0.push(tv));
                    }
                },
                None => {
                    return Err(LexerError::InvalidCharacter(c));
                },
            }
        }
    }
    match add_current(&mut tokens, &mut current_parsing, &mut current_parsing_type) {
        Ok(_) => Ok(tokens),
        Err(e) => Err(e),
    }
}

} // verus!
