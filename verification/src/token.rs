//! The token data model: the closed set of token kinds, the record produced
//! for each scanned lexeme, and the diagnostics a scan can report.

use vstd::prelude::*;

verus! {

/// The closed set of lexical categories. No new kinds appear at runtime.
#[derive(Clone, Copy, PartialEq, Eq, Structural, Debug)]
pub enum Token {
    LeftParen,
    RightParen,
    LeftBrace,
    RightBrace,
    Dot,
    Minus,
    Plus,
    Star,
    Slash,
    Comma,
    Semicolon,
    Bang,
    BangEqual,
    Equal,
    EqualEqual,
    Greater,
    GreaterEqual,
    Less,
    LessEqual,
    And,
    Or,
    Class,
    This,
    Super,
    For,
    While,
    If,
    Else,
    Fun,
    Return,
    Print,
    Var,
    String,
    Number,
    Nil,
    True,
    False,
    Identifier,
    EOF,
}

/// Mathematical model of one token record: its kind, the exact source bytes
/// of its lexeme, and the position (byte offset, 1-based line, 0-based
/// column) of the lexeme's first byte.
#[verifier::ext_equal]
pub ghost struct SpecToken {
    pub kind: Token,
    pub lexeme: Seq<u8>,
    pub offset: int,
    pub line: int,
    pub column: int,
}

/// A recoverable lexical error, recorded without aborting the scan.
#[derive(Clone, Copy, PartialEq, Eq, Structural, Debug)]
pub enum Diagnostic {
    /// A string literal was opened but the input ended before a closing
    /// quote; `line` is the line on which the literal started.
    UnterminatedString { line: usize },
    /// A byte matched by no dispatch rule, with the position where it stood.
    UnexpectedCharacter { character: u8, line: usize, column: usize },
}

/// Mathematical model of a diagnostic.
#[verifier::ext_equal]
pub ghost enum SpecDiag {
    UnterminatedString { line: int },
    UnexpectedCharacter { character: u8, line: int, column: int },
}

impl View for Diagnostic {
    type V = SpecDiag;

    open spec fn view(&self) -> SpecDiag {
        match *self {
            Diagnostic::UnterminatedString { line } => (SpecDiag::UnterminatedString {
                line: line as int,
            }),
            Diagnostic::UnexpectedCharacter { character, line, column } => (
            SpecDiag::UnexpectedCharacter {
                character,
                line: line as int,
                column: column as int,
            }),
        }
    }
}

impl DeepView for Diagnostic {
    type V = SpecDiag;

    open spec fn deep_view(&self) -> SpecDiag {
        self.view()
    }
}

/// The immutable result of scanning one lexeme. `lexeme` borrows the source
/// buffer: it is exactly the bytes between the lexeme's start and end.
#[derive(Clone, Copy, Debug)]
pub struct TokenData<'a> {
    token: Token,
    lexeme: &'a [u8],
    offset: usize,
    line: usize,
    column: usize,
}

impl<'a> View for TokenData<'a> {
    type V = SpecToken;

    closed spec fn view(&self) -> SpecToken {
        SpecToken {
            kind: self.token,
            lexeme: self.lexeme@,
            offset: self.offset as int,
            line: self.line as int,
            column: self.column as int,
        }
    }
}

impl<'a> DeepView for TokenData<'a> {
    type V = SpecToken;

    open spec fn deep_view(&self) -> SpecToken {
        self.view()
    }
}

impl<'a> TokenData<'a> {
    pub fn new(token: Token, lexeme: &'a [u8], offset: usize, line: usize, column: usize) -> (t:
        Self)
        ensures
            t@ == (SpecToken {
                kind: token,
                lexeme: lexeme@,
                offset: offset as int,
                line: line as int,
                column: column as int,
            }),
    {
        Self { token, lexeme, offset, line, column }
    }

    /// The token's lexical category.
    pub fn token(&self) -> (t: Token)
        ensures
            t == self@.kind,
    {
        self.token
    }

    /// The exact source bytes this token was scanned from.
    pub fn lexeme(&self) -> (l: &'a [u8])
        ensures
            l@ == self@.lexeme,
    {
        self.lexeme
    }

    /// Byte offset of the lexeme's first byte in the source buffer.
    pub fn offset(&self) -> (o: usize)
        ensures
            o as int == self@.offset,
    {
        self.offset
    }

    /// 1-based line of the lexeme's first byte.
    pub fn line(&self) -> (l: usize)
        ensures
            l as int == self@.line,
    {
        self.line
    }

    /// 0-based column of the lexeme's first byte within its line.
    pub fn column(&self) -> (c: usize)
        ensures
            c as int == self@.column,
    {
        self.column
    }
}

} // verus!
