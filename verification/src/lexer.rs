//! The lexer: it turns a source text into a sequence of classified tokens,
//! each carrying the file, line and column where its word began.
//!
//! A word is a maximal run of non-whitespace characters; a word beginning
//! with `-` starts a comment that runs to the end of the line. Words are
//! classified in a fixed priority order: character literal (`.X`), label
//! (`name:`), register (`#r`), memory (`&a`), keyword, decimal number,
//! and otherwise identifier.

use vstd::prelude::*;
use crate::errors::LexError;
use crate::text::{
    copy_chars, copy_range, dec_val, is_number_word, is_space, parse_u16, space,
};

verus! {

/// A position in a source text, with 1-based line and column.
#[derive(Debug)]
pub struct Location {
    pub file: Vec<char>,
    pub line: usize,
    pub column: usize,
}

/// The mathematical value of a `Location`.
pub ghost struct LocV {
    pub file: Seq<char>,
    pub line: int,
    pub column: int,
}

impl View for Location {
    type V = LocV;

    open spec fn view(&self) -> LocV {
        LocV { file: self.file@, line: self.line as int, column: self.column as int }
    }
}

impl Location {
    /// Copy of this location.
    pub fn duplicate(&self) -> (r: Location)
        ensures
            r@ == self@,
    {
        Location { file: copy_chars(&self.file), line: self.line, column: self.column }
    }
}

/// One classified word of a source text.
#[derive(Debug)]
#[allow(inconsistent_fields)]
pub enum Token {
    Keyword { value: Vec<char>, loc: Location },
    Label { value: Vec<char>, loc: Location },
    Char { value: char, loc: Location },
    Number { value: u16, loc: Location },
    Register { value: Vec<char>, loc: Location },
    Memory { value: Vec<char>, loc: Location },
    Identifier { value: Vec<char>, loc: Location },
}

/// The mathematical value of a `Token`.
#[allow(inconsistent_fields)]
pub ghost enum TokenV {
    Keyword { value: Seq<char>, loc: LocV },
    Label { value: Seq<char>, loc: LocV },
    Char { value: char, loc: LocV },
    Number { value: u16, loc: LocV },
    Register { value: Seq<char>, loc: LocV },
    Memory { value: Seq<char>, loc: LocV },
    Identifier { value: Seq<char>, loc: LocV },
}

impl View for Token {
    type V = TokenV;

    open spec fn view(&self) -> TokenV {
        match self {
            Token::Keyword { value, loc } => TokenV::Keyword { value: value@, loc: loc@ },
            Token::Label { value, loc } => TokenV::Label { value: value@, loc: loc@ },
            Token::Char { value, loc } => TokenV::Char { value: *value, loc: loc@ },
            Token::Number { value, loc } => TokenV::Number { value: *value, loc: loc@ },
            Token::Register { value, loc } => TokenV::Register { value: value@, loc: loc@ },
            Token::Memory { value, loc } => TokenV::Memory { value: value@, loc: loc@ },
            Token::Identifier { value, loc } => TokenV::Identifier { value: value@, loc: loc@ },
        }
    }
}

impl DeepView for Token {
    type V = TokenV;

    open spec fn deep_view(&self) -> TokenV {
        self.view()
    }
}

impl TokenV {
    /// The location of a token's word.
    pub open spec fn loc(self) -> LocV {
        match self {
            TokenV::Keyword { loc, .. } => loc,
            TokenV::Label { loc, .. } => loc,
            TokenV::Char { loc, .. } => loc,
            TokenV::Number { loc, .. } => loc,
            TokenV::Register { loc, .. } => loc,
            TokenV::Memory { loc, .. } => loc,
            TokenV::Identifier { loc, .. } => loc,
        }
    }
}

impl Token {
    /// The location of this token's word.
    pub fn loc(&self) -> (r: &Location)
        ensures
            r@ == self@.loc(),
    {
        match self {
            Token::Keyword { loc, .. } => loc,
            Token::Label { loc, .. } => loc,
            Token::Char { loc, .. } => loc,
            Token::Number { loc, .. } => loc,
            Token::Register { loc, .. } => loc,
            Token::Memory { loc, .. } => loc,
            Token::Identifier { loc, .. } => loc,
        }
    }
}

/// The keywords of the language, `@` among them.
pub open spec fn is_keyword(w: Seq<char>) -> bool {
    ||| w == seq!['m', 'o', 'v']
    ||| w == seq!['a', 'd', 'd']
    ||| w == seq!['s', 'u', 'b']
    ||| w == seq!['c', 'm', 'p']
    ||| w == seq!['j', 'm', 'p']
    ||| w == seq!['j', 'l', 't']
    ||| w == seq!['j', 'g', 't']
    ||| w == seq!['j', 'e', 'q']
    ||| w == seq!['j', 'n', 'e']
    ||| w == seq!['r', 'u', 'n']
    ||| w == seq!['r', 'e', 't']
    ||| w == seq!['d', 'i', 'e']
    ||| w == seq!['o', 'u', 't']
    ||| w == seq!['p', 'r', 't']
    ||| w == seq!['@']
    ||| w == seq!['r', 'd', 'n']
    ||| w == seq!['r', 'd', 'c']
    ||| w == seq!['r', 'l', 'n']
    ||| w == seq!['d', 'b', 'g']
}

/// Is `w` exactly the one-character word `a`?
fn word_is1(w: &Vec<char>, a: char) -> (r: bool)
    ensures
        r == (w@ == seq![a]),
{
    let r = w.len() == 1 && w[0] == a;
    proof {
        if r {
            assert(w@ =~= seq![a]);
        } else {
            assert(w@ != seq![a]) by {
                if w@ == seq![a] {
                    assert(w@.len() == 1 && w@[0] == a);
                }
            }
        }
    }
    r
}

/// Is `w` exactly the three-character word `a b c`?
fn word_is3(w: &Vec<char>, a: char, b: char, c: char) -> (r: bool)
    ensures
        r == (w@ == seq![a, b, c]),
{
    let r = w.len() == 3 && w[0] == a && w[1] == b && w[2] == c;
    proof {
        if r {
            assert(w@ =~= seq![a, b, c]);
        } else {
            assert(w@ != seq![a, b, c]) by {
                if w@ == seq![a, b, c] {
                    assert(w@.len() == 3 && w@[0] == a && w@[1] == b && w@[2] == c);
                }
            }
        }
    }
    r
}

/// Executable test matching `is_keyword`.
pub fn keyword_word(w: &Vec<char>) -> (r: bool)
    ensures
        r == is_keyword(w@),
{
    word_is3(w, 'm', 'o', 'v') || word_is3(w, 'a', 'd', 'd') || word_is3(w, 's', 'u', 'b')
        || word_is3(w, 'c', 'm', 'p') || word_is3(w, 'j', 'm', 'p') || word_is3(w, 'j', 'l', 't')
        || word_is3(w, 'j', 'g', 't') || word_is3(w, 'j', 'e', 'q') || word_is3(w, 'j', 'n', 'e')
        || word_is3(w, 'r', 'u', 'n') || word_is3(w, 'r', 'e', 't') || word_is3(w, 'd', 'i', 'e')
        || word_is3(w, 'o', 'u', 't') || word_is3(w, 'p', 'r', 't') || word_is1(w, '@')
        || word_is3(w, 'r', 'd', 'n') || word_is3(w, 'r', 'd', 'c') || word_is3(w, 'r', 'l', 'n')
        || word_is3(w, 'd', 'b', 'g')
}

/// A lone `.`: a character literal with no character after it.
pub open spec fn bad_char_word(w: Seq<char>) -> bool {
    w.len() == 1 && w[0] == '.'
}

/// How a well-formed word is classified, in the fixed priority order.
/// `w` must be non-empty and not a lone `.`.
pub open spec fn classify_spec(w: Seq<char>, loc: LocV) -> TokenV
    recommends
        w.len() > 0,
        !bad_char_word(w),
{
    if w[0] == '.' {
        TokenV::Char { value: w[1], loc }
    } else if w.last() == ':' {
        TokenV::Label { value: w.drop_last(), loc }
    } else if w[0] == '#' {
        TokenV::Register { value: w.drop_first(), loc }
    } else if w[0] == '&' {
        TokenV::Memory { value: w.drop_first(), loc }
    } else if is_keyword(w) {
        TokenV::Keyword { value: w, loc }
    } else if is_number_word(w) {
        TokenV::Number { value: dec_val(w) as u16, loc }
    } else {
        TokenV::Identifier { value: w, loc }
    }
}

/// Classify one word. Fails exactly on a lone `.`.
fn classify(file: &Vec<char>, w: Vec<char>, line: usize, column: usize) -> (r: Result<
    Token,
    LexError,
>)
    requires
        w@.len() > 0,
    ensures
        ({
            let loc = LocV { file: file@, line: line as int, column: column as int };
            match r {
                Ok(t) => !bad_char_word(w@) && t@ == classify_spec(w@, loc),
                Err(e) => bad_char_word(w@) && e.loc@ == loc,
            }
        }),
{
    let loc = Location { file: copy_chars(file), line, column };
    if w[0] == '.' {
        if w.len() < 2 {
            return Err(LexError { loc });
        }
        return Ok(Token::Char { value: w[1], loc });
    }
    if w[w.len() - 1] == ':' {
        let value = copy_range(&w, 0, w.len() - 1);
        proof {
            assert(value@ =~= w@.drop_last());
        }
        return Ok(Token::Label { value, loc });
    }
    if w[0] == '#' {
        let value = copy_range(&w, 1, w.len());
        proof {
            assert(value@ =~= w@.drop_first());
        }
        return Ok(Token::Register { value, loc });
    }
    if w[0] == '&' {
        let value = copy_range(&w, 1, w.len());
        proof {
            assert(value@ =~= w@.drop_first());
        }
        return Ok(Token::Memory { value, loc });
    }
    if keyword_word(&w) {
        return Ok(Token::Keyword { value: w, loc });
    }
    match parse_u16(&w) {
        Some(value) => Ok(Token::Number { value, loc }),
        None => Ok(Token::Identifier { value: w, loc }),
    }
}

/// First index at or after `i` that does not hold whitespace.
pub open spec fn skip_spaces(src: Seq<char>, i: int) -> int
    decreases src.len() - i,
    when 0 <= i <= src.len()
{
    if i < src.len() && is_space(src[i]) {
        skip_spaces(src, i + 1)
    } else {
        i
    }
}

pub proof fn lemma_skip_spaces(src: Seq<char>, i: int)
    requires
        0 <= i <= src.len(),
    ensures
        i <= skip_spaces(src, i) <= src.len(),
        skip_spaces(src, i) == src.len() || !is_space(src[skip_spaces(src, i)]),
    decreases src.len() - i,
{
    if i < src.len() && is_space(src[i]) {
        lemma_skip_spaces(src, i + 1);
    }
}

/// First index at or after `i` that holds whitespace, or the end.
pub open spec fn word_end(src: Seq<char>, i: int) -> int
    decreases src.len() - i,
    when 0 <= i <= src.len()
{
    if i < src.len() && !is_space(src[i]) {
        word_end(src, i + 1)
    } else {
        i
    }
}

pub proof fn lemma_word_end(src: Seq<char>, i: int)
    requires
        0 <= i <= src.len(),
    ensures
        i <= word_end(src, i) <= src.len(),
        word_end(src, i) == src.len() || is_space(src[word_end(src, i)]),
    decreases src.len() - i,
{
    if i < src.len() && !is_space(src[i]) {
        lemma_word_end(src, i + 1);
    }
}

/// First index at or after `i` that holds a newline, or the end.
pub open spec fn line_end(src: Seq<char>, i: int) -> int
    decreases src.len() - i,
    when 0 <= i <= src.len()
{
    if i < src.len() && src[i] != '\n' {
        line_end(src, i + 1)
    } else {
        i
    }
}

pub proof fn lemma_line_end(src: Seq<char>, i: int)
    requires
        0 <= i <= src.len(),
    ensures
        i <= line_end(src, i) <= src.len(),
        line_end(src, i) == src.len() || src[line_end(src, i)] == '\n',
    decreases src.len() - i,
{
    if i < src.len() && src[i] != '\n' {
        lemma_line_end(src, i + 1);
    }
}

/// Start of the next word to classify at or after `i`: whitespace is
/// skipped, and a word beginning with `-` is skipped to the end of its line.
pub open spec fn next_word_start(src: Seq<char>, i: int) -> int
    decreases src.len() - i,
    when 0 <= i <= src.len()
    via next_word_start_dec
{
    let j = skip_spaces(src, i);
    if j < src.len() && src[j] == '-' {
        next_word_start(src, line_end(src, j))
    } else {
        j
    }
}

#[via_fn]
proof fn next_word_start_dec(src: Seq<char>, i: int) {
    lemma_skip_spaces(src, i);
    let j = skip_spaces(src, i);
    if j < src.len() && src[j] == '-' {
        lemma_line_end(src, j);
    }
}

pub proof fn lemma_next_word_start(src: Seq<char>, i: int)
    requires
        0 <= i <= src.len(),
    ensures
        i <= next_word_start(src, i) <= src.len(),
        next_word_start(src, i) == src.len() || (!is_space(src[next_word_start(src, i)])
            && src[next_word_start(src, i)] != '-'),
    decreases src.len() - i,
{
    lemma_skip_spaces(src, i);
    let j = skip_spaces(src, i);
    if j < src.len() && src[j] == '-' {
        lemma_line_end(src, j);
        lemma_next_word_start(src, line_end(src, j));
    }
}

/// 1-based line number of position `p`.
pub open spec fn line_of(src: Seq<char>, p: int) -> int
    decreases p,
{
    if p <= 0 {
        1
    } else {
        line_of(src, p - 1) + if src[p - 1] == '\n' {
            1int
        } else {
            0int
        }
    }
}

/// 1-based column number of position `p`.
pub open spec fn col_of(src: Seq<char>, p: int) -> int
    decreases p,
{
    if p <= 0 {
        1
    } else if src[p - 1] == '\n' {
        1
    } else {
        col_of(src, p - 1) + 1
    }
}

pub proof fn lemma_line_col_bounds(src: Seq<char>, p: int)
    requires
        0 <= p,
    ensures
        1 <= line_of(src, p) <= p + 1,
        1 <= col_of(src, p) <= p + 1,
    decreases p,
{
    if p > 0 {
        lemma_line_col_bounds(src, p - 1);
    }
}

/// Does lexing from position `i` stop on a malformed character literal?
pub open spec fn lex_fails(src: Seq<char>, i: int) -> bool
    decreases src.len() - i,
    when 0 <= i <= src.len()
    via lex_fails_dec
{
    let j = next_word_start(src, i);
    if j >= src.len() {
        false
    } else {
        let e = word_end(src, j);
        if bad_char_word(src.subrange(j, e)) {
            true
        } else {
            lex_fails(src, e)
        }
    }
}

#[via_fn]
proof fn lex_fails_dec(src: Seq<char>, i: int) {
    lemma_next_word_start(src, i);
    let j = next_word_start(src, i);
    if j < src.len() {
        lemma_word_end(src, j);
    }
}

/// Are `toks` exactly the tokens lexed from position `i` to the end?
pub open spec fn lexes_to(file: Seq<char>, src: Seq<char>, i: int, toks: Seq<TokenV>) -> bool
    decreases toks.len(),
{
    let j = next_word_start(src, i);
    if j >= src.len() {
        toks.len() == 0
    } else if toks.len() == 0 {
        false
    } else {
        let e = word_end(src, j);
        let w = src.subrange(j, e);
        !bad_char_word(w) && toks[0] == classify_spec(
            w,
            LocV { file, line: line_of(src, j), column: col_of(src, j) },
        ) && lexes_to(file, src, e, toks.drop_first())
    }
}

/// The lexer: a source text, the name of its file, and a cursor.
pub struct Lexer {
    file: Vec<char>,
    source: Vec<char>,
    pos: usize,
}

impl Lexer {
    /// The cursor never leaves the text, and positions near `usize::MAX`
    /// are excluded so that line and column counting cannot overflow.
    pub closed spec fn wf(&self) -> bool {
        self.pos <= self.source@.len() && self.source@.len() < usize::MAX
    }

    pub closed spec fn spec_file(&self) -> Seq<char> {
        self.file@
    }

    pub closed spec fn spec_source(&self) -> Seq<char> {
        self.source@
    }

    pub closed spec fn spec_pos(&self) -> int {
        self.pos as int
    }

    /// A lexer over `source`, reporting locations against `file`.
    pub fn new(file: Vec<char>, source: Vec<char>) -> (r: Lexer)
        requires
            source@.len() < usize::MAX,
        ensures
            r.wf(),
            r.spec_file() == file@,
            r.spec_source() == source@,
            r.spec_pos() == 0,
    {
        Lexer { file, source, pos: 0 }
    }

    /// Line and column of position `pos`, counted from the start of the text.
    fn location(&self, pos: usize) -> (r: (usize, usize))
        requires
            self.wf(),
            pos <= self.source@.len(),
        ensures
            r.0 == line_of(self.source@, pos as int),
            r.1 == col_of(self.source@, pos as int),
    {
        let mut line: usize = 1;
        let mut column: usize = 1;
        let mut i: usize = 0;
        while i < pos
            invariant
                0 <= i <= pos <= self.source@.len() < usize::MAX,
                line == line_of(self.source@, i as int),
                column == col_of(self.source@, i as int),
            decreases pos - i,
        {
            proof {
                lemma_line_col_bounds(self.source@, i as int);
            }
            if self.source[i] == '\n' {
                line = line + 1;
                column = 1;
            } else {
                column = column + 1;
            }
            i = i + 1;
        }
        (line, column)
    }

    /// Move the cursor past any whitespace.
    fn strip_whitespace(&mut self)
        requires
            old(self).wf(),
        ensures
            final(self).wf(),
            final(self).file == old(self).file,
            final(self).source == old(self).source,
            final(self).spec_pos() == skip_spaces(old(self).source@, old(self).spec_pos()),
    {
        while self.pos < self.source.len() && space(self.source[self.pos])
            invariant
                self.wf(),
                self.file == old(self).file,
                self.source == old(self).source,
                skip_spaces(self.source@, self.pos as int) == skip_spaces(
                    old(self).source@,
                    old(self).spec_pos(),
                ),
            decreases self.source@.len() - self.pos,
        {
            self.pos = self.pos + 1;
        }
    }

    /// Move the cursor forward by `n` characters.
    fn advance(&mut self, n: usize)
        requires
            old(self).wf(),
            old(self).spec_pos() + n <= old(self).source@.len(),
        ensures
            final(self).wf(),
            final(self).file == old(self).file,
            final(self).source == old(self).source,
            final(self).spec_pos() == old(self).spec_pos() + n,
    {
        self.pos = self.pos + n;
    }

    /// The word at the cursor, or `None` at whitespace or the end.
    fn peek_word(&self) -> (r: Option<Vec<char>>)
        requires
            self.wf(),
        ensures
            ({
                let src = self.source@;
                let e = word_end(src, self.spec_pos());
                match r {
                    Some(w) => w@ == src.subrange(self.spec_pos(), e) && w@.len() > 0,
                    None => e == self.spec_pos(),
                }
            }),
    {
        proof {
            lemma_word_end(self.source@, self.pos as int);
        }
        let mut word: Vec<char> = Vec::new();
        let mut i: usize = self.pos;
        while i < self.source.len() && !space(self.source[i])
            invariant
                self.wf(),
                self.pos <= i <= self.source@.len(),
                word_end(self.source@, i as int) == word_end(self.source@, self.pos as int),
                i <= word_end(self.source@, self.pos as int),
                word@ == self.source@.subrange(self.pos as int, i as int),
            decreases self.source@.len() - i,
        {
            word.push(self.source[i]);
            proof {
                lemma_word_end(self.source@, i + 1);
                assert(self.source@.subrange(self.pos as int, i + 1) =~= self.source@.subrange(
                    self.pos as int,
                    i as int,
                ).push(self.source@[i as int]));
            }
            i = i + 1;
        }
        if word.len() == 0 {
            None
        } else {
            Some(word)
        }
    }

    /// The next token of the text, `Ok(None)` at the end, or the lexical
    /// error on a malformed character literal.
    pub fn next_token(&mut self) -> (r: Result<Option<Token>, LexError>)
        requires
            old(self).wf(),
        ensures
            final(self).wf(),
            final(self).spec_file() == old(self).spec_file(),
            final(self).spec_source() == old(self).spec_source(),
            ({
                let file = old(self).spec_file();
                let src = old(self).spec_source();
                let j = next_word_start(src, old(self).spec_pos());
                let e = word_end(src, j);
                let w = src.subrange(j, e);
                let loc = LocV { file, line: line_of(src, j), column: col_of(src, j) };
                match r {
                    Ok(None) => j == src.len(),
                    Ok(Some(t)) => j < src.len() && !bad_char_word(w) && t@ == classify_spec(
                        w,
                        loc,
                    ) && final(self).spec_pos() == e,
                    Err(err) => j < src.len() && bad_char_word(w) && err.loc@ == loc,
                }
            }),
        decreases old(self).spec_source().len() - old(self).spec_pos(),
    {
        proof {
            lemma_skip_spaces(self.source@, self.pos as int);
        }
        self.strip_whitespace();
        let start = self.pos;
        match self.peek_word() {
            None => {
                proof {
                    lemma_word_end(self.source@, self.pos as int);
                }
                Ok(None)
            },
            Some(word) => {
                proof {
                    lemma_word_end(self.source@, self.pos as int);
                }
                if word[0] == '-' {
                    // a comment: discard the rest of the line, then go on
                    proof {
                        lemma_line_end(self.source@, self.pos as int);
                    }
                    while self.pos < self.source.len() && self.source[self.pos] != '\n'
                        invariant
                            self.wf(),
                            self.file == old(self).file,
                            self.source == old(self).source,
                            start <= self.pos,
                            line_end(self.source@, self.pos as int) == line_end(
                                self.source@,
                                start as int,
                            ),
                        decreases self.source@.len() - self.pos,
                    {
                        self.pos = self.pos + 1;
                    }
                    return self.next_token();
                }
                let (line, column) = self.location(start);
                self.advance(word.len());
                match classify(&self.file, word, line, column) {
                    Ok(t) => Ok(Some(t)),
                    Err(e) => Err(e),
                }
            },
        }
    }

    /// All remaining tokens of the text, in order.
    pub fn tokens(&mut self) -> (r: Result<Vec<Token>, LexError>)
        requires
            old(self).wf(),
        ensures
            final(self).wf(),
            match r {
                Ok(toks) => lexes_to(
                    old(self).spec_file(),
                    old(self).spec_source(),
                    old(self).spec_pos(),
                    toks.deep_view(),
                ) && !lex_fails(old(self).spec_source(), old(self).spec_pos()),
                Err(e) => lex_fails(old(self).spec_source(), old(self).spec_pos()),
            },
    {
        let ghost file = old(self).spec_file();
        let ghost src = old(self).spec_source();
        let ghost pos0 = old(self).spec_pos();
        let mut toks: Vec<Token> = Vec::new();
        loop
            invariant
                self.wf(),
                file == old(self).spec_file(),
                src == old(self).spec_source(),
                pos0 == old(self).spec_pos(),
                self.file@ == file,
                self.source@ == src,
                0 <= pos0 <= src.len(),
                lex_fails(src, pos0) == lex_fails(src, self.spec_pos()),
                forall|rest: Seq<TokenV>|
                    lexes_to(file, src, self.spec_pos(), rest) ==> lexes_to(
                        file,
                        src,
                        pos0,
                        #[trigger] (toks.deep_view() + rest),
                    ),
            decreases src.len() - self.spec_pos(),
        {
            let ghost pos_before = self.spec_pos();
            match self.next_token() {
                Err(e) => {
                    proof {
                        assert(lex_fails(src, pos_before));
                    }
                    return Err(e);
                },
                Ok(None) => {
                    proof {
                        assert(!lex_fails(src, pos_before));
                        assert(lexes_to(file, src, pos_before, Seq::<TokenV>::empty()));
                        assert(toks.deep_view() + Seq::<TokenV>::empty() =~= toks.deep_view());
                    }
                    return Ok(toks);
                },
                Ok(Some(t)) => {
                    proof {
                        lemma_next_word_start(src, pos_before);
                        lemma_word_end(src, next_word_start(src, pos_before));
                        assert(lex_fails(src, pos_before) == lex_fails(src, self.spec_pos()));
                    }
                    let ghost old_toks = toks.deep_view();
                    toks.push(t);
                    proof {
                        assert(toks.deep_view() =~= old_toks.push(t@));
                        assert forall|rest: Seq<TokenV>|
                            lexes_to(file, src, self.spec_pos(), rest) implies lexes_to(
                            file,
                            src,
                            pos0,
                            #[trigger] (toks.deep_view() + rest),
                        ) by {
                            let with_t = seq![t@] + rest;
                            assert(with_t.drop_first() =~= rest);
                            assert(lexes_to(file, src, pos_before, with_t));
                            assert(old_toks + with_t =~= toks.deep_view() + rest);
                        }
                    }
                },
            }
        }
    }
}

/// The source form of a token: the word the lexer would classify back into
/// it (locations aside).
pub open spec fn token_text(t: TokenV) -> Seq<char> {
    match t {
        TokenV::Keyword { value, .. } => value,
        TokenV::Label { value, .. } => value.push(':'),
        TokenV::Char { value, .. } => seq!['.', value],
        TokenV::Number { value, .. } => crate::text::dec_render(value as nat),
        TokenV::Register { value, .. } => seq!['#'] + value,
        TokenV::Memory { value, .. } => seq!['&'] + value,
        TokenV::Identifier { value, .. } => value,
    }
}

impl Token {
    /// Print this token back in source form.
    pub fn render(&self) -> (r: Vec<char>)
        ensures
            r@ == token_text(self@),
    {
        match self {
            Token::Keyword { value, .. } => copy_chars(value),
            Token::Label { value, .. } => {
                let mut r = copy_chars(value);
                r.push(':');
                r
            },
            Token::Char { value, .. } => {
                let mut r: Vec<char> = Vec::new();
                r.push('.');
                r.push(*value);
                proof {
                    assert(r@ =~= seq!['.', *value]);
                }
                r
            },
            Token::Number { value, .. } => {
                let mut r: Vec<char> = Vec::new();
                crate::text::push_dec(&mut r, *value);
                proof {
                    assert(r@ =~= crate::text::dec_render(*value as nat));
                }
                r
            },
            Token::Register { value, .. } => {
                let mut r: Vec<char> = Vec::new();
                r.push('#');
                let mut i: usize = 0;
                while i < value.len()
                    invariant
                        0 <= i <= value@.len(),
                        r@ == seq!['#'] + value@.take(i as int),
                    decreases value@.len() - i,
                {
                    r.push(value[i]);
                    proof {
                        assert(seq!['#'] + value@.take(i + 1) =~= (seq!['#'] + value@.take(
                            i as int,
                        )).push(value@[i as int]));
                    }
                    i = i + 1;
                }
                proof {
                    assert(r@ =~= seq!['#'] + value@);
                }
                r
            },
            Token::Memory { value, .. } => {
                let mut r: Vec<char> = Vec::new();
                r.push('&');
                let mut i: usize = 0;
                while i < value.len()
                    invariant
                        0 <= i <= value@.len(),
                        r@ == seq!['&'] + value@.take(i as int),
                    decreases value@.len() - i,
                {
                    r.push(value[i]);
                    proof {
                        assert(seq!['&'] + value@.take(i + 1) =~= (seq!['&'] + value@.take(
                            i as int,
                        )).push(value@[i as int]));
                    }
                    i = i + 1;
                }
                proof {
                    assert(r@ =~= seq!['&'] + value@);
                }
                r
            },
            Token::Identifier { value, .. } => copy_chars(value),
        }
    }
}

impl Token {
    /// Copy of this token.
    pub fn duplicate(&self) -> (r: Token)
        ensures
            r@ == self@,
    {
        match self {
            Token::Keyword { value, loc } => Token::Keyword {
                value: copy_chars(value),
                loc: loc.duplicate(),
            },
            Token::Label { value, loc } => Token::Label {
                value: copy_chars(value),
                loc: loc.duplicate(),
            },
            Token::Char { value, loc } => Token::Char { value: *value, loc: loc.duplicate() },
            Token::Number { value, loc } => Token::Number { value: *value, loc: loc.duplicate() },
            Token::Register { value, loc } => Token::Register {
                value: copy_chars(value),
                loc: loc.duplicate(),
            },
            Token::Memory { value, loc } => Token::Memory {
                value: copy_chars(value),
                loc: loc.duplicate(),
            },
            Token::Identifier { value, loc } => Token::Identifier {
                value: copy_chars(value),
                loc: loc.duplicate(),
            },
        }
    }
}

/// A text lexes to at most one token sequence.
pub proof fn lemma_lexes_deterministic(
    file: Seq<char>,
    src: Seq<char>,
    i: int,
    a: Seq<TokenV>,
    b: Seq<TokenV>,
)
    requires
        0 <= i <= src.len(),
        lexes_to(file, src, i, a),
        lexes_to(file, src, i, b),
    ensures
        a == b,
    decreases a.len(),
{
    lemma_next_word_start(src, i);
    let j = next_word_start(src, i);
    if j >= src.len() {
        assert(a =~= b);
    } else {
        lemma_word_end(src, j);
        let e = word_end(src, j);
        assert(a.len() > 0 && b.len() > 0);
        assert(a[0] == b[0]);
        lemma_lexes_deterministic(file, src, e, a.drop_first(), b.drop_first());
        assert(a.drop_first() == b.drop_first());
        assert forall|k: int| 0 <= k < a.len() implies a[k] == b[k] by {
            if k > 0 {
                assert(a.drop_first()[k - 1] == a[k]);
                assert(b.drop_first()[k - 1] == b[k]);
            }
        }
        assert(a =~= b);
    }
}

} // verus!
