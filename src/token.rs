use vstd::prelude::*;
use vstd::string::*;

verus! {

/// One lexical unit of the source language.
#[derive(Debug, Clone, PartialEq)]
pub enum Token {
    Sep,
    Exit,
    Let,
    If,
    Else,
    While,
    Ident(String),
    IntLiteral(u32),
    Not,
    NotEqual,
    Equal,
    EqualEqual,
    Greater,
    GreaterEqual,
    Less,
    LessEqual,
    Plus,
    Minus,
    Star,
    FSlash,
    LParen,
    RParen,
    LBrace,
    RBrace,
}


#[derive(Debug)]
pub enum LexerError {
    IntParse,
    UnexpectedCharacter(char),
    EndOfInput,
}

/// What `char::is_numeric` returns for `c`.
pub uninterp spec fn numeric(c: char) -> bool;

/// What `char::is_alphabetic` returns for `c`.
pub uninterp spec fn alphabetic(c: char) -> bool;

/// What `char::is_whitespace` returns for `c`.
pub uninterp spec fn whitespace(c: char) -> bool;

/// What `str::to_lowercase` returns for `s`.
pub uninterp spec fn lower_of(s: Seq<char>) -> Seq<char>;

/// Relies on `char::is_numeric`, which holds of the ASCII digits.
#[verifier::external_body]
fn is_numeric(c: char) -> (r: bool)
    ensures
        r == numeric(c),
        '0' <= c <= '9' ==> r,
{
    c.is_numeric()
}

/// Relies on `char::is_alphabetic`.
#[verifier::external_body]
fn is_alphabetic(c: char) -> (r: bool)
    ensures
        r == alphabetic(c),
{
    c.is_alphabetic()
}

/// Relies on `char::is_alphanumeric`: either alphabetic or numeric.
#[verifier::external_body]
fn is_alphanumeric(c: char) -> (r: bool)
    ensures
        r == (alphabetic(c) || numeric(c)),
{
    c.is_alphanumeric()
}

/// Relies on `char::is_whitespace`.
#[verifier::external_body]
fn is_whitespace(c: char) -> (r: bool)
    ensures
        r == whitespace(c),
{
    c.is_whitespace()
}

/// Relies on `str::to_lowercase`: the lowercase form of the characters.
#[verifier::external_body]
fn lowercase(s: &str) -> (r: String)
    ensures
        r@ == lower_of(s@),
{
    s.to_lowercase()
}

/// Relies on `String::push`: appends one character.
#[verifier::external_body]
fn push_char(s: &mut String, c: char)
    ensures
        final(s)@ == old(s)@.push(c),
{
    s.push(c)
}

/// The token of a character that stands alone.
pub open spec fn single_token(c: char) -> Option<Token> {
    if c == '+' { Some(Token::Plus) }
    else if c == '-' { Some(Token::Minus) }
    else if c == '*' { Some(Token::Star) }
    else if c == '/' { Some(Token::FSlash) }
    else if c == '(' { Some(Token::LParen) }
    else if c == ')' { Some(Token::RParen) }
    else if c == '{' { Some(Token::LBrace) }
    else if c == '}' { Some(Token::RBrace) }
    else if c == ';' || c == '\n' { Some(Token::Sep) }
    else { None }
}

/// The token of a character that may be followed by `=`, which
/// `with_equal` says.
pub open spec fn pair_token(c: char, with_equal: bool) -> Option<Token> {
    if c == '!' { Some(if with_equal { Token::NotEqual } else { Token::Not }) }
    else if c == '=' { Some(if with_equal { Token::EqualEqual } else { Token::Equal }) }
    else if c == '>' { Some(if with_equal { Token::GreaterEqual } else { Token::Greater }) }
    else if c == '<' { Some(if with_equal { Token::LessEqual } else { Token::Less }) }
    else { None }
}

/// The value of a run of ASCII digits, or `None` where the run is empty or
/// holds anything else.
pub open spec fn ascii_number(s: Seq<char>) -> Option<nat>
    decreases s.len(),
{
    if s.len() == 0 {
        None
    } else if !('0' <= s.last() <= '9') {
        None
    } else if s.len() == 1 {
        Some((s.last() as nat - '0' as nat) as nat)
    } else {
        match ascii_number(s.drop_last()) {
            Some(v) => Some(v * 10 + (s.last() as nat - '0' as nat) as nat),
            None => None,
        }
    }
}

/// The keyword that an already lowercased word spells, if any.
pub open spec fn keyword_lower(w: Seq<char>) -> Option<Token> {
    if w == "exit"@ { Some(Token::Exit) }
    else if w == "let"@ { Some(Token::Let) }
    else if w == "if"@ { Some(Token::If) }
    else if w == "else"@ { Some(Token::Else) }
    else if w == "while"@ { Some(Token::While) }
    else { None }
}

/// The keyword that `word` spells, whatever its case, if any.
pub open spec fn keyword(word: Seq<char>) -> Option<Token> {
    keyword_lower(lower_of(word))
}

/// Reads a run of ASCII digits as a `u32`; `None` where it is empty, holds
/// another character, or does not fit.
pub fn parse_u32(s: &Vec<char>) -> (r: Option<u32>)
    ensures
        r is Some <==> (ascii_number(s@) is Some && ascii_number(s@)->0 <= u32::MAX),
        r is Some ==> r->0 == ascii_number(s@)->0,
{
    if s.len() == 0 {
        return None;
    }
    let mut value: u32 = 0;
    let mut i: usize = 0;
    while i < s.len()
        invariant
            0 < s.len(),
            i <= s.len(),
            i > 0 ==> ascii_number(s@.subrange(0, i as int)) == Some(value as nat),
            i == 0 ==> value == 0,
        decreases s.len() - i,
    {
        let c = s[i];
        proof {
            let t = s@.subrange(0, i + 1);
            assert(t.drop_last() =~= s@.subrange(0, i as int));
            assert(t.last() == c);
        }
        if !('0' <= c && c <= '9') {
            proof {
                lemma_ascii_number_none(s@, i as int + 1);
            }
            return None;
        }
        let digit = (c as u32) - ('0' as u32);
        if value > (u32::MAX - digit) / 10 {
            proof {
                lemma_ascii_number_grows(s@, i as int + 1);
            }
            return None;
        }
        value = value * 10 + digit;
        i = i + 1;
    }
    assert(s@.subrange(0, s.len() as int) =~= s@);
    Some(value)
}

proof fn lemma_ascii_number_none(s: Seq<char>, k: int)
    requires
        0 < k <= s.len(),
        ascii_number(s.subrange(0, k)) is None,
    ensures
        ascii_number(s) is None,
    decreases s.len() - k,
{
    if k < s.len() {
        let t = s.subrange(0, k + 1);
        assert(t.drop_last() =~= s.subrange(0, k));
        lemma_ascii_number_none(s, k + 1);
    } else {
        assert(s.subrange(0, k) =~= s);
    }
}

proof fn lemma_ascii_number_grows(s: Seq<char>, k: int)
    requires
        0 < k <= s.len(),
        ascii_number(s.subrange(0, k)) is None || ascii_number(s.subrange(0, k))->0 > u32::MAX,
    ensures
        ascii_number(s) is None || ascii_number(s)->0 > u32::MAX,
    decreases s.len() - k,
{
    if k < s.len() {
        let t = s.subrange(0, k + 1);
        assert(t.drop_last() =~= s.subrange(0, k));
        lemma_ascii_number_grows(s, k + 1);
    } else {
        assert(s.subrange(0, k) =~= s);
    }
}


fn single_token_of(c: char) -> (r: Option<Token>)
    ensures
        r == single_token(c),
{
    if c == '+' { Some(Token::Plus) }
    else if c == '-' { Some(Token::Minus) }
    else if c == '*' { Some(Token::Star) }
    else if c == '/' { Some(Token::FSlash) }
    else if c == '(' { Some(Token::LParen) }
    else if c == ')' { Some(Token::RParen) }
    else if c == '{' { Some(Token::LBrace) }
    else if c == '}' { Some(Token::RBrace) }
    else if c == ';' || c == '\n' { Some(Token::Sep) }
    else { None }
}

fn pair_token_of(c: char, with_equal: bool) -> (r: Option<Token>)
    ensures
        r == pair_token(c, with_equal),
{
    if c == '!' { Some(if with_equal { Token::NotEqual } else { Token::Not }) }
    else if c == '=' { Some(if with_equal { Token::EqualEqual } else { Token::Equal }) }
    else if c == '>' { Some(if with_equal { Token::GreaterEqual } else { Token::Greater }) }
    else if c == '<' { Some(if with_equal { Token::LessEqual } else { Token::Less }) }
    else { None }
}

/// The keyword token of a lowercased word, if it is one.
pub fn keyword_from_lower(w: &String) -> (r: Option<Token>)
    ensures
        r == keyword_lower(w@),
{
    proof {
        reveal_strlit("exit");
        reveal_strlit("let");
        reveal_strlit("if");
        reveal_strlit("else");
        reveal_strlit("while");
    }
    if *w == "exit".to_owned() { Some(Token::Exit) }
    else if *w == "let".to_owned() { Some(Token::Let) }
    else if *w == "if".to_owned() { Some(Token::If) }
    else if *w == "else".to_owned() { Some(Token::Else) }
    else if *w == "while".to_owned() { Some(Token::While) }
    else { None }
}

fn keyword_of(word: &String) -> (r: Option<Token>)
    ensures
        r == keyword(word@),
{
    keyword_from_lower(&lowercase(word.as_str()))
}

/// A token as the text spells it: one that stands for itself, a word, or
/// a run of digits.
pub enum Lexeme {
    Fixed(Token),
    Word(Seq<char>),
    Number(Seq<char>),
}

/// Whether the token `t` is what the lexeme `l` reads as.
pub open spec fn denotes(t: Token, l: Lexeme) -> bool {
    match l {
        Lexeme::Fixed(f) => t == f,
        Lexeme::Word(w) => match keyword(w) {
            Some(k) => t == k,
            None => t is Ident && t->Ident_0@ == w,
        },
        Lexeme::Number(d) => t == Token::IntLiteral(ascii_number(d)->0 as u32),
    }
}

/// The end of the run of numeric characters that starts at `i`.
pub open spec fn digits_end(s: Seq<char>, i: int) -> int
    decreases s.len() - i,
{
    if i < 0 || i >= s.len() || !numeric(s[i]) { i } else { digits_end(s, i + 1) }
}

/// The end of the run of letters and digits that starts at `i`.
pub open spec fn word_end(s: Seq<char>, i: int) -> int
    decreases s.len() - i,
{
    if i < 0 || i >= s.len() || !(alphabetic(s[i]) || numeric(s[i])) { i } else { word_end(s, i + 1) }
}

/// The end of the run of whitespace that starts at `i`.
pub open spec fn space_end(s: Seq<char>, i: int) -> int
    decreases s.len() - i,
{
    if i < 0 || i >= s.len() || !whitespace(s[i]) { i } else { space_end(s, i + 1) }
}

/// Reads one token from `pos` on, skipping whitespace before it: the
/// lexeme or the error, and where reading stopped.
pub open spec fn scan(s: Seq<char>, pos: int) -> (Result<Lexeme, LexerError>, int)
    decreases s.len() - pos,
{
    if pos < 0 || pos >= s.len() {
        (Err(LexerError::EndOfInput), pos)
    } else {
        let c = s[pos];
        let eq = pos + 1 < s.len() && s[pos + 1] == '=';
        if single_token(c) is Some {
            (Ok(Lexeme::Fixed(single_token(c)->0)), pos + 1)
        } else if pair_token(c, eq) is Some {
            (Ok(Lexeme::Fixed(pair_token(c, eq)->0)), pos + if eq { 2int } else { 1int })
        } else if numeric(c) {
            let e = digits_end(s, pos + 1);
            let run = s.subrange(pos, e);
            if ascii_number(run) is Some && ascii_number(run)->0 <= u32::MAX {
                (Ok(Lexeme::Number(run)), e)
            } else {
                (Err(LexerError::IntParse), e)
            }
        } else if alphabetic(c) {
            let e = word_end(s, pos + 1);
            (Ok(Lexeme::Word(s.subrange(pos, e))), e)
        } else if whitespace(c) {
            let e = space_end(s, pos + 1);
            if pos < e <= s.len() { scan(s, e) } else { (Err(LexerError::EndOfInput), e) }
        } else {
            (Err(LexerError::UnexpectedCharacter(c)), pos + 1)
        }
    }
}

/// The lexemes of the text from `pos` on, or the error that stops reading.
pub open spec fn lex_from(s: Seq<char>, pos: int) -> Result<Seq<Lexeme>, LexerError>
    decreases s.len() - pos,
{
    match scan(s, pos).0 {
        Ok(l) => {
            let p = scan(s, pos).1;
            if pos < p <= s.len() {
                match lex_from(s, p) {
                    Ok(ls) => Ok(seq![l] + ls),
                    Err(e) => Err(e),
                }
            } else {
                Err(LexerError::EndOfInput)
            }
        },
        Err(LexerError::EndOfInput) => Ok(seq![]),
        Err(e) => Err(e),
    }
}

/// `r` is what reading `text` into tokens gives: one token for each lexeme,
/// or the error at which reading stops.
pub open spec fn lex_outcome(text: Seq<char>, r: Result<Vec<Token>, LexerError>) -> bool {
    match r {
        Ok(ts) => {
            &&& lex_from(text, 0) is Ok
            &&& ts@.len() == lex_from(text, 0)->Ok_0.len()
            &&& forall|i: int| 0 <= i < ts@.len() ==> denotes(#[trigger] ts@[i], lex_from(text, 0)->Ok_0[i])
        },
        Err(e) => lex_from(text, 0) == Err::<Seq<Lexeme>, LexerError>(e),
    }
}

proof fn lemma_digits_end(s: Seq<char>, i: int, j: int)
    requires
        0 <= i <= j <= s.len(),
        forall|k: int| i <= k < j ==> numeric(#[trigger] s[k]),
        j < s.len() ==> !numeric(s[j]),
    ensures
        digits_end(s, i) == j,
    decreases j - i,
{
    if i < j {
        lemma_digits_end(s, i + 1, j);
    }
}

proof fn lemma_word_end(s: Seq<char>, i: int, j: int)
    requires
        0 <= i <= j <= s.len(),
        forall|k: int| i <= k < j ==> (alphabetic(#[trigger] s[k]) || numeric(s[k])),
        j < s.len() ==> !(alphabetic(s[j]) || numeric(s[j])),
    ensures
        word_end(s, i) == j,
    decreases j - i,
{
    if i < j {
        lemma_word_end(s, i + 1, j);
    }
}

proof fn lemma_space_end(s: Seq<char>, i: int, j: int)
    requires
        0 <= i <= j <= s.len(),
        forall|k: int| i <= k < j ==> whitespace(#[trigger] s[k]),
        j < s.len() ==> !whitespace(s[j]),
    ensures
        space_end(s, i) == j,
    decreases j - i,
{
    if i < j {
        lemma_space_end(s, i + 1, j);
    }
}

/// Splits source text into tokens, one character of lookahead at a time.
pub struct Lexer {
    input: Vec<char>,
    pos: usize,
}

impl Lexer {
    /// The characters of the source text.
    pub closed spec fn chars(&self) -> Seq<char> {
        self.input@
    }

    /// How many characters have been read.
    pub closed spec fn position(&self) -> int {
        self.pos as int
    }

    pub closed spec fn wf(&self) -> bool {
        self.pos <= self.input.len()
    }

    /// A lexer at the start of `text`.
    pub fn new(text: &str) -> (r: Lexer)
        ensures
            r.wf(),
            r.chars() == text@,
            r.position() == 0,
    {
        let n = text.unicode_len();
        let mut input: Vec<char> = Vec::new();
        let mut i: usize = 0;
        while i < n
            invariant
                n == text@.len(),
                i <= n,
                input@ == text@.subrange(0, i as int),
            decreases n - i,
        {
            input.push(text.get_char(i));
            i = i + 1;
            assert(input@ =~= text@.subrange(0, i as int));
        }
        assert(input@ =~= text@);
        Lexer { input, pos: 0 }
    }

    /// Reads the rest of an integer literal whose first digit was just read.
    fn parse_int(&mut self, first: char) -> (r: Result<Token, LexerError>)
        requires
            old(self).wf(),
            old(self).pos > 0,
            old(self).input@[old(self).pos - 1] == first,
        ensures
            final(self).wf(),
            final(self).input@ == old(self).input@,
            final(self).pos >= old(self).pos,
            forall|i: int| old(self).pos <= i < final(self).pos ==> numeric(#[trigger] final(self).input@[i]),
            final(self).pos < final(self).input.len() ==> !numeric(final(self).input@[final(self).pos as int]),
            final(self).pos == digits_end(old(self).input@, old(self).pos as int),
            ({
                let run = final(self).input@.subrange(old(self).pos - 1, final(self).pos as int);
                let v = ascii_number(run);
                &&& (r is Ok <==> (v is Some && v->0 <= u32::MAX))
                &&& r is Ok ==> r->Ok_0 == Token::IntLiteral(v->0 as u32)
                &&& r is Err ==> r->Err_0 is IntParse
            }),
    {
        let mut digits: Vec<char> = Vec::new();
        digits.push(first);
        let ghost start = self.pos - 1;
        while self.pos < self.input.len()
            invariant
                self.wf(),
                self.input@ == old(self).input@,
                self.pos >= old(self).pos,
                start == old(self).pos - 1,
                0 <= start,
                digits@ == self.input@.subrange(start, self.pos as int),
                forall|i: int| old(self).pos <= i < self.pos ==> numeric(#[trigger] self.input@[i]),
            ensures
                self.pos < self.input.len() ==> !numeric(self.input@[self.pos as int]),
            decreases self.input.len() - self.pos,
        {
            let c = self.input[self.pos];
            if !is_numeric(c) {
                break;
            }
            digits.push(c);
            self.pos = self.pos + 1;
            assert(digits@ =~= self.input@.subrange(start, self.pos as int));
        }
        proof {
            lemma_digits_end(self.input@, old(self).pos as int, self.pos as int);
        }
        match parse_u32(&digits) {
            Some(v) => Ok(Token::IntLiteral(v)),
            None => Err(LexerError::IntParse),
        }
    }

    /// Reads the rest of a word whose first letter was just read: a keyword,
    /// whatever its case, or else an identifier.
    fn parse_literal(&mut self, first: char) -> (r: Token)
        requires
            old(self).wf(),
            old(self).pos > 0,
            old(self).input@[old(self).pos - 1] == first,
        ensures
            final(self).wf(),
            final(self).input@ == old(self).input@,
            final(self).pos >= old(self).pos,
            forall|i: int| old(self).pos <= i < final(self).pos ==> ({
                let c = #[trigger] final(self).input@[i];
                alphabetic(c) || numeric(c)
            }),
            final(self).pos < final(self).input.len() ==> ({
                let c = final(self).input@[final(self).pos as int];
                !alphabetic(c) && !numeric(c)
            }),
            final(self).pos == word_end(old(self).input@, old(self).pos as int),
            ({
                let run = final(self).input@.subrange(old(self).pos - 1, final(self).pos as int);
                &&& keyword(run) is Some ==> r == keyword(run)->0
                &&& keyword(run) is None ==> r is Ident && r->Ident_0@ == run
            }),
    {
        let mut word = String::new();
        push_char(&mut word, first);
        let ghost start = self.pos - 1;
        assert(word@ =~= self.input@.subrange(start, self.pos as int));
        while self.pos < self.input.len()
            invariant
                self.wf(),
                self.input@ == old(self).input@,
                self.pos >= old(self).pos,
                start == old(self).pos - 1,
                0 <= start,
                word@ == self.input@.subrange(start, self.pos as int),
                forall|i: int| old(self).pos <= i < self.pos ==> ({
                    let c = #[trigger] self.input@[i];
                    alphabetic(c) || numeric(c)
                }),
            ensures
                self.pos < self.input.len() ==> ({
                    let c = self.input@[self.pos as int];
                    !alphabetic(c) && !numeric(c)
                }),
            decreases self.input.len() - self.pos,
        {
            let c = self.input[self.pos];
            if !is_alphanumeric(c) {
                break;
            }
            push_char(&mut word, c);
            self.pos = self.pos + 1;
            assert(word@ =~= self.input@.subrange(start, self.pos as int));
        }
        proof {
            lemma_word_end(self.input@, old(self).pos as int, self.pos as int);
        }
        match keyword_of(&word) {
            Some(t) => t,
            None => Token::Ident(word),
        }
    }

    /// Reads the next token, skipping whitespace before it, exactly as
    /// `scan` states; `EndOfInput` says that nothing but whitespace was left.
    fn parse_token(&mut self) -> (r: Result<Token, LexerError>)
        requires
            old(self).wf(),
        ensures
            final(self).wf(),
            final(self).input@ == old(self).input@,
            final(self).pos >= old(self).pos,
            r is Ok ==> final(self).pos > old(self).pos,
            scan_outcome(old(self).input@, old(self).pos as int, r, final(self).pos as int),
    {
        let ghost s = self.input@;
        loop
            invariant
                self.wf(),
                self.input@ == s,
                s == old(self).input@,
                self.pos >= old(self).pos,
                scan(s, old(self).pos as int) == scan(s, self.pos as int),
            decreases self.input.len() - self.pos,
        {
            if self.pos >= self.input.len() {
                return Err(LexerError::EndOfInput);
            }
            let ghost p0 = self.pos as int;
            let c = self.input[self.pos];
            self.pos = self.pos + 1;
            if let Some(t) = single_token_of(c) {
                return Ok(t);
            }
            let eq = self.pos < self.input.len() && self.input[self.pos] == '=';
            if let Some(t) = pair_token_of(c, eq) {
                if eq {
                    self.pos = self.pos + 1;
                }
                return Ok(t);
            }
            if is_numeric(c) {
                return self.parse_int(c);
            }
            if is_alphabetic(c) {
                return Ok(self.parse_literal(c));
            }
            if !is_whitespace(c) {
                return Err(LexerError::UnexpectedCharacter(c));
            }
            while self.pos < self.input.len()
                invariant
                    self.wf(),
                    self.input@ == s,
                    p0 + 1 <= self.pos,
                    forall|k: int| p0 + 1 <= k < self.pos ==> whitespace(#[trigger] s[k]),
                ensures
                    self.pos < self.input.len() ==> !whitespace(s[self.pos as int]),
                decreases self.input.len() - self.pos,
            {
                if !is_whitespace(self.input[self.pos]) {
                    break;
                }
                self.pos = self.pos + 1;
            }
            proof {
                lemma_space_end(s, p0 + 1, self.pos as int);
            }
        }
    }

    /// The next token, or `None` at the end of the text or at a character
    /// that starts no token.
    pub fn next_token(&mut self) -> (r: Option<Token>)
        requires
            old(self).wf(),
        ensures
            final(self).wf(),
            final(self).chars() == old(self).chars(),
            r is Some ==> final(self).position() > old(self).position(),
            r is Some <==> scan(old(self).chars(), old(self).position()).0 is Ok,
            r is Some ==> denotes(r->0, scan(old(self).chars(), old(self).position()).0->Ok_0),
            final(self).position() == scan(old(self).chars(), old(self).position()).1,
    {
        match self.parse_token() {
            Ok(t) => Some(t),
            Err(_) => None,
        }
    }

    /// Splits a whole text into tokens: one for each lexeme that `lex_from`
    /// reads, or the error at which it stops.
    pub fn tokenize(text: &str) -> (r: Result<Vec<Token>, LexerError>)
        ensures
            lex_outcome(text@, r),
            text@.len() == 0 ==> (r is Ok && r->Ok_0@.len() == 0),
            r is Err ==> !(r->Err_0 is EndOfInput),
    {
        let ghost s = text@;
        let mut lexer = Lexer::new(text);
        let mut tokens: Vec<Token> = Vec::new();
        let ghost mut lexs: Seq<Lexeme> = seq![];
        assert(prefixed(lexs, lex_from(s, 0)) == lex_from(s, 0)) by {
            match lex_from(s, 0) {
                Ok(ls) => assert(lexs + ls =~= ls),
                Err(_) => {},
            }
        }
        loop
            invariant_except_break
                lex_from(s, 0) == prefixed(lexs, lex_from(s, lexer.pos as int)),
            invariant
                lexer.wf(),
                lexer.input@ == s,
                s == text@,
                tokens@.len() == lexs.len(),
                forall|i: int| 0 <= i < tokens@.len() ==> denotes(#[trigger] tokens@[i], lexs[i]),
            ensures
                lex_from(s, 0) == Ok::<Seq<Lexeme>, LexerError>(lexs),
            decreases lexer.input.len() - lexer.pos,
        {
            let ghost p = lexer.pos as int;
            match lexer.parse_token() {
                Ok(token) => {
                    proof {
                        let l = scan(s, p).0->Ok_0;
                        let q = lexer.pos as int;
                        match lex_from(s, q) {
                            Ok(ls) => assert(lexs + (seq![l] + ls) =~= lexs.push(l) + ls),
                            Err(_) => {},
                        }
                        lexs = lexs.push(l);
                    }
                    tokens.push(token);
                },
                Err(LexerError::EndOfInput) => {
                    assert(lex_from(s, p) == Ok::<Seq<Lexeme>, LexerError>(seq![]));
                    assert(lexs + seq![] =~= lexs);
                    break;
                },
                Err(err) => return Err(err),
            }
        }
        Ok(tokens)
    }
}

/// The result `r` with `lexs` put before the lexemes it holds.
pub open spec fn prefixed(lexs: Seq<Lexeme>, r: Result<Seq<Lexeme>, LexerError>) -> Result<Seq<Lexeme>, LexerError> {
    match r {
        Ok(ls) => Ok(lexs + ls),
        Err(e) => Err(e),
    }
}

/// A token read from `pos` on returned `r` and stopped at `p`, as `scan`
/// states.
pub open spec fn scan_outcome(s: Seq<char>, pos: int, r: Result<Token, LexerError>, p: int) -> bool {
    &&& p == scan(s, pos).1
    &&& match r {
        Ok(t) => scan(s, pos).0 is Ok && denotes(t, scan(s, pos).0->Ok_0),
        Err(e) => scan(s, pos).0 == Err::<Lexeme, LexerError>(e),
    }
}

} // verus!
