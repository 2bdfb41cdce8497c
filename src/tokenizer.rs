use vstd::prelude::*;

verus! {

broadcast use vstd::string::group_string_axioms;

/// A lexical unit. Strings are owned copies of the source text; keyword text
/// is upper-cased. A float literal keeps its decimal spelling (digits with one
/// `.`), which is how the library carries a 64-bit floating value exactly.
#[derive(Debug, Clone)]
pub enum Token {
    Keyword(String),
    Identifier(String),
    Float(String),
    Number(i64),
    StringLiteral(String),
    Operator(String),
    Delimiter(char),
}

/// The mathematical model of a token.
pub enum TokenView {
    Keyword(Seq<char>),
    Identifier(Seq<char>),
    Float(Seq<char>),
    Number(i64),
    StringLiteral(Seq<char>),
    Operator(Seq<char>),
    Delimiter(char),
}

impl View for Token {
    type V = TokenView;

    open spec fn view(&self) -> TokenView {
        match self {
            Token::Keyword(s) => TokenView::Keyword(s@),
            Token::Identifier(s) => TokenView::Identifier(s@),
            Token::Float(s) => TokenView::Float(s@),
            Token::Number(n) => TokenView::Number(*n),
            Token::StringLiteral(s) => TokenView::StringLiteral(s@),
            Token::Operator(s) => TokenView::Operator(s@),
            Token::Delimiter(c) => TokenView::Delimiter(*c),
        }
    }
}

/// The models of a sequence of tokens.
pub open spec fn views(ts: Seq<Token>) -> Seq<TokenView> {
    ts.map_values(|t: Token| t@)
}

/// A diagnostic of the lexer.
#[derive(Debug, Clone, Copy, PartialEq, Eq, Structural)]
pub enum LexError {
    /// A quote was opened and the input ended before the same quote closed it.
    UnterminatedString,
    /// A run of digits does not fit in a signed 64-bit integer.
    NumericParse,
    /// A character that begins no token, with its byte offset in the source.
    UnrecognizedCharacter(usize),
}

/// Whether a non-ASCII character has Unicode's Alphabetic property.
pub uninterp spec fn unicode_alphabetic(c: char) -> bool;

/// Whether a non-ASCII character has Unicode's White_Space property.
pub uninterp spec fn unicode_white_space(c: char) -> bool;

/// Alphabetic characters: the ASCII letters, and beyond ASCII those with
/// Unicode's Alphabetic property.
pub open spec fn alphabetic(c: char) -> bool {
    if c <= '\x7f' {
        ('a' <= c <= 'z') || ('A' <= c <= 'Z')
    } else {
        unicode_alphabetic(c)
    }
}

/// White space: in ASCII the space and `\t`, `\n`, vertical tab, form feed and
/// `\r`; beyond ASCII the characters with Unicode's White_Space property.
pub open spec fn white_space(c: char) -> bool {
    if c <= '\x7f' {
        c == ' ' || ('\t' <= c <= '\r')
    } else {
        unicode_white_space(c)
    }
}

/// The Unicode upper-case mapping of a string that is not all ASCII.
pub uninterp spec fn unicode_upper(s: Seq<char>) -> Seq<char>;

pub open spec fn is_ascii_text(s: Seq<char>) -> bool {
    forall|k: int| 0 <= k < s.len() ==> #[trigger] s[k] <= '\x7f'
}

pub open spec fn ascii_upper(c: char) -> char {
    if 'a' <= c <= 'z' {
        ((c as u32) - 32) as u32 as char
    } else {
        c
    }
}

/// The upper-case form of a string: letter by letter in ASCII, and beyond
/// ASCII Unicode's upper-case mapping.
pub open spec fn upper_of(s: Seq<char>) -> Seq<char> {
    if is_ascii_text(s) {
        s.map_values(|c: char| ascii_upper(c))
    } else {
        unicode_upper(s)
    }
}

/// Relies on `char::is_alphabetic`: true for the ASCII letters, false for the
/// rest of ASCII, and Unicode's Alphabetic property beyond.
#[verifier::external_body]
fn is_alphabetic(c: char) -> (r: bool)
    ensures
        r == alphabetic(c),
        c > '\x7f' ==> r == unicode_alphabetic(c),
{
    c.is_alphabetic()
}

/// Relies on `char::is_whitespace`: true for the ASCII space and `\t` to `\r`,
/// false for the rest of ASCII, and Unicode's White_Space property beyond.
#[verifier::external_body]
fn is_whitespace(c: char) -> (r: bool)
    ensures
        r == white_space(c),
        c > '\x7f' ==> r == unicode_white_space(c),
{
    c.is_whitespace()
}

/// Relies on `str::to_uppercase`: on ASCII text it maps `a`..`z` to `A`..`Z`
/// and keeps the rest; beyond ASCII the result depends on the characters alone.
#[verifier::external_body]
fn to_upper(s: &str) -> (r: String)
    ensures
        r@ == upper_of(s@),
        !is_ascii_text(s@) ==> r@ == unicode_upper(s@),
{
    s.to_uppercase()
}

pub open spec fn is_digit(c: char) -> bool {
    '0' <= c <= '9'
}

pub open spec fn is_quote(c: char) -> bool {
    c == '"' || c == '\''
}

pub open spec fn is_delimiter(c: char) -> bool {
    c == ';' || c == ',' || c == '(' || c == ')'
}

pub open spec fn is_single_operator(c: char) -> bool {
    c == '+' || c == '-' || c == '*' || c == '/' || c == '='
}

/// `<`, `>` and `!` may be followed by `=`.
pub open spec fn is_comparison_start(c: char) -> bool {
    c == '<' || c == '>' || c == '!'
}

/// `&` and `|` may be doubled.
pub open spec fn is_logical_start(c: char) -> bool {
    c == '&' || c == '|'
}

pub open spec fn is_word_char(c: char) -> bool {
    alphabetic(c) || c == '_'
}

/// The characters that are recognised before a word is tried.
pub open spec fn is_symbol_or_digit(c: char) -> bool {
    is_quote(c) || is_delimiter(c) || is_single_operator(c) || is_comparison_start(c)
        || is_logical_start(c) || is_digit(c)
}

/// The reserved words, in upper case.
pub open spec fn is_reserved(w: Seq<char>) -> bool {
    ||| w == "SELECT"@
    ||| w == "FROM"@
    ||| w == "WHERE"@
    ||| w == "ORDER"@
    ||| w == "GROUP"@
    ||| w == "DELETE"@
    ||| w == "UPDATE"@
    ||| w == "SET"@
    ||| w == "INSERT"@
    ||| w == "INTO"@
    ||| w == "VALUES"@
}

/// Index of the first `q` at or after `i`, if any.
pub open spec fn closing_quote(s: Seq<char>, i: int, q: char) -> Option<int>
    decreases s.len() - i,
{
    if i < 0 || i >= s.len() {
        None
    } else if s[i] == q {
        Some(i)
    } else {
        closing_quote(s, i + 1, q)
    }
}

/// End of the run of word characters that starts at `i`.
pub open spec fn word_end(s: Seq<char>, i: int) -> int
    decreases s.len() - i,
{
    if 0 <= i < s.len() && is_word_char(s[i]) {
        word_end(s, i + 1)
    } else {
        i
    }
}

/// End of the run of digits with at most one `.` that starts at `i`;
/// `dot` tells whether a `.` was already taken.
pub open spec fn number_end(s: Seq<char>, i: int, dot: bool) -> int
    decreases s.len() - i,
{
    if 0 <= i < s.len() && (is_digit(s[i]) || (s[i] == '.' && !dot)) {
        number_end(s, i + 1, dot || s[i] == '.')
    } else {
        i
    }
}

/// The value of a string of decimal digits.
pub open spec fn digits_value(d: Seq<char>) -> int
    decreases d.len(),
{
    if d.len() == 0 {
        0
    } else {
        digits_value(d.drop_last()) * 10 + (d.last() as int - '0' as int)
    }
}

/// Byte offset, in UTF-8, of the character at index `i`.
pub open spec fn byte_offset(s: Seq<char>, i: int) -> usize {
    vstd::utf8::encode_utf8(s.subrange(0, i)).len() as usize
}

/// The token of a word: a keyword when its upper-case form is reserved,
/// otherwise an identifier spelled as written.
pub open spec fn word_token(w: Seq<char>) -> TokenView {
    if is_reserved(upper_of(w)) {
        TokenView::Keyword(upper_of(w))
    } else {
        TokenView::Identifier(w)
    }
}

/// The token of a numeric literal: a float when it holds a `.`, otherwise an
/// integer when it fits in `i64`.
pub open spec fn number_token(t: Seq<char>) -> Result<TokenView, LexError> {
    if t.contains('.') {
        Ok(TokenView::Float(t))
    } else if digits_value(t) <= i64::MAX {
        Ok(TokenView::Number(digits_value(t) as i64))
    } else {
        Err(LexError::NumericParse)
    }
}

/// An operator that takes `second` too when the next character is `second`.
pub open spec fn operator_step(s: Seq<char>, i: int, second: char) -> (Option<TokenView>, int) {
    if i + 1 < s.len() && s[i + 1] == second {
        (Some(TokenView::Operator(seq![s[i], second])), i + 2)
    } else {
        (Some(TokenView::Operator(seq![s[i]])), i + 1)
    }
}

/// Recognition of the construct at index `i`: the token it yields, if any,
/// and the index where scanning resumes.
pub open spec fn lex_step(s: Seq<char>, i: int) -> Result<(Option<TokenView>, int), LexError>
    recommends
        0 <= i < s.len(),
{
    let c = s[i];
    if is_quote(c) {
        match closing_quote(s, i + 1, c) {
            Some(k) => Ok((Some(TokenView::StringLiteral(s.subrange(i + 1, k))), k + 1)),
            None => Err(LexError::UnterminatedString),
        }
    } else if is_delimiter(c) {
        Ok((Some(TokenView::Delimiter(c)), i + 1))
    } else if is_single_operator(c) {
        Ok((Some(TokenView::Operator(seq![c])), i + 1))
    } else if is_comparison_start(c) {
        Ok(operator_step(s, i, '='))
    } else if is_logical_start(c) {
        Ok(operator_step(s, i, c))
    } else if is_digit(c) {
        let e = number_end(s, i, false);
        match number_token(s.subrange(i, e)) {
            Ok(t) => Ok((Some(t), e)),
            Err(err) => Err(err),
        }
    } else if white_space(c) {
        Ok((None, i + 1))
    } else if is_word_char(c) {
        let e = word_end(s, i);
        Ok((Some(word_token(s.subrange(i, e))), e))
    } else {
        Err(LexError::UnrecognizedCharacter(byte_offset(s, i)))
    }
}

pub open spec fn opt_seq(t: Option<TokenView>) -> Seq<TokenView> {
    match t {
        Some(x) => seq![x],
        None => Seq::empty(),
    }
}

/// Prefixes a lexing outcome with tokens already emitted.
pub open spec fn after(p: Seq<TokenView>, r: Result<Seq<TokenView>, LexError>) -> Result<
    Seq<TokenView>,
    LexError,
> {
    match r {
        Ok(ts) => Ok(p + ts),
        Err(e) => Err(e),
    }
}

/// The tokens of `s` from index `i` on, or the first diagnostic.
pub open spec fn lex_from(s: Seq<char>, i: int) -> Result<Seq<TokenView>, LexError>
    decreases s.len() - i,
{
    if i < 0 || i >= s.len() {
        Ok(Seq::empty())
    } else {
        match lex_step(s, i) {
            Err(e) => Err(e),
            Ok((t, j)) => if j <= i || j > s.len() {
                Ok(Seq::empty())
            } else {
                after(opt_seq(t), lex_from(s, j))
            },
        }
    }
}

/// The tokens of a whole source, or the first diagnostic.
pub open spec fn lexed(s: Seq<char>) -> Result<Seq<TokenView>, LexError> {
    lex_from(s, 0)
}

/// Whether a returned token vector agrees with a lexing outcome.
pub open spec fn lex_result_matches(
    r: Result<Vec<Token>, LexError>,
    expected: Result<Seq<TokenView>, LexError>,
) -> bool {
    match expected {
        Ok(ts) => r is Ok && views(r->Ok_0@) == ts,
        Err(e) => r is Err && r->Err_0 == e,
    }
}

impl PartialEq for Token {
    fn eq(&self, other: &Token) -> (r: bool) {
        match (self, other) {
            (Token::Keyword(a), Token::Keyword(b)) => *a == *b,
            (Token::Identifier(a), Token::Identifier(b)) => *a == *b,
            (Token::Float(a), Token::Float(b)) => *a == *b,
            (Token::Number(a), Token::Number(b)) => *a == *b,
            (Token::StringLiteral(a), Token::StringLiteral(b)) => *a == *b,
            (Token::Operator(a), Token::Operator(b)) => *a == *b,
            (Token::Delimiter(a), Token::Delimiter(b)) => *a == *b,
            _ => false,
        }
    }
}

impl vstd::std_specs::cmp::PartialEqSpecImpl for Token {
    open spec fn obeys_eq_spec() -> bool {
        true
    }

    open spec fn eq_spec(&self, other: &Token) -> bool {
        self@ == other@
    }
}

impl Token {
    /// A copy of the token with the same model.
    pub fn copied(&self) -> (r: Token)
        ensures
            r@ == self@,
    {
        match self {
            Token::Keyword(s) => Token::Keyword(s.clone()),
            Token::Identifier(s) => Token::Identifier(s.clone()),
            Token::Float(s) => Token::Float(s.clone()),
            Token::Number(n) => Token::Number(*n),
            Token::StringLiteral(s) => Token::StringLiteral(s.clone()),
            Token::Operator(s) => Token::Operator(s.clone()),
            Token::Delimiter(c) => Token::Delimiter(*c),
        }
    }
}

proof fn lemma_views_push(ts: Seq<Token>, t: Token)
    ensures
        views(ts.push(t)) == views(ts) + seq![t@],
{
    assert(views(ts.push(t)) =~= views(ts) + seq![t@]);
}

proof fn lemma_after_assoc(p: Seq<TokenView>, q: Seq<TokenView>, r: Result<Seq<TokenView>, LexError>)
    ensures
        after(p + q, r) == after(p, after(q, r)),
{
    if let Ok(ts) = r {
        assert(p + q + ts =~= p + (q + ts));
    }
}

/// Values of digit strings never shrink as digits are appended.
pub(crate) proof fn lemma_digits_prefix(t: Seq<char>, m: int)
    requires
        0 <= m <= t.len(),
        forall|k: int| 0 <= k < t.len() ==> is_digit(#[trigger] t[k]),
    ensures
        0 <= digits_value(t.subrange(0, m)) <= digits_value(t),
    decreases t.len(),
{
    if t.len() == 0 {
        assert(t.subrange(0, m) =~= t);
    } else {
        let d = t.drop_last();
        assert forall|k: int| 0 <= k < d.len() implies is_digit(#[trigger] d[k]) by {
            assert(d[k] == t[k]);
        }
        if m == t.len() {
            lemma_digits_prefix(d, d.len() as int);
            assert(t.subrange(0, m) =~= t);
            assert(d.subrange(0, d.len() as int) =~= d);
        } else {
            lemma_digits_prefix(d, m);
            lemma_digits_prefix(d, d.len() as int);
            assert(d.subrange(0, d.len() as int) =~= d);
            assert(d.subrange(0, m) =~= t.subrange(0, m));
        }
    }
}

/// Whether an upper-cased word is reserved.
fn is_reserved_word(w: &String) -> (r: bool)
    ensures
        r == is_reserved(w@),
{
    *w == String::from_str("SELECT") || *w == String::from_str("FROM") || *w == String::from_str(
        "WHERE",
    ) || *w == String::from_str("ORDER") || *w == String::from_str("GROUP") || *w
        == String::from_str("DELETE") || *w == String::from_str("UPDATE") || *w
        == String::from_str("SET") || *w == String::from_str("INSERT") || *w == String::from_str(
        "INTO",
    ) || *w == String::from_str("VALUES")
}

/// Lexes a whole statement.
pub fn lex(source: &str) -> (r: Result<Vec<Token>, LexError>)
    ensures
        lex_result_matches(r, lexed(source@)),
{
    let mut tokenizer = Tokenizer::new(source);
    let r = tokenizer.tokenize();
    proof {
        assert(after(Seq::empty(), lexed(source@)) == lexed(source@)) by {
            if let Ok(ts) = lexed(source@) {
                assert(Seq::<TokenView>::empty() + ts =~= ts);
            }
        }
    }
    r
}

/// A cursor over the characters of one statement, with the tokens read so far.
pub struct Tokenizer<'a> {
    input: &'a str,
    chars: Vec<char>,
    current_position: usize,
    tokens: Vec<Token>,
}

impl<'a> Tokenizer<'a> {
    pub closed spec fn source(&self) -> Seq<char> {
        self.input@
    }

    pub closed spec fn position(&self) -> int {
        self.current_position as int
    }

    pub closed spec fn emitted(&self) -> Seq<TokenView> {
        views(self.tokens@)
    }

    pub closed spec fn wf(&self) -> bool {
        &&& self.chars@ == self.input@
        &&& self.current_position <= self.chars@.len() <= usize::MAX
    }

    pub fn new(input: &'a str) -> (r: Self)
        ensures
            r.wf(),
            r.source() == input@,
            r.position() == 0,
            r.emitted() == Seq::<TokenView>::empty(),
    {
        let mut chars: Vec<char> = Vec::new();
        for c in it: input.chars()
            invariant
                chars@ == it.seq().take(it.index() as int),
        {
            chars.push(c);
        }
        assert(chars@ =~= input@);
        // The length of a vector fits in `usize`.
        let count: usize = chars.len();
        assert(chars@.len() == count);
        let r = Tokenizer { input, chars, current_position: 0, tokens: Vec::new() };
        assert(views(r.tokens@) =~= Seq::<TokenView>::empty());
        r
    }

    /// Lexes the source from the cursor on. On success the result holds the
    /// tokens emitted so far followed by those of the rest of the source, and
    /// the tokenizer is left with none recorded.
    pub fn tokenize(&mut self) -> (r: Result<Vec<Token>, LexError>)
        requires
            old(self).wf(),
        ensures
            final(self).wf(),
            lex_result_matches(
                r,
                after(old(self).emitted(), lex_from(old(self).source(), old(self).position())),
            ),
    {
        let ghost s = self.source();
        while self.current_position < self.chars.len()
            invariant
                self.same_source(old(self)),
                s == self.source(),
                after(self.emitted(), lex_from(s, self.position())) == after(
                    old(self).emitted(),
                    lex_from(s, old(self).position()),
                ),
            decreases self.chars.len() - self.current_position,
        {
            let ghost before = *self;
            let c = self.chars[self.current_position];
            let step = if c == '"' || c == '\'' {
                self.handle_literals()
            } else if c == ';' || c == ',' || c == '(' || c == ')' {
                self.push_token(Token::Delimiter(c));
                self.advance();
                Ok(())
            } else if c == '+' || c == '-' || c == '*' || c == '/' || c == '=' {
                let start = self.current_position;
                self.advance();
                let operator = self.text_from(start);
                proof {
                    assert(operator@ =~= seq![c]);
                }
                self.push_token(Token::Operator(operator));
                Ok(())
            } else if c == '<' || c == '>' || c == '!' {
                self.handle_operator(c)
            } else if c == '&' || c == '|' {
                self.handle_logical_operator(c)
            } else if c >= '0' && c <= '9' {
                self.handle_numeric()
            } else if is_whitespace(c) {
                self.advance();
                Ok(())
            } else if is_alphabetic(c) || c == '_' {
                self.handle_alphabetic()
            } else {
                let offset = self.input.substring_char(0, self.current_position).len();
                Err(LexError::UnrecognizedCharacter(offset))
            };
            proof {
                let i = before.position();
                assert(self.stepped(&before, step));
                match lex_step(s, i) {
                    Ok((t, j)) => {
                        lemma_after_assoc(before.emitted(), opt_seq(t), lex_from(s, j));
                    },
                    Err(e) => {},
                }
            }
            if let Err(e) = step {
                return Err(e);
            }
        }
        let mut out: Vec<Token> = Vec::new();
        std::mem::swap(&mut out, &mut self.tokens);
        proof {
            assert(old(self).emitted() + Seq::<TokenView>::empty() =~= old(self).emitted());
        }
        Ok(out)
    }

    closed spec fn same_source(&self, before: &Self) -> bool {
        &&& self.wf()
        &&& self.input == before.input
    }

    /// The step at the cursor of `before` has been taken and recorded.
    closed spec fn stepped(&self, before: &Self, r: Result<(), LexError>) -> bool {
        &&& self.same_source(before)
        &&& match lex_step(before.source(), before.position()) {
            Ok((t, j)) => {
                &&& r is Ok
                &&& self.position() == j
                &&& j > before.position()
                &&& self.emitted() == before.emitted() + opt_seq(t)
            },
            Err(e) => r == Err::<(), LexError>(e),
        }
    }

    fn current_char(&self) -> (r: Option<char>)
        requires
            self.wf(),
        ensures
            r == (if self.position() < self.source().len() {
                Some(self.source()[self.position()])
            } else {
                None
            }),
    {
        if self.current_position < self.chars.len() {
            Some(self.chars[self.current_position])
        } else {
            None
        }
    }

    fn advance(&mut self)
        requires
            old(self).wf(),
            old(self).position() < old(self).source().len(),
        ensures
            final(self).same_source(old(self)),
            final(self).tokens == old(self).tokens,
            final(self).position() == old(self).position() + 1,
    {
        self.current_position += 1;
    }

    /// Emits the source text between `start` and the cursor as a string.
    fn text_from(&self, start: usize) -> (r: String)
        requires
            self.wf(),
            start <= self.position(),
        ensures
            r@ == self.source().subrange(start as int, self.position()),
    {
        String::from_str(self.input.substring_char(start, self.current_position))
    }

    fn push_token(&mut self, t: Token)
        requires
            old(self).wf(),
        ensures
            final(self).same_source(old(self)),
            final(self).position() == old(self).position(),
            final(self).emitted() == old(self).emitted() + seq![t@],
    {
        proof {
            lemma_views_push(self.tokens@, t);
        }
        self.tokens.push(t);
    }

    fn handle_literals(&mut self) -> (r: Result<(), LexError>)
        requires
            old(self).wf(),
            old(self).position() < old(self).source().len(),
            is_quote(old(self).source()[old(self).position()]),
        ensures
            final(self).stepped(old(self), r),
    {
        let quote_char = self.chars[self.current_position];
        self.advance();
        let start = self.current_position;
        while self.current_position < self.chars.len()
            invariant
                self.same_source(old(self)),
                self.tokens == old(self).tokens,
                start == old(self).position() + 1 <= self.position(),
                quote_char == self.source()[old(self).position()],
                is_quote(quote_char),
                closing_quote(self.source(), start as int, quote_char) == closing_quote(
                    self.source(),
                    self.position(),
                    quote_char,
                ),
            decreases self.chars.len() - self.current_position,
        {
            if self.chars[self.current_position] == quote_char {
                let literal = self.text_from(start);
                let ghost before = *self;
                self.push_token(Token::StringLiteral(literal));
                self.advance();
                proof {
                    let k = before.position();
                    assert(closing_quote(self.source(), k, quote_char) == Some(k));
                }
                return Ok(());
            }
            self.advance();
        }
        Err(LexError::UnterminatedString)
    }

    fn handle_alphabetic(&mut self) -> (r: Result<(), LexError>)
        requires
            old(self).wf(),
            old(self).position() < old(self).source().len(),
            !is_symbol_or_digit(old(self).source()[old(self).position()]),
            !white_space(old(self).source()[old(self).position()]),
            is_word_char(old(self).source()[old(self).position()]),
        ensures
            final(self).stepped(old(self), r),
    {
        let start = self.current_position;
        while self.current_position < self.chars.len() && (is_alphabetic(
            self.chars[self.current_position],
        ) || self.chars[self.current_position] == '_')
            invariant
                self.same_source(old(self)),
                self.tokens == old(self).tokens,
                start == old(self).position() <= self.position(),
                word_end(self.source(), start as int) == word_end(self.source(), self.position()),
            decreases self.chars.len() - self.current_position,
        {
            self.advance();
        }
        let phrase = self.text_from(start);
        let upper_phrase = to_upper(phrase.as_str());
        if is_reserved_word(&upper_phrase) {
            self.push_token(Token::Keyword(upper_phrase));
        } else {
            self.push_token(Token::Identifier(phrase));
        }
        Ok(())
    }

    /// The value of the digits between `start` and `end`, if it fits in `i64`.
    fn digits_to_i64(&self, start: usize, end: usize) -> (r: Option<i64>)
        requires
            self.wf(),
            start <= end <= self.source().len(),
            forall|k: int| start <= k < end ==> is_digit(#[trigger] self.source()[k]),
        ensures
            ({
                let v = digits_value(self.source().subrange(start as int, end as int));
                r == if v <= i64::MAX {
                    Some(v as i64)
                } else {
                    None::<i64>
                }
            }),
    {
        let ghost s = self.source();
        let ghost t = s.subrange(start as int, end as int);
        let mut value: i64 = 0;
        let mut k: usize = start;
        while k < end
            invariant
                start <= k <= end <= s.len(),
                s == self.source(),
                self.wf(),
                t == s.subrange(start as int, end as int),
                forall|j: int| start <= j < end ==> is_digit(#[trigger] s[j]),
                0 <= value,
                value as int == digits_value(s.subrange(start as int, k as int)),
            decreases end - k,
        {
            let d: i64 = (self.chars[k] as u32 - '0' as u32) as i64;
            proof {
                assert(s.subrange(start as int, k + 1).drop_last() =~= s.subrange(
                    start as int,
                    k as int,
                ));
            }
            if value > (i64::MAX - d) / 10 {
                proof {
                    assert(value * 10 + d > i64::MAX) by (nonlinear_arith)
                        requires
                            value > (i64::MAX - d) / 10,
                            0 <= d <= 9,
                    ;
                    assert(t.subrange(0, k + 1 - start) =~= s.subrange(start as int, k + 1));
                    lemma_digits_prefix(t, k + 1 - start);
                }
                return None;
            }
            proof {
                assert(value * 10 + d <= i64::MAX) by (nonlinear_arith)
                    requires
                        value <= (i64::MAX - d) / 10,
                        0 <= d <= 9,
                        0 <= value,
                ;
            }
            value = value * 10 + d;
            k += 1;
        }
        Some(value)
    }

    fn handle_numeric(&mut self) -> (r: Result<(), LexError>)
        requires
            old(self).wf(),
            old(self).position() < old(self).source().len(),
            is_digit(old(self).source()[old(self).position()]),
        ensures
            final(self).stepped(old(self), r),
    {
        let ghost s = self.source();
        let start = self.current_position;
        let mut has_dot = false;
        while self.current_position < self.chars.len() && ((self.chars[self.current_position]
            >= '0' && self.chars[self.current_position] <= '9') || (
        self.chars[self.current_position] == '.' && !has_dot))
            invariant
                self.same_source(old(self)),
                s == self.source(),
                self.tokens == old(self).tokens,
                start == old(self).position() <= self.position(),
                number_end(s, start as int, false) == number_end(s, self.position(), has_dot),
                has_dot <==> exists|k: int| start <= k < self.position() && s[k] == '.',
                forall|k: int| start <= k < self.position() ==> is_digit(#[trigger] s[k]) || s[k] == '.',
            decreases self.chars.len() - self.current_position,
        {
            if self.chars[self.current_position] == '.' {
                has_dot = true;
            }
            self.advance();
        }
        let ghost t = s.subrange(start as int, self.position());
        assert(t.contains('.') <==> has_dot) by {
            if has_dot {
                let k = choose|k: int| start <= k < self.position() && s[k] == '.';
                assert(t[k - start] == '.');
            }
        }
        if has_dot {
            let literal = self.text_from(start);
            self.push_token(Token::Float(literal));
        } else {
            match self.digits_to_i64(start, self.current_position) {
                Some(value) => self.push_token(Token::Number(value)),
                None => return Err(LexError::NumericParse),
            }
        }
        Ok(())
    }

    fn handle_operator(&mut self, initial_char: char) -> (r: Result<(), LexError>)
        requires
            old(self).wf(),
            old(self).position() < old(self).source().len(),
            initial_char == old(self).source()[old(self).position()],
            is_comparison_start(initial_char),
        ensures
            final(self).stepped(old(self), r),
    {
        self.handle_pair(initial_char, '=')
    }

    fn handle_logical_operator(&mut self, initial_char: char) -> (r: Result<(), LexError>)
        requires
            old(self).wf(),
            old(self).position() < old(self).source().len(),
            initial_char == old(self).source()[old(self).position()],
            is_logical_start(initial_char),
        ensures
            final(self).stepped(old(self), r),
    {
        self.handle_pair(initial_char, initial_char)
    }

    /// An operator of one character, or of two when `second` follows.
    fn handle_pair(&mut self, initial_char: char, second: char) -> (r: Result<(), LexError>)
        requires
            old(self).wf(),
            old(self).position() < old(self).source().len(),
            initial_char == old(self).source()[old(self).position()],
        ensures
            final(self).same_source(old(self)),
            ({
                let (t, j) = operator_step(old(self).source(), old(self).position(), second);
                &&& r is Ok
                &&& final(self).position() == j
                &&& j > old(self).position()
                &&& final(self).emitted() == old(self).emitted() + opt_seq(t)
            }),
    {
        let ghost s = self.source();
        let start = self.current_position;
        self.advance();
        if let Some(next_char) = self.current_char() {
            if next_char == second {
                self.advance();
            }
        }
        let operator = self.text_from(start);
        proof {
            if self.position() == start + 2 {
                assert(operator@ =~= seq![initial_char, second]);
            } else {
                assert(operator@ =~= seq![initial_char]);
            }
        }
        self.push_token(Token::Operator(operator));
        Ok(())
    }
}

// ---------------------------------------------------------------------------
// Laws of the lexer
// ---------------------------------------------------------------------------

proof fn lemma_skip_blanks(s: Seq<char>, i: int, n: int)
    requires
        0 <= i <= n <= s.len(),
        forall|k: int| i <= k < n ==> white_space(#[trigger] s[k]),
    ensures
        lex_from(s, i) == lex_from(s, n),
    decreases n - i,
{
    if i < n {
        assert(white_space(s[i]));
        assert(lex_step(s, i) == Ok::<_, LexError>((None::<TokenView>, i + 1)));
        lemma_skip_blanks(s, i + 1, n);
        assert(opt_seq(None) + Seq::<TokenView>::empty() =~= Seq::<TokenView>::empty());
        if let Ok(ts) = lex_from(s, i + 1) {
            assert(opt_seq(None) + ts =~= ts);
        }
    }
}

/// A source of white space alone lexes to no token; one of white space and a
/// closing `;` lexes to that single delimiter. Neither is an error.
pub proof fn lemma_blank_statement(s: Seq<char>)
    requires
        forall|k: int| 0 <= k < s.len() - 1 ==> white_space(#[trigger] s[k]),
    ensures
        s.len() > 0 && s.last() == ';' ==> lexed(s) == Ok::<_, LexError>(
            seq![TokenView::Delimiter(';')],
        ),
        s.len() > 0 && white_space(s.last()) ==> lexed(s) == Ok::<_, LexError>(
            Seq::<TokenView>::empty(),
        ),
        s.len() == 0 ==> lexed(s) == Ok::<_, LexError>(Seq::<TokenView>::empty()),
{
    if s.len() > 0 {
        let n = s.len() - 1;
        lemma_skip_blanks(s, 0, n);
        if s.last() == ';' {
            assert(lex_step(s, n) == Ok::<_, LexError>((Some(TokenView::Delimiter(';')), n + 1)));
            assert(lex_from(s, n + 1) == Ok::<_, LexError>(Seq::<TokenView>::empty()));
            assert(seq![TokenView::Delimiter(';')] + Seq::<TokenView>::empty() =~= seq![
                TokenView::Delimiter(';'),
            ]);
        }
        if white_space(s.last()) {
            lemma_skip_blanks(s, 0, s.len() as int);
        }
    }
}

/// A word: word characters that are no white space.
pub open spec fn is_word(s: Seq<char>) -> bool {
    &&& s.len() > 0
    &&& forall|k: int| 0 <= k < s.len() ==> is_word_char(#[trigger] s[k]) && !white_space(s[k])
}

proof fn lemma_word_end(s: Seq<char>, i: int)
    requires
        is_word(s),
        0 <= i <= s.len(),
    ensures
        word_end(s, i) == s.len(),
    decreases s.len() - i,
{
    if i < s.len() {
        assert(is_word_char(s[i]));
        lemma_word_end(s, i + 1);
    }
}

proof fn lemma_lex_word(s: Seq<char>)
    requires
        is_word(s),
    ensures
        lexed(s) == Ok::<_, LexError>(seq![word_token(s)]),
{
    assert(is_word_char(s[0]) && !white_space(s[0]));
    lemma_word_end(s, 0);
    assert(s.subrange(0, s.len() as int) =~= s);
    assert(lex_from(s, s.len() as int) == Ok::<_, LexError>(Seq::<TokenView>::empty()));
    assert(seq![word_token(s)] + Seq::<TokenView>::empty() =~= seq![word_token(s)]);
}

/// Every reserved word is written in upper-case ASCII letters.
pub proof fn lemma_reserved_upper_case(w: Seq<char>)
    requires
        is_reserved(w),
    ensures
        forall|k: int| 0 <= k < w.len() ==> 'A' <= #[trigger] w[k] <= 'Z',
{
    reveal_strlit("SELECT");
    reveal_strlit("FROM");
    reveal_strlit("WHERE");
    reveal_strlit("ORDER");
    reveal_strlit("GROUP");
    reveal_strlit("DELETE");
    reveal_strlit("UPDATE");
    reveal_strlit("SET");
    reveal_strlit("INSERT");
    reveal_strlit("INTO");
    reveal_strlit("VALUES");
}

/// A keyword token holds the reserved, upper-case form of the word read, and
/// an identifier token holds the word exactly as written.
pub proof fn lemma_word_token_text(s: Seq<char>, i: int)
    requires
        0 <= i < s.len(),
    ensures
        match lex_step(s, i) {
            Ok((Some(TokenView::Keyword(k)), j)) => {
                &&& k == upper_of(s.subrange(i, j))
                &&& is_reserved(k)
                &&& forall|m: int| 0 <= m < k.len() ==> 'A' <= #[trigger] k[m] <= 'Z'
            },
            Ok((Some(TokenView::Identifier(w)), j)) => {
                &&& w == s.subrange(i, j)
                &&& !is_reserved(upper_of(w))
            },
            _ => true,
        },
{
    if let Ok((Some(TokenView::Keyword(k)), j)) = lex_step(s, i) {
        lemma_reserved_upper_case(k);
    }
}

/// Keyword recognition ignores case: two words with the same upper-case form
/// lex alike, to the one upper-case keyword when that form is reserved.
pub proof fn lemma_keyword_case_insensitive(a: Seq<char>, b: Seq<char>)
    requires
        is_word(a),
        is_word(b),
        upper_of(a) == upper_of(b),
    ensures
        is_reserved(upper_of(a)) ==> lexed(a) == lexed(b) && lexed(a) == Ok::<_, LexError>(
            seq![TokenView::Keyword(upper_of(a))],
        ),
        !is_reserved(upper_of(a)) ==> lexed(a) == Ok::<_, LexError>(
            seq![TokenView::Identifier(a)],
        ) && lexed(b) == Ok::<_, LexError>(seq![TokenView::Identifier(b)]),
{
    lemma_lex_word(a);
    lemma_lex_word(b);
}

/// A word that is not reserved lexes to one identifier spelled as written.
pub proof fn lemma_identifier_keeps_case(s: Seq<char>)
    requires
        is_word(s),
        !is_reserved(upper_of(s)),
    ensures
        lexed(s) == Ok::<_, LexError>(seq![TokenView::Identifier(s)]),
{
    lemma_lex_word(s);
}

/// A numeric literal: a digit, then digits with at most one `.`.
pub open spec fn is_numeric_literal(n: Seq<char>) -> bool {
    &&& n.len() > 0
    &&& is_digit(n[0])
    &&& forall|k: int| 0 <= k < n.len() ==> is_digit(#[trigger] n[k]) || n[k] == '.'
    &&& forall|a: int, b: int|
        0 <= a < n.len() && 0 <= b < n.len() && #[trigger] n[a] == '.' && #[trigger] n[b] == '.'
            ==> a == b
}

proof fn lemma_number_end(n: Seq<char>, i: int, dot: bool)
    requires
        is_numeric_literal(n),
        0 <= i <= n.len(),
        dot <==> exists|k: int| 0 <= k < i && n[k] == '.',
    ensures
        number_end(n, i, dot) == n.len(),
    decreases n.len() - i,
{
    if i < n.len() {
        let c = n[i];
        assert(is_digit(c) || c == '.');
        if c == '.' {
            if dot {
                let k = choose|k: int| 0 <= k < i && n[k] == '.';
                assert(k == i);
            }
        }
        let d = dot || c == '.';
        assert(d <==> exists|k: int| 0 <= k < i + 1 && n[k] == '.') by {
            if c == '.' {
                assert(n[i] == '.');
            }
            if exists|k: int| 0 <= k < i + 1 && n[k] == '.' {
                let k = choose|k: int| 0 <= k < i + 1 && n[k] == '.';
                if k < i {
                    assert(dot);
                }
            }
        }
        lemma_number_end(n, i + 1, d);
    }
}

/// A numeric literal lexes to one float token, spelled as written, exactly
/// when it holds a `.`; otherwise to one integer token with its value, or to
/// a numeric diagnostic when that value does not fit in `i64`.
pub proof fn lemma_numeric_literal(n: Seq<char>)
    requires
        is_numeric_literal(n),
    ensures
        n.contains('.') ==> lexed(n) == Ok::<_, LexError>(seq![TokenView::Float(n)]),
        !n.contains('.') && digits_value(n) <= i64::MAX ==> lexed(n) == Ok::<_, LexError>(
            seq![TokenView::Number(digits_value(n) as i64)],
        ),
        !n.contains('.') && digits_value(n) > i64::MAX ==> lexed(n) == Err::<Seq<TokenView>, _>(
            LexError::NumericParse,
        ),
{
    lemma_number_end(n, 0, false);
    assert(n.subrange(0, n.len() as int) =~= n);
    assert(is_digit(n[0]));
    assert(lex_from(n, n.len() as int) == Ok::<_, LexError>(Seq::<TokenView>::empty()));
    let t = number_token(n);
    if let Ok(tok) = t {
        assert(seq![tok] + Seq::<TokenView>::empty() =~= seq![tok]);
    }
}

/// The two-character operators `<=`, `>=`, `!=`, `&&` and `||` are read as
/// one token when their characters are adjacent.
pub proof fn lemma_two_character_operator(s: Seq<char>, i: int)
    requires
        0 <= i,
        i + 1 < s.len(),
        (is_comparison_start(s[i]) && s[i + 1] == '=') || (is_logical_start(s[i]) && s[i + 1]
            == s[i]),
    ensures
        lex_step(s, i) == Ok::<_, LexError>(
            (Some(TokenView::Operator(s.subrange(i, i + 2))), i + 2),
        ),
{
    assert(s.subrange(i, i + 2) =~= seq![s[i], s[i + 1]]);
}

} // verus!
