use crate::decimal::{decimal_value, lemma_decimal_value_grows};
use crate::error::{Failure, ParseError, Rule};
use crate::token::{LexemeView, Token, TokenView, Tokens};
use vstd::prelude::*;
use vstd::string::StrSliceExecFns;

verus! {

/// The kinds of character that tokens are made of.
#[derive(PartialEq, Eq, Debug, Clone, Copy)]
pub enum CharClass {
    /// Blanks, tabs and line ends, which separate tokens.
    Space,
    /// The decimal digits.
    Digit,
    /// What a word may hold after its first character: ASCII letters,
    /// digits and the underscore.
    Word,
    /// What may stand inside a string literal: all but the double quote.
    Quoted,
}

/// Whether `c` separates tokens: a blank, a tab or a line end.
pub open spec fn spec_is_space(c: char) -> bool {
    c == ' ' || c == '\t' || c == '\n' || c == '\r'
}

/// Whether `c` is a decimal digit.
pub open spec fn spec_is_digit(c: char) -> bool {
    '0' <= c <= '9'
}

/// Whether a word may start with `c`: an ASCII letter or the underscore.
pub open spec fn spec_is_word_start(c: char) -> bool {
    'a' <= c <= 'z' || 'A' <= c <= 'Z' || c == '_'
}

/// Whether `c` is of the class.
pub open spec fn spec_belongs(class: CharClass, c: char) -> bool {
    match class {
        CharClass::Space => spec_is_space(c),
        CharClass::Digit => spec_is_digit(c),
        CharClass::Word => spec_is_word_start(c) || spec_is_digit(c),
        CharClass::Quoted => c != '"',
    }
}

/// Where the longest run of characters of `class` that starts at `start`
/// ends: the index of the first character from `start` on that is not of
/// the class, or the length of the text.
pub open spec fn run_end(text: Seq<char>, start: int, class: CharClass) -> int
    decreases text.len() - start,
{
    if 0 <= start < text.len() && spec_belongs(class, text[start]) {
        run_end(text, start + 1, class)
    } else {
        start
    }
}

/// The token that a word is: one of the five keywords, or else an
/// identifier.
pub open spec fn word_token(word: Seq<char>) -> TokenView {
    if word == "print"@ {
        TokenView::Print
    } else if word == "var"@ {
        TokenView::Var
    } else if word == "let"@ {
        TokenView::Let
    } else if word == "true"@ {
        TokenView::Boolean(true)
    } else if word == "false"@ {
        TokenView::Boolean(false)
    } else {
        TokenView::Identifier(word)
    }
}

/// The token that a punctuation mark is.
pub open spec fn mark_token(c: char) -> Option<TokenView> {
    if c == '=' {
        Some(TokenView::Assign)
    } else if c == '+' {
        Some(TokenView::Plus)
    } else if c == '-' {
        Some(TokenView::Minus)
    } else if c == '!' {
        Some(TokenView::Bang)
    } else if c == '{' {
        Some(TokenView::LeftBrace)
    } else if c == '}' {
        Some(TokenView::RightBrace)
    } else {
        None
    }
}

/// The token that starts at `start`, and the index of the first character
/// after it.
///
/// A digit starts an integer, which takes all the digits that follow; its
/// value has to fit in 32 bits. A letter or an underscore starts a word,
/// which takes all the letters, digits and underscores that follow. A
/// double quote starts a string, which holds the characters up to the next
/// double quote. The marks `= + - ! { }` are tokens by themselves. Nothing
/// else starts a token.
pub open spec fn token_at(text: Seq<char>, start: int) -> Result<(TokenView, int), Failure> {
    let c = text[start];
    if spec_is_digit(c) {
        let end = run_end(text, start, CharClass::Digit);
        let value = decimal_value(text.subrange(start, end));
        if value <= i32::MAX {
            Ok((TokenView::Integer(value as i32), end))
        } else {
            Err(Failure { rule: Rule::Integer, position: start })
        }
    } else if spec_is_word_start(c) {
        let end = run_end(text, start, CharClass::Word);
        Ok((word_token(text.subrange(start, end)), end))
    } else if c == '"' {
        let end = run_end(text, start + 1, CharClass::Quoted);
        if end < text.len() {
            Ok((TokenView::Str(text.subrange(start + 1, end)), end + 1))
        } else {
            Err(Failure { rule: Rule::Str, position: start })
        }
    } else {
        match mark_token(c) {
            Some(token) => Ok((token, start + 1)),
            None => Err(Failure { rule: Rule::Statement, position: start }),
        }
    }
}

/// The tokens of the text from `start` on: spaces are skipped, then a token
/// is read, and so on to the end of the text. The first character that
/// starts no token, the first integer that does not fit, and the first
/// string that is not closed fail the whole.
pub open spec fn tokens_from(text: Seq<char>, start: int) -> Result<Seq<LexemeView>, Failure>
    decreases text.len() - start,
{
    let at = run_end(text, start, CharClass::Space);
    if start < 0 || at >= text.len() {
        Ok(Seq::empty())
    } else {
        proof {
            lemma_run_end(text, start, CharClass::Space);
            lemma_token_at_advances(text, at);
        }
        match token_at(text, at) {
            Err(failure) => Err(failure),
            Ok((token, end)) => match tokens_from(text, end) {
                Err(failure) => Err(failure),
                Ok(rest) => Ok(seq![LexemeView { token, position: at }] + rest),
            },
        }
    }
}

/// The tokens of a whole text.
pub open spec fn lex(text: Seq<char>) -> Result<Tokens, Failure> {
    match tokens_from(text, 0) {
        Ok(lexemes) => Ok(Tokens { lexemes, end: text.len() as int }),
        Err(failure) => Err(failure),
    }
}

/// Whether a sequence of characters is a word: a letter or an underscore,
/// then letters, digits and underscores.
pub open spec fn is_word(word: Seq<char>) -> bool {
    &&& word.len() > 0
    &&& spec_is_word_start(word[0])
    &&& forall|k: int| 0 <= k < word.len() ==> spec_belongs(CharClass::Word, #[trigger] word[k])
}

/// Whether a word is one of the five that the grammar keeps for itself.
pub open spec fn is_keyword(word: Seq<char>) -> bool {
    word == "print"@ || word == "var"@ || word == "let"@ || word == "true"@ || word == "false"@
}

impl TokenView {
    /// What holds of every token that is read from a text: an integer is
    /// not negative, a string holds no double quote, and an identifier is a
    /// word that is no keyword.
    pub open spec fn well_formed(self) -> bool {
        match self {
            TokenView::Integer(n) => n >= 0,
            TokenView::Str(s) => forall|k: int| 0 <= k < s.len() ==> #[trigger] s[k] != '"',
            TokenView::Identifier(name) => is_word(name) && !is_keyword(name),
            _ => true,
        }
    }
}

/// A run ends at or after its start and inside the text, holds characters
/// of its class only, and stops at the first character that is not of it.
pub proof fn lemma_run_end(text: Seq<char>, start: int, class: CharClass)
    requires
        0 <= start <= text.len(),
    ensures
        start <= run_end(text, start, class) <= text.len(),
        forall|k: int|
            start <= k < run_end(text, start, class) ==> spec_belongs(class, #[trigger] text[k]),
        run_end(text, start, class) < text.len() ==> !spec_belongs(
            class,
            text[run_end(text, start, class)],
        ),
    decreases text.len() - start,
{
    if start < text.len() && spec_belongs(class, text[start]) {
        lemma_run_end(text, start + 1, class);
    }
}

/// A token holds at least one character and ends inside the text.
pub proof fn lemma_token_at_advances(text: Seq<char>, start: int)
    requires
        0 <= start < text.len(),
    ensures
        token_at(text, start) matches Ok((_, end)) ==> start < end <= text.len(),
{
    lemma_run_end(text, start, CharClass::Digit);
    lemma_run_end(text, start, CharClass::Word);
    lemma_run_end(text, start + 1, CharClass::Quoted);
}

/// A token that is read from a text is well formed.
pub proof fn lemma_token_at_well_formed(text: Seq<char>, start: int)
    requires
        0 <= start < text.len(),
    ensures
        token_at(text, start) matches Ok((token, _)) ==> token.well_formed(),
{
    lemma_run_end(text, start, CharClass::Word);
    lemma_run_end(text, start + 1, CharClass::Quoted);
}

/// The tokens of a text are well formed, and each starts inside the text.
pub proof fn lemma_tokens_well_formed(text: Seq<char>, start: int)
    requires
        0 <= start <= text.len(),
    ensures
        tokens_from(text, start) matches Ok(lexemes) ==> forall|i: int|
            0 <= i < lexemes.len() ==> (#[trigger] lexemes[i]).token.well_formed() && start
                <= lexemes[i].position < text.len(),
    decreases text.len() - start,
{
    let at = run_end(text, start, CharClass::Space);
    lemma_run_end(text, start, CharClass::Space);
    if at < text.len() {
        lemma_token_at_advances(text, at);
        lemma_token_at_well_formed(text, at);
        if let Ok((token, end)) = token_at(text, at) {
            lemma_tokens_well_formed(text, end);
        }
    }
}

#[verifier::when_used_as_spec(spec_is_space)]
pub fn is_space(c: char) -> (yes: bool)
    ensures
        yes == spec_is_space(c),
{
    c == ' ' || c == '\t' || c == '\n' || c == '\r'
}

#[verifier::when_used_as_spec(spec_is_digit)]
pub fn is_digit(c: char) -> (yes: bool)
    ensures
        yes == spec_is_digit(c),
{
    '0' <= c && c <= '9'
}

#[verifier::when_used_as_spec(spec_is_word_start)]
pub fn is_word_start(c: char) -> (yes: bool)
    ensures
        yes == spec_is_word_start(c),
{
    ('a' <= c && c <= 'z') || ('A' <= c && c <= 'Z') || c == '_'
}

#[verifier::when_used_as_spec(spec_belongs)]
pub fn belongs(class: CharClass, c: char) -> (yes: bool)
    ensures
        yes == spec_belongs(class, c),
{
    match class {
        CharClass::Space => is_space(c),
        CharClass::Digit => is_digit(c),
        CharClass::Word => is_word_start(c) || is_digit(c),
        CharClass::Quoted => c != '"',
    }
}

/// Skips the longest run of characters of `class` from `start` on.
pub fn scan(text: &Vec<char>, start: usize, class: CharClass) -> (end: usize)
    ensures
        end == run_end(text@, start as int, class),
        start <= end,
        start <= text.len() ==> end <= text.len(),
{
    let mut end = start;
    while end < text.len() && belongs(class, text[end])
        invariant
            start <= end,
            start <= text.len() ==> end <= text.len(),
            run_end(text@, start as int, class) == run_end(text@, end as int, class),
        decreases text.len() - end,
    {
        end += 1;
    }
    end
}

/// The characters of a text, one by one.
pub fn collect_chars(source: &str) -> (text: Vec<char>)
    ensures
        text@ == source@,
{
    let mut text: Vec<char> = Vec::new();
    for c in chars: source.chars()
        invariant
            chars.seq() == source@,
            text@ == chars.seq().take(chars.index()),
    {
        text.push(c);
    }
    text
}

/// Reads the decimal number that the characters from `start` to `end`
/// spell, if it fits in 32 bits.
pub(crate) fn read_integer(text: &Vec<char>, start: usize, end: usize) -> (value: Option<i32>)
    requires
        start <= end <= text.len(),
        forall|k: int| start <= k < end ==> is_digit(#[trigger] text@[k]),
    ensures
        match value {
            Some(n) => n == decimal_value(text@.subrange(start as int, end as int)),
            None => decimal_value(text@.subrange(start as int, end as int)) > i32::MAX,
        },
{
    let mut value: u64 = 0;
    let mut i = start;
    while i < end
        invariant
            start <= i <= end <= text.len(),
            forall|k: int| start <= k < end ==> is_digit(#[trigger] text@[k]),
            value == decimal_value(text@.subrange(start as int, i as int)),
            value <= i32::MAX,
        decreases end - i,
    {
        let digit = text[i] as u64 - '0' as u64;
        assert(text@.subrange(start as int, i + 1).drop_last() =~= text@.subrange(
            start as int,
            i as int,
        ));
        value = value * 10 + digit;
        i += 1;
        if value > 2147483647 {
            proof {
                lemma_decimal_value_grows(text@, start as int, i as int, end as int);
            }
            return None;
        }
    }
    Some(value as i32)
}

/// Whether the characters from `start` to `end` are those of `word`.
pub(crate) fn spells(text: &Vec<char>, start: usize, end: usize, word: &str) -> (yes: bool)
    requires
        start <= end <= text.len(),
    ensures
        yes == (text@.subrange(start as int, end as int) == word@),
{
    let length = word.unicode_len();
    if end - start != length {
        return false;
    }
    let mut k: usize = 0;
    while k < length
        invariant
            k <= length,
            length == word@.len(),
            start + length == end <= text.len(),
            forall|m: int| 0 <= m < k ==> text@[start + m] == word@[m],
        decreases length - k,
    {
        if text[start + k] != word.get_char(k) {
            return false;
        }
        k += 1;
    }
    assert(text@.subrange(start as int, end as int) =~= word@);
    true
}

/// The characters of a text from `start` to `end`, as a string. Where the
/// text is known to be all ASCII, the place of a character in it is its
/// index, and no character has to be counted.
pub(crate) fn slice(source: &str, ascii: bool, start: usize, end: usize) -> (part: String)
    requires
        ascii ==> source.is_ascii(),
        start <= end <= source@.len(),
    ensures
        part@ == source@.subrange(start as int, end as int),
{
    if ascii {
        source.substring_ascii(start, end).to_owned()
    } else {
        source.substring_char(start, end).to_owned()
    }
}

/// Reads the word that the characters from `start` to `end` are.
pub(crate) fn read_word(
    source: &str,
    text: &Vec<char>,
    ascii: bool,
    start: usize,
    end: usize,
) -> (token: Token)
    requires
        text@ == source@,
        ascii ==> source.is_ascii(),
        start <= end <= text.len(),
    ensures
        token@ == word_token(text@.subrange(start as int, end as int)),
{
    if spells(text, start, end, "print") {
        Token::Print
    } else if spells(text, start, end, "var") {
        Token::Var
    } else if spells(text, start, end, "let") {
        Token::Let
    } else if spells(text, start, end, "true") {
        Token::Boolean(true)
    } else if spells(text, start, end, "false") {
        Token::Boolean(false)
    } else {
        Token::Identifier(slice(source, ascii, start, end))
    }
}

/// Reads the token that starts at `start`, and tells where it ends.
pub(crate) fn read_token(
    source: &str,
    text: &Vec<char>,
    ascii: bool,
    start: usize,
) -> (result: Result<(Token, usize), ParseError>)
    requires
        text@ == source@,
        ascii ==> source.is_ascii(),
        start < text.len(),
    ensures
        match result {
            Ok((token, end)) => token_at(source@, start as int) == Ok::<_, Failure>(
                (token@, end as int),
            ) && start < end <= text.len(),
            Err(error) => token_at(source@, start as int) == Err::<(TokenView, int), _>(error@),
        },
{
    proof {
        lemma_token_at_advances(text@, start as int);
    }
    let c = text[start];
    if is_digit(c) {
        let end = scan(text, start, CharClass::Digit);
        proof {
            lemma_run_end(text@, start as int, CharClass::Digit);
        }
        match read_integer(text, start, end) {
            Some(value) => Ok((Token::Integer(value), end)),
            None => Err(ParseError { rule: Rule::Integer, position: start }),
        }
    } else if is_word_start(c) {
        let end = scan(text, start, CharClass::Word);
        Ok((read_word(source, text, ascii, start, end), end))
    } else if c == '"' {
        let end = scan(text, start + 1, CharClass::Quoted);
        if end < text.len() {
            Ok((Token::Str(slice(source, ascii, start + 1, end)), end + 1))
        } else {
            Err(ParseError { rule: Rule::Str, position: start })
        }
    } else if c == '=' {
        Ok((Token::Assign, start + 1))
    } else if c == '+' {
        Ok((Token::Plus, start + 1))
    } else if c == '-' {
        Ok((Token::Minus, start + 1))
    } else if c == '!' {
        Ok((Token::Bang, start + 1))
    } else if c == '{' {
        Ok((Token::LeftBrace, start + 1))
    } else if c == '}' {
        Ok((Token::RightBrace, start + 1))
    } else {
        Err(ParseError { rule: Rule::Statement, position: start })
    }
}

} // verus!
