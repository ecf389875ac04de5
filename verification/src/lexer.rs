//! Tokens of the source text.

use vstd::prelude::*;
use vstd::std_specs::iter::IteratorSpec;
use vstd::string::StringExecFns;

verus! {

/// One token. `String` holds the text between the quotes; `Number`, `Keyword`
/// and `Symbol` hold the text that was matched.
#[derive(Debug, PartialEq)]
pub enum LexerToken {
    ListStart,
    ListEnd,
    HashStart,
    HashEnd,
    Boolean(bool),
    Nil,
    Quote,
    QuasiQuote,
    Unquote,
    SpliceUnquote,
    ArgsSpread,
    String(String),
    Number(String),
    Keyword(String),
    Symbol(String),
    Error,
}

pub ghost enum TokenModel {
    ListStart,
    ListEnd,
    HashStart,
    HashEnd,
    Boolean(bool),
    Nil,
    Quote,
    QuasiQuote,
    Unquote,
    SpliceUnquote,
    ArgsSpread,
    String(Seq<char>),
    Number(Seq<char>),
    Keyword(Seq<char>),
    Symbol(Seq<char>),
    Error,
}

impl View for LexerToken {
    type V = TokenModel;

    open spec fn view(&self) -> TokenModel {
        match self {
            LexerToken::ListStart => TokenModel::ListStart,
            LexerToken::ListEnd => TokenModel::ListEnd,
            LexerToken::HashStart => TokenModel::HashStart,
            LexerToken::HashEnd => TokenModel::HashEnd,
            LexerToken::Boolean(value) => TokenModel::Boolean(*value),
            LexerToken::Nil => TokenModel::Nil,
            LexerToken::Quote => TokenModel::Quote,
            LexerToken::QuasiQuote => TokenModel::QuasiQuote,
            LexerToken::Unquote => TokenModel::Unquote,
            LexerToken::SpliceUnquote => TokenModel::SpliceUnquote,
            LexerToken::ArgsSpread => TokenModel::ArgsSpread,
            LexerToken::String(text) => TokenModel::String(text@),
            LexerToken::Number(text) => TokenModel::Number(text@),
            LexerToken::Keyword(text) => TokenModel::Keyword(text@),
            LexerToken::Symbol(text) => TokenModel::Symbol(text@),
            LexerToken::Error => TokenModel::Error,
        }
    }
}

/// The models of a sequence of tokens, one for one.
pub open spec fn token_models(tokens: Seq<LexerToken>) -> Seq<TokenModel> {
    Seq::new(tokens.len(), |i: int| tokens[i]@)
}

impl Clone for LexerToken {
    fn clone(&self) -> (copy: Self)
        ensures
            copy@ == self@,
    {
        match self {
            LexerToken::ListStart => LexerToken::ListStart,
            LexerToken::ListEnd => LexerToken::ListEnd,
            LexerToken::HashStart => LexerToken::HashStart,
            LexerToken::HashEnd => LexerToken::HashEnd,
            LexerToken::Boolean(value) => LexerToken::Boolean(*value),
            LexerToken::Nil => LexerToken::Nil,
            LexerToken::Quote => LexerToken::Quote,
            LexerToken::QuasiQuote => LexerToken::QuasiQuote,
            LexerToken::Unquote => LexerToken::Unquote,
            LexerToken::SpliceUnquote => LexerToken::SpliceUnquote,
            LexerToken::ArgsSpread => LexerToken::ArgsSpread,
            LexerToken::String(text) => LexerToken::String(text.clone()),
            LexerToken::Number(text) => LexerToken::Number(text.clone()),
            LexerToken::Keyword(text) => LexerToken::Keyword(text.clone()),
            LexerToken::Symbol(text) => LexerToken::Symbol(text.clone()),
            LexerToken::Error => LexerToken::Error,
        }
    }
}

/// Believed of `std::string::String::push`, not proved: it puts the character
/// behind the text that the string holds and leaves that text as it is.
pub assume_specification[ std::string::String::push ](string: &mut std::string::String, ch: char)
    ensures
        final(string)@ == old(string)@.push(ch),
;

/// Spaces, tabs, line ends and commas separate tokens and are skipped.
pub open spec fn is_space(c: char) -> bool {
    c == ' ' || c == '\t' || c == '\n' || c == '\r' || c == '\x0b' || c == '\x0c' || c == ','
}

/// An ASCII digit.
pub open spec fn is_digit(c: char) -> bool {
    '0' <= c <= '9'
}

/// A letter, a digit or an underscore.
pub open spec fn is_word(c: char) -> bool {
    ('a' <= c <= 'z') || ('A' <= c <= 'Z') || is_digit(c) || c == '_'
}

/// What a symbol may begin with.
pub open spec fn is_symbol_start(c: char) -> bool {
    ('a' <= c <= 'z') || ('A' <= c <= 'Z') || c == '_' || c == '+' || c == '-' || c == '*' || c
        == '/' || c == '$' || c == '&' || c == '#' || c == '='
}

/// What a keyword may go on with after its second character.
pub open spec fn is_keyword_char(c: char) -> bool {
    is_word(c) || c == '-' || c == '!' || c == '@' || c == '#' || c == '$' || c == '+' || c == '?'
        || c == '~'
}

/// What a symbol may go on with.
pub open spec fn is_symbol_char(c: char) -> bool {
    is_keyword_char(c) || c == '*' || c == '='
}

/// The classes of characters that a token may run over.
#[derive(Clone, Copy, Debug, PartialEq, Eq, Structural)]
pub enum CharClass {
    Digit,
    Symbol,
    Keyword,
    Comment,
}

/// Whether a character belongs to a class.
pub open spec fn in_class(class: CharClass, c: char) -> bool {
    match class {
        CharClass::Digit => is_digit(c),
        CharClass::Symbol => is_symbol_char(c),
        CharClass::Keyword => is_keyword_char(c),
        CharClass::Comment => c != '\n',
    }
}

/// Where the longest run of characters of one class that begins at `from`
/// ends: the first place at or after `from` that holds no such character.
pub open spec fn run_end(s: Seq<char>, from: int, class: CharClass) -> int
    decreases s.len() - from,
{
    if 0 <= from < s.len() && in_class(class, s[from]) {
        run_end(s, from + 1, class)
    } else {
        from
    }
}

/// Where the comment that begins at `at` ends: behind the line end that
/// closes it. A `;` that no line end follows begins no comment, and the result
/// is `at`.
pub open spec fn comment_end(s: Seq<char>, at: int) -> int {
    if 0 <= at < s.len() && s[at] == ';' && run_end(s, at + 1, CharClass::Comment) < s.len() {
        run_end(s, at + 1, CharClass::Comment) + 1
    } else {
        at
    }
}

/// Where the longest number that begins at `at` ends, or `at` if none does: an
/// optional `-`, then digits with an optional `.` and digits, or `.` and
/// digits.
pub open spec fn number_end(s: Seq<char>, at: int) -> int {
    let first = if 0 <= at < s.len() && s[at] == '-' {
        at + 1
    } else {
        at
    };
    let whole = run_end(s, first, CharClass::Digit);
    if whole > first {
        if whole < s.len() && s[whole] == '.' {
            run_end(s, whole + 1, CharClass::Digit)
        } else {
            whole
        }
    } else if 0 <= first < s.len() && s[first] == '.' && run_end(s, first + 1, CharClass::Digit)
        > first + 1 {
        run_end(s, first + 1, CharClass::Digit)
    } else {
        at
    }
}

/// Where the longest symbol that begins at `at` ends, or `at` if none does.
pub open spec fn symbol_end(s: Seq<char>, at: int) -> int {
    if 0 <= at < s.len() && is_symbol_start(s[at]) {
        run_end(s, at + 1, CharClass::Symbol)
    } else {
        at
    }
}

/// Where the longest keyword that begins at `at` ends, or `at` if none does: a
/// `:`, then a `:` or a word character, then keyword characters.
pub open spec fn keyword_end(s: Seq<char>, at: int) -> int {
    if 0 <= at && at + 1 < s.len() && s[at] == ':' && (s[at + 1] == ':' || is_word(s[at + 1])) {
        run_end(s, at + 2, CharClass::Keyword)
    } else {
        at
    }
}

/// Where the longest string that was opened at `open` ends, looking from
/// `from` on: behind a quote. A quote that stands right behind a backslash of
/// the string may belong to the string, so the string goes on behind it where
/// another quote can close it, and ends with it where none can.
pub open spec fn string_close(s: Seq<char>, open: int, from: int) -> Option<int>
    decreases s.len() - from,
{
    if from < 0 || from >= s.len() {
        None
    } else if s[from] == '"' {
        if from - 1 > open && s[from - 1] == '\\' {
            match string_close(s, open, from + 1) {
                Some(end) => Some(end),
                None => Some(from + 1),
            }
        } else {
            Some(from + 1)
        }
    } else {
        string_close(s, open, from + 1)
    }
}

/// The token that a word spells: the three reserved words, a lone `&`, or a
/// symbol.
pub open spec fn word_token(word: Seq<char>) -> TokenModel {
    if word == "nil"@ {
        TokenModel::Nil
    } else if word == "true"@ {
        TokenModel::Boolean(true)
    } else if word == "false"@ {
        TokenModel::Boolean(false)
    } else if word == "&"@ {
        TokenModel::ArgsSpread
    } else {
        TokenModel::Symbol(word)
    }
}

/// The token that begins at `at` and where it ends, if one begins there. The
/// longest match wins, and a number wins over a symbol of the same length.
pub open spec fn token_at(s: Seq<char>, at: int) -> Option<(TokenModel, int)> {
    if at < 0 || at >= s.len() {
        None
    } else if s[at] == '(' {
        Some((TokenModel::ListStart, at + 1))
    } else if s[at] == ')' {
        Some((TokenModel::ListEnd, at + 1))
    } else if s[at] == '{' {
        Some((TokenModel::HashStart, at + 1))
    } else if s[at] == '}' {
        Some((TokenModel::HashEnd, at + 1))
    } else if s[at] == '\'' {
        Some((TokenModel::Quote, at + 1))
    } else if s[at] == '`' {
        Some((TokenModel::QuasiQuote, at + 1))
    } else if s[at] == '~' {
        if at + 1 < s.len() && s[at + 1] == '@' {
            Some((TokenModel::SpliceUnquote, at + 2))
        } else {
            Some((TokenModel::Unquote, at + 1))
        }
    } else if s[at] == '"' {
        match string_close(s, at, at + 1) {
            Some(end) => Some((TokenModel::String(s.subrange(at + 1, end - 1)), end)),
            None => None,
        }
    } else if keyword_end(s, at) > at {
        Some((TokenModel::Keyword(s.subrange(at, keyword_end(s, at))), keyword_end(s, at)))
    } else if number_end(s, at) > at && number_end(s, at) >= symbol_end(s, at) {
        Some((TokenModel::Number(s.subrange(at, number_end(s, at))), number_end(s, at)))
    } else if symbol_end(s, at) > at {
        Some((word_token(s.subrange(at, symbol_end(s, at))), symbol_end(s, at)))
    } else {
        None
    }
}

/// Something is recognized at `at`: a separator, a comment or a token.
pub open spec fn recognized(s: Seq<char>, at: int) -> bool {
    0 <= at < s.len() && (is_space(s[at]) || comment_end(s, at) > at || token_at(s, at) is Some)
}

/// Where the run of unrecognized characters ends, looking from `from` on.
pub open spec fn error_end(s: Seq<char>, from: int) -> int
    decreases s.len() - from,
{
    if from < 0 || from >= s.len() || recognized(s, from) {
        from
    } else {
        error_end(s, from + 1)
    }
}

/// What is read first at `at`, where no separator stands: a comment, which
/// gives no token, a token, or a run of characters at which nothing is
/// recognized, which is one `Error` token. The second part is where the
/// reading goes on.
pub open spec fn read_at(s: Seq<char>, at: int) -> (Option<TokenModel>, int) {
    if comment_end(s, at) > at {
        (None, comment_end(s, at))
    } else {
        match token_at(s, at) {
            Some((token, end)) => (Some(token), end),
            None => (Some(TokenModel::Error), error_end(s, at + 1)),
        }
    }
}

/// The tokens of the text from `at` on, separators skipped.
pub open spec fn tokens_from(s: Seq<char>, at: int) -> Seq<TokenModel>
    decreases s.len() - at,
{
    if at < 0 || at >= s.len() {
        Seq::empty()
    } else if is_space(s[at]) {
        tokens_from(s, at + 1)
    } else {
        let (token, end) = read_at(s, at);
        let rest = if at < end <= s.len() {
            tokens_from(s, end)
        } else {
            Seq::empty()
        };
        match token {
            Some(token) => seq![token] + rest,
            None => rest,
        }
    }
}

/// The tokens of a source text.
pub open spec fn tokens_of(source: Seq<char>) -> Seq<TokenModel> {
    tokens_from(source, 0)
}

/// The characters of a text, one by one.
pub fn chars_of(source: &str) -> (chars: Vec<char>)
    ensures
        chars@ == source@,
{
    broadcast use vstd::string::group_string_axioms;

    let mut chars: Vec<char> = Vec::new();
    let mut rest = source.chars();
    loop
        invariant
            rest.obeys_prophetic_iter_laws(),
            rest.decrease() is Some,
            chars@ + rest.remaining() == source@,
        decreases rest.decrease()->0,
    {
        let ghost before = rest.remaining();
        let ghost taken = chars@;
        match rest.next() {
            Some(c) => {
                chars.push(c);
                assert(chars@ + rest.remaining() =~= taken + before);
            },
            None => {
                assert(chars@ =~= chars@ + rest.remaining());
                return chars;
            },
        }
    }
}

/// The text that the characters from `from` up to `to` spell.
pub fn text_of(chars: &Vec<char>, from: usize, to: usize) -> (text: String)
    requires
        from <= to <= chars.len(),
    ensures
        text@ == chars@.subrange(from as int, to as int),
{
    let mut text = String::new();
    let mut i: usize = from;
    assert(text@ =~= chars@.subrange(from as int, from as int));
    while i < to
        invariant
            from <= i <= to,
            to <= chars.len(),
            text@ == chars@.subrange(from as int, i as int),
        decreases to - i,
    {
        text.push(chars[i]);
        assert(text@ =~= chars@.subrange(from as int, i as int + 1));
        i += 1;
    }
    text
}

fn char_in_class(class: CharClass, c: char) -> (r: bool)
    ensures
        r == in_class(class, c),
{
    let digit = '0' <= c && c <= '9';
    let word = ('a' <= c && c <= 'z') || ('A' <= c && c <= 'Z') || digit || c == '_';
    let keyword = word || c == '-' || c == '!' || c == '@' || c == '#' || c == '$' || c == '+'
        || c == '?' || c == '~';
    match class {
        CharClass::Digit => digit,
        CharClass::Symbol => keyword || c == '*' || c == '=',
        CharClass::Keyword => keyword,
        CharClass::Comment => c != '\n',
    }
}

/// Finds the end of the longest run of one class that begins at `from`.
pub fn scan_run(chars: &Vec<char>, from: usize, class: CharClass) -> (end: usize)
    requires
        from <= chars.len(),
    ensures
        end == run_end(chars@, from as int, class),
        from <= end <= chars.len(),
{
    let mut i: usize = from;
    while i < chars.len() && char_in_class(class, chars[i])
        invariant
            from <= i <= chars.len(),
            run_end(chars@, i as int, class) == run_end(chars@, from as int, class),
        decreases chars.len() - i,
    {
        i += 1;
    }
    i
}

fn scan_comment(chars: &Vec<char>, at: usize) -> (end: usize)
    requires
        at < chars.len(),
    ensures
        end == comment_end(chars@, at as int),
        at <= end <= chars.len(),
{
    if chars[at] != ';' {
        return at;
    }
    let line = scan_run(chars, at + 1, CharClass::Comment);
    if line < chars.len() {
        line + 1
    } else {
        at
    }
}

fn scan_number(chars: &Vec<char>, at: usize) -> (end: usize)
    requires
        at < chars.len(),
    ensures
        end == number_end(chars@, at as int),
        at <= end <= chars.len(),
{
    let first = if chars[at] == '-' {
        at + 1
    } else {
        at
    };
    let whole = scan_run(chars, first, CharClass::Digit);
    if whole > first {
        if whole < chars.len() && chars[whole] == '.' {
            scan_run(chars, whole + 1, CharClass::Digit)
        } else {
            whole
        }
    } else if first < chars.len() && chars[first] == '.' {
        let fraction = scan_run(chars, first + 1, CharClass::Digit);
        if fraction > first + 1 {
            fraction
        } else {
            at
        }
    } else {
        at
    }
}

fn starts_symbol(c: char) -> (r: bool)
    ensures
        r == is_symbol_start(c),
{
    ('a' <= c && c <= 'z') || ('A' <= c && c <= 'Z') || c == '_' || c == '+' || c == '-' || c
        == '*' || c == '/' || c == '$' || c == '&' || c == '#' || c == '='
}

fn scan_symbol(chars: &Vec<char>, at: usize) -> (end: usize)
    requires
        at < chars.len(),
    ensures
        end == symbol_end(chars@, at as int),
        at <= end <= chars.len(),
{
    if starts_symbol(chars[at]) {
        scan_run(chars, at + 1, CharClass::Symbol)
    } else {
        at
    }
}

fn scan_keyword(chars: &Vec<char>, at: usize) -> (end: usize)
    requires
        at < chars.len(),
    ensures
        end == keyword_end(chars@, at as int),
        at <= end <= chars.len(),
{
    if chars.len() - at < 2 || chars[at] != ':' {
        return at;
    }
    let c = chars[at + 1];
    let word = ('a' <= c && c <= 'z') || ('A' <= c && c <= 'Z') || ('0' <= c && c <= '9') || c
        == '_';
    if c == ':' || word {
        scan_run(chars, at + 2, CharClass::Keyword)
    } else {
        at
    }
}

fn scan_string(chars: &Vec<char>, open: usize) -> (end: Option<usize>)
    requires
        open < chars.len(),
    ensures
        match end {
            Some(e) => string_close(chars@, open as int, open + 1) == Some(e as int) && open + 1 < e
                <= chars.len(),
            None => string_close(chars@, open as int, open + 1) is None,
        },
{
    let mut best: Option<usize> = None;
    let mut i: usize = open + 1;
    while i < chars.len()
        invariant
            open < i <= chars.len(),
            best matches Some(e) ==> open + 1 < e <= i,
            string_close(chars@, open as int, open + 1) == (match string_close(
                chars@,
                open as int,
                i as int,
            ) {
                Some(e) => Some(e),
                None => match best {
                    Some(e) => Some(e as int),
                    None => None,
                },
            }),
        decreases chars.len() - i,
    {
        if chars[i] == '"' {
            if i - 1 > open && chars[i - 1] == '\\' {
                best = Some(i + 1);
            } else {
                return Some(i + 1);
            }
        }
        i += 1;
    }
    best
}

fn word_of(chars: &Vec<char>, from: usize, to: usize) -> (token: LexerToken)
    requires
        from <= to <= chars.len(),
    ensures
        token@ == word_token(chars@.subrange(from as int, to as int)),
{
    let word = text_of(chars, from, to);
    if word == String::from_str("nil") {
        LexerToken::Nil
    } else if word == String::from_str("true") {
        LexerToken::Boolean(true)
    } else if word == String::from_str("false") {
        LexerToken::Boolean(false)
    } else if word == String::from_str("&") {
        LexerToken::ArgsSpread
    } else {
        LexerToken::Symbol(word)
    }
}

/// Reads the token that begins at `at`, if one does.
pub fn scan_token(chars: &Vec<char>, at: usize) -> (r: Option<(LexerToken, usize)>)
    requires
        at < chars.len(),
    ensures
        match r {
            Some((token, end)) => token_at(chars@, at as int) == Some((token@, end as int)) && at
                < end <= chars.len(),
            None => token_at(chars@, at as int) is None,
        },
{
    let c = chars[at];
    if c == '(' {
        Some((LexerToken::ListStart, at + 1))
    } else if c == ')' {
        Some((LexerToken::ListEnd, at + 1))
    } else if c == '{' {
        Some((LexerToken::HashStart, at + 1))
    } else if c == '}' {
        Some((LexerToken::HashEnd, at + 1))
    } else if c == '\'' {
        Some((LexerToken::Quote, at + 1))
    } else if c == '`' {
        Some((LexerToken::QuasiQuote, at + 1))
    } else if c == '~' {
        if chars.len() - at > 1 && chars[at + 1] == '@' {
            Some((LexerToken::SpliceUnquote, at + 2))
        } else {
            Some((LexerToken::Unquote, at + 1))
        }
    } else if c == '"' {
        match scan_string(chars, at) {
            Some(end) => Some((LexerToken::String(text_of(chars, at + 1, end - 1)), end)),
            None => None,
        }
    } else {
        let keyword = scan_keyword(chars, at);
        if keyword > at {
            return Some((LexerToken::Keyword(text_of(chars, at, keyword)), keyword));
        }
        let number = scan_number(chars, at);
        let symbol = scan_symbol(chars, at);
        if number > at && number >= symbol {
            Some((LexerToken::Number(text_of(chars, at, number)), number))
        } else if symbol > at {
            Some((word_of(chars, at, symbol), symbol))
        } else {
            None
        }
    }
}

fn is_separator(c: char) -> (r: bool)
    ensures
        r == is_space(c),
{
    c == ' ' || c == '\t' || c == '\n' || c == '\r' || c == '\x0b' || c == '\x0c' || c == ','
}

fn scan_error(chars: &Vec<char>, from: usize) -> (end: usize)
    requires
        from <= chars.len(),
    ensures
        end == error_end(chars@, from as int),
        from <= end <= chars.len(),
{
    let mut i: usize = from;
    while i < chars.len()
        invariant
            from <= i <= chars.len(),
            error_end(chars@, i as int) == error_end(chars@, from as int),
        decreases chars.len() - i,
    {
        if is_separator(chars[i]) || scan_comment(chars, i) > i {
            return i;
        }
        match scan_token(chars, i) {
            Some(_) => {
                return i;
            },
            None => {},
        }
        i += 1;
    }
    i
}

/// Splits a sequence of characters into its tokens.
pub fn tokenize_chars(chars: &Vec<char>) -> (tokens: Vec<LexerToken>)
    ensures
        token_models(tokens@) == tokens_of(chars@),
{
    let mut tokens: Vec<LexerToken> = Vec::new();
    let mut at: usize = 0;
    assert(token_models(tokens@) + tokens_from(chars@, 0) =~= tokens_of(chars@));
    while at < chars.len()
        invariant
            at <= chars.len(),
            token_models(tokens@) + tokens_from(chars@, at as int) == tokens_of(chars@),
        decreases chars.len() - at,
    {
        let ghost so_far = token_models(tokens@);
        if is_separator(chars[at]) {
            at += 1;
        } else {
            let comment = scan_comment(chars, at);
            if comment > at {
                at = comment;
            } else {
                match scan_token(chars, at) {
                    Some((token, end)) => {
                        tokens.push(token);
                        assert(token_models(tokens@) =~= so_far.push(token@));
                        assert(token_models(tokens@) + tokens_from(chars@, end as int) =~= so_far
                            + (seq![token@] + tokens_from(chars@, end as int)));
                        at = end;
                    },
                    None => {
                        let end = scan_error(chars, at + 1);
                        tokens.push(LexerToken::Error);
                        assert(token_models(tokens@) =~= so_far.push(TokenModel::Error));
                        assert(token_models(tokens@) + tokens_from(chars@, end as int) =~= so_far
                            + (seq![TokenModel::Error] + tokens_from(chars@, end as int)));
                        at = end;
                    },
                }
            }
        }
    }
    assert(token_models(tokens@) + tokens_from(chars@, at as int) =~= token_models(tokens@));
    tokens
}

/// Splits a source text into its tokens.
pub fn tokenize(source: &str) -> (tokens: Vec<LexerToken>)
    ensures
        token_models(tokens@) == tokens_of(source@),
{
    let chars = chars_of(source);
    tokenize_chars(&chars)
}

} // verus!
