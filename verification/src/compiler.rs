//! The reader: from tokens to forms.
//!
//! ```text
//! program = form*
//! form    = atom | list | hash
//! atom    = Nil | Boolean | Number | String | Keyword | Symbol | ArgsSpread
//! list    = ListStart form* ListEnd
//! hash    = HashStart (form form)* HashEnd
//! ```
//!
//! A `Number` token holds the text of a number. The doubles that the texts
//! spell come from the host, one for each `Number` token, in their order.

use vstd::prelude::*;
use crate::equality::{hash_insert, insert_entry};
use crate::errors::{read_error, read_failure};
use crate::lexer::{token_models, tokenize, tokens_of, LexerToken, TokenModel};
use crate::types::{
    bool_form, forms, group_forms, hash_form, hashable, keyword_form, list_form, nil_form,
    number_form, pair_forms, string_form, symbol_form, Form, LispyType,
};

verus! {

broadcast use group_forms;

/// How many `Number` tokens stand before the place `upto`.
pub open spec fn numbers_before(tokens: Seq<TokenModel>, upto: int) -> nat
    decreases upto,
{
    if upto <= 0 || upto > tokens.len() {
        0
    } else if tokens[upto - 1] is Number {
        numbers_before(tokens, upto - 1) + 1
    } else {
        numbers_before(tokens, upto - 1)
    }
}

/// How many `Number` tokens there are.
pub open spec fn count_numbers(tokens: Seq<TokenModel>) -> nat {
    numbers_before(tokens, tokens.len() as int)
}

/// The tokens end within a form.
pub open spec fn unexpected_end() -> Form {
    read_error("Unexpected end of input"@)
}

/// The form that begins at `at`, and the place behind it.
pub open spec fn read_form(tokens: Seq<TokenModel>, numbers: Seq<u64>, at: int) -> Result<
    (Form, int),
    Form,
>
    decreases tokens.len() - at, 0nat,
{
    if at < 0 || at >= tokens.len() {
        Err(unexpected_end())
    } else {
        match tokens[at] {
            TokenModel::Nil => Ok((nil_form(), at + 1)),
            TokenModel::Boolean(value) => Ok((bool_form(value), at + 1)),
            TokenModel::String(text) => Ok((string_form(text), at + 1)),
            TokenModel::Keyword(text) => Ok((keyword_form(text), at + 1)),
            TokenModel::Symbol(text) => Ok((symbol_form(text), at + 1)),
            TokenModel::ArgsSpread => Ok((symbol_form("&"@), at + 1)),
            TokenModel::Number(_) => if numbers_before(tokens, at) < numbers.len() {
                Ok((number_form(numbers[numbers_before(tokens, at) as int]), at + 1))
            } else {
                Err(read_error("A number has no value"@))
            },
            TokenModel::ListStart => read_list(tokens, numbers, at + 1, Seq::empty()),
            TokenModel::HashStart => read_hash(tokens, numbers, at + 1, Seq::empty()),
            _ => Err(read_error("Unexpected token"@)),
        }
    }
}

/// The list whose items from `at` on are still to be read, and the place
/// behind its closing bracket.
pub open spec fn read_list(tokens: Seq<TokenModel>, numbers: Seq<u64>, at: int, done: Seq<Form>)
    -> Result<(Form, int), Form>
    decreases tokens.len() - at, 1nat,
{
    if at < 0 || at >= tokens.len() {
        Err(unexpected_end())
    } else if tokens[at] is ListEnd {
        Ok((list_form(done), at + 1))
    } else {
        match read_form(tokens, numbers, at) {
            Err(error) => Err(error),
            Ok((item, next)) => if at < next <= tokens.len() {
                read_list(tokens, numbers, next, done.push(item))
            } else {
                Err(unexpected_end())
            },
        }
    }
}

/// The hash whose entries from `at` on are still to be read, and the place
/// behind its closing bracket. A key must be hashable and have a value; a key
/// that comes again replaces the value it had.
pub open spec fn read_hash(
    tokens: Seq<TokenModel>,
    numbers: Seq<u64>,
    at: int,
    done: Seq<(Form, Form)>,
) -> Result<(Form, int), Form>
    decreases tokens.len() - at, 1nat,
{
    if at < 0 || at >= tokens.len() {
        Err(unexpected_end())
    } else if tokens[at] is HashEnd {
        Ok((hash_form(done), at + 1))
    } else {
        match read_form(tokens, numbers, at) {
            Err(error) => Err(error),
            Ok((key, next)) => if !hashable(key) {
                Err(read_error("A hash key must be an atom"@))
            } else if !(at < next < tokens.len()) {
                Err(unexpected_end())
            } else if tokens[next] is HashEnd {
                Err(read_error("A hash key has no value"@))
            } else {
                match read_form(tokens, numbers, next) {
                    Err(error) => Err(error),
                    Ok((value, after)) => if next < after <= tokens.len() {
                        read_hash(tokens, numbers, after, hash_insert(done, key, value))
                    } else {
                        Err(unexpected_end())
                    },
                }
            },
        }
    }
}

/// The forms from `at` on, behind those already read.
pub open spec fn read_program(
    tokens: Seq<TokenModel>,
    numbers: Seq<u64>,
    at: int,
    done: Seq<Form>,
) -> Result<Seq<Form>, Form>
    decreases tokens.len() - at,
{
    if at < 0 || at >= tokens.len() {
        Ok(done)
    } else {
        match read_form(tokens, numbers, at) {
            Err(error) => Err(error),
            Ok((form, next)) => if at < next <= tokens.len() {
                read_program(tokens, numbers, next, done.push(form))
            } else {
                Err(unexpected_end())
            },
        }
    }
}

/// The forms that the tokens spell, with the doubles that the `Number` tokens
/// stand for; or the `READ_ERROR` that the tokens give: a bracket without its
/// partner, a hash key without a value or of a variant that cannot key a hash,
/// an `Error` token or another token that begins no form, or a `Number` token
/// without a double.
pub open spec fn read_model(tokens: Seq<TokenModel>, numbers: Seq<u64>) -> Result<Seq<Form>, Form> {
    read_program(tokens, numbers, 0, Seq::empty())
}

/// A place in a sequence of tokens.
pub struct TokenReader {
    pub index: usize,
    pub data: Vec<LexerToken>,
    pub numbers: Vec<u64>,
    pub seen: usize,
}

impl TokenReader {
    /// The place is within the tokens, and `seen` counts the `Number` tokens
    /// before it.
    pub open spec fn wf(&self) -> bool {
        &&& self.index <= self.data.len()
        &&& self.seen == numbers_before(token_models(self.data@), self.index as int)
    }

/// A reader at the first of the tokens. `numbers` holds the doubles of the
/// `Number` tokens, in their order.
    pub fn new(data: Vec<LexerToken>, numbers: Vec<u64>) -> (reader: Self)
        ensures
            reader.wf(),
            reader.index == 0,
            reader.data == data,
            reader.numbers == numbers,
    {
        Self { index: 0, data, numbers, seen: 0 }
    }

/// The token at the reader's place.
    pub fn peek(&self) -> (token: LexerToken)
        requires
            self.index < self.data.len(),
        ensures
            token@ == token_models(self.data@)[self.index as int],
    {
        self.data[self.index].clone()
    }

/// The token at the reader's place; the reader moves behind it.
    pub fn grab(&mut self) -> (token: LexerToken)
        requires
            old(self).wf(),
            old(self).index < old(self).data.len(),
        ensures
            token@ == token_models(old(self).data@)[old(self).index as int],
            final(self).wf(),
            final(self).index == old(self).index + 1,
            final(self).data == old(self).data,
            final(self).numbers == old(self).numbers,
    {
        let token = self.peek();
        if let LexerToken::Number(_) = &self.data[self.index] {
            proof {
                lemma_numbers_before_bound(token_models(self.data@), self.index as int);
            }
            self.seen += 1;
        }
        self.index += 1;
        token
    }

/// Whether the reader is behind the last token.
    pub fn is_empty(&self) -> (r: bool)
        ensures
            r == (self.index >= self.data.len()),
    {
        self.index >= self.data.len()
    }
}

/// No more `Number` tokens stand before a place than tokens do.
pub proof fn lemma_numbers_before_bound(tokens: Seq<TokenModel>, upto: int)
    requires
        0 <= upto <= tokens.len(),
    ensures
        numbers_before(tokens, upto) <= upto,
    decreases upto,
{
    if upto > 0 {
        lemma_numbers_before_bound(tokens, upto - 1);
    }
}

/// What a call of the reader leaves behind: the tokens and the numbers as they
/// were, and a well-formed place.
pub open spec fn same_input(before: TokenReader, after: TokenReader) -> bool {
    &&& after.data == before.data
    &&& after.numbers == before.numbers
    &&& after.wf()
}

fn build_list(reader: &mut TokenReader) -> (r: Result<LispyType, LispyType>)
    requires
        old(reader).wf(),
    ensures
        same_input(*old(reader), *final(reader)),
        match read_list(
            token_models(old(reader).data@),
            old(reader).numbers@,
            old(reader).index as int,
            Seq::empty(),
        ) {
            Ok((form, next)) => r is Ok && r->Ok_0@ == form && final(reader).index == next
                && old(reader).index < next,
            Err(error) => r is Err && r->Err_0@ == error,
        },
    decreases old(reader).data.len() - old(reader).index, 1nat,
{
    let ghost tokens = token_models(reader.data@);
    let ghost numbers = reader.numbers@;
    let ghost start = reader.index as int;
    let mut items: Vec<LispyType> = Vec::new();
    assert(forms(items@) =~= Seq::<Form>::empty());
    loop
        invariant
            same_input(*old(reader), *reader),
            tokens == token_models(reader.data@),
            numbers == reader.numbers@,
            start == old(reader).index,
            start <= reader.index,
            read_list(tokens, numbers, reader.index as int, forms(items@)) == read_list(
                tokens,
                numbers,
                start,
                Seq::empty(),
            ),
        decreases reader.data.len() - reader.index,
    {
        if reader.is_empty() {
            return Err(read_failure("Unexpected end of input"));
        }
        if let LexerToken::ListEnd = &reader.data[reader.index] {
            reader.grab();
            return Ok(LispyType::create_list(items));
        }
        let ghost so_far = forms(items@);
        let ghost at = reader.index as int;
        match build_any_form(reader) {
            Err(error) => {
                return Err(error);
            },
            Ok(item) => {
                items.push(item);
                assert(forms(items@) =~= so_far.push(item@));
            },
        }
    }
}

fn build_hash(reader: &mut TokenReader) -> (r: Result<LispyType, LispyType>)
    requires
        old(reader).wf(),
    ensures
        same_input(*old(reader), *final(reader)),
        match read_hash(
            token_models(old(reader).data@),
            old(reader).numbers@,
            old(reader).index as int,
            Seq::empty(),
        ) {
            Ok((form, next)) => r is Ok && r->Ok_0@ == form && final(reader).index == next
                && old(reader).index < next,
            Err(error) => r is Err && r->Err_0@ == error,
        },
    decreases old(reader).data.len() - old(reader).index, 1nat,
{
    let ghost tokens = token_models(reader.data@);
    let ghost numbers = reader.numbers@;
    let ghost start = reader.index as int;
    let mut entries: Vec<(LispyType, LispyType)> = Vec::new();
    assert(pair_forms(entries@) =~= Seq::<(Form, Form)>::empty());
    loop
        invariant
            same_input(*old(reader), *reader),
            tokens == token_models(reader.data@),
            numbers == reader.numbers@,
            start == old(reader).index,
            start <= reader.index,
            read_hash(tokens, numbers, reader.index as int, pair_forms(entries@)) == read_hash(
                tokens,
                numbers,
                start,
                Seq::empty(),
            ),
        decreases reader.data.len() - reader.index,
    {
        if reader.is_empty() {
            return Err(read_failure("Unexpected end of input"));
        }
        if let LexerToken::HashEnd = &reader.data[reader.index] {
            reader.grab();
            return Ok(LispyType::create_hash(entries));
        }
        let key = match build_any_form(reader) {
            Err(error) => {
                return Err(error);
            },
            Ok(key) => key,
        };
        if !key.is_hashable() {
            return Err(read_failure("A hash key must be an atom"));
        }
        if reader.is_empty() {
            return Err(read_failure("Unexpected end of input"));
        }
        if let LexerToken::HashEnd = &reader.data[reader.index] {
            return Err(read_failure("A hash key has no value"));
        }
        let value = match build_any_form(reader) {
            Err(error) => {
                return Err(error);
            },
            Ok(value) => value,
        };
        insert_entry(&mut entries, key, value);
    }
}

/// Reads the form that begins at the reader's place, and moves the reader
/// behind it.
pub fn build_any_form(reader: &mut TokenReader) -> (r: Result<LispyType, LispyType>)
    requires
        old(reader).wf(),
    ensures
        same_input(*old(reader), *final(reader)),
        match read_form(
            token_models(old(reader).data@),
            old(reader).numbers@,
            old(reader).index as int,
        ) {
            Ok((form, next)) => r is Ok && r->Ok_0@ == form && final(reader).index == next
                && old(reader).index < next,
            Err(error) => r is Err && r->Err_0@ == error,
        },
    decreases old(reader).data.len() - old(reader).index, 0nat,
{
    let ghost tokens = token_models(reader.data@);
    if reader.is_empty() {
        return Err(read_failure("Unexpected end of input"));
    }
    let seen = reader.seen;
    assert(tokens[reader.index as int] == reader.data[reader.index as int]@);
    match reader.grab() {
        LexerToken::Nil => Ok(LispyType::create_nil()),
        LexerToken::Boolean(value) => Ok(LispyType::create_bool(value)),
        LexerToken::String(text) => Ok(LispyType::create_string(text.as_str())),
        LexerToken::Keyword(text) => Ok(LispyType::create_keyword(text.as_str())),
        LexerToken::Symbol(text) => Ok(LispyType::create_symbol(text.as_str())),
        LexerToken::ArgsSpread => Ok(LispyType::create_symbol("&")),
        LexerToken::Number(_) => {
            if seen < reader.numbers.len() {
                Ok(LispyType::create_number(reader.numbers[seen]))
            } else {
                Err(read_failure("A number has no value"))
            }
        },
        LexerToken::ListStart => build_list(reader),
        LexerToken::HashStart => build_hash(reader),
        _ => Err(read_failure("Unexpected token")),
    }
}

/// Reads all the forms from the reader's place on.
pub fn build_from_tokens(reader: &mut TokenReader) -> (r: Result<Vec<LispyType>, LispyType>)
    requires
        old(reader).wf(),
    ensures
        same_input(*old(reader), *final(reader)),
        match read_program(
            token_models(old(reader).data@),
            old(reader).numbers@,
            old(reader).index as int,
            Seq::empty(),
        ) {
            Ok(program) => r is Ok && forms(r->Ok_0@) == program,
            Err(error) => r is Err && r->Err_0@ == error,
        },
{
    let ghost tokens = token_models(reader.data@);
    let ghost numbers = reader.numbers@;
    let ghost start = reader.index as int;
    let mut ast: Vec<LispyType> = Vec::new();
    assert(forms(ast@) =~= Seq::<Form>::empty());
    while !reader.is_empty()
        invariant
            same_input(*old(reader), *reader),
            tokens == token_models(reader.data@),
            numbers == reader.numbers@,
            start == old(reader).index,
            read_program(tokens, numbers, reader.index as int, forms(ast@)) == read_program(
                tokens,
                numbers,
                start,
                Seq::empty(),
            ),
        decreases reader.data.len() - reader.index,
    {
        let ghost so_far = forms(ast@);
        match build_any_form(reader) {
            Err(error) => {
                return Err(error);
            },
            Ok(form) => {
                ast.push(form);
                assert(forms(ast@) =~= so_far.push(form@));
            },
        }
    }
    Ok(ast)
}

/// Counts the `Number` tokens.
pub fn number_count(tokens: &Vec<LexerToken>) -> (count: usize)
    ensures
        count == count_numbers(token_models(tokens@)),
{
    let mut count: usize = 0;
    let mut i: usize = 0;
    while i < tokens.len()
        invariant
            i <= tokens.len(),
            count == numbers_before(token_models(tokens@), i as int),
            count <= i,
        decreases tokens.len() - i,
    {
        if let LexerToken::Number(_) = &tokens[i] {
            count += 1;
        }
        i += 1;
    }
    count
}

/// The texts of the `Number` tokens before the place `upto`, in their order.
pub open spec fn number_texts(tokens: Seq<TokenModel>, upto: int) -> Seq<Seq<char>>
    decreases upto,
{
    if upto <= 0 || upto > tokens.len() {
        Seq::empty()
    } else {
        match tokens[upto - 1] {
            TokenModel::Number(text) => number_texts(tokens, upto - 1).push(text),
            _ => number_texts(tokens, upto - 1),
        }
    }
}

/// What each text spells.
pub open spec fn texts(literals: Seq<String>) -> Seq<Seq<char>> {
    Seq::new(literals.len(), |i: int| literals[i]@)
}

/// The texts of the `Number` tokens, in their order: what the host turns into
/// doubles before the tokens are read.
pub fn number_literals(tokens: &Vec<LexerToken>) -> (literals: Vec<String>)
    ensures
        texts(literals@) == number_texts(token_models(tokens@), tokens@.len() as int),
{
    let ghost model = token_models(tokens@);
    let mut literals: Vec<String> = Vec::new();
    let mut i: usize = 0;
    assert(texts(literals@) =~= number_texts(model, 0));
    while i < tokens.len()
        invariant
            i <= tokens.len(),
            model == token_models(tokens@),
            texts(literals@) == number_texts(model, i as int),
        decreases tokens.len() - i,
    {
        let ghost so_far = texts(literals@);
        if let LexerToken::Number(text) = &tokens[i] {
            literals.push(text.clone());
            assert(texts(literals@) =~= so_far.push(text@));
        }
        i += 1;
    }
    literals
}

/// Reads the forms of a source text. `numbers` holds the doubles that the
/// number literals of the text spell, in their order.
pub fn compile_source_code_to_ast(source_code: &str, numbers: Vec<u64>) -> (r: Result<
    Vec<LispyType>,
    LispyType,
>)
    ensures
        match read_model(tokens_of(source_code@), numbers@) {
            Ok(program) => r is Ok && forms(r->Ok_0@) == program,
            Err(error) => r is Err && r->Err_0@ == error,
        },
{
    let tokens = tokenize(source_code);
    let mut reader = TokenReader::new(tokens, numbers);
    build_from_tokens(&mut reader)
}

} // verus!
