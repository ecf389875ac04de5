//! What is displayed reads back: the display form of forms that were read,
//! lexed and read again, gives the same forms.

use vstd::prelude::*;
use crate::compiler::{numbers_before, read_form, read_hash, read_list, read_model, read_program};
use crate::equality::{first_under_key, hash_insert, key_position, same_key};
use crate::lexer::{
    comment_end, in_class, is_digit, is_keyword_char, is_space, is_symbol_char, is_symbol_start,
    is_word, keyword_end, number_end, read_at, run_end, string_close, symbol_end, token_at,
    tokens_from, tokens_of, word_token, CharClass, TokenModel,
};
use crate::printer::{display_entries, display_items, display_model, text, PieceModel};
use crate::types::{hashable, no_meta, Form};

verus! {

/// How the host spells a number.
pub type Spelling = spec_fn(u64) -> Seq<char>;

/// The text of one piece.
pub open spec fn piece_text(piece: PieceModel, spell: Spelling) -> Seq<char> {
    match piece {
        PieceModel::Text(part) => part,
        PieceModel::Number(bits) => spell(bits),
    }
}

/// The text that pieces make up, one after another.
pub open spec fn pieces_text(pieces: Seq<PieceModel>, spell: Spelling) -> Seq<char>
    decreases pieces.len(),
{
    if pieces.len() == 0 {
        Seq::empty()
    } else {
        pieces_text(pieces.drop_last(), spell) + piece_text(pieces.last(), spell)
    }
}

/// The text of pieces put together is the texts put together.
pub proof fn lemma_pieces_text_add(a: Seq<PieceModel>, b: Seq<PieceModel>, spell: Spelling)
    ensures
        pieces_text(a + b, spell) == pieces_text(a, spell) + pieces_text(b, spell),
    decreases b.len(),
{
    if b.len() == 0 {
        assert(a + b =~= a);
        assert(pieces_text(a, spell) + pieces_text(b, spell) =~= pieces_text(a, spell));
    } else {
        assert((a + b).drop_last() =~= a + b.drop_last());
        assert((a + b).last() == b.last());
        lemma_pieces_text_add(a, b.drop_last(), spell);
        assert(pieces_text(a + b, spell) =~= pieces_text(a, spell) + pieces_text(b, spell));
    }
}

/// The text of one piece of text is that text.
pub proof fn lemma_pieces_text_one(piece: PieceModel, spell: Spelling)
    ensures
        pieces_text(seq![piece], spell) == piece_text(piece, spell),
{
    let one = seq![piece];
    assert(one.drop_last() =~= Seq::<PieceModel>::empty());
    assert(pieces_text(one.drop_last(), spell) =~= Seq::<char>::empty());
    assert(pieces_text(one, spell) =~= piece_text(piece, spell));
}

/// The display form of a value as one text.
pub open spec fn display_text(form: Form, spell: Spelling) -> Seq<char>
    decreases form, 0nat,
{
    match form {
        Form::Nil { .. } => "nil"@,
        Form::Bool { value, .. } => if value {
            "true"@
        } else {
            "false"@
        },
        Form::Number { value, .. } => spell(value),
        Form::Symbol { value, .. } => value,
        Form::Keyword { value, .. } => value,
        Form::String { value, .. } => "\""@ + value + "\""@,
        Form::List { collection, .. } => "("@ + items_text(collection, collection.len(), spell)
            + ")"@,
        Form::Hash { collection, .. } => "{"@ + entries_text(
            collection,
            collection.len(),
            spell,
        ) + "}"@,
        Form::Error { message, .. } => message,
        Form::Function { .. } => "#<function>"@,
        Form::Lambda { .. } => "#<lambda-function>"@,
    }
}

/// The display forms of the first `upto` items as one text, a space between
/// neighbours.
pub open spec fn items_text(items: Seq<Form>, upto: nat, spell: Spelling) -> Seq<char>
    decreases items, upto,
{
    if upto == 0 || upto > items.len() {
        Seq::empty()
    } else if upto == 1 {
        display_text(items[0], spell)
    } else {
        items_text(items, (upto - 1) as nat, spell) + " "@ + display_text(items[upto - 1], spell)
    }
}

/// The display forms of the first `upto` entries as one text.
pub open spec fn entries_text(entries: Seq<(Form, Form)>, upto: nat, spell: Spelling) -> Seq<char>
    decreases entries, upto,
{
    if upto == 0 || upto > entries.len() {
        Seq::empty()
    } else if upto == 1 {
        display_text(entries[0].0, spell) + " "@ + display_text(entries[0].1, spell)
    } else {
        entries_text(entries, (upto - 1) as nat, spell) + " "@ + display_text(
            entries[upto - 1].0,
            spell,
        ) + " "@ + display_text(entries[upto - 1].1, spell)
    }
}

proof fn lemma_text_piece(literal: Seq<char>, spell: Spelling)
    ensures
        pieces_text(text(literal), spell) == literal,
{
    lemma_pieces_text_one(PieceModel::Text(literal), spell);
}

/// The pieces of a display form make up its text.
pub proof fn lemma_display_text(form: Form, spell: Spelling)
    ensures
        pieces_text(display_model(form), spell) == display_text(form, spell),
    decreases form, 0nat,
{
    match form {
        Form::Nil { .. } => lemma_text_piece("nil"@, spell),
        Form::Bool { value, .. } => {
            lemma_text_piece("true"@, spell);
            lemma_text_piece("false"@, spell);
        },
        Form::Number { value, .. } => lemma_pieces_text_one(PieceModel::Number(value), spell),
        Form::Symbol { value, .. } => lemma_text_piece(value, spell),
        Form::Keyword { value, .. } => lemma_text_piece(value, spell),
        Form::String { value, .. } => {
            lemma_text_piece("\""@, spell);
            lemma_text_piece(value, spell);
            lemma_pieces_text_add(text("\""@), text(value), spell);
            lemma_pieces_text_add(text("\""@) + text(value), text("\""@), spell);
        },
        Form::List { collection, .. } => {
            lemma_text_piece("("@, spell);
            lemma_text_piece(")"@, spell);
            lemma_items_text(collection, collection.len(), spell);
            let inner = display_items(collection, collection.len());
            lemma_pieces_text_add(text("("@), inner, spell);
            lemma_pieces_text_add(text("("@) + inner, text(")"@), spell);
        },
        Form::Hash { collection, .. } => {
            lemma_text_piece("{"@, spell);
            lemma_text_piece("}"@, spell);
            lemma_entries_text(collection, collection.len(), spell);
            let inner = display_entries(collection, collection.len());
            lemma_pieces_text_add(text("{"@), inner, spell);
            lemma_pieces_text_add(text("{"@) + inner, text("}"@), spell);
        },
        Form::Error { message, .. } => lemma_text_piece(message, spell),
        Form::Function { .. } => lemma_text_piece("#<function>"@, spell),
        Form::Lambda { .. } => lemma_text_piece("#<lambda-function>"@, spell),
    }
}

/// The pieces of the display forms of items make up their text.
pub proof fn lemma_items_text(items: Seq<Form>, upto: nat, spell: Spelling)
    ensures
        pieces_text(display_items(items, upto), spell) == items_text(items, upto, spell),
    decreases items, upto,
{
    if upto == 0 || upto > items.len() {
    } else if upto == 1 {
        lemma_display_text(items[0], spell);
    } else {
        let before = display_items(items, (upto - 1) as nat);
        let last = display_model(items[upto - 1]);
        lemma_items_text(items, (upto - 1) as nat, spell);
        lemma_display_text(items[upto - 1], spell);
        lemma_text_piece(" "@, spell);
        lemma_pieces_text_add(before, text(" "@), spell);
        lemma_pieces_text_add(before + text(" "@), last, spell);
    }
}

proof fn lemma_entries_text(entries: Seq<(Form, Form)>, upto: nat, spell: Spelling)
    ensures
        pieces_text(display_entries(entries, upto), spell) == entries_text(entries, upto, spell),
    decreases entries, upto,
{
    if upto == 0 || upto > entries.len() {
    } else if upto == 1 {
        let key = display_model(entries[0].0);
        let value = display_model(entries[0].1);
        lemma_display_text(entries[0].0, spell);
        lemma_display_text(entries[0].1, spell);
        lemma_text_piece(" "@, spell);
        lemma_pieces_text_add(key, text(" "@), spell);
        lemma_pieces_text_add(key + text(" "@), value, spell);
    } else {
        let before = display_entries(entries, (upto - 1) as nat);
        let key = display_model(entries[upto - 1].0);
        let value = display_model(entries[upto - 1].1);
        lemma_entries_text(entries, (upto - 1) as nat, spell);
        lemma_display_text(entries[upto - 1].0, spell);
        lemma_display_text(entries[upto - 1].1, spell);
        lemma_text_piece(" "@, spell);
        lemma_pieces_text_add(before, text(" "@), spell);
        lemma_pieces_text_add(before + text(" "@), key, spell);
        lemma_pieces_text_add(before + text(" "@) + key, text(" "@), spell);
        lemma_pieces_text_add(before + text(" "@) + key + text(" "@), value, spell);
    }
}


/// A text that is lexed as a symbol wherever a separator or a closing bracket
/// follows it: it begins and goes on as a symbol does, it is none of the
/// reserved words, and it is no `-` followed by digits alone, which is a
/// number.
pub open spec fn symbol_text(w: Seq<char>) -> bool {
    &&& w.len() > 0
    &&& is_symbol_start(w[0])
    &&& forall|i: int| 1 <= i < w.len() ==> is_symbol_char(#[trigger] w[i])
    &&& w != "nil"@
    &&& w != "true"@
    &&& w != "false"@
    &&& !(w[0] == '-' && w.len() > 1 && forall|i: int|
        1 <= i < w.len() ==> is_digit(#[trigger] w[i]))
}

/// A text that is lexed as a keyword wherever a separator or a closing bracket
/// follows it.
pub open spec fn keyword_text(w: Seq<char>) -> bool {
    &&& w.len() >= 2
    &&& w[0] == ':'
    &&& (w[1] == ':' || is_word(w[1]))
    &&& forall|i: int| 2 <= i < w.len() ==> is_keyword_char(#[trigger] w[i])
}

/// Each quote of the text stands behind a backslash.
pub open spec fn quotes_escaped(c: Seq<char>) -> bool {
    forall|q: int| 0 <= q < c.len() && #[trigger] c[q] == '"' ==> q >= 1 && c[q - 1] == '\\'
}

/// The text does not end in a backslash.
pub open spec fn ends_plainly(c: Seq<char>) -> bool {
    c.len() == 0 || c.last() != '\\'
}

/// A text that is lexed as one number.
pub open spec fn number_text(t: Seq<char>) -> bool {
    t.len() > 0 && number_end(t, 0) == t.len()
}

/// What may follow a display form in a text: nothing, a space, or a closing
/// bracket.
pub open spec fn boundary(full: Seq<char>, at: int) -> bool {
    at == full.len() || (0 <= at < full.len() && (full[at] == ' ' || full[at] == ')' || full[at]
        == '}'))
}

/// The text `part` stands in `full` at `at`.
pub open spec fn stands_at(full: Seq<char>, at: int, part: Seq<char>) -> bool {
    0 <= at && at + part.len() <= full.len() && full.subrange(at, at + part.len()) == part
}

proof fn lemma_stands_at_index(full: Seq<char>, at: int, part: Seq<char>, i: int)
    requires
        stands_at(full, at, part),
        0 <= i < part.len(),
    ensures
        full[at + i] == part[i],
{
    assert(full.subrange(at, at + part.len())[i] == full[at + i]);
}

/// A run that begins within the text ends within it, holds only characters of
/// its class, and ends where the text does or at a character of another class.
pub proof fn lemma_run_props(full: Seq<char>, from: int, class: CharClass)
    requires
        0 <= from <= full.len(),
    ensures
        from <= run_end(full, from, class) <= full.len(),
        forall|i: int| from <= i < run_end(full, from, class) ==> in_class(class, #[trigger] full[i]),
        run_end(full, from, class) == full.len() || !in_class(
            class,
            full[run_end(full, from, class)],
        ),
    decreases full.len() - from,
{
    if from < full.len() && in_class(class, full[from]) {
        lemma_run_props(full, from + 1, class);
    }
}

/// A run over characters of its class alone ends where they end.
pub proof fn lemma_run_covers(full: Seq<char>, from: int, to: int, class: CharClass)
    requires
        0 <= from <= to <= full.len(),
        forall|i: int| from <= i < to ==> in_class(class, #[trigger] full[i]),
        to == full.len() || !in_class(class, full[to]),
    ensures
        run_end(full, from, class) == to,
    decreases to - from,
{
    if from < to {
        lemma_run_covers(full, from + 1, to, class);
    }
}

/// A run ends at the latest where a character of another class stands.
pub proof fn lemma_run_stops(full: Seq<char>, from: int, stop: int, class: CharClass)
    requires
        0 <= from <= stop <= full.len(),
        stop == full.len() || !in_class(class, full[stop]),
    ensures
        from <= run_end(full, from, class) <= stop,
    decreases stop - from,
{
    if from < stop && in_class(class, full[from]) {
        lemma_run_stops(full, from + 1, stop, class);
    }
}

/// What follows a display form belongs to no class that a token runs over.
proof fn lemma_boundary_ends_runs(full: Seq<char>, at: int)
    requires
        boundary(full, at),
        0 <= at <= full.len(),
    ensures
        at == full.len() || (!in_class(CharClass::Digit, full[at]) && !in_class(
            CharClass::Symbol,
            full[at],
        ) && !in_class(CharClass::Keyword, full[at]) && full[at] != '.' && full[at] != '@'),
{
}

/// A symbol text is lexed as the token of its word.
pub proof fn lemma_lex_symbol(full: Seq<char>, at: int, w: Seq<char>)
    requires
        stands_at(full, at, w),
        symbol_text(w),
        boundary(full, at + w.len()),
    ensures
        !is_space(full[at]),
        read_at(full, at) == (Some(word_token(w)), at + w.len()),
{
    let end = at + w.len();
    lemma_stands_at_index(full, at, w, 0);
    lemma_boundary_ends_runs(full, end);
    assert forall|i: int| at + 1 <= i < end implies in_class(CharClass::Symbol, #[trigger] full[i]) by {
        lemma_stands_at_index(full, at, w, i - at);
        assert(is_symbol_char(w[i - at]));
    }
    lemma_run_covers(full, at + 1, end, CharClass::Symbol);
    assert(symbol_end(full, at) == end);
    assert(keyword_end(full, at) == at);
    assert(comment_end(full, at) == at);
    // the number that may begin here ends before the symbol does
    let first = if full[at] == '-' {
        at + 1
    } else {
        at
    };
    lemma_run_props(full, first, CharClass::Digit);
    let whole = run_end(full, first, CharClass::Digit);
    if full[at] == '-' {
        if whole >= end && w.len() > 1 {
            assert forall|i: int| 1 <= i < w.len() implies is_digit(#[trigger] w[i]) by {
                lemma_stands_at_index(full, at, w, i);
                assert(in_class(CharClass::Digit, full[at + i]));
            }
            assert(false);
        }
        if whole < end && whole > first {
            lemma_stands_at_index(full, at, w, whole - at);
            assert(is_symbol_char(w[whole - at]));
        }
        if whole == first && first < end {
            lemma_stands_at_index(full, at, w, 1);
            assert(is_symbol_char(w[1]));
        }
        assert(number_end(full, at) < end);
    } else {
        assert(whole == first);
        assert(number_end(full, at) == at);
    }
}


/// A keyword text is lexed as a keyword.
pub proof fn lemma_lex_keyword(full: Seq<char>, at: int, w: Seq<char>)
    requires
        stands_at(full, at, w),
        keyword_text(w),
        boundary(full, at + w.len()),
    ensures
        !is_space(full[at]),
        read_at(full, at) == (Some(TokenModel::Keyword(w)), at + w.len()),
{
    let end = at + w.len();
    lemma_stands_at_index(full, at, w, 0);
    lemma_stands_at_index(full, at, w, 1);
    lemma_boundary_ends_runs(full, end);
    assert forall|i: int| at + 2 <= i < end implies in_class(CharClass::Keyword, #[trigger] full[i]) by {
        lemma_stands_at_index(full, at, w, i - at);
        assert(is_keyword_char(w[i - at]));
    }
    lemma_run_covers(full, at + 2, end, CharClass::Keyword);
    assert(keyword_end(full, at) == end);
    assert(comment_end(full, at) == at);
}

/// A run in a part of a text that ends within the part ends at the same place
/// in the text; one that goes to the end of the part goes at least as far in
/// the text.
proof fn lemma_run_in_part(full: Seq<char>, at: int, part: Seq<char>, from: int, class: CharClass)
    requires
        stands_at(full, at, part),
        0 <= from <= part.len(),
    ensures
        run_end(part, from, class) < part.len() ==> run_end(full, at + from, class) == at + run_end(
            part,
            from,
            class,
        ),
        run_end(part, from, class) >= part.len() ==> run_end(full, at + from, class) >= at
            + part.len(),
        from <= run_end(part, from, class) <= part.len(),
    decreases part.len() - from,
{
    lemma_run_props(part, from, class);
    lemma_run_props(full, at + from, class);
    if from < part.len() {
        lemma_stands_at_index(full, at, part, from);
        if in_class(class, part[from]) {
            lemma_run_in_part(full, at, part, from + 1, class);
        }
    }
}

/// A number text is lexed as a number.
pub proof fn lemma_lex_number(full: Seq<char>, at: int, t: Seq<char>)
    requires
        stands_at(full, at, t),
        number_text(t),
        boundary(full, at + t.len()),
    ensures
        !is_space(full[at]),
        read_at(full, at) == (Some(TokenModel::Number(t)), at + t.len()),
{
    let end = at + t.len();
    lemma_stands_at_index(full, at, t, 0);
    lemma_boundary_ends_runs(full, end);
    let first = if t[0] == '-' {
        1int
    } else {
        0int
    };
    lemma_run_props(t, first, CharClass::Digit);
    let whole = run_end(t, first, CharClass::Digit);
    lemma_run_in_part(full, at, t, first, CharClass::Digit);
    lemma_run_stops(full, at + first, end, CharClass::Digit);
    if whole > first {
        if whole < t.len() {
            lemma_stands_at_index(full, at, t, whole);
            assert(t[whole] == '.');
            lemma_run_props(t, whole + 1, CharClass::Digit);
            lemma_run_in_part(full, at, t, whole + 1, CharClass::Digit);
            lemma_run_stops(full, at + whole + 1, end, CharClass::Digit);
        }
    } else {
        lemma_stands_at_index(full, at, t, first);
        lemma_run_props(t, first + 1, CharClass::Digit);
        lemma_run_in_part(full, at, t, first + 1, CharClass::Digit);
        lemma_run_stops(full, at + first + 1, end, CharClass::Digit);
    }
    assert(number_end(full, at) == end);
    assert(keyword_end(full, at) == at);
    assert(comment_end(full, at) == at);
    if is_symbol_start(full[at]) {
        lemma_run_stops(full, at + 1, end, CharClass::Symbol);
    }
    assert(symbol_end(full, at) <= end);
}

/// A string that is looked for from `from` on closes at the first quote that
/// does not stand behind a backslash of the string.
proof fn lemma_string_closes(full: Seq<char>, open: int, from: int, close: int)
    requires
        0 <= open < from <= close < full.len(),
        full[close] == '"',
        close - 1 == open || full[close - 1] != '\\',
        forall|q: int| from <= q < close && #[trigger] full[q] == '"' ==> q - 1 > open && full[q - 1]
            == '\\',
    ensures
        string_close(full, open, from) == Some(close + 1),
    decreases close - from,
{
    if from < close {
        lemma_string_closes(full, open, from + 1, close);
    }
}

/// Where no quote stands, no string closes.
proof fn lemma_no_quote_no_close(full: Seq<char>, open: int, from: int)
    requires
        0 <= from,
        quote_free_from(full, from),
    ensures
        string_close(full, open, from) is None,
    decreases full.len() - from,
{
    if from < full.len() {
        assert(full[from] != '"');
        lemma_no_quote_no_close(full, open, from + 1);
    }
}

/// A string whose quotes all stand behind backslashes of the string, up to
/// the last quote of the text, closes with that quote.
proof fn lemma_string_falls_back(full: Seq<char>, open: int, from: int, close: int)
    requires
        0 <= open < from <= close < full.len(),
        full[close] == '"',
        quote_free_from(full, close + 1),
        forall|q: int| from <= q <= close && #[trigger] full[q] == '"' ==> q - 1 > open && full[q - 1]
            == '\\',
    ensures
        string_close(full, open, from) == Some(close + 1),
    decreases close - from,
{
    if from < close {
        lemma_string_falls_back(full, open, from + 1, close);
    } else {
        lemma_no_quote_no_close(full, open, close + 1);
    }
}

/// A text between quotes is lexed as a string: where its quotes stand behind
/// backslashes, and it does not end in a backslash or no quote follows it.
pub proof fn lemma_lex_string(full: Seq<char>, at: int, c: Seq<char>)
    requires
        stands_at(full, at, "\""@ + c + "\""@),
        quotes_escaped(c),
        ends_plainly(c) || quote_free_from(full, at + c.len() + 2),
    ensures
        !is_space(full[at]),
        read_at(full, at) == (Some(TokenModel::String(c)), at + c.len() + 2),
{
    reveal_strlit("\"");
    let whole = "\""@ + c + "\""@;
    assert(whole.len() == c.len() + 2);
    let close = at + c.len() + 1;
    lemma_stands_at_index(full, at, whole, 0);
    lemma_stands_at_index(full, at, whole, c.len() as int + 1);
    assert(whole[0] == '"');
    assert(whole[c.len() as int + 1] == '"');
    assert forall|q: int| at + 1 <= q < close && #[trigger] full[q] == '"' implies q - 1 > at
        && full[q - 1] == '\\' by {
        lemma_stands_at_index(full, at, whole, q - at);
        assert(whole[q - at] == c[q - at - 1]);
        assert(c[q - at - 1] == '"');
        lemma_stands_at_index(full, at, whole, q - at - 1);
        assert(whole[q - at - 1] == c[q - at - 2]);
    }
    if c.len() > 0 {
        lemma_stands_at_index(full, at, whole, c.len() as int);
        assert(whole[c.len() as int] == c.last());
    }
    if ends_plainly(c) {
        lemma_string_closes(full, at, at + 1, close);
    } else {
        lemma_string_falls_back(full, at, at + 1, close);
    }
    assert(full.subrange(at + 1, close) =~= c) by {
        assert forall|i: int| 0 <= i < c.len() implies full.subrange(at + 1, close)[i] == c[i] by {
            lemma_stands_at_index(full, at, whole, i + 1);
        }
    }
    assert(comment_end(full, at) == at);
}

/// One of the reserved words is lexed as its token.
pub proof fn lemma_lex_reserved(full: Seq<char>, at: int, word: Seq<char>)
    requires
        stands_at(full, at, word),
        word == "nil"@ || word == "true"@ || word == "false"@,
        boundary(full, at + word.len()),
    ensures
        !is_space(full[at]),
        read_at(full, at) == (Some(word_token(word)), at + word.len()),
{
    reveal_strlit("nil");
    reveal_strlit("true");
    reveal_strlit("false");
    let end = at + word.len();
    lemma_stands_at_index(full, at, word, 0);
    lemma_boundary_ends_runs(full, end);
    assert forall|i: int| at + 1 <= i < end implies in_class(CharClass::Symbol, #[trigger] full[i]) by {
        lemma_stands_at_index(full, at, word, i - at);
    }
    lemma_run_covers(full, at + 1, end, CharClass::Symbol);
    assert(symbol_end(full, at) == end);
    assert(keyword_end(full, at) == at);
    assert(comment_end(full, at) == at);
    assert(run_end(full, at, CharClass::Digit) == at);
    assert(number_end(full, at) == at);
}


/// No quote stands in the text.
pub open spec fn quote_free(t: Seq<char>) -> bool {
    forall|i: int| 0 <= i < t.len() ==> #[trigger] t[i] != '"'
}

/// No quote stands in the text from `at` on.
pub open spec fn quote_free_from(full: Seq<char>, at: int) -> bool {
    forall|q: int| at <= q < full.len() ==> #[trigger] full[q] != '"'
}

/// No two entries are under the same key.
pub open spec fn distinct_entries(entries: Seq<(Form, Form)>) -> bool {
    forall|i: int, j: int|
        0 <= i < j < entries.len() ==> !same_key((#[trigger] entries[i]).0, (#[trigger] entries[j]).0)
}

/// A form as the reader makes it from a text: atoms, lists and hashes without
/// metadata, whose symbols, keywords and strings hold texts that are lexed as
/// what they are, and whose hashes have hashable keys that differ.
pub open spec fn read_shape(form: Form) -> bool
    decreases form, 0nat,
{
    match form {
        Form::Nil { meta } => meta == no_meta(),
        Form::Bool { meta, .. } => meta == no_meta(),
        Form::Number { meta, .. } => meta == no_meta(),
        Form::Symbol { value, meta } => meta == no_meta() && symbol_text(value),
        Form::Keyword { value, meta } => meta == no_meta() && keyword_text(value),
        Form::String { value, meta } => meta == no_meta() && quotes_escaped(value),
        Form::List { collection, meta } => meta == no_meta() && forall|i: int|
            0 <= i < collection.len() ==> read_shape(#[trigger] collection[i]),
        Form::Hash { collection, meta } => {
            &&& meta == no_meta()
            &&& distinct_entries(collection)
            &&& forall|i: int| 0 <= i < collection.len() ==> entry_read_shape(#[trigger] collection[i])
        },
        _ => false,
    }
}

/// Key and value are in shape, and the key is hashable.
pub open spec fn entry_read_shape(entry: (Form, Form)) -> bool
    decreases entry, 0nat,
{
    read_shape(entry.0) && read_shape(entry.1) && hashable(entry.0)
}

/// The host spells every number of the form as a number.
pub open spec fn spelled(form: Form, spell: Spelling) -> bool
    decreases form, 0nat,
{
    match form {
        Form::Number { value, .. } => number_text(spell(value)),
        Form::List { collection, .. } => forall|i: int|
            0 <= i < collection.len() ==> spelled(#[trigger] collection[i], spell),
        Form::Hash { collection, .. } => forall|i: int|
            0 <= i < collection.len() ==> entry_spelled(#[trigger] collection[i], spell),
        _ => true,
    }
}

/// The numbers of key and value are spelled as numbers.
pub open spec fn entry_spelled(entry: (Form, Form), spell: Spelling) -> bool
    decreases entry, 0nat,
{
    spelled(entry.0, spell) && spelled(entry.1, spell)
}

/// A form in the shape the reader gives, with every number spelled as a
/// number.
pub open spec fn shaped(form: Form, spell: Spelling) -> bool
    decreases form, 0nat,
{
    match form {
        Form::Nil { meta } => meta == no_meta(),
        Form::Bool { meta, .. } => meta == no_meta(),
        Form::Number { value, meta } => meta == no_meta() && number_text(spell(value)),
        Form::Symbol { value, meta } => meta == no_meta() && symbol_text(value),
        Form::Keyword { value, meta } => meta == no_meta() && keyword_text(value),
        Form::String { value, meta } => meta == no_meta() && quotes_escaped(value),
        Form::List { collection, meta } => meta == no_meta() && forall|i: int|
            0 <= i < collection.len() ==> shaped(#[trigger] collection[i], spell),
        Form::Hash { collection, meta } => {
            &&& meta == no_meta()
            &&& distinct_entries(collection)
            &&& forall|i: int|
                0 <= i < collection.len() ==> entry_shaped(#[trigger] collection[i], spell)
        },
        _ => false,
    }
}

/// Key and value are shaped, and the key is hashable.
pub open spec fn entry_shaped(entry: (Form, Form), spell: Spelling) -> bool
    decreases entry, 0nat,
{
    shaped(entry.0, spell) && shaped(entry.1, spell) && hashable(entry.0)
}

/// A form in the shape the reader gives, whose numbers are spelled as
/// numbers, is shaped.
pub proof fn lemma_shape_and_spelling(form: Form, spell: Spelling)
    requires
        read_shape(form),
        spelled(form, spell),
    ensures
        shaped(form, spell),
    decreases form, 0nat,
{
    match form {
        Form::List { collection, .. } => {
            assert forall|i: int| 0 <= i < collection.len() implies shaped(
                #[trigger] collection[i],
                spell,
            ) by {
                lemma_shape_and_spelling(collection[i], spell);
            }
        },
        Form::Hash { collection, .. } => {
            assert forall|i: int| 0 <= i < collection.len() implies entry_shaped(
                #[trigger] collection[i],
                spell,
            ) by {
                assert(entry_read_shape(collection[i]));
                assert(entry_spelled(collection[i], spell));
                lemma_shape_and_spelling(collection[i].0, spell);
                lemma_shape_and_spelling(collection[i].1, spell);
            }
        },
        _ => {},
    }
}

/// No string of the form ends in a backslash.
pub open spec fn plain_strings(form: Form) -> bool
    decreases form, 0nat,
{
    match form {
        Form::String { value, .. } => ends_plainly(value),
        Form::List { collection, .. } => forall|i: int|
            0 <= i < collection.len() ==> plain_strings(#[trigger] collection[i]),
        Form::Hash { collection, .. } => forall|i: int|
            0 <= i < collection.len() ==> entry_plain(#[trigger] collection[i]),
        _ => true,
    }
}

/// No string of key or value ends in a backslash.
pub open spec fn entry_plain(entry: (Form, Form)) -> bool
    decreases entry, 0nat,
{
    plain_strings(entry.0) && plain_strings(entry.1)
}

/// The form holds no string.
pub open spec fn string_free(form: Form) -> bool
    decreases form, 0nat,
{
    match form {
        Form::String { .. } => false,
        Form::List { collection, .. } => forall|i: int|
            0 <= i < collection.len() ==> string_free(#[trigger] collection[i]),
        Form::Hash { collection, .. } => forall|i: int|
            0 <= i < collection.len() ==> entry_string_free(#[trigger] collection[i]),
        _ => true,
    }
}

/// Neither key nor value holds a string.
pub open spec fn entry_string_free(entry: (Form, Form)) -> bool
    decreases entry, 0nat,
{
    string_free(entry.0) && string_free(entry.1)
}

/// No item behind item `i`, before `upto`, holds a string.
pub open spec fn later_items_free(items: Seq<Form>, i: int, upto: nat) -> bool {
    forall|j: int| i < j < upto && j < items.len() ==> string_free(#[trigger] items[j])
}

/// No entry behind entry `i`, before `upto`, holds a string.
pub open spec fn later_free(entries: Seq<(Form, Form)>, i: int, upto: nat) -> bool {
    forall|j: int| i < j < upto && j < entries.len() ==> entry_string_free(#[trigger] entries[j])
}

/// Of the strings of the form, in the order in which they are displayed, only
/// the last may end in a backslash.
pub open spec fn last_may_slip(form: Form) -> bool
    decreases form, 1nat,
{
    match form {
        Form::List { collection, .. } => forall|i: int|
            0 <= i < collection.len() ==> plain_strings(#[trigger] collection[i]) || (
            last_may_slip(collection[i]) && later_items_free(collection, i, collection.len())),
        Form::Hash { collection, .. } => forall|i: int|
            0 <= i < collection.len() ==> entry_may_slip(
                #[trigger] collection[i],
                later_free(collection, i, collection.len()),
            ),
        _ => true,
    }
}

/// The same of the key and the value of an entry, where `free` says that no
/// entry behind it holds a string: a string of the key that ends in a
/// backslash is the last string of the hash, and so is one of the value.
pub open spec fn entry_may_slip(entry: (Form, Form), free: bool) -> bool
    decreases entry, 0nat,
{
    &&& plain_strings(entry.0) || (last_may_slip(entry.0) && string_free(entry.1) && free)
    &&& plain_strings(entry.1) || (last_may_slip(entry.1) && free)
}

/// Item `i` holds no string that ends in a backslash, or only its last string
/// does and no item behind it, before `upto`, holds a string.
pub open spec fn item_slips(items: Seq<Form>, i: int, upto: nat) -> bool {
    0 <= i < items.len() && (plain_strings(items[i]) || (last_may_slip(items[i])
        && later_items_free(items, i, upto)))
}

/// The same of entry `i`.
pub open spec fn entry_slips(entries: Seq<(Form, Form)>, i: int, upto: nat) -> bool {
    0 <= i < entries.len() && entry_may_slip(entries[i], later_free(entries, i, upto))
}

/// The strings of the form close where they should in a text in which the
/// display form of the form ends at `end`: none of them ends in a backslash,
/// or only the last does and no quote stands in the text from `end` on.
pub open spec fn form_fits(form: Form, full: Seq<char>, end: int) -> bool {
    plain_strings(form) || (last_may_slip(form) && quote_free_from(full, end))
}

/// The tokens that the display form of a form is lexed into.
pub open spec fn unparse(form: Form, spell: Spelling) -> Seq<TokenModel>
    decreases form, 0nat,
{
    match form {
        Form::Nil { .. } => seq![TokenModel::Nil],
        Form::Bool { value, .. } => seq![TokenModel::Boolean(value)],
        Form::Number { value, .. } => seq![TokenModel::Number(spell(value))],
        Form::Symbol { value, .. } => seq![word_token(value)],
        Form::Keyword { value, .. } => seq![TokenModel::Keyword(value)],
        Form::String { value, .. } => seq![TokenModel::String(value)],
        Form::List { collection, .. } => seq![TokenModel::ListStart] + unparse_items(
            collection,
            collection.len(),
            spell,
        ) + seq![TokenModel::ListEnd],
        Form::Hash { collection, .. } => seq![TokenModel::HashStart] + unparse_entries(
            collection,
            collection.len(),
            spell,
        ) + seq![TokenModel::HashEnd],
        _ => Seq::empty(),
    }
}

/// The tokens of the first `upto` items.
pub open spec fn unparse_items(items: Seq<Form>, upto: nat, spell: Spelling) -> Seq<TokenModel>
    decreases items, upto,
{
    if upto == 0 || upto > items.len() {
        Seq::empty()
    } else {
        unparse_items(items, (upto - 1) as nat, spell) + unparse(items[upto - 1], spell)
    }
}

/// The tokens of the first `upto` entries.
pub open spec fn unparse_entries(entries: Seq<(Form, Form)>, upto: nat, spell: Spelling) -> Seq<
    TokenModel,
>
    decreases entries, upto,
{
    if upto == 0 || upto > entries.len() {
        Seq::empty()
    } else {
        unparse_entries(entries, (upto - 1) as nat, spell) + unparse(entries[upto - 1].0, spell)
            + unparse(entries[upto - 1].1, spell)
    }
}

proof fn lemma_stands_split(full: Seq<char>, at: int, a: Seq<char>, b: Seq<char>)
    requires
        stands_at(full, at, a + b),
    ensures
        stands_at(full, at, a),
        stands_at(full, at + a.len(), b),
{
    assert(full.subrange(at, at + a.len()) =~= a) by {
        assert forall|i: int| 0 <= i < a.len() implies full.subrange(at, at + a.len())[i]
            == a[i] by {
            lemma_stands_at_index(full, at, a + b, i);
        }
    }
    assert(full.subrange(at + a.len(), at + a.len() + b.len()) =~= b) by {
        assert forall|i: int| 0 <= i < b.len() implies full.subrange(
            at + a.len(),
            at + a.len() + b.len(),
        )[i] == b[i] by {
            lemma_stands_at_index(full, at, a + b, a.len() + i);
        }
    }
}

proof fn lemma_tokens_step(full: Seq<char>, at: int, token: TokenModel, end: int)
    requires
        0 <= at < end <= full.len(),
        !is_space(full[at]),
        read_at(full, at) == (Some(token), end),
    ensures
        tokens_from(full, at) == seq![token] + tokens_from(full, end),
{
}

/// A one-character token: a bracket.
proof fn lemma_lex_bracket(full: Seq<char>, at: int, bracket: Seq<char>, token: TokenModel)
    requires
        stands_at(full, at, bracket),
        (bracket == "("@ && token == TokenModel::ListStart) || (bracket == ")"@ && token
            == TokenModel::ListEnd) || (bracket == "{"@ && token == TokenModel::HashStart) || (
        bracket == "}"@ && token == TokenModel::HashEnd),
    ensures
        tokens_from(full, at) == seq![token] + tokens_from(full, at + 1),
        bracket.len() == 1,
{
    reveal_strlit("(");
    reveal_strlit(")");
    reveal_strlit("{");
    reveal_strlit("}");
    lemma_stands_at_index(full, at, bracket, 0);
    assert(comment_end(full, at) == at);
    lemma_tokens_step(full, at, token, at + 1);
}

proof fn lemma_skip_space(full: Seq<char>, at: int)
    requires
        stands_at(full, at, " "@),
    ensures
        tokens_from(full, at) == tokens_from(full, at + 1),
        " "@.len() == 1,
        boundary(full, at),
{
    reveal_strlit(" ");
    lemma_stands_at_index(full, at, " "@, 0);
}

/// A number text holds digits, a sign and a point, and nothing else.
proof fn lemma_number_text_chars(t: Seq<char>)
    requires
        number_text(t),
    ensures
        quote_free(t),
{
    let first = if t[0] == '-' {
        1int
    } else {
        0int
    };
    lemma_run_props(t, first, CharClass::Digit);
    let whole = run_end(t, first, CharClass::Digit);
    if whole < t.len() {
        lemma_run_props(t, whole + 1, CharClass::Digit);
    }
    if first < t.len() {
        lemma_run_props(t, first + 1, CharClass::Digit);
    }
    assert forall|i: int| 0 <= i < t.len() implies #[trigger] t[i] != '"' by {
        if i >= first && i != whole && !(whole == first && i == first) {
            assert(in_class(CharClass::Digit, t[i]));
        }
    }
}

/// Texts without a quote make up a text without a quote.
proof fn lemma_quote_free_add(a: Seq<char>, b: Seq<char>)
    requires
        quote_free(a),
        quote_free(b),
    ensures
        quote_free(a + b),
{
    assert forall|i: int| 0 <= i < (a + b).len() implies #[trigger] (a + b)[i] != '"' by {
        if i < a.len() {
            assert((a + b)[i] == a[i]);
        } else {
            assert((a + b)[i] == b[i - a.len()]);
        }
    }
}

proof fn lemma_quote_free_literals()
    ensures
        quote_free("nil"@),
        quote_free("true"@),
        quote_free("false"@),
        quote_free("("@),
        quote_free(")"@),
        quote_free("{"@),
        quote_free("}"@),
        quote_free(" "@),
        quote_free(Seq::<char>::empty()),
{
    reveal_strlit("nil");
    reveal_strlit("true");
    reveal_strlit("false");
    reveal_strlit("(");
    reveal_strlit(")");
    reveal_strlit("{");
    reveal_strlit("}");
    reveal_strlit(" ");
}

/// The display form of a form without strings holds no quote.
proof fn lemma_display_quote_free(form: Form, spell: Spelling)
    requires
        shaped(form, spell),
        string_free(form),
    ensures
        quote_free(display_text(form, spell)),
    decreases form, 0nat,
{
    lemma_quote_free_literals();
    match form {
        Form::Number { value, .. } => lemma_number_text_chars(spell(value)),
        Form::Symbol { value, .. } => {
            assert forall|i: int| 0 <= i < value.len() implies #[trigger] value[i] != '"' by {
                if i > 0 {
                    assert(is_symbol_char(value[i]));
                }
            }
        },
        Form::Keyword { value, .. } => {
            assert forall|i: int| 0 <= i < value.len() implies #[trigger] value[i] != '"' by {
                if i > 1 {
                    assert(is_keyword_char(value[i]));
                }
            }
        },
        Form::List { collection, .. } => {
            lemma_items_quote_free(collection, collection.len(), spell);
            lemma_quote_free_add("("@, items_text(collection, collection.len(), spell));
            lemma_quote_free_add("("@ + items_text(collection, collection.len(), spell), ")"@);
        },
        Form::Hash { collection, .. } => {
            lemma_entries_quote_free(collection, collection.len(), spell);
            lemma_quote_free_add("{"@, entries_text(collection, collection.len(), spell));
            lemma_quote_free_add("{"@ + entries_text(collection, collection.len(), spell), "}"@);
        },
        _ => {},
    }
}

proof fn lemma_items_quote_free(items: Seq<Form>, upto: nat, spell: Spelling)
    requires
        upto <= items.len(),
        forall|i: int| 0 <= i < upto ==> shaped(#[trigger] items[i], spell),
        forall|i: int| 0 <= i < upto ==> string_free(#[trigger] items[i]),
    ensures
        quote_free(items_text(items, upto, spell)),
    decreases items, upto,
{
    lemma_quote_free_literals();
    if upto == 0 {
    } else if upto == 1 {
        lemma_display_quote_free(items[0], spell);
    } else {
        lemma_items_quote_free(items, (upto - 1) as nat, spell);
        lemma_display_quote_free(items[upto - 1], spell);
        let before = items_text(items, (upto - 1) as nat, spell);
        lemma_quote_free_add(before, " "@);
        lemma_quote_free_add(before + " "@, display_text(items[upto - 1], spell));
    }
}

proof fn lemma_entries_quote_free(entries: Seq<(Form, Form)>, upto: nat, spell: Spelling)
    requires
        upto <= entries.len(),
        forall|i: int| 0 <= i < upto ==> entry_shaped(#[trigger] entries[i], spell),
        forall|i: int| 0 <= i < upto ==> entry_string_free(#[trigger] entries[i]),
    ensures
        quote_free(entries_text(entries, upto, spell)),
    decreases entries, upto,
{
    lemma_quote_free_literals();
    if upto == 0 {
    } else {
        assert(entry_shaped(entries[upto - 1], spell));
        assert(entry_string_free(entries[upto - 1]));
        let key = display_text(entries[upto - 1].0, spell);
        let value = display_text(entries[upto - 1].1, spell);
        lemma_display_quote_free(entries[upto - 1].0, spell);
        lemma_display_quote_free(entries[upto - 1].1, spell);
        if upto == 1 {
            lemma_quote_free_add(key, " "@);
            lemma_quote_free_add(key + " "@, value);
        } else {
            lemma_entries_quote_free(entries, (upto - 1) as nat, spell);
            let before = entries_text(entries, (upto - 1) as nat, spell);
            lemma_quote_free_add(before, " "@);
            lemma_quote_free_add(before + " "@, key);
            lemma_quote_free_add(before + " "@ + key, " "@);
            lemma_quote_free_add(before + " "@ + key + " "@, value);
        }
    }
}

/// Where no quote stands from the end of a part on and none in the part, none
/// stands from the beginning of the part on.
proof fn lemma_quote_free_before(full: Seq<char>, at: int, part: Seq<char>)
    requires
        stands_at(full, at, part),
        quote_free(part),
        quote_free_from(full, at + part.len()),
    ensures
        quote_free_from(full, at),
{
    assert forall|q: int| at <= q < full.len() implies #[trigger] full[q] != '"' by {
        if q < at + part.len() {
            lemma_stands_at_index(full, at, part, q - at);
        }
    }
}

/// A form without strings, or whose strings all end plainly, fits anywhere.
proof fn lemma_string_free_is_plain(form: Form)
    requires
        string_free(form),
    ensures
        plain_strings(form),
    decreases form, 0nat,
{
    match form {
        Form::List { collection, .. } => {
            assert forall|i: int| 0 <= i < collection.len() implies plain_strings(
                #[trigger] collection[i],
            ) by {
                lemma_string_free_is_plain(collection[i]);
            }
        },
        Form::Hash { collection, .. } => {
            assert forall|i: int| 0 <= i < collection.len() implies entry_plain(
                #[trigger] collection[i],
            ) by {
                assert(entry_string_free(collection[i]));
                lemma_string_free_is_plain(collection[i].0);
                lemma_string_free_is_plain(collection[i].1);
            }
        },
        _ => {},
    }
}

/// The display form of a shaped form, wherever it stands in a text before a
/// separator or a closing bracket, is lexed into the tokens of the form, if
/// its strings fit there.
pub proof fn lemma_lex_form(full: Seq<char>, at: int, form: Form, spell: Spelling)
    requires
        shaped(form, spell),
        stands_at(full, at, display_text(form, spell)),
        boundary(full, at + display_text(form, spell).len()),
        form_fits(form, full, at + display_text(form, spell).len()),
    ensures
        tokens_from(full, at) == unparse(form, spell) + tokens_from(
            full,
            at + display_text(form, spell).len(),
        ),
    decreases form, 2nat,
{
    let shown = display_text(form, spell);
    let end = at + shown.len();
    lemma_quote_free_literals();
    match form {
        Form::Nil { .. } => {
            reveal_strlit("nil");
            lemma_lex_reserved(full, at, "nil"@);
            lemma_tokens_step(full, at, TokenModel::Nil, end);
        },
        Form::Bool { value, .. } => {
            reveal_strlit("nil");
            reveal_strlit("true");
            reveal_strlit("false");
            lemma_lex_reserved(full, at, shown);
            lemma_tokens_step(full, at, TokenModel::Boolean(value), end);
        },
        Form::Number { value, .. } => {
            lemma_lex_number(full, at, spell(value));
            lemma_tokens_step(full, at, TokenModel::Number(spell(value)), end);
        },
        Form::Symbol { value, .. } => {
            lemma_lex_symbol(full, at, value);
            lemma_tokens_step(full, at, word_token(value), end);
        },
        Form::Keyword { value, .. } => {
            lemma_lex_keyword(full, at, value);
            lemma_tokens_step(full, at, TokenModel::Keyword(value), end);
        },
        Form::String { value, .. } => {
            reveal_strlit("\"");
            lemma_lex_string(full, at, value);
            lemma_tokens_step(full, at, TokenModel::String(value), end);
        },
        Form::List { collection, .. } => {
            lemma_lex_list(full, at, form, spell);
        },
        Form::Hash { collection, .. } => {
            lemma_lex_hash(full, at, form, spell);
        },
        _ => {},
    }
}

proof fn lemma_lex_list(full: Seq<char>, at: int, form: Form, spell: Spelling)
    requires
        form is List,
        shaped(form, spell),
        stands_at(full, at, display_text(form, spell)),
        boundary(full, at + display_text(form, spell).len()),
        form_fits(form, full, at + display_text(form, spell).len()),
    ensures
        tokens_from(full, at) == unparse(form, spell) + tokens_from(
            full,
            at + display_text(form, spell).len(),
        ),
    decreases form, 1nat,
{
    let collection = form->List_collection;
    let end = at + display_text(form, spell).len();
    let inner = items_text(collection, collection.len(), spell);
    lemma_quote_free_literals();
    lemma_stands_split(full, at, "("@ + inner, ")"@);
    lemma_stands_split(full, at, "("@, inner);
    lemma_lex_bracket(full, at, "("@, TokenModel::ListStart);
    lemma_lex_bracket(full, at + 1 + inner.len(), ")"@, TokenModel::ListEnd);
    reveal_strlit(")");
    lemma_stands_at_index(full, at + 1 + inner.len(), ")"@, 0);
    assert(boundary(full, at + 1 + inner.len()));
    if plain_strings(form) {
        assert forall|i: int| 0 <= i < collection.len() implies #[trigger] item_slips(
            collection,
            i,
            collection.len(),
        ) by {
            assert(plain_strings(collection[i]));
        }
        assert(items_plain(collection, collection.len()));
    } else {
        assert(last_may_slip(form));
        assert forall|i: int| 0 <= i < collection.len() implies #[trigger] item_slips(
            collection,
            i,
            collection.len(),
        ) by {
            assert(plain_strings(collection[i]) || (last_may_slip(collection[i])
                && later_items_free(collection, i, collection.len())));
        }
        lemma_quote_free_before(full, at + 1 + inner.len(), ")"@);
    }
    assert forall|i: int| 0 <= i < collection.len() implies shaped(
        #[trigger] collection[i],
        spell,
    ) by {}
    lemma_lex_items(full, at + 1, collection, collection.len(), spell);
    let tokens = unparse_items(collection, collection.len(), spell);
    assert(tokens_from(full, at) == seq![TokenModel::ListStart] + tokens_from(full, at + 1));
    assert(tokens_from(full, at + 1) == tokens + tokens_from(full, at + 1 + inner.len()));
    assert(tokens_from(full, at + 1 + inner.len()) == seq![TokenModel::ListEnd] + tokens_from(
        full,
        end,
    ));
    assert(tokens_from(full, at) =~= unparse(form, spell) + tokens_from(full, end));
}

proof fn lemma_lex_hash(full: Seq<char>, at: int, form: Form, spell: Spelling)
    requires
        form is Hash,
        shaped(form, spell),
        stands_at(full, at, display_text(form, spell)),
        boundary(full, at + display_text(form, spell).len()),
        form_fits(form, full, at + display_text(form, spell).len()),
    ensures
        tokens_from(full, at) == unparse(form, spell) + tokens_from(
            full,
            at + display_text(form, spell).len(),
        ),
    decreases form, 1nat,
{
    let collection = form->Hash_collection;
    let end = at + display_text(form, spell).len();
    let inner = entries_text(collection, collection.len(), spell);
    lemma_quote_free_literals();
    lemma_stands_split(full, at, "{"@ + inner, "}"@);
    lemma_stands_split(full, at, "{"@, inner);
    lemma_lex_bracket(full, at, "{"@, TokenModel::HashStart);
    lemma_lex_bracket(full, at + 1 + inner.len(), "}"@, TokenModel::HashEnd);
    reveal_strlit("}");
    lemma_stands_at_index(full, at + 1 + inner.len(), "}"@, 0);
    assert(boundary(full, at + 1 + inner.len()));
    if plain_strings(form) {
        assert forall|i: int| 0 <= i < collection.len() implies #[trigger] entry_slips(
            collection,
            i,
            collection.len(),
        ) by {
            assert(entry_plain(collection[i]));
        }
        assert(entries_plain(collection, collection.len()));
    } else {
        assert(last_may_slip(form));
        assert forall|i: int| 0 <= i < collection.len() implies #[trigger] entry_slips(
            collection,
            i,
            collection.len(),
        ) by {
            assert(entry_may_slip(collection[i], later_free(collection, i, collection.len())));
        }
        lemma_quote_free_before(full, at + 1 + inner.len(), "}"@);
    }
    assert forall|i: int| 0 <= i < collection.len() implies entry_shaped(
        #[trigger] collection[i],
        spell,
    ) by {}
    lemma_lex_entries(full, at + 1, collection, collection.len(), spell);
    let tokens = unparse_entries(collection, collection.len(), spell);
    assert(tokens_from(full, at) == seq![TokenModel::HashStart] + tokens_from(full, at + 1));
    assert(tokens_from(full, at + 1) == tokens + tokens_from(full, at + 1 + inner.len()));
    assert(tokens_from(full, at + 1 + inner.len()) == seq![TokenModel::HashEnd] + tokens_from(
        full,
        end,
    ));
    assert(tokens_from(full, at) =~= unparse(form, spell) + tokens_from(full, end));
}

/// All the first `upto` items hold only strings that end plainly.
pub open spec fn items_plain(items: Seq<Form>, upto: nat) -> bool {
    forall|i: int| 0 <= i < upto && i < items.len() ==> plain_strings(#[trigger] items[i])
}

/// The display forms of shaped items, a space apart, are lexed into the
/// tokens of the items, if their strings fit.
pub proof fn lemma_lex_items(full: Seq<char>, at: int, items: Seq<Form>, upto: nat, spell: Spelling)
    requires
        upto <= items.len(),
        forall|i: int| 0 <= i < upto ==> shaped(#[trigger] items[i], spell),
        forall|i: int| 0 <= i < upto ==> #[trigger] item_slips(items, i, upto),
        items_plain(items, upto) || quote_free_from(
            full,
            at + items_text(items, upto, spell).len(),
        ),
        stands_at(full, at, items_text(items, upto, spell)),
        boundary(full, at + items_text(items, upto, spell).len()),
    ensures
        tokens_from(full, at) == unparse_items(items, upto, spell) + tokens_from(
            full,
            at + items_text(items, upto, spell).len(),
        ),
    decreases items, upto,
{
    let end = at + items_text(items, upto, spell).len();
    if upto == 0 {
        assert(unparse_items(items, upto, spell) + tokens_from(full, at) =~= tokens_from(full, at));
    } else if upto == 1 {
        assert(item_slips(items, 0, upto));
        lemma_lex_form(full, at, items[0], spell);
        assert(unparse_items(items, 0, spell) + unparse(items[0], spell) =~= unparse(
            items[0],
            spell,
        ));
    } else {
        let before = items_text(items, (upto - 1) as nat, spell);
        let last = display_text(items[upto - 1], spell);
        lemma_stands_split(full, at, before + " "@, last);
        lemma_stands_split(full, at, before, " "@);
        lemma_skip_space(full, at + before.len());
        lemma_quote_free_literals();
        assert(item_slips(items, upto - 1, upto));
        assert forall|i: int| 0 <= i < upto - 1 implies #[trigger] item_slips(
            items,
            i,
            (upto - 1) as nat,
        ) by {
            assert(item_slips(items, i, upto));
        }
        if !items_plain(items, (upto - 1) as nat) {
            let i = choose|i: int| 0 <= i < upto - 1 && !plain_strings(#[trigger] items[i]);
            assert(item_slips(items, i, upto));
            assert(string_free(items[upto - 1]));
            lemma_display_quote_free(items[upto - 1], spell);
            lemma_quote_free_before(full, at + before.len() + 1, last);
            lemma_quote_free_before(full, at + before.len(), " "@);
        }
        lemma_lex_items(full, at, items, (upto - 1) as nat, spell);
        lemma_lex_form(full, at + before.len() + 1, items[upto - 1], spell);
        assert(tokens_from(full, at) =~= unparse_items(items, upto, spell) + tokens_from(
            full,
            end,
        ));
    }
}

/// All the first `upto` entries hold only strings that end plainly.
pub open spec fn entries_plain(entries: Seq<(Form, Form)>, upto: nat) -> bool {
    forall|i: int| 0 <= i < upto && i < entries.len() ==> entry_plain(#[trigger] entries[i])
}

proof fn lemma_lex_entries(
    full: Seq<char>,
    at: int,
    entries: Seq<(Form, Form)>,
    upto: nat,
    spell: Spelling,
)
    requires
        upto <= entries.len(),
        forall|i: int| 0 <= i < upto ==> entry_shaped(#[trigger] entries[i], spell),
        forall|i: int| 0 <= i < upto ==> #[trigger] entry_slips(entries, i, upto),
        entries_plain(entries, upto) || quote_free_from(
            full,
            at + entries_text(entries, upto, spell).len(),
        ),
        stands_at(full, at, entries_text(entries, upto, spell)),
        boundary(full, at + entries_text(entries, upto, spell).len()),
    ensures
        tokens_from(full, at) == unparse_entries(entries, upto, spell) + tokens_from(
            full,
            at + entries_text(entries, upto, spell).len(),
        ),
    decreases entries, upto,
{
    if upto == 0 {
        assert(unparse_entries(entries, upto, spell) + tokens_from(full, at) =~= tokens_from(
            full,
            at,
        ));
    } else {
        let before = if upto == 1 {
            Seq::<char>::empty()
        } else {
            entries_text(entries, (upto - 1) as nat, spell) + " "@
        };
        let entry = entries[upto - 1];
        let key = display_text(entry.0, spell);
        let value = display_text(entry.1, spell);
        let end = at + entries_text(entries, upto, spell).len();
        assert(entries_text(entries, upto, spell) =~= before + key + " "@ + value);
        assert(entry_shaped(entry, spell));
        assert(entry_slips(entries, upto - 1, upto));
        lemma_quote_free_literals();
        lemma_stands_split(full, at, before + key + " "@, value);
        lemma_stands_split(full, at, before + key, " "@);
        lemma_stands_split(full, at, before, key);
        lemma_skip_space(full, at + before.len() + key.len());
        assert(end == at + before.len() + key.len() + 1 + value.len());
        // the value fits, and so does the key before it
        if !plain_strings(entry.1) {
            assert(!entry_plain(entry));
            assert(form_fits(entry.1, full, end));
        }
        if !plain_strings(entry.0) {
            assert(!entry_plain(entry));
            lemma_display_quote_free(entry.1, spell);
            lemma_quote_free_before(full, at + before.len() + key.len() + 1, value);
            lemma_quote_free_before(full, at + before.len() + key.len(), " "@);
        }
        if upto > 1 {
            let earlier = entries_text(entries, (upto - 1) as nat, spell);
            lemma_stands_split(full, at, earlier, " "@);
            lemma_skip_space(full, at + earlier.len());
            assert forall|i: int| 0 <= i < upto - 1 implies #[trigger] entry_slips(
                entries,
                i,
                (upto - 1) as nat,
            ) by {
                assert(entry_slips(entries, i, upto));
            }
            if !entries_plain(entries, (upto - 1) as nat) {
                let i = choose|i: int| 0 <= i < upto - 1 && !entry_plain(#[trigger] entries[i]);
                assert(entry_slips(entries, i, upto));
                assert(later_free(entries, i, upto));
                assert(entry_string_free(entries[upto - 1]));
                lemma_display_quote_free(entry.0, spell);
                lemma_display_quote_free(entry.1, spell);
                lemma_quote_free_before(full, at + before.len() + key.len() + 1, value);
                lemma_quote_free_before(full, at + before.len() + key.len(), " "@);
                lemma_quote_free_before(full, at + before.len(), key);
                lemma_quote_free_before(full, at + earlier.len(), " "@);
            }
            lemma_lex_entries(full, at, entries, (upto - 1) as nat, spell);
        }
        lemma_lex_form(full, at + before.len(), entry.0, spell);
        lemma_lex_form(full, at + before.len() + key.len() + 1, entry.1, spell);
        let key_tokens = unparse(entry.0, spell);
        let value_tokens = unparse(entry.1, spell);
        let earlier_tokens = unparse_entries(entries, (upto - 1) as nat, spell);
        assert(tokens_from(full, at + before.len() + key.len() + 1) == value_tokens + tokens_from(
            full,
            end,
        ));
        assert(tokens_from(full, at + before.len()) == key_tokens + tokens_from(
            full,
            at + before.len() + key.len() + 1,
        ));
        assert(tokens_from(full, at) == earlier_tokens + tokens_from(full, at + before.len())) by {
            if upto == 1 {
                assert(earlier_tokens + tokens_from(full, at) =~= tokens_from(full, at));
            }
        }
        assert(unparse_entries(entries, upto, spell) == earlier_tokens + key_tokens + value_tokens);
        assert(tokens_from(full, at) =~= unparse_entries(entries, upto, spell) + tokens_from(
            full,
            end,
        ));
    }
}

/// The numbers of a form, in the order in which they are displayed.
pub open spec fn numbers_in(form: Form) -> Seq<u64>
    decreases form, 0nat,
{
    match form {
        Form::Number { value, .. } => seq![value],
        Form::List { collection, .. } => numbers_in_items(collection, collection.len()),
        Form::Hash { collection, .. } => numbers_in_entries(collection, collection.len()),
        _ => Seq::empty(),
    }
}

/// The numbers of the first `upto` items.
pub open spec fn numbers_in_items(items: Seq<Form>, upto: nat) -> Seq<u64>
    decreases items, upto,
{
    if upto == 0 || upto > items.len() {
        Seq::empty()
    } else {
        numbers_in_items(items, (upto - 1) as nat) + numbers_in(items[upto - 1])
    }
}

/// The numbers of the first `upto` entries.
pub open spec fn numbers_in_entries(entries: Seq<(Form, Form)>, upto: nat) -> Seq<u64>
    decreases entries, upto,
{
    if upto == 0 || upto > entries.len() {
        Seq::empty()
    } else {
        numbers_in_entries(entries, (upto - 1) as nat) + numbers_in(entries[upto - 1].0)
            + numbers_in(entries[upto - 1].1)
    }
}

/// The count of `Number` tokens goes on by one behind a `Number` token and
/// stays behind any other.
proof fn lemma_numbers_before_next(tokens: Seq<TokenModel>, at: int)
    requires
        0 <= at < tokens.len(),
    ensures
        numbers_before(tokens, at + 1) == numbers_before(tokens, at) + (if tokens[at] is Number {
            1nat
        } else {
            0nat
        }),
{
}

/// The tokens of a shaped form begin with a token that begins a form.
proof fn lemma_first_token(form: Form, spell: Spelling)
    requires
        shaped(form, spell),
    ensures
        unparse(form, spell).len() > 0,
        !(unparse(form, spell)[0] is ListEnd),
        !(unparse(form, spell)[0] is HashEnd),
{
}

/// The `Number` tokens among the tokens of a form are as many as its numbers.
proof fn lemma_numbers_counted(
    tokens: Seq<TokenModel>,
    at: int,
    form: Form,
    spell: Spelling,
)
    requires
        shaped(form, spell),
        0 <= at,
        at + unparse(form, spell).len() <= tokens.len(),
        tokens.subrange(at, at + unparse(form, spell).len()) == unparse(form, spell),
    ensures
        numbers_before(tokens, at + unparse(form, spell).len()) == numbers_before(tokens, at)
            + numbers_in(form).len(),
    decreases form, 0nat,
{
    let part = unparse(form, spell);
    match form {
        Form::List { collection, .. } => {
            let inner = unparse_items(collection, collection.len(), spell);
            assert(tokens.subrange(at, at + part.len())[0] == tokens[at]);
            assert(tokens.subrange(at, at + part.len())[part.len() - 1] == tokens[at + part.len()
                - 1]);
            lemma_numbers_before_next(tokens, at);
            lemma_numbers_before_next(tokens, at + part.len() - 1);
            assert(tokens.subrange(at + 1, at + 1 + inner.len()) =~= inner) by {
                assert forall|i: int| 0 <= i < inner.len() implies tokens.subrange(
                    at + 1,
                    at + 1 + inner.len(),
                )[i] == inner[i] by {
                    assert(tokens.subrange(at, at + part.len())[i + 1] == tokens[at + 1 + i]);
                }
            }
            lemma_items_counted(tokens, at + 1, collection, collection.len(), spell);
        },
        Form::Hash { collection, .. } => {
            let inner = unparse_entries(collection, collection.len(), spell);
            assert(tokens.subrange(at, at + part.len())[0] == tokens[at]);
            assert(tokens.subrange(at, at + part.len())[part.len() - 1] == tokens[at + part.len()
                - 1]);
            lemma_numbers_before_next(tokens, at);
            lemma_numbers_before_next(tokens, at + part.len() - 1);
            assert(tokens.subrange(at + 1, at + 1 + inner.len()) =~= inner) by {
                assert forall|i: int| 0 <= i < inner.len() implies tokens.subrange(
                    at + 1,
                    at + 1 + inner.len(),
                )[i] == inner[i] by {
                    assert(tokens.subrange(at, at + part.len())[i + 1] == tokens[at + 1 + i]);
                }
            }
            lemma_entries_counted(tokens, at + 1, collection, collection.len(), spell);
        },
        _ => {
            assert(tokens.subrange(at, at + part.len())[0] == tokens[at]);
            lemma_numbers_before_next(tokens, at);
        },
    }
}

proof fn lemma_part_split<A>(full: Seq<A>, at: int, a: Seq<A>, b: Seq<A>)
    requires
        0 <= at,
        at + a.len() + b.len() <= full.len(),
        full.subrange(at, at + a.len() + b.len()) == a + b,
    ensures
        full.subrange(at, at + a.len()) == a,
        full.subrange(at + a.len(), at + a.len() + b.len()) == b,
{
    let whole = full.subrange(at, at + a.len() + b.len());
    assert(full.subrange(at, at + a.len()) =~= a) by {
        assert forall|i: int| 0 <= i < a.len() implies full.subrange(at, at + a.len())[i]
            == a[i] by {
            assert(whole[i] == full[at + i]);
        }
    }
    assert(full.subrange(at + a.len(), at + a.len() + b.len()) =~= b) by {
        assert forall|i: int| 0 <= i < b.len() implies full.subrange(
            at + a.len(),
            at + a.len() + b.len(),
        )[i] == b[i] by {
            assert(whole[a.len() + i] == full[at + a.len() + i]);
        }
    }
}

proof fn lemma_items_counted(
    tokens: Seq<TokenModel>,
    at: int,
    items: Seq<Form>,
    upto: nat,
    spell: Spelling,
)
    requires
        upto <= items.len(),
        forall|i: int| 0 <= i < upto ==> shaped(#[trigger] items[i], spell),
        0 <= at,
        at + unparse_items(items, upto, spell).len() <= tokens.len(),
        tokens.subrange(at, at + unparse_items(items, upto, spell).len()) == unparse_items(
            items,
            upto,
            spell,
        ),
    ensures
        numbers_before(tokens, at + unparse_items(items, upto, spell).len()) == numbers_before(
            tokens,
            at,
        ) + numbers_in_items(items, upto).len(),
    decreases items, upto,
{
    if upto > 0 {
        let before = unparse_items(items, (upto - 1) as nat, spell);
        let last = unparse(items[upto - 1], spell);
        lemma_part_split(tokens, at, before, last);
        lemma_items_counted(tokens, at, items, (upto - 1) as nat, spell);
        lemma_numbers_counted(tokens, at + before.len(), items[upto - 1], spell);
    }
}

proof fn lemma_entries_counted(
    tokens: Seq<TokenModel>,
    at: int,
    entries: Seq<(Form, Form)>,
    upto: nat,
    spell: Spelling,
)
    requires
        upto <= entries.len(),
        forall|i: int| 0 <= i < upto ==> entry_shaped(#[trigger] entries[i], spell),
        0 <= at,
        at + unparse_entries(entries, upto, spell).len() <= tokens.len(),
        tokens.subrange(at, at + unparse_entries(entries, upto, spell).len()) == unparse_entries(
            entries,
            upto,
            spell,
        ),
    ensures
        numbers_before(tokens, at + unparse_entries(entries, upto, spell).len()) == numbers_before(
            tokens,
            at,
        ) + numbers_in_entries(entries, upto).len(),
    decreases entries, upto,
{
    if upto > 0 {
        let before = unparse_entries(entries, (upto - 1) as nat, spell);
        let key = unparse(entries[upto - 1].0, spell);
        let value = unparse(entries[upto - 1].1, spell);
        assert(entry_shaped(entries[upto - 1], spell));
        lemma_part_split(tokens, at, before + key, value);
        lemma_part_split(tokens, at, before, key);
        lemma_entries_counted(tokens, at, entries, (upto - 1) as nat, spell);
        lemma_numbers_counted(tokens, at + before.len(), entries[upto - 1].0, spell);
        lemma_numbers_counted(tokens, at + before.len() + key.len(), entries[upto - 1].1, spell);
    }
}


/// The tokens of a form stand at `at`, and its numbers stand where the
/// numbers of those tokens are looked for.
pub open spec fn form_placed(
    tokens: Seq<TokenModel>,
    numbers: Seq<u64>,
    at: int,
    part: Seq<TokenModel>,
    values: Seq<u64>,
) -> bool {
    &&& 0 <= at
    &&& at + part.len() <= tokens.len()
    &&& tokens.subrange(at, at + part.len()) == part
    &&& numbers_before(tokens, at) + values.len() <= numbers.len()
    &&& numbers.subrange(
        numbers_before(tokens, at) as int,
        numbers_before(tokens, at) as int + values.len(),
    ) == values
}

/// The tokens of a shaped form are read as the form.
pub proof fn lemma_read_form(
    tokens: Seq<TokenModel>,
    numbers: Seq<u64>,
    at: int,
    form: Form,
    spell: Spelling,
)
    requires
        shaped(form, spell),
        form_placed(tokens, numbers, at, unparse(form, spell), numbers_in(form)),
    ensures
        read_form(tokens, numbers, at) == Ok::<(Form, int), Form>(
            (form, at + unparse(form, spell).len()),
        ),
    decreases form, 0nat,
{
    let part = unparse(form, spell);
    assert(tokens.subrange(at, at + part.len())[0] == tokens[at]);
    match form {
        Form::Number { value, .. } => {
            let nb = numbers_before(tokens, at) as int;
            assert(numbers.subrange(nb, nb + 1)[0] == numbers[nb]);
        },
        Form::Symbol { value, .. } => {
            reveal_strlit("&");
        },
        Form::List { collection, .. } => {
            let inner = unparse_items(collection, collection.len(), spell);
            let values = numbers_in_items(collection, collection.len());
            let nb = numbers_before(tokens, at) as int;
            lemma_numbers_before_next(tokens, at);
            lemma_part_split(tokens, at, seq![TokenModel::ListStart] + inner, seq![TokenModel::ListEnd]);
            lemma_part_split(tokens, at, seq![TokenModel::ListStart], inner);
            lemma_read_items(tokens, numbers, at + 1, collection, collection.len(), spell);
            let close = at + 1 + inner.len();
            assert(tokens.subrange(close, close + 1)[0] == tokens[close]);
            assert(collection.subrange(0, collection.len() as int) =~= collection);
        },
        Form::Hash { collection, .. } => {
            let inner = unparse_entries(collection, collection.len(), spell);
            lemma_numbers_before_next(tokens, at);
            lemma_part_split(tokens, at, seq![TokenModel::HashStart] + inner, seq![TokenModel::HashEnd]);
            lemma_part_split(tokens, at, seq![TokenModel::HashStart], inner);
            lemma_read_entries(tokens, numbers, at + 1, collection, collection.len(), spell);
            let close = at + 1 + inner.len();
            assert(tokens.subrange(close, close + 1)[0] == tokens[close]);
            assert(collection.subrange(0, collection.len() as int) =~= collection);
        },
        _ => {},
    }
}

/// Reading a list goes through the tokens of its first `upto` items and has
/// then read those items.
proof fn lemma_read_items(
    tokens: Seq<TokenModel>,
    numbers: Seq<u64>,
    start: int,
    items: Seq<Form>,
    upto: nat,
    spell: Spelling,
)
    requires
        upto <= items.len(),
        forall|i: int| 0 <= i < upto ==> shaped(#[trigger] items[i], spell),
        form_placed(
            tokens,
            numbers,
            start,
            unparse_items(items, upto, spell),
            numbers_in_items(items, upto),
        ),
    ensures
        read_list(tokens, numbers, start, Seq::empty()) == read_list(
            tokens,
            numbers,
            start + unparse_items(items, upto, spell).len(),
            items.subrange(0, upto as int),
        ),
    decreases items, upto,
{
    if upto == 0 {
        assert(items.subrange(0, 0) =~= Seq::<Form>::empty());
    } else {
        let before = unparse_items(items, (upto - 1) as nat, spell);
        let last = unparse(items[upto - 1], spell);
        let before_values = numbers_in_items(items, (upto - 1) as nat);
        let last_values = numbers_in(items[upto - 1]);
        let nb = numbers_before(tokens, start) as int;
        lemma_part_split(tokens, start, before, last);
        lemma_part_split(numbers, nb, before_values, last_values);
        lemma_items_counted(tokens, start, items, (upto - 1) as nat, spell);
        lemma_read_items(tokens, numbers, start, items, (upto - 1) as nat, spell);
        let at = start + before.len();
        lemma_first_token(items[upto - 1], spell);
        assert(tokens.subrange(at, at + last.len())[0] == tokens[at]);
        lemma_read_form(tokens, numbers, at, items[upto - 1], spell);
        assert(items.subrange(0, upto - 1).push(items[upto - 1]) =~= items.subrange(
            0,
            upto as int,
        ));
    }
}

/// Reading the forms of a text goes through the tokens of the first `upto`
/// forms and has then read those forms.
proof fn lemma_read_program(
    tokens: Seq<TokenModel>,
    numbers: Seq<u64>,
    items: Seq<Form>,
    upto: nat,
    spell: Spelling,
)
    requires
        upto <= items.len(),
        forall|i: int| 0 <= i < upto ==> shaped(#[trigger] items[i], spell),
        form_placed(
            tokens,
            numbers,
            0,
            unparse_items(items, upto, spell),
            numbers_in_items(items, upto),
        ),
    ensures
        read_program(tokens, numbers, 0, Seq::empty()) == read_program(
            tokens,
            numbers,
            unparse_items(items, upto, spell).len() as int,
            items.subrange(0, upto as int),
        ),
    decreases upto,
{
    if upto == 0 {
        assert(items.subrange(0, 0) =~= Seq::<Form>::empty());
    } else {
        let before = unparse_items(items, (upto - 1) as nat, spell);
        let last = unparse(items[upto - 1], spell);
        let before_values = numbers_in_items(items, (upto - 1) as nat);
        let last_values = numbers_in(items[upto - 1]);
        let nb = numbers_before(tokens, 0) as int;
        lemma_part_split(tokens, 0, before, last);
        lemma_part_split(numbers, nb, before_values, last_values);
        lemma_items_counted(tokens, 0, items, (upto - 1) as nat, spell);
        lemma_read_program(tokens, numbers, items, (upto - 1) as nat, spell);
        let at = before.len() as int;
        lemma_first_token(items[upto - 1], spell);
        lemma_read_form(tokens, numbers, at, items[upto - 1], spell);
        assert(items.subrange(0, upto - 1).push(items[upto - 1]) =~= items.subrange(
            0,
            upto as int,
        ));
    }
}

/// A key that differs from every key of a hash is put behind its entries.
proof fn lemma_insert_new_key(entries: Seq<(Form, Form)>, key: Form, value: Form)
    requires
        forall|i: int| 0 <= i < entries.len() ==> !same_key((#[trigger] entries[i]).0, key),
    ensures
        hash_insert(entries, key, value) == entries.push((key, value)),
{
    if exists|i: int| first_under_key(entries, key, i) {
        let i = choose|i: int| first_under_key(entries, key, i);
        assert(!same_key(entries[i].0, key));
    }
}

/// Reading a hash goes through the tokens of its first `upto` entries and has
/// then read those entries.
proof fn lemma_read_entries(
    tokens: Seq<TokenModel>,
    numbers: Seq<u64>,
    start: int,
    entries: Seq<(Form, Form)>,
    upto: nat,
    spell: Spelling,
)
    requires
        upto <= entries.len(),
        forall|i: int| 0 <= i < upto ==> entry_shaped(#[trigger] entries[i], spell),
        distinct_entries(entries),
        form_placed(
            tokens,
            numbers,
            start,
            unparse_entries(entries, upto, spell),
            numbers_in_entries(entries, upto),
        ),
        start + unparse_entries(entries, upto, spell).len() < tokens.len(),
    ensures
        read_hash(tokens, numbers, start, Seq::empty()) == read_hash(
            tokens,
            numbers,
            start + unparse_entries(entries, upto, spell).len(),
            entries.subrange(0, upto as int),
        ),
    decreases entries, upto,
{
    if upto == 0 {
        assert(entries.subrange(0, 0) =~= Seq::<(Form, Form)>::empty());
    } else {
        let before = unparse_entries(entries, (upto - 1) as nat, spell);
        let entry = entries[upto - 1];
        assert(entry_shaped(entry, spell));
        let key = unparse(entry.0, spell);
        let value = unparse(entry.1, spell);
        let before_values = numbers_in_entries(entries, (upto - 1) as nat);
        let key_values = numbers_in(entry.0);
        let value_values = numbers_in(entry.1);
        let nb = numbers_before(tokens, start) as int;
        lemma_part_split(tokens, start, before + key, value);
        lemma_part_split(tokens, start, before, key);
        lemma_part_split(numbers, nb, before_values + key_values, value_values);
        lemma_part_split(numbers, nb, before_values, key_values);
        lemma_entries_counted(tokens, start, entries, (upto - 1) as nat, spell);
        lemma_read_entries(tokens, numbers, start, entries, (upto - 1) as nat, spell);
        let at = start + before.len();
        lemma_first_token(entry.0, spell);
        lemma_first_token(entry.1, spell);
        assert(tokens.subrange(at, at + key.len())[0] == tokens[at]);
        lemma_numbers_counted(tokens, at, entry.0, spell);
        lemma_read_form(tokens, numbers, at, entry.0, spell);
        let next = at + key.len();
        assert(tokens.subrange(next, next + value.len())[0] == tokens[next]);
        lemma_read_form(tokens, numbers, next, entry.1, spell);
        let done = entries.subrange(0, upto - 1);
        assert forall|i: int| 0 <= i < done.len() implies !same_key(
            (#[trigger] done[i]).0,
            entry.0,
        ) by {
            assert(!same_key(entries[i].0, entries[upto - 1].0));
        }
        lemma_insert_new_key(done, entry.0, entry.1);
        assert(done.push((entry.0, entry.1)) =~= entries.subrange(0, upto as int));
    }
}


/// Shaped forms are read back from their display form, if of their strings
/// only the last ends in a backslash: the text that the display forms of the
/// forms make up, a space between neighbours, is lexed and read as the same
/// forms, given the numbers of the forms in the order in which they are
/// displayed.
pub proof fn law_shaped_forms_read_back(forms: Seq<Form>, spell: Spelling)
    requires
        forall|i: int| 0 <= i < forms.len() ==> shaped(#[trigger] forms[i], spell),
        forall|i: int| 0 <= i < forms.len() ==> #[trigger] item_slips(forms, i, forms.len()),
    ensures
        read_model(
            tokens_of(pieces_text(display_items(forms, forms.len()), spell)),
            numbers_in_items(forms, forms.len()),
        ) == Ok::<Seq<Form>, Form>(forms),
{
    let shown = items_text(forms, forms.len(), spell);
    lemma_items_text(forms, forms.len(), spell);
    let tokens = unparse_items(forms, forms.len(), spell);
    let numbers = numbers_in_items(forms, forms.len());
    assert(shown.subrange(0, shown.len() as int) =~= shown);
    lemma_lex_items(shown, 0, forms, forms.len(), spell);
    assert(tokens_of(shown) =~= tokens);
    assert(tokens.subrange(0, tokens.len() as int) =~= tokens);
    assert(numbers.subrange(0, numbers.len() as int) =~= numbers);
    lemma_read_program(tokens, numbers, forms, forms.len(), spell);
    assert(forms.subrange(0, forms.len() as int) =~= forms);
}

/// A token whose text is lexed as the same token again wherever a separator
/// or a closing bracket follows it.
pub open spec fn token_ok(token: TokenModel) -> bool {
    match token {
        TokenModel::Symbol(w) => symbol_text(w),
        TokenModel::Keyword(w) => keyword_text(w),
        TokenModel::String(c) => quotes_escaped(c),
        _ => true,
    }
}

/// A run goes at least as far as the characters of its class do.
proof fn lemma_run_at_least(full: Seq<char>, from: int, to: int, class: CharClass)
    requires
        0 <= from <= to <= full.len(),
        forall|i: int| from <= i < to ==> in_class(class, #[trigger] full[i]),
    ensures
        run_end(full, from, class) >= to,
    decreases to - from,
{
    if from < to {
        lemma_run_at_least(full, from + 1, to, class);
    } else {
        lemma_run_props(full, from, class);
    }
}

/// Where a string closes: behind a quote, and every quote before that one
/// stands behind a backslash of the string.
proof fn lemma_string_close_props(s: Seq<char>, open: int, from: int)
    requires
        0 <= from <= s.len(),
    ensures
        string_close(s, open, from) matches Some(end) ==> {
            &&& from < end <= s.len()
            &&& s[end - 1] == '"'
            &&& forall|q: int|
                from <= q < end - 1 && #[trigger] s[q] == '"' ==> q - 1 > open && s[q - 1] == '\\'
        },
    decreases s.len() - from,
{
    if from < s.len() {
        lemma_string_close_props(s, open, from + 1);
    }
}

/// The lexer gives symbols, keywords and strings whose texts are lexed as the
/// same tokens again.
proof fn lemma_token_at_ok(s: Seq<char>, at: int)
    requires
        0 <= at < s.len(),
    ensures
        token_at(s, at) matches Some((token, end)) ==> token_ok(token) && at < end <= s.len(),
{
    reveal_strlit("nil");
    reveal_strlit("true");
    reveal_strlit("false");
    reveal_strlit("&");
    if s[at] == '"' {
        lemma_string_close_props(s, at, at + 1);
        match string_close(s, at, at + 1) {
            Some(end) => {
                let c = s.subrange(at + 1, end - 1);
                assert forall|q: int| 0 <= q < c.len() && #[trigger] c[q] == '"' implies q >= 1
                    && c[q - 1] == '\\' by {
                    assert(s[at + 1 + q] == '"');
                }
            },
            None => {},
        }
    } else if s[at] == '(' || s[at] == ')' || s[at] == '{' || s[at] == '}' || s[at] == '\''
        || s[at] == '`' || s[at] == '~' {
    } else if keyword_end(s, at) > at {
        lemma_run_props(s, at + 2, CharClass::Keyword);
        let w = s.subrange(at, keyword_end(s, at));
        assert forall|i: int| 2 <= i < w.len() implies is_keyword_char(#[trigger] w[i]) by {
            assert(in_class(CharClass::Keyword, s[at + i]));
        }
    } else {
        let first = if s[at] == '-' {
            at + 1
        } else {
            at
        };
        lemma_run_props(s, first, CharClass::Digit);
        let whole = run_end(s, first, CharClass::Digit);
        if whole < s.len() {
            lemma_run_props(s, whole + 1, CharClass::Digit);
        }
        if first < s.len() {
            lemma_run_props(s, first + 1, CharClass::Digit);
        }
        if is_symbol_start(s[at]) {
            lemma_run_props(s, at + 1, CharClass::Symbol);
        }
        if !(number_end(s, at) > at && number_end(s, at) >= symbol_end(s, at)) && symbol_end(s, at)
            > at {
            let end = symbol_end(s, at);
            let w = s.subrange(at, end);
            assert forall|i: int| 1 <= i < w.len() implies is_symbol_char(#[trigger] w[i]) by {
                assert(in_class(CharClass::Symbol, s[at + i]));
            }
            if w[0] == '-' && w.len() > 1 && (forall|i: int|
                1 <= i < w.len() ==> is_digit(#[trigger] w[i])) {
                assert forall|i: int| at + 1 <= i < end implies in_class(
                    CharClass::Digit,
                    #[trigger] s[i],
                ) by {
                    assert(is_digit(w[i - at]));
                }
                lemma_run_at_least(s, at + 1, end, CharClass::Digit);
                assert(false);
            }
        }
    }
}

/// Every token of a text is lexed again as itself.
pub proof fn lemma_tokens_ok(s: Seq<char>, at: int)
    ensures
        forall|k: int| 0 <= k < tokens_from(s, at).len() ==> token_ok(#[trigger] tokens_from(s, at)[k]),
    decreases s.len() - at,
{
    if 0 <= at < s.len() {
        if is_space(s[at]) {
            lemma_tokens_ok(s, at + 1);
            assert(tokens_from(s, at) == tokens_from(s, at + 1));
        } else {
            let (token, end) = read_at(s, at);
            lemma_token_at_ok(s, at);
            let rest = if at < end <= s.len() {
                tokens_from(s, end)
            } else {
                Seq::empty()
            };
            if at < end <= s.len() {
                lemma_tokens_ok(s, end);
            }
            match token {
                Some(token) => {
                    assert(token_ok(token));
                    assert(tokens_from(s, at) == seq![token] + rest);
                    assert forall|k: int| 0 <= k < tokens_from(s, at).len() implies token_ok(
                        #[trigger] tokens_from(s, at)[k],
                    ) by {
                        if k > 0 {
                            assert(tokens_from(s, at)[k] == rest[k - 1]);
                        }
                    }
                },
                None => {
                    assert(tokens_from(s, at) == rest);
                },
            }
        }
    } else {
        assert(tokens_from(s, at).len() == 0);
    }
}

/// Every token is lexed again as itself.
pub open spec fn tokens_ok(tokens: Seq<TokenModel>) -> bool {
    forall|k: int| 0 <= k < tokens.len() ==> token_ok(#[trigger] tokens[k])
}

/// Where some entry is under a key, a first one is.
proof fn lemma_some_key_has_first(entries: Seq<(Form, Form)>, key: Form, at: int)
    requires
        0 <= at < entries.len(),
        same_key(entries[at].0, key),
    ensures
        key_position(entries, key) is Some,
    decreases at,
{
    if forall|j: int| 0 <= j < at ==> !same_key(#[trigger] entries[j].0, key) {
        assert(first_under_key(entries, key, at));
    } else {
        let j = choose|j: int| 0 <= j < at && same_key(#[trigger] entries[j].0, key);
        lemma_some_key_has_first(entries, key, j);
    }
}

/// Putting a value under a key keeps a hash in shape.
proof fn lemma_insert_keeps_shape(
    entries: Seq<(Form, Form)>,
    key: Form,
    value: Form,
    spell: Spelling,
)
    requires
        distinct_entries(entries),
        forall|i: int| 0 <= i < entries.len() ==> entry_read_shape(#[trigger] entries[i]),
        read_shape(key),
        read_shape(value),
        hashable(key),
    ensures
        distinct_entries(hash_insert(entries, key, value)),
        forall|i: int|
            0 <= i < hash_insert(entries, key, value).len() ==> entry_read_shape(#[trigger] hash_insert(entries, key, value)[i]),
{
    let after = hash_insert(entries, key, value);
    match key_position(entries, key) {
        Some(at) => {
            assert(first_under_key(entries, key, at));
            assert forall|i: int, j: int| 0 <= i < j < after.len() implies !same_key(
                (#[trigger] after[i]).0,
                (#[trigger] after[j]).0,
            ) by {
                assert(!same_key(entries[i].0, entries[j].0));
            }
            assert forall|i: int| 0 <= i < after.len() implies entry_read_shape(#[trigger] after[i]) by {
                assert(entry_read_shape(entries[i]));
            }
        },
        None => {
            assert forall|i: int, j: int| 0 <= i < j < after.len() implies !same_key(
                (#[trigger] after[i]).0,
                (#[trigger] after[j]).0,
            ) by {
                if j == entries.len() {
                    if same_key(entries[i].0, key) {
                        lemma_some_key_has_first(entries, key, i);
                    }
                } else {
                    assert(!same_key(entries[i].0, entries[j].0));
                }
            }
            assert forall|i: int| 0 <= i < after.len() implies entry_read_shape(#[trigger] after[i]) by {
                if i < entries.len() {
                    assert(entry_read_shape(entries[i]));
                }
            }
        },
    }
}

/// What is read from tokens of a text is a form in shape.
pub proof fn lemma_read_form_shaped(
    tokens: Seq<TokenModel>,
    numbers: Seq<u64>,
    at: int,
    spell: Spelling,
)
    requires
        tokens_ok(tokens),
    ensures
        read_form(tokens, numbers, at) matches Ok((form, next)) ==> read_shape(form),
    decreases tokens.len() - at, 0nat,
{
    if 0 <= at < tokens.len() {
        assert(token_ok(tokens[at]));
        match tokens[at] {
            TokenModel::ArgsSpread => {
                reveal_strlit("&");
                reveal_strlit("nil");
                reveal_strlit("true");
                reveal_strlit("false");
                assert("&"@[0] == '&');
                assert(symbol_text("&"@));
            },
            TokenModel::ListStart => {
                lemma_read_list_shaped(tokens, numbers, at + 1, Seq::empty(), spell);
            },
            TokenModel::HashStart => {
                lemma_read_hash_shaped(tokens, numbers, at + 1, Seq::empty(), spell);
            },
            _ => {},
        }
    }
}

proof fn lemma_read_list_shaped(
    tokens: Seq<TokenModel>,
    numbers: Seq<u64>,
    at: int,
    done: Seq<Form>,
    spell: Spelling,
)
    requires
        tokens_ok(tokens),
        forall|i: int| 0 <= i < done.len() ==> read_shape(#[trigger] done[i]),
    ensures
        read_list(tokens, numbers, at, done) matches Ok((form, next)) ==> read_shape(form),
    decreases tokens.len() - at, 1nat,
{
    if 0 <= at < tokens.len() && !(tokens[at] is ListEnd) {
        lemma_read_form_shaped(tokens, numbers, at, spell);
        match read_form(tokens, numbers, at) {
            Ok((item, next)) => {
                if at < next <= tokens.len() {
                    lemma_read_list_shaped(tokens, numbers, next, done.push(item), spell);
                }
            },
            Err(_) => {},
        }
    }
}

proof fn lemma_read_hash_shaped(
    tokens: Seq<TokenModel>,
    numbers: Seq<u64>,
    at: int,
    done: Seq<(Form, Form)>,
    spell: Spelling,
)
    requires
        tokens_ok(tokens),
        distinct_entries(done),
        forall|i: int| 0 <= i < done.len() ==> entry_read_shape(#[trigger] done[i]),
    ensures
        read_hash(tokens, numbers, at, done) matches Ok((form, next)) ==> read_shape(form),
    decreases tokens.len() - at, 1nat,
{
    if 0 <= at < tokens.len() && !(tokens[at] is HashEnd) {
        lemma_read_form_shaped(tokens, numbers, at, spell);
        match read_form(tokens, numbers, at) {
            Ok((key, next)) => {
                if hashable(key) && at < next < tokens.len() && !(tokens[next] is HashEnd) {
                    lemma_read_form_shaped(tokens, numbers, next, spell);
                    match read_form(tokens, numbers, next) {
                        Ok((value, after)) => {
                            if next < after <= tokens.len() {
                                lemma_insert_keeps_shape(done, key, value, spell);
                                lemma_read_hash_shaped(
                                    tokens,
                                    numbers,
                                    after,
                                    hash_insert(done, key, value),
                                    spell,
                                );
                            }
                        },
                        Err(_) => {},
                    }
                }
            },
            Err(_) => {},
        }
    }
}

proof fn lemma_read_program_shaped(
    tokens: Seq<TokenModel>,
    numbers: Seq<u64>,
    at: int,
    done: Seq<Form>,
    spell: Spelling,
)
    requires
        tokens_ok(tokens),
        forall|i: int| 0 <= i < done.len() ==> read_shape(#[trigger] done[i]),
    ensures
        read_program(tokens, numbers, at, done) matches Ok(forms) ==> forall|i: int|
            0 <= i < forms.len() ==> read_shape(#[trigger] forms[i]),
    decreases tokens.len() - at,
{
    if 0 <= at < tokens.len() {
        lemma_read_form_shaped(tokens, numbers, at, spell);
        match read_form(tokens, numbers, at) {
            Ok((form, next)) => {
                if at < next <= tokens.len() {
                    lemma_read_program_shaped(tokens, numbers, next, done.push(form), spell);
                }
            },
            Err(_) => {},
        }
    }
}

/// What the reader makes of a text is in shape: atoms, lists and hashes whose
/// texts are lexed as what they are and whose hashes have hashable keys that
/// differ.
pub proof fn law_read_forms_are_shaped(source: Seq<char>, numbers: Seq<u64>, forms: Seq<Form>)
    requires
        read_model(tokens_of(source), numbers) == Ok::<Seq<Form>, Form>(forms),
    ensures
        forall|i: int| 0 <= i < forms.len() ==> read_shape(#[trigger] forms[i]),
{
    let spell = |bits: u64| Seq::<char>::empty();
    lemma_tokens_ok(source, 0);
    let tokens = tokens_of(source);
    assert(tokens == tokens_from(source, 0));
    assert(tokens_ok(tokens));
    lemma_read_program_shaped(tokens, numbers, 0, Seq::empty(), spell);
    assert(read_model(tokens, numbers) == read_program(tokens, numbers, 0, Seq::empty()));
    match read_program(tokens, numbers, 0, Seq::empty()) {
        Ok(read) => {
            assert(read == forms);
            assert(forall|i: int| 0 <= i < read.len() ==> read_shape(#[trigger] read[i]));
        },
        Err(_) => {},
    }
}

/// The reader round trip: the forms that are read from a text are read again
/// from their display form. The text that the display forms of the forms make
/// up, a space between neighbours, is lexed and read as the same forms, given
/// the numbers of the forms in the order in which they are displayed.
///
/// `spell` is the way the host writes a number; it must write each number of
/// the forms as a number. Of the strings of the forms only the last may end in
/// a backslash: any other would take in what is displayed behind it.
pub proof fn law_reader_round_trip(
    source: Seq<char>,
    numbers: Seq<u64>,
    spell: Spelling,
    forms: Seq<Form>,
)
    requires
        read_model(tokens_of(source), numbers) == Ok::<Seq<Form>, Form>(forms),
        forall|i: int| 0 <= i < forms.len() ==> spelled(#[trigger] forms[i], spell),
        forall|i: int| 0 <= i < forms.len() ==> #[trigger] item_slips(forms, i, forms.len()),
    ensures
        read_model(
            tokens_of(pieces_text(display_items(forms, forms.len()), spell)),
            numbers_in_items(forms, forms.len()),
        ) == Ok::<Seq<Form>, Form>(forms),
{
    law_read_forms_are_shaped(source, numbers, forms);
    assert forall|i: int| 0 <= i < forms.len() implies shaped(#[trigger] forms[i], spell) by {
        lemma_shape_and_spelling(forms[i], spell);
    }
    law_shaped_forms_read_back(forms, spell);
}

} // verus!
