//! The display form of a value, as pieces: text that is ready to be written,
//! and numbers, which the host of the machine writes as doubles.

use vstd::prelude::*;
use vstd::string::StringExecFns;
use crate::types::{forms, group_forms, pair_forms, Form, LispyType};

verus! {

broadcast use group_forms;

/// A part of a display form.
#[derive(Debug)]
pub enum Piece {
    Text(String),
    Number(u64),
}

pub ghost enum PieceModel {
    Text(Seq<char>),
    Number(u64),
}

impl View for Piece {
    type V = PieceModel;

    open spec fn view(&self) -> PieceModel {
        match self {
            Piece::Text(text) => PieceModel::Text(text@),
            Piece::Number(bits) => PieceModel::Number(*bits),
        }
    }
}

/// The models of a sequence of pieces, one for one.
pub open spec fn piece_models(pieces: Seq<Piece>) -> Seq<PieceModel> {
    Seq::new(pieces.len(), |i: int| pieces[i]@)
}

impl Clone for Piece {
    fn clone(&self) -> (copy: Self)
        ensures
            copy@ == self@,
    {
        match self {
            Piece::Text(text) => Piece::Text(text.clone()),
            Piece::Number(bits) => Piece::Number(*bits),
        }
    }
}

/// One piece of text.
pub open spec fn text(literal: Seq<char>) -> Seq<PieceModel> {
    seq![PieceModel::Text(literal)]
}

/// The display form of a value. It reads back as the value where the value is
/// made of atoms, lists and hashes: a string stands between quotes, a list
/// between round brackets, a hash between curly ones, items a space apart.
pub open spec fn display_model(form: Form) -> Seq<PieceModel>
    decreases form, 0nat,
{
    match form {
        Form::Nil { .. } => text("nil"@),
        Form::Bool { value, .. } => if value {
            text("true"@)
        } else {
            text("false"@)
        },
        Form::Number { value, .. } => seq![PieceModel::Number(value)],
        Form::Symbol { value, .. } => text(value),
        Form::Keyword { value, .. } => text(value),
        Form::String { value, .. } => text("\""@) + text(value) + text("\""@),
        Form::List { collection, .. } => text("("@) + display_items(collection, collection.len())
            + text(")"@),
        Form::Hash { collection, .. } => text("{"@) + display_entries(
            collection,
            collection.len(),
        ) + text("}"@),
        Form::Error { message, .. } => text(message),
        Form::Function { .. } => text("#<function>"@),
        Form::Lambda { .. } => text("#<lambda-function>"@),
    }
}

/// The display forms of the first `upto` items, a space between neighbours.
pub open spec fn display_items(items: Seq<Form>, upto: nat) -> Seq<PieceModel>
    decreases items, upto,
{
    if upto == 0 || upto > items.len() {
        Seq::empty()
    } else if upto == 1 {
        display_model(items[0])
    } else {
        display_items(items, (upto - 1) as nat) + text(" "@) + display_model(items[upto - 1])
    }
}

/// The display forms of the first `upto` entries: key, space, value, and a
/// space between neighbours.
pub open spec fn display_entries(entries: Seq<(Form, Form)>, upto: nat) -> Seq<PieceModel>
    decreases entries, upto,
{
    if upto == 0 || upto > entries.len() {
        Seq::empty()
    } else if upto == 1 {
        display_model(entries[0].0) + text(" "@) + display_model(entries[0].1)
    } else {
        display_entries(entries, (upto - 1) as nat) + text(" "@) + display_model(
            entries[upto - 1].0,
        ) + text(" "@) + display_model(entries[upto - 1].1)
    }
}

/// The display forms of the first `upto` items with nothing between them: what
/// `print` writes for its arguments.
pub open spec fn display_all(items: Seq<Form>, upto: nat) -> Seq<PieceModel>
    decreases upto,
{
    if upto == 0 || upto > items.len() {
        Seq::empty()
    } else {
        display_all(items, (upto - 1) as nat) + display_model(items[upto - 1])
    }
}

fn push_text(out: &mut Vec<Piece>, literal: &str)
    ensures
        piece_models(final(out)@) == piece_models(old(out)@) + text(literal@),
{
    out.push(Piece::Text(String::from_str(literal)));
    assert(piece_models(out@) =~= piece_models(old(out)@) + text(literal@));
}

fn display_list(items: &Vec<LispyType>, out: &mut Vec<Piece>)
    ensures
        piece_models(final(out)@) == piece_models(old(out)@) + display_items(
            forms(items@),
            items@.len(),
        ),
    decreases items, 0nat,
{
    let ghost before = piece_models(out@);
    let ghost model = forms(items@);
    let mut i: usize = 0;
    assert(piece_models(out@) =~= before + display_items(model, 0));
    while i < items.len()
        invariant
            i <= items.len(),
            model == forms(items@),
            piece_models(out@) == before + display_items(model, i as nat),
        decreases items.len() - i,
    {
        let ghost so_far = piece_models(out@);
        if i > 0 {
            push_text(out, " ");
        }
        let ghost spaced = piece_models(out@);
        display(&items[i], out);
        assert(piece_models(out@) == spaced + display_model(model[i as int]));
        assert(piece_models(out@) =~= before + display_items(model, (i + 1) as nat)) by {
            if i == 0 {
                assert(so_far =~= before);
            } else {
                assert(spaced == so_far + text(" "@));
            }
        }
        i += 1;
    }
}

fn display_pairs(entries: &Vec<(LispyType, LispyType)>, out: &mut Vec<Piece>)
    ensures
        piece_models(final(out)@) == piece_models(old(out)@) + display_entries(
            pair_forms(entries@),
            entries@.len(),
        ),
    decreases entries, 0nat,
{
    let ghost before = piece_models(out@);
    let ghost model = pair_forms(entries@);
    let mut i: usize = 0;
    assert(piece_models(out@) =~= before + display_entries(model, 0));
    while i < entries.len()
        invariant
            i <= entries.len(),
            model == pair_forms(entries@),
            piece_models(out@) == before + display_entries(model, i as nat),
        decreases entries.len() - i,
    {
        let ghost so_far = piece_models(out@);
        if i > 0 {
            push_text(out, " ");
        }
        let ghost spaced = piece_models(out@);
        display(&entries[i].0, out);
        let ghost keyed = piece_models(out@);
        push_text(out, " ");
        display(&entries[i].1, out);
        assert(piece_models(out@) == keyed + text(" "@) + display_model(model[i as int].1));
        assert(keyed == spaced + display_model(model[i as int].0));
        assert(piece_models(out@) =~= before + display_entries(model, (i + 1) as nat)) by {
            if i == 0 {
                assert(so_far =~= before);
            } else {
                assert(spaced == so_far + text(" "@));
            }
        }
        i += 1;
    }
}

/// Appends the display form of a value.
pub fn display(value: &LispyType, out: &mut Vec<Piece>)
    ensures
        piece_models(final(out)@) == piece_models(old(out)@) + display_model(value@),
    decreases value, 1nat,
{
    let ghost before = piece_models(out@);
    match value {
        LispyType::Nil { .. } => push_text(out, "nil"),
        LispyType::Bool { value: flag, .. } => {
            if *flag {
                push_text(out, "true")
            } else {
                push_text(out, "false")
            }
        },
        LispyType::Number { value: bits, .. } => {
            out.push(Piece::Number(*bits));
            assert(piece_models(out@) =~= before + seq![PieceModel::Number(*bits)]);
        },
        LispyType::Symbol { value: name, .. } => push_text(out, name.as_str()),
        LispyType::Keyword { value: name, .. } => push_text(out, name.as_str()),
        LispyType::String { value: content, .. } => {
            push_text(out, "\"");
            push_text(out, content.as_str());
            push_text(out, "\"");
            assert(piece_models(out@) =~= before + (text("\""@) + text(content@) + text("\""@)));
        },
        LispyType::List { collection, .. } => {
            push_text(out, "(");
            display_list(collection, out);
            push_text(out, ")");
            assert(value@->List_collection == forms(collection@));
            assert(piece_models(out@) =~= before + (text("("@) + display_items(
                forms(collection@),
                collection@.len(),
            ) + text(")"@)));
        },
        LispyType::Hash { collection, .. } => {
            push_text(out, "{");
            display_pairs(collection, out);
            push_text(out, "}");
            assert(value@->Hash_collection == pair_forms(collection@));
            assert(piece_models(out@) =~= before + (text("{"@) + display_entries(
                pair_forms(collection@),
                collection@.len(),
            ) + text("}"@)));
        },
        LispyType::Error { message, .. } => push_text(out, message.as_str()),
        LispyType::Function { .. } => push_text(out, "#<function>"),
        LispyType::Lambda { .. } => push_text(out, "#<lambda-function>"),
    }
}

/// The display forms of all the values, with nothing between them.
pub fn display_values(items: &Vec<LispyType>) -> (out: Vec<Piece>)
    ensures
        piece_models(out@) == display_all(forms(items@), items@.len()),
{
    let mut out: Vec<Piece> = Vec::new();
    let ghost model = forms(items@);
    let mut i: usize = 0;
    assert(piece_models(out@) =~= display_all(model, 0));
    while i < items.len()
        invariant
            i <= items.len(),
            model == forms(items@),
            piece_models(out@) == display_all(model, i as nat),
        decreases items.len() - i,
    {
        display(&items[i], &mut out);
        i += 1;
    }
    out
}

} // verus!
