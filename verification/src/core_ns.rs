//! The core namespace: the natives that every root environment holds, and
//! what each of them does with its arguments.

use vstd::prelude::*;
use crate::env::{lemma_bind_wf, lemma_lookup_after_bind, EnvModel, LispyEnv};
use crate::equality::{forms_equal, values_equal};
use crate::errors::{incorrect_arity, incorrect_arity_error, incorrect_type, incorrect_type_error};
use crate::lexer::{tokenize, tokens_of};
use crate::machine::{Control, HostRequest};
use crate::number::{
    index_of_number, number_index, number_le, number_lt, numbers_less, numbers_less_or_equal,
};
use crate::printer::{display_all, display_values};
use crate::semantics::{ControlModel, RequestModel};
use crate::types::{
    bool_form, extend_cloned, forms, function_form, group_forms, length_of, list_form, nil_form,
    tail_cloned, Builtin, Form, LispyType,
};

verus! {

broadcast use group_forms;

/// The native gives a value.
pub open spec fn gives(value: Form) -> ControlModel {
    ControlModel::Value { value }
}

/// The native raises that the number of its arguments is wrong.
pub open spec fn wrong_count() -> ControlModel {
    ControlModel::Raise { error: incorrect_arity("Wrong number of arguments"@) }
}

/// The native raises that an argument is of the wrong variant.
pub open spec fn wrong_type(message: Seq<char>) -> ControlModel {
    ControlModel::Raise { error: incorrect_type(message) }
}

/// Every argument is a list.
pub open spec fn all_lists(args: Seq<Form>) -> bool {
    forall|i: int| 0 <= i < args.len() ==> (#[trigger] args[i]) is List
}

/// The items of the first `upto` arguments, which are lists, in one sequence.
pub open spec fn concat_model(args: Seq<Form>, upto: nat) -> Seq<Form>
    decreases upto,
{
    if upto == 0 || upto > args.len() {
        Seq::empty()
    } else {
        concat_model(args, (upto - 1) as nat) + args[upto - 1]->List_collection
    }
}

/// The four arithmetic natives: on two numbers the host computes; on anything
/// else the result is an error value, handed back as data.
pub open spec fn arithmetic_model(func: Builtin, args: Seq<Form>) -> ControlModel {
    if args.len() != 2 {
        wrong_count()
    } else {
        match (args[0], args[1]) {
            (Form::Number { value: left, .. }, Form::Number { value: right, .. }) => {
                ControlModel::Request {
                    request: RequestModel::Arithmetic { op: func, left, right },
                }
            },
            _ => gives(incorrect_type("+ only works with number vars"@)),
        }
    }
}

/// The four orderings: decided on two numbers, false on anything else.
pub open spec fn ordering_model(func: Builtin, args: Seq<Form>) -> ControlModel {
    if args.len() != 2 {
        wrong_count()
    } else {
        match (args[0], args[1]) {
            (Form::Number { value: left, .. }, Form::Number { value: right, .. }) => gives(
                bool_form(
                    match func {
                        Builtin::Greater => numbers_less(right, left),
                        Builtin::Less => numbers_less(left, right),
                        Builtin::GreaterOrEqual => numbers_less_or_equal(right, left),
                        _ => numbers_less_or_equal(left, right),
                    },
                ),
            ),
            _ => gives(bool_form(false)),
        }
    }
}

/// What a type predicate asks of its argument.
pub open spec fn predicate_model(func: Builtin, arg: Form) -> bool {
    match func {
        Builtin::IsNil => arg is Nil,
        Builtin::IsBool => arg is Bool,
        Builtin::IsSymbol => arg is Symbol,
        Builtin::IsNumber => arg is Number,
        Builtin::IsString => arg is String,
        Builtin::IsList => arg is List,
        Builtin::IsHash => arg is Hash,
        Builtin::IsFunction => arg is Function || arg is Lambda,
        _ => arg matches Form::Lambda { is_macro: true, .. },
    }
}

/// What a native does with its arguments: it gives a value, raises an error,
/// or asks the host.
pub open spec fn native_model(func: Builtin, args: Seq<Form>) -> ControlModel {
    match func {
        Builtin::Add | Builtin::Subtract | Builtin::Multiply | Builtin::Divide => arithmetic_model(
            func,
            args,
        ),
        Builtin::Greater | Builtin::Less | Builtin::GreaterOrEqual | Builtin::LessOrEqual => {
            ordering_model(func, args)
        },
        Builtin::Println => ControlModel::Request {
            request: RequestModel::Write { pieces: display_all(args, args.len()), newline: true },
        },
        Builtin::Print => ControlModel::Request {
            request: RequestModel::Write { pieces: display_all(args, args.len()), newline: false },
        },
        Builtin::List => gives(list_form(args)),
        Builtin::Count => if args.len() != 1 {
            wrong_count()
        } else {
            match length_of(args[0]) {
                Some(count) => ControlModel::Request {
                    request: RequestModel::NumberOfCount { count: count as usize },
                },
                None => wrong_type("Value does not have length"@),
            }
        },
        Builtin::Cons => if args.len() == 0 {
            wrong_count()
        } else {
            match args.last() {
                Form::List { collection, .. } => gives(list_form(args.drop_last() + collection)),
                _ => wrong_type("cons takes a list last"@),
            }
        },
        Builtin::Concat => if all_lists(args) {
            gives(list_form(concat_model(args, args.len())))
        } else {
            wrong_type("concat takes lists"@)
        },
        Builtin::First => if args.len() != 1 {
            wrong_count()
        } else {
            match args[0] {
                Form::List { collection, .. } => if collection.len() == 0 {
                    gives(nil_form())
                } else {
                    gives(collection[0])
                },
                _ => wrong_type("first takes a list"@),
            }
        },
        Builtin::Rest => if args.len() != 1 {
            wrong_count()
        } else {
            match args[0] {
                Form::List { collection, .. } => if collection.len() == 0 {
                    gives(list_form(Seq::empty()))
                } else {
                    gives(list_form(collection.subrange(1, collection.len() as int)))
                },
                _ => wrong_type("rest takes a list"@),
            }
        },
        Builtin::Nth => if args.len() != 2 {
            wrong_count()
        } else {
            match (args[0], args[1]) {
                (Form::List { collection, .. }, Form::Number { value, .. }) => match number_index(
                    value,
                ) {
                    Some(index) => if index < collection.len() {
                        gives(collection[index as int])
                    } else {
                        gives(nil_form())
                    },
                    None => gives(nil_form()),
                },
                _ => wrong_type("nth takes a list and a number"@),
            }
        },
        Builtin::Equal => if args.len() != 2 {
            wrong_count()
        } else {
            gives(bool_form(forms_equal(args[0], args[1])))
        },
        Builtin::CompileString => if args.len() != 1 {
            wrong_count()
        } else {
            match args[0] {
                Form::String { value, .. } => ControlModel::Request {
                    request: RequestModel::Numbers { tokens: tokens_of(value) },
                },
                _ => wrong_type("compile-string takes a string"@),
            }
        },
        Builtin::Slurp => if args.len() != 1 {
            wrong_count()
        } else {
            match args[0] {
                Form::String { value, .. } => ControlModel::Request {
                    request: RequestModel::ReadFile { path: value },
                },
                _ => wrong_type("slurp takes a string"@),
            }
        },
        Builtin::Host(native) => ControlModel::Request {
            request: RequestModel::Call { native, args },
        },
        _ => if args.len() != 1 {
            wrong_count()
        } else {
            gives(bool_form(predicate_model(func, args[0])))
        },
    }
}

fn wrong_count_raised() -> (control: Control)
    ensures
        control@ == wrong_count(),
{
    Control::Raise { error: incorrect_arity_error("Wrong number of arguments") }
}

fn wrong_type_raised(message: &str) -> (control: Control)
    ensures
        control@ == wrong_type(message@),
{
    Control::Raise { error: incorrect_type_error(message) }
}

fn given(value: LispyType) -> (control: Control)
    ensures
        control@ == gives(value@),
{
    Control::Value { value }
}

fn arithmetic(func: Builtin, args: &Vec<LispyType>) -> (control: Control)
    ensures
        control@ == arithmetic_model(func, forms(args@)),
{
    if args.len() != 2 {
        return wrong_count_raised();
    }
    match (&args[0], &args[1]) {
        (LispyType::Number { value: left, .. }, LispyType::Number { value: right, .. }) => {
            Control::Request {
                request: HostRequest::Arithmetic { op: func, left: *left, right: *right },
            }
        },
        _ => given(incorrect_type_error("+ only works with number vars")),
    }
}

fn ordering(func: Builtin, args: &Vec<LispyType>) -> (control: Control)
    ensures
        control@ == ordering_model(func, forms(args@)),
{
    if args.len() != 2 {
        return wrong_count_raised();
    }
    match (&args[0], &args[1]) {
        (LispyType::Number { value: left, .. }, LispyType::Number { value: right, .. }) => {
            let decided = match func {
                Builtin::Greater => number_lt(*right, *left),
                Builtin::Less => number_lt(*left, *right),
                Builtin::GreaterOrEqual => number_le(*right, *left),
                _ => number_le(*left, *right),
            };
            given(LispyType::create_bool(decided))
        },
        _ => given(LispyType::create_bool(false)),
    }
}

fn predicate(func: Builtin, arg: &LispyType) -> (r: bool)
    ensures
        r == predicate_model(func, arg@),
{
    match func {
        Builtin::IsNil => arg.is_nil(),
        Builtin::IsBool => arg.is_bool(),
        Builtin::IsSymbol => arg.is_symbol(),
        Builtin::IsNumber => arg.is_number(),
        Builtin::IsString => arg.is_string(),
        Builtin::IsList => arg.is_list(),
        Builtin::IsHash => arg.is_hash(),
        Builtin::IsFunction => arg.is_function(),
        _ => arg.is_macro(),
    }
}

fn cons(args: &Vec<LispyType>) -> (control: Control)
    ensures
        control@ == native_model(Builtin::Cons, forms(args@)),
{
    if args.len() == 0 {
        return wrong_count_raised();
    }
    let last = args.len() - 1;
    match &args[last] {
        LispyType::List { collection, .. } => {
            let mut items: Vec<LispyType> = Vec::new();
            assert(forms(items@) =~= Seq::<Form>::empty());
            extend_cloned(&mut items, args, 0, last);
            extend_cloned(&mut items, collection, 0, collection.len());
            assert(forms(args@).last()->List_collection == forms(collection@));
            assert(forms(items@) =~= forms(args@).drop_last() + forms(collection@));
            given(LispyType::create_list(items))
        },
        _ => wrong_type_raised("cons takes a list last"),
    }
}

fn concat(args: &Vec<LispyType>) -> (control: Control)
    ensures
        control@ == native_model(Builtin::Concat, forms(args@)),
{
    let ghost model = forms(args@);
    let mut items: Vec<LispyType> = Vec::new();
    let mut i: usize = 0;
    assert(forms(items@) =~= concat_model(model, 0));
    while i < args.len()
        invariant
            i <= args.len(),
            model == forms(args@),
            forms(items@) == concat_model(model, i as nat),
            forall|j: int| 0 <= j < i ==> (#[trigger] model[j]) is List,
        decreases args.len() - i,
    {
        match &args[i] {
            LispyType::List { collection, .. } => {
                assert(model[i as int]->List_collection == forms(collection@));
                extend_cloned(&mut items, collection, 0, collection.len());
                assert(forms(items@) =~= concat_model(model, (i + 1) as nat));
            },
            _ => {
                assert(!(model[i as int] is List));
                return wrong_type_raised("concat takes lists");
            },
        }
        i += 1;
    }
    given(LispyType::create_list(items))
}

fn first(args: &Vec<LispyType>) -> (control: Control)
    ensures
        control@ == native_model(Builtin::First, forms(args@)),
{
    if args.len() != 1 {
        return wrong_count_raised();
    }
    match &args[0] {
        LispyType::List { collection, .. } => {
            assert(forms(args@)[0]->List_collection == forms(collection@));
            if collection.len() == 0 {
                given(LispyType::create_nil())
            } else {
                given(collection[0].clone())
            }
        },
        _ => wrong_type_raised("first takes a list"),
    }
}

fn rest(args: &Vec<LispyType>) -> (control: Control)
    ensures
        control@ == native_model(Builtin::Rest, forms(args@)),
{
    if args.len() != 1 {
        return wrong_count_raised();
    }
    match &args[0] {
        LispyType::List { collection, .. } => {
            assert(forms(args@)[0]->List_collection == forms(collection@));
            if collection.len() == 0 {
                let empty: Vec<LispyType> = Vec::new();
                assert(forms(empty@) =~= Seq::<Form>::empty());
                given(LispyType::create_list(empty))
            } else {
                given(LispyType::create_list(tail_cloned(collection, 1)))
            }
        },
        _ => wrong_type_raised("rest takes a list"),
    }
}

fn nth(args: &Vec<LispyType>) -> (control: Control)
    ensures
        control@ == native_model(Builtin::Nth, forms(args@)),
{
    if args.len() != 2 {
        return wrong_count_raised();
    }
    match (&args[0], &args[1]) {
        (LispyType::List { collection, .. }, LispyType::Number { value, .. }) => {
            assert(forms(args@)[0]->List_collection == forms(collection@));
            match index_of_number(*value) {
                Some(index) => {
                    if index < collection.len() as u64 {
                        given(collection[index as usize].clone())
                    } else {
                        given(LispyType::create_nil())
                    }
                },
                None => given(LispyType::create_nil()),
            }
        },
        _ => wrong_type_raised("nth takes a list and a number"),
    }
}

/// Runs a native on its arguments.
pub fn call_native(func: Builtin, args: Vec<LispyType>) -> (control: Control)
    ensures
        control@ == native_model(func, forms(args@)),
{
    match func {
        Builtin::Add | Builtin::Subtract | Builtin::Multiply | Builtin::Divide => arithmetic(
            func,
            &args,
        ),
        Builtin::Greater | Builtin::Less | Builtin::GreaterOrEqual | Builtin::LessOrEqual => {
            ordering(func, &args)
        },
        Builtin::Println => Control::Request {
            request: HostRequest::Write { pieces: display_values(&args), newline: true },
        },
        Builtin::Print => Control::Request {
            request: HostRequest::Write { pieces: display_values(&args), newline: false },
        },
        Builtin::List => given(LispyType::create_list(args)),
        Builtin::Count => {
            if args.len() != 1 {
                return wrong_count_raised();
            }
            match args[0].len() {
                Some(count) => Control::Request { request: HostRequest::NumberOfCount { count } },
                None => wrong_type_raised("Value does not have length"),
            }
        },
        Builtin::Cons => cons(&args),
        Builtin::Concat => concat(&args),
        Builtin::First => first(&args),
        Builtin::Rest => rest(&args),
        Builtin::Nth => nth(&args),
        Builtin::Equal => {
            if args.len() != 2 {
                return wrong_count_raised();
            }
            given(LispyType::create_bool(values_equal(&args[0], &args[1])))
        },
        Builtin::CompileString => {
            if args.len() != 1 {
                return wrong_count_raised();
            }
            match &args[0] {
                LispyType::String { value, .. } => Control::Request {
                    request: HostRequest::Numbers { tokens: tokenize(value.as_str()) },
                },
                _ => wrong_type_raised("compile-string takes a string"),
            }
        },
        Builtin::Slurp => {
            if args.len() != 1 {
                return wrong_count_raised();
            }
            match &args[0] {
                LispyType::String { value, .. } => Control::Request {
                    request: HostRequest::ReadFile { path: value.clone() },
                },
                _ => wrong_type_raised("slurp takes a string"),
            }
        },
        Builtin::Host(native) => Control::Request { request: HostRequest::Call { native, args } },
        _ => {
            if args.len() != 1 {
                return wrong_count_raised();
            }
            given(LispyType::create_bool(predicate(func, &args[0])))
        },
    }
}

/// An environment after a native is bound in the frame it works on.
pub open spec fn with_native(env: EnvModel, name: Seq<char>, arity: Option<i32>, func: Builtin)
    -> EnvModel {
    env.bind(env.current, name, function_form(arity, func))
}

/// An environment after the core namespace is installed in the frame it works
/// on: every native bound under its name, with its arity where it has a fixed
/// one.
pub open spec fn with_core_ns(env: EnvModel) -> EnvModel {
    let env = with_native(env, "+"@, Some(2), Builtin::Add);
    let env = with_native(env, "-"@, Some(2), Builtin::Subtract);
    let env = with_native(env, "*"@, Some(2), Builtin::Multiply);
    let env = with_native(env, "/"@, Some(2), Builtin::Divide);
    let env = with_native(env, "println"@, None, Builtin::Println);
    let env = with_native(env, "print"@, None, Builtin::Print);
    let env = with_native(env, "list"@, None, Builtin::List);
    let env = with_native(env, "count"@, Some(1), Builtin::Count);
    let env = with_native(env, "cons"@, None, Builtin::Cons);
    let env = with_native(env, "concat"@, None, Builtin::Concat);
    let env = with_native(env, "first"@, Some(1), Builtin::First);
    let env = with_native(env, "rest"@, Some(1), Builtin::Rest);
    let env = with_native(env, "nth"@, Some(2), Builtin::Nth);
    let env = with_native(env, "nil?"@, Some(1), Builtin::IsNil);
    let env = with_native(env, "bool?"@, Some(1), Builtin::IsBool);
    let env = with_native(env, "symbol?"@, Some(1), Builtin::IsSymbol);
    let env = with_native(env, "number?"@, Some(1), Builtin::IsNumber);
    let env = with_native(env, "string?"@, Some(1), Builtin::IsString);
    let env = with_native(env, "list?"@, Some(1), Builtin::IsList);
    let env = with_native(env, "hash?"@, Some(1), Builtin::IsHash);
    let env = with_native(env, "function?"@, Some(1), Builtin::IsFunction);
    let env = with_native(env, "macro?"@, Some(1), Builtin::IsMacro);
    let env = with_native(env, "="@, Some(2), Builtin::Equal);
    let env = with_native(env, ">"@, Some(2), Builtin::Greater);
    let env = with_native(env, "<"@, Some(2), Builtin::Less);
    let env = with_native(env, ">="@, Some(2), Builtin::GreaterOrEqual);
    let env = with_native(env, "<="@, Some(2), Builtin::LessOrEqual);
    let env = with_native(env, "compile-string"@, Some(1), Builtin::CompileString);
    let env = with_native(env, "slurp"@, Some(1), Builtin::Slurp);
    env
}

/// What the core namespace binds a name to.
pub open spec fn core_binding(name: Seq<char>) -> Option<Form> {
    if name == "slurp"@ {
        Some(function_form(Some(1), Builtin::Slurp))
    } else if name == "compile-string"@ {
        Some(function_form(Some(1), Builtin::CompileString))
    } else if name == "<="@ {
        Some(function_form(Some(2), Builtin::LessOrEqual))
    } else if name == ">="@ {
        Some(function_form(Some(2), Builtin::GreaterOrEqual))
    } else if name == "<"@ {
        Some(function_form(Some(2), Builtin::Less))
    } else if name == ">"@ {
        Some(function_form(Some(2), Builtin::Greater))
    } else if name == "="@ {
        Some(function_form(Some(2), Builtin::Equal))
    } else if name == "macro?"@ {
        Some(function_form(Some(1), Builtin::IsMacro))
    } else if name == "function?"@ {
        Some(function_form(Some(1), Builtin::IsFunction))
    } else if name == "hash?"@ {
        Some(function_form(Some(1), Builtin::IsHash))
    } else if name == "list?"@ {
        Some(function_form(Some(1), Builtin::IsList))
    } else if name == "string?"@ {
        Some(function_form(Some(1), Builtin::IsString))
    } else if name == "number?"@ {
        Some(function_form(Some(1), Builtin::IsNumber))
    } else if name == "symbol?"@ {
        Some(function_form(Some(1), Builtin::IsSymbol))
    } else if name == "bool?"@ {
        Some(function_form(Some(1), Builtin::IsBool))
    } else if name == "nil?"@ {
        Some(function_form(Some(1), Builtin::IsNil))
    } else if name == "nth"@ {
        Some(function_form(Some(2), Builtin::Nth))
    } else if name == "rest"@ {
        Some(function_form(Some(1), Builtin::Rest))
    } else if name == "first"@ {
        Some(function_form(Some(1), Builtin::First))
    } else if name == "concat"@ {
        Some(function_form(None, Builtin::Concat))
    } else if name == "cons"@ {
        Some(function_form(None, Builtin::Cons))
    } else if name == "count"@ {
        Some(function_form(Some(1), Builtin::Count))
    } else if name == "list"@ {
        Some(function_form(None, Builtin::List))
    } else if name == "print"@ {
        Some(function_form(None, Builtin::Print))
    } else if name == "println"@ {
        Some(function_form(None, Builtin::Println))
    } else if name == "/"@ {
        Some(function_form(Some(2), Builtin::Divide))
    } else if name == "*"@ {
        Some(function_form(Some(2), Builtin::Multiply))
    } else if name == "-"@ {
        Some(function_form(Some(2), Builtin::Subtract))
    } else if name == "+"@ {
        Some(function_form(Some(2), Builtin::Add))
    } else {
        None
    }
}

/// Once the core namespace is installed in a frame, the frame holds under
/// each of its names what `core_binding` says, and every other name is seen
/// from the frame as before.
pub proof fn law_core_ns_bindings(env: EnvModel, name: Seq<char>)
    requires
        env.current < env.frames.len(),
    ensures
        with_core_ns(env).lookup(env.current, name) == match core_binding(name) {
            Some(native) => Some(native),
            None => env.lookup(env.current, name),
        },
{
    let frame = env.current;
    let e0 = env;
    lemma_lookup_after_bind(e0, frame, "+"@, function_form(Some(2), Builtin::Add), name);
    let e1 = with_native(e0, "+"@, Some(2), Builtin::Add);
    lemma_lookup_after_bind(e1, frame, "-"@, function_form(Some(2), Builtin::Subtract), name);
    let e2 = with_native(e1, "-"@, Some(2), Builtin::Subtract);
    lemma_lookup_after_bind(e2, frame, "*"@, function_form(Some(2), Builtin::Multiply), name);
    let e3 = with_native(e2, "*"@, Some(2), Builtin::Multiply);
    lemma_lookup_after_bind(e3, frame, "/"@, function_form(Some(2), Builtin::Divide), name);
    let e4 = with_native(e3, "/"@, Some(2), Builtin::Divide);
    lemma_lookup_after_bind(e4, frame, "println"@, function_form(None, Builtin::Println), name);
    let e5 = with_native(e4, "println"@, None, Builtin::Println);
    lemma_lookup_after_bind(e5, frame, "print"@, function_form(None, Builtin::Print), name);
    let e6 = with_native(e5, "print"@, None, Builtin::Print);
    lemma_lookup_after_bind(e6, frame, "list"@, function_form(None, Builtin::List), name);
    let e7 = with_native(e6, "list"@, None, Builtin::List);
    lemma_lookup_after_bind(e7, frame, "count"@, function_form(Some(1), Builtin::Count), name);
    let e8 = with_native(e7, "count"@, Some(1), Builtin::Count);
    lemma_lookup_after_bind(e8, frame, "cons"@, function_form(None, Builtin::Cons), name);
    let e9 = with_native(e8, "cons"@, None, Builtin::Cons);
    lemma_lookup_after_bind(e9, frame, "concat"@, function_form(None, Builtin::Concat), name);
    let e10 = with_native(e9, "concat"@, None, Builtin::Concat);
    lemma_lookup_after_bind(e10, frame, "first"@, function_form(Some(1), Builtin::First), name);
    let e11 = with_native(e10, "first"@, Some(1), Builtin::First);
    lemma_lookup_after_bind(e11, frame, "rest"@, function_form(Some(1), Builtin::Rest), name);
    let e12 = with_native(e11, "rest"@, Some(1), Builtin::Rest);
    lemma_lookup_after_bind(e12, frame, "nth"@, function_form(Some(2), Builtin::Nth), name);
    let e13 = with_native(e12, "nth"@, Some(2), Builtin::Nth);
    lemma_lookup_after_bind(e13, frame, "nil?"@, function_form(Some(1), Builtin::IsNil), name);
    let e14 = with_native(e13, "nil?"@, Some(1), Builtin::IsNil);
    lemma_lookup_after_bind(e14, frame, "bool?"@, function_form(Some(1), Builtin::IsBool), name);
    let e15 = with_native(e14, "bool?"@, Some(1), Builtin::IsBool);
    lemma_lookup_after_bind(e15, frame, "symbol?"@, function_form(Some(1), Builtin::IsSymbol), name);
    let e16 = with_native(e15, "symbol?"@, Some(1), Builtin::IsSymbol);
    lemma_lookup_after_bind(e16, frame, "number?"@, function_form(Some(1), Builtin::IsNumber), name);
    let e17 = with_native(e16, "number?"@, Some(1), Builtin::IsNumber);
    lemma_lookup_after_bind(e17, frame, "string?"@, function_form(Some(1), Builtin::IsString), name);
    let e18 = with_native(e17, "string?"@, Some(1), Builtin::IsString);
    lemma_lookup_after_bind(e18, frame, "list?"@, function_form(Some(1), Builtin::IsList), name);
    let e19 = with_native(e18, "list?"@, Some(1), Builtin::IsList);
    lemma_lookup_after_bind(e19, frame, "hash?"@, function_form(Some(1), Builtin::IsHash), name);
    let e20 = with_native(e19, "hash?"@, Some(1), Builtin::IsHash);
    lemma_lookup_after_bind(e20, frame, "function?"@, function_form(Some(1), Builtin::IsFunction), name);
    let e21 = with_native(e20, "function?"@, Some(1), Builtin::IsFunction);
    lemma_lookup_after_bind(e21, frame, "macro?"@, function_form(Some(1), Builtin::IsMacro), name);
    let e22 = with_native(e21, "macro?"@, Some(1), Builtin::IsMacro);
    lemma_lookup_after_bind(e22, frame, "="@, function_form(Some(2), Builtin::Equal), name);
    let e23 = with_native(e22, "="@, Some(2), Builtin::Equal);
    lemma_lookup_after_bind(e23, frame, ">"@, function_form(Some(2), Builtin::Greater), name);
    let e24 = with_native(e23, ">"@, Some(2), Builtin::Greater);
    lemma_lookup_after_bind(e24, frame, "<"@, function_form(Some(2), Builtin::Less), name);
    let e25 = with_native(e24, "<"@, Some(2), Builtin::Less);
    lemma_lookup_after_bind(e25, frame, ">="@, function_form(Some(2), Builtin::GreaterOrEqual), name);
    let e26 = with_native(e25, ">="@, Some(2), Builtin::GreaterOrEqual);
    lemma_lookup_after_bind(e26, frame, "<="@, function_form(Some(2), Builtin::LessOrEqual), name);
    let e27 = with_native(e26, "<="@, Some(2), Builtin::LessOrEqual);
    lemma_lookup_after_bind(e27, frame, "compile-string"@, function_form(Some(1), Builtin::CompileString), name);
    let e28 = with_native(e27, "compile-string"@, Some(1), Builtin::CompileString);
    lemma_lookup_after_bind(e28, frame, "slurp"@, function_form(Some(1), Builtin::Slurp), name);
    let e29 = with_native(e28, "slurp"@, Some(1), Builtin::Slurp);
}

/// Installing the core namespace keeps the keys of every frame distinct.
pub proof fn lemma_core_ns_wf(env: EnvModel)
    requires
        env.wf(),
    ensures
        with_core_ns(env).wf(),
{
    let frame = env.current;
    let e0 = env;
    lemma_bind_wf(e0, frame, "+"@, function_form(Some(2), Builtin::Add));
    let e1 = with_native(e0, "+"@, Some(2), Builtin::Add);
    lemma_bind_wf(e1, frame, "-"@, function_form(Some(2), Builtin::Subtract));
    let e2 = with_native(e1, "-"@, Some(2), Builtin::Subtract);
    lemma_bind_wf(e2, frame, "*"@, function_form(Some(2), Builtin::Multiply));
    let e3 = with_native(e2, "*"@, Some(2), Builtin::Multiply);
    lemma_bind_wf(e3, frame, "/"@, function_form(Some(2), Builtin::Divide));
    let e4 = with_native(e3, "/"@, Some(2), Builtin::Divide);
    lemma_bind_wf(e4, frame, "println"@, function_form(None, Builtin::Println));
    let e5 = with_native(e4, "println"@, None, Builtin::Println);
    lemma_bind_wf(e5, frame, "print"@, function_form(None, Builtin::Print));
    let e6 = with_native(e5, "print"@, None, Builtin::Print);
    lemma_bind_wf(e6, frame, "list"@, function_form(None, Builtin::List));
    let e7 = with_native(e6, "list"@, None, Builtin::List);
    lemma_bind_wf(e7, frame, "count"@, function_form(Some(1), Builtin::Count));
    let e8 = with_native(e7, "count"@, Some(1), Builtin::Count);
    lemma_bind_wf(e8, frame, "cons"@, function_form(None, Builtin::Cons));
    let e9 = with_native(e8, "cons"@, None, Builtin::Cons);
    lemma_bind_wf(e9, frame, "concat"@, function_form(None, Builtin::Concat));
    let e10 = with_native(e9, "concat"@, None, Builtin::Concat);
    lemma_bind_wf(e10, frame, "first"@, function_form(Some(1), Builtin::First));
    let e11 = with_native(e10, "first"@, Some(1), Builtin::First);
    lemma_bind_wf(e11, frame, "rest"@, function_form(Some(1), Builtin::Rest));
    let e12 = with_native(e11, "rest"@, Some(1), Builtin::Rest);
    lemma_bind_wf(e12, frame, "nth"@, function_form(Some(2), Builtin::Nth));
    let e13 = with_native(e12, "nth"@, Some(2), Builtin::Nth);
    lemma_bind_wf(e13, frame, "nil?"@, function_form(Some(1), Builtin::IsNil));
    let e14 = with_native(e13, "nil?"@, Some(1), Builtin::IsNil);
    lemma_bind_wf(e14, frame, "bool?"@, function_form(Some(1), Builtin::IsBool));
    let e15 = with_native(e14, "bool?"@, Some(1), Builtin::IsBool);
    lemma_bind_wf(e15, frame, "symbol?"@, function_form(Some(1), Builtin::IsSymbol));
    let e16 = with_native(e15, "symbol?"@, Some(1), Builtin::IsSymbol);
    lemma_bind_wf(e16, frame, "number?"@, function_form(Some(1), Builtin::IsNumber));
    let e17 = with_native(e16, "number?"@, Some(1), Builtin::IsNumber);
    lemma_bind_wf(e17, frame, "string?"@, function_form(Some(1), Builtin::IsString));
    let e18 = with_native(e17, "string?"@, Some(1), Builtin::IsString);
    lemma_bind_wf(e18, frame, "list?"@, function_form(Some(1), Builtin::IsList));
    let e19 = with_native(e18, "list?"@, Some(1), Builtin::IsList);
    lemma_bind_wf(e19, frame, "hash?"@, function_form(Some(1), Builtin::IsHash));
    let e20 = with_native(e19, "hash?"@, Some(1), Builtin::IsHash);
    lemma_bind_wf(e20, frame, "function?"@, function_form(Some(1), Builtin::IsFunction));
    let e21 = with_native(e20, "function?"@, Some(1), Builtin::IsFunction);
    lemma_bind_wf(e21, frame, "macro?"@, function_form(Some(1), Builtin::IsMacro));
    let e22 = with_native(e21, "macro?"@, Some(1), Builtin::IsMacro);
    lemma_bind_wf(e22, frame, "="@, function_form(Some(2), Builtin::Equal));
    let e23 = with_native(e22, "="@, Some(2), Builtin::Equal);
    lemma_bind_wf(e23, frame, ">"@, function_form(Some(2), Builtin::Greater));
    let e24 = with_native(e23, ">"@, Some(2), Builtin::Greater);
    lemma_bind_wf(e24, frame, "<"@, function_form(Some(2), Builtin::Less));
    let e25 = with_native(e24, "<"@, Some(2), Builtin::Less);
    lemma_bind_wf(e25, frame, ">="@, function_form(Some(2), Builtin::GreaterOrEqual));
    let e26 = with_native(e25, ">="@, Some(2), Builtin::GreaterOrEqual);
    lemma_bind_wf(e26, frame, "<="@, function_form(Some(2), Builtin::LessOrEqual));
    let e27 = with_native(e26, "<="@, Some(2), Builtin::LessOrEqual);
    lemma_bind_wf(e27, frame, "compile-string"@, function_form(Some(1), Builtin::CompileString));
    let e28 = with_native(e27, "compile-string"@, Some(1), Builtin::CompileString);
    lemma_bind_wf(e28, frame, "slurp"@, function_form(Some(1), Builtin::Slurp));
    let e29 = with_native(e28, "slurp"@, Some(1), Builtin::Slurp);
}

/// Installs the core namespace in the frame that `env` works on.
pub fn apply_core_ns(env: &mut LispyEnv)
    ensures
        final(env)@ == with_core_ns(old(env)@),
        old(env)@.wf() ==> final(env)@.wf(),
{
    env.set("+", LispyType::create_function(Some(2), Builtin::Add));
    env.set("-", LispyType::create_function(Some(2), Builtin::Subtract));
    env.set("*", LispyType::create_function(Some(2), Builtin::Multiply));
    env.set("/", LispyType::create_function(Some(2), Builtin::Divide));
    env.set("println", LispyType::create_function(None, Builtin::Println));
    env.set("print", LispyType::create_function(None, Builtin::Print));
    env.set("list", LispyType::create_function(None, Builtin::List));
    env.set("count", LispyType::create_function(Some(1), Builtin::Count));
    env.set("cons", LispyType::create_function(None, Builtin::Cons));
    env.set("concat", LispyType::create_function(None, Builtin::Concat));
    env.set("first", LispyType::create_function(Some(1), Builtin::First));
    env.set("rest", LispyType::create_function(Some(1), Builtin::Rest));
    env.set("nth", LispyType::create_function(Some(2), Builtin::Nth));
    env.set("nil?", LispyType::create_function(Some(1), Builtin::IsNil));
    env.set("bool?", LispyType::create_function(Some(1), Builtin::IsBool));
    env.set("symbol?", LispyType::create_function(Some(1), Builtin::IsSymbol));
    env.set("number?", LispyType::create_function(Some(1), Builtin::IsNumber));
    env.set("string?", LispyType::create_function(Some(1), Builtin::IsString));
    env.set("list?", LispyType::create_function(Some(1), Builtin::IsList));
    env.set("hash?", LispyType::create_function(Some(1), Builtin::IsHash));
    env.set("function?", LispyType::create_function(Some(1), Builtin::IsFunction));
    env.set("macro?", LispyType::create_function(Some(1), Builtin::IsMacro));
    env.set("=", LispyType::create_function(Some(2), Builtin::Equal));
    env.set(">", LispyType::create_function(Some(2), Builtin::Greater));
    env.set("<", LispyType::create_function(Some(2), Builtin::Less));
    env.set(">=", LispyType::create_function(Some(2), Builtin::GreaterOrEqual));
    env.set("<=", LispyType::create_function(Some(2), Builtin::LessOrEqual));
    env.set("compile-string", LispyType::create_function(Some(1), Builtin::CompileString));
    env.set("slurp", LispyType::create_function(Some(1), Builtin::Slurp));
}

} // verus!
