//! What the machine does, as mathematics: a state is an arena of frames, a
//! control and a stack of continuations, and `MachineModel::step` says which
//! state follows which. The functions of the machine are verified against it.
//!
//! A form is evaluated in a frame. What is left to do with its value is put on
//! the stack before a part of it is evaluated, and taken off when the value of
//! the part is there. A form in tail position is evaluated with nothing put on
//! the stack: the body of a lambda, the branch of an `if`, the last form of a
//! `do`, the body of a `let*`, the handler of a `catch*`, and what `eval`,
//! `quasi-quote` and a macro give.

use vstd::prelude::*;
use crate::compiler::{count_numbers, read_model};
use crate::core_ns::native_model;
use crate::env::EnvModel;
use crate::equality::forms_equal;
use crate::errors::{
    incorrect_arity, incorrect_type, not_a_function, not_defined, system_error, too_short,
};
use crate::lexer::{tokens_of, TokenModel};
use crate::printer::PieceModel;
use crate::types::{
    error_form, hash_form, lambda_form, list_form, nil_form, number_form, string_form, symbol_form,
    truthy, Builtin, Form,
};

verus! {

/// Work that only the host of the machine can do.
pub ghost enum RequestModel {
    /// `left op right` on doubles given by their bit patterns.
    Arithmetic { op: Builtin, left: u64, right: u64 },
    /// The double nearest to `count`.
    NumberOfCount { count: usize },
    /// Writing the pieces, and a line end behind them if asked.
    Write { pieces: Seq<PieceModel>, newline: bool },
    /// The text of a file.
    ReadFile { path: Seq<char> },
    /// The doubles that the `Number` tokens spell.
    Numbers { tokens: Seq<TokenModel> },
    /// A call of a native of the host.
    Call { native: u32, args: Seq<Form> },
}

/// The host's answer to a request.
pub ghost enum ReplyModel {
    Number(u64),
    Written,
    File(Option<Seq<char>>),
    Numbers(Seq<u64>),
    Value(Form),
    Raised(Form),
}

/// What the machine is doing.
pub ghost enum ControlModel {
    /// Evaluating a form in a frame.
    Eval { expr: Form, frame: usize },
    /// Handing a value to the continuation on top of the stack.
    Value { value: Form },
    /// Handing a raised error down the stack.
    Raise { error: Form },
    /// Waiting for the host.
    Request { request: RequestModel },
}

/// What is left to do with a value once it is there.
#[allow(inconsistent_fields)]
pub ghost enum KontModel {
    /// The items of an application are evaluated left to right; `done` holds
    /// the values so far, the callee first.
    Items { items: Seq<Form>, done: Seq<Form>, frame: usize },
    /// The values of a hash are evaluated in order; `done` holds the entries
    /// so far.
    Entries { entries: Seq<(Form, Form)>, done: Seq<(Form, Form)>, frame: usize },
    /// `def!` binds the value under `key`.
    Define { key: Seq<char>, frame: usize },
    /// `defmacro!` binds the lambda under `key`, flagged as a macro.
    DefineMacro { key: Seq<char>, frame: usize },
    /// `let*` binds the value to the symbol at `index` of its bindings, in
    /// its own frame.
    Bind { bindings: Seq<Form>, index: nat, body: Form, frame: usize },
    /// `do` goes on behind the item at `next`.
    Sequence { items: Seq<Form>, next: nat, frame: usize },
    /// `if` picks a branch by the value of its condition.
    Branch { items: Seq<Form>, frame: usize },
    /// `eval` evaluates the value.
    Again { frame: usize },
    /// `throw` raises the value.
    Throw,
    /// `try*` lets a value pass and walks its catch clauses with an error.
    Try { items: Seq<Form>, frame: usize },
    /// Macro expansion looks at what the body of a macro gave: a macro call is
    /// expanded again, anything else is evaluated, or handed on as it stands
    /// where `evaluate` is not set.
    Expand { frame: usize, evaluate: bool },
    /// The forms of a source text, once read, are evaluated one after another.
    Program { frame: usize },
}

/// A state of the machine.
pub ghost struct MachineModel {
    pub env: EnvModel,
    pub control: ControlModel,
    pub stack: Seq<KontModel>,
}

/// The state that hands `value` to the stack.
pub open spec fn yields(env: EnvModel, stack: Seq<KontModel>, value: Form) -> MachineModel {
    MachineModel { env, control: ControlModel::Value { value }, stack }
}

/// The state that hands the raised `error` down the stack.
pub open spec fn raises(env: EnvModel, stack: Seq<KontModel>, error: Form) -> MachineModel {
    MachineModel { env, control: ControlModel::Raise { error }, stack }
}

/// The state that evaluates `expr` in `frame`.
pub open spec fn evaluates(env: EnvModel, stack: Seq<KontModel>, expr: Form, frame: usize)
    -> MachineModel {
    MachineModel { env, control: ControlModel::Eval { expr, frame }, stack }
}

/// A list of at least two items whose head is the symbol `name`.
pub open spec fn tagged(form: Form, name: Seq<char>) -> bool {
    form matches Form::List { collection, .. } && collection.len() >= 2 && (
    collection[0] matches Form::Symbol { value, .. } && value == name)
}

/// The second item of a list.
pub open spec fn second(form: Form) -> Form {
    form->List_collection[1]
}

/// The template that stands for `form` under `quasi-quote`: a form that, once
/// evaluated, builds `form` with its unquoted parts filled in.
pub open spec fn quasi_quote_model(form: Form) -> Form
    decreases form, 0nat,
{
    if tagged(form, "unquote"@) {
        second(form)
    } else {
        match form {
            Form::List { collection, .. } => quasi_quote_from(collection, 0),
            Form::Hash { .. } => list_form(seq![symbol_form("quote"@), form]),
            Form::Symbol { .. } => list_form(seq![symbol_form("quote"@), form]),
            _ => form,
        }
    }
}

/// The template for the items from `from` on: each item is put in front of the
/// template for those after it, with `concat` where it is spliced and with
/// `cons` where it is not.
pub open spec fn quasi_quote_from(items: Seq<Form>, from: nat) -> Form
    decreases items, items.len() - from,
{
    if from >= items.len() {
        list_form(Seq::empty())
    } else if tagged(items[from as int], "splice-unquote"@) {
        list_form(
            seq![
                symbol_form("concat"@),
                second(items[from as int]),
                quasi_quote_from(items, from + 1),
            ],
        )
    } else {
        list_form(
            seq![
                symbol_form("cons"@),
                quasi_quote_model(items[from as int]),
                quasi_quote_from(items, from + 1),
            ],
        )
    }
}

/// The items are not empty, and their head is a symbol that, seen from
/// `frame`, names a lambda flagged as a macro.
pub open spec fn heads_macro(items: Seq<Form>, env: EnvModel, frame: usize) -> bool {
    items.len() > 0 && (items[0] matches Form::Symbol { value, .. } && (env.lookup(
        frame,
        value,
    ) matches Some(Form::Lambda { is_macro: true, .. })))
}

/// A non-empty list whose head is a symbol that, seen from `frame`, names a
/// lambda flagged as a macro.
pub open spec fn is_macro_call_model(expr: Form, env: EnvModel, frame: usize) -> bool {
    expr matches Form::List { collection, .. } && heads_macro(collection, env, frame)
}

/// Where the parameter `&` stands first, if it occurs.
pub open spec fn spread_position(params: Seq<Form>) -> Option<int> {
    if exists|i: int| first_spread(params, i) {
        Some(choose|i: int| first_spread(params, i))
    } else {
        None
    }
}

/// The symbol `&`.
pub open spec fn is_spread(param: Form) -> bool {
    param matches Form::Symbol { value, .. } && value == "&"@
}

/// Parameter `i` is the first that is the symbol `&`.
pub open spec fn first_spread(params: Seq<Form>, i: int) -> bool {
    &&& 0 <= i < params.len()
    &&& is_spread(params[i])
    &&& forall|j: int| 0 <= j < i ==> !is_spread(#[trigger] params[j])
}

/// Every parameter is a symbol.
pub open spec fn all_symbols(params: Seq<Form>) -> bool {
    forall|i: int| 0 <= i < params.len() ==> (#[trigger] params[i]) is Symbol
}

/// The arena after the first `upto` parameters are bound, one after another,
/// to the arguments at their places.
pub open spec fn bind_each(
    env: EnvModel,
    frame: usize,
    params: Seq<Form>,
    args: Seq<Form>,
    upto: nat,
) -> EnvModel
    decreases upto,
{
    if upto == 0 || upto > params.len() || upto > args.len() {
        env
    } else {
        bind_each(env, frame, params, args, (upto - 1) as nat).bind(
            frame,
            params[upto - 1]->Symbol_value,
            args[upto - 1],
        )
    }
}

/// Applying a lambda: a fresh frame under the frame the lambda closes over,
/// with the parameters bound to the arguments. With `&` before the last
/// parameter, that parameter takes the list of the arguments that are left.
/// The result is the arena and the new frame, or the error that is raised.
pub open spec fn bind_parameters(env: EnvModel, params: Seq<Form>, args: Seq<Form>, captured: usize)
    -> Result<(EnvModel, usize), Form> {
    let frame = env.frames.len() as usize;
    match spread_position(params) {
        None => if params.len() != args.len() {
            Err(incorrect_arity("Wrong number of arguments"@))
        } else if !all_symbols(params) {
            Err(incorrect_type("Bindings should consist of symbols"@))
        } else {
            Ok((bind_each(env.push_frame(captured), frame, params, args, params.len()), frame))
        },
        Some(spread) => if spread + 2 != params.len() {
            Err(incorrect_type("& must be followed by exactly one symbol"@))
        } else if args.len() < spread {
            Err(incorrect_arity("Wrong number of arguments"@))
        } else if !all_symbols(params) {
            Err(incorrect_type("Bindings should consist of symbols"@))
        } else {
            Ok(
                (
                    bind_each(env.push_frame(captured), frame, params, args, spread as nat).bind(
                        frame,
                        params[spread + 1]->Symbol_value,
                        list_form(args.subrange(spread, args.len() as int)),
                    ),
                    frame,
                ),
            )
        },
    }
}

/// Applying the lambda `callee`: its body is evaluated next, in the new frame.
pub open spec fn apply_lambda_model(
    env: EnvModel,
    stack: Seq<KontModel>,
    callee: Form,
    args: Seq<Form>,
) -> MachineModel {
    match callee {
        Form::Lambda { bindings, to_eval, env: captured, .. } => match bind_parameters(
            env,
            bindings,
            args,
            captured,
        ) {
            Ok((bound, frame)) => evaluates(bound, stack, *to_eval, frame),
            Err(error) => raises(env, stack, error),
        },
        _ => raises(env, stack, not_a_function()),
    }
}

/// One round of macro expansion: the macro that the head of `items` names is
/// applied to the items after it, unevaluated, and what its body gives is
/// looked at again once it is there.
pub open spec fn expand_step(
    env: EnvModel,
    stack: Seq<KontModel>,
    items: Seq<Form>,
    frame: usize,
    evaluate: bool,
) -> MachineModel {
    match env.lookup(frame, items[0]->Symbol_value) {
        Some(callee) => apply_lambda_model(
            env,
            stack.push(KontModel::Expand { frame, evaluate }),
            callee,
            items.subrange(1, items.len() as int),
        ),
        None => raises(env, stack, not_defined(items[0]->Symbol_value)),
    }
}

/// Applying a native: with a fixed arity the number of arguments must be that
/// arity; then the native decides.
pub open spec fn apply_function_model(callee: Form, args: Seq<Form>) -> ControlModel {
    match callee {
        Form::Function { arity, func, .. } => if arity is Some && arity->0 != args.len() {
            ControlModel::Raise { error: incorrect_arity("Wrong number of arguments"@) }
        } else {
            native_model(func, args)
        },
        _ => ControlModel::Raise { error: not_a_function() },
    }
}

/// Applying a callee to arguments that have been evaluated: `values` holds the
/// callee and then the arguments.
pub open spec fn apply_step(env: EnvModel, stack: Seq<KontModel>, values: Seq<Form>)
    -> MachineModel {
    if values.len() == 0 {
        raises(env, stack, not_a_function())
    } else {
        let args = values.subrange(1, values.len() as int);
        match values[0] {
            Form::Function { .. } => MachineModel {
                env,
                control: apply_function_model(values[0], args),
                stack,
            },
            _ => apply_lambda_model(env, stack, values[0], args),
        }
    }
}

/// `let*` from the binding at `index` on: the value of the next binding is
/// evaluated in the new frame, or, with no binding left, the body is.
pub open spec fn bind_step(
    env: EnvModel,
    stack: Seq<KontModel>,
    bindings: Seq<Form>,
    index: nat,
    body: Form,
    frame: usize,
) -> MachineModel {
    if index + 2 > bindings.len() {
        evaluates(env, stack, body, frame)
    } else if !(bindings[index as int] is Symbol) {
        raises(env, stack, incorrect_type("let* bindings key must be a symbol"@))
    } else {
        evaluates(
            env,
            stack.push(KontModel::Bind { bindings, index, body, frame }),
            bindings[index as int + 1],
            frame,
        )
    }
}

/// `do` from the item at `next` on: the last item is evaluated in place of the
/// whole form, any other with the rest of the form still to come.
pub open spec fn sequence_step(
    env: EnvModel,
    stack: Seq<KontModel>,
    items: Seq<Form>,
    next: nat,
    frame: usize,
) -> MachineModel {
    if next >= items.len() {
        yields(env, stack, nil_form())
    } else if next + 1 == items.len() {
        evaluates(env, stack, items[next as int], frame)
    } else {
        evaluates(
            env,
            stack.push(KontModel::Sequence { items, next, frame }),
            items[next as int],
            frame,
        )
    }
}

/// The walk over the catch clauses of a `try*` form from `index` on, with
/// `raised` in hand: the first clause whose symbol names a value equal to
/// `raised` has its handler evaluated, in a fresh frame that binds the symbol
/// to `raised`. With no such clause `raised` is raised again.
pub open spec fn catch_step(
    env: EnvModel,
    stack: Seq<KontModel>,
    items: Seq<Form>,
    index: nat,
    raised: Form,
    frame: usize,
) -> MachineModel
    decreases items.len() - index,
{
    if index >= items.len() {
        raises(env, stack, raised)
    } else {
        match items[index as int] {
            Form::List { collection: clause, .. } => if clause.len() < 3 || !(clause[1]
                is Symbol) {
                raises(env, stack, incorrect_type("catch* takes a symbol and a handler"@))
            } else {
                let name = clause[1]->Symbol_value;
                match env.lookup(frame, name) {
                    None => raises(env, stack, not_defined(name)),
                    Some(template) => if forms_equal(template, raised) {
                        let child = env.frames.len() as usize;
                        evaluates(
                            env.push_frame(frame).bind(child, name, raised),
                            stack,
                            clause[2],
                            child,
                        )
                    } else {
                        catch_step(env, stack, items, index + 1, raised, frame)
                    },
                }
            },
            _ => raises(env, stack, incorrect_type("catch* takes a symbol and a handler"@)),
        }
    }
}

/// The special forms.
#[derive(Clone, Copy, Debug, PartialEq, Eq, Structural)]
pub enum Special {
    Def,
    DefMacro,
    DefError,
    Let,
    Do,
    If,
    Fn,
    Eval,
    Quote,
    QuasiQuoteExpand,
    QuasiQuote,
    MacroExpand,
    Throw,
    Try,
}

/// The special form that a symbol names, by exact match.
pub open spec fn special_of(name: Seq<char>) -> Option<Special> {
    if name == "def!"@ {
        Some(Special::Def)
    } else if name == "defmacro!"@ {
        Some(Special::DefMacro)
    } else if name == "deferror!"@ {
        Some(Special::DefError)
    } else if name == "let*"@ {
        Some(Special::Let)
    } else if name == "do"@ {
        Some(Special::Do)
    } else if name == "if"@ {
        Some(Special::If)
    } else if name == "fn*"@ {
        Some(Special::Fn)
    } else if name == "eval"@ {
        Some(Special::Eval)
    } else if name == "quote"@ {
        Some(Special::Quote)
    } else if name == "quasi-quote-expand"@ {
        Some(Special::QuasiQuoteExpand)
    } else if name == "quasi-quote"@ {
        Some(Special::QuasiQuote)
    } else if name == "macro-expand"@ {
        Some(Special::MacroExpand)
    } else if name == "throw"@ {
        Some(Special::Throw)
    } else if name == "try*"@ {
        Some(Special::Try)
    } else {
        None
    }
}

/// The special form at the head of a form, if its head is a symbol that names
/// one.
pub open spec fn special_head(head: Form) -> Option<Special> {
    match head {
        Form::Symbol { value, .. } => special_of(value),
        _ => None,
    }
}

/// The operands that a special form cannot do without.
pub open spec fn operands_needed(kind: Special) -> nat {
    match kind {
        Special::Def | Special::DefMacro | Special::DefError | Special::Let | Special::If
        | Special::Fn => 2,
        Special::Do => 0,
        _ => 1,
    }
}

/// A special form: `items` is the whole form, head included.
pub open spec fn special_step(
    env: EnvModel,
    stack: Seq<KontModel>,
    kind: Special,
    items: Seq<Form>,
    frame: usize,
) -> MachineModel {
    if items.len() < 1 + operands_needed(kind) {
        raises(env, stack, too_short())
    } else {
        match kind {
            Special::Def => if !(items[1] is Symbol) {
                raises(env, stack, incorrect_type("def! first arg must be a symbol"@))
            } else {
                evaluates(
                    env,
                    stack.push(KontModel::Define { key: items[1]->Symbol_value, frame }),
                    items[2],
                    frame,
                )
            },
            Special::DefMacro => if !(items[1] is Symbol) {
                raises(env, stack, incorrect_type("defmacro! first arg must be a symbol"@))
            } else {
                evaluates(
                    env,
                    stack.push(KontModel::DefineMacro { key: items[1]->Symbol_value, frame }),
                    items[2],
                    frame,
                )
            },
            Special::DefError => if !(items[1] is Symbol) || !(items[2] is String) {
                raises(env, stack, incorrect_type("deferror! takes a symbol and a string"@))
            } else {
                yields(
                    env.bind(
                        frame,
                        items[1]->Symbol_value,
                        error_form(items[2]->String_value, items[1]->Symbol_value),
                    ),
                    stack,
                    nil_form(),
                )
            },
            Special::Let => match items[1] {
                Form::List { collection: bindings, .. } => if bindings.len() % 2 != 0 {
                    raises(
                        env,
                        stack,
                        incorrect_type("let* first arg must be a list of key value pairs"@),
                    )
                } else {
                    bind_step(
                        env.push_frame(frame),
                        stack,
                        bindings,
                        0,
                        items[2],
                        env.frames.len() as usize,
                    )
                },
                _ => raises(
                    env,
                    stack,
                    incorrect_type("let* first arg must be a list of key value pairs"@),
                ),
            },
            Special::Do => sequence_step(env, stack, items, 1, frame),
            Special::If => evaluates(
                env,
                stack.push(KontModel::Branch { items, frame }),
                items[1],
                frame,
            ),
            Special::Fn => match items[1] {
                Form::List { collection: params, .. } => yields(
                    env,
                    stack,
                    lambda_form(params, items[2], frame, false),
                ),
                _ => raises(env, stack, incorrect_type("fn* first arg must be a list"@)),
            },
            Special::Eval => evaluates(
                env,
                stack.push(KontModel::Again { frame }),
                items[1],
                frame,
            ),
            Special::Quote => yields(env, stack, items[1]),
            Special::QuasiQuoteExpand => yields(env, stack, quasi_quote_model(items[1])),
            Special::QuasiQuote => evaluates(env, stack, quasi_quote_model(items[1]), frame),
            Special::MacroExpand => if is_macro_call_model(items[1], env, frame) {
                expand_step(env, stack, items[1]->List_collection, frame, false)
            } else {
                yields(env, stack, items[1])
            },
            Special::Throw => evaluates(env, stack.push(KontModel::Throw), items[1], frame),
            Special::Try => evaluates(
                env,
                stack.push(KontModel::Try { items, frame }),
                items[1],
                frame,
            ),
        }
    }
}

/// What follows when `expr` is to be evaluated in `frame`.
pub open spec fn eval_step(env: EnvModel, stack: Seq<KontModel>, expr: Form, frame: usize)
    -> MachineModel {
    match expr {
        Form::Symbol { value, .. } => match env.lookup(frame, value) {
            Some(found) => yields(env, stack, found),
            None => raises(env, stack, not_defined(value)),
        },
        Form::Hash { collection, .. } => if collection.len() == 0 {
            yields(env, stack, expr)
        } else {
            evaluates(
                env,
                stack.push(KontModel::Entries { entries: collection, done: Seq::empty(), frame }),
                collection[0].1,
                frame,
            )
        },
        Form::List { collection, .. } => if collection.len() == 0 {
            yields(env, stack, expr)
        } else if is_macro_call_model(expr, env, frame) {
            expand_step(env, stack, collection, frame, true)
        } else if special_head(collection[0]) is Some {
            special_step(env, stack, special_head(collection[0])->0, collection, frame)
        } else {
            evaluates(
                env,
                stack.push(KontModel::Items { items: collection, done: Seq::empty(), frame }),
                collection[0],
                frame,
            )
        },
        _ => yields(env, stack, expr),
    }
}

/// What follows when `value` arrives at the continuation `kont`, which has
/// been taken off the stack.
pub open spec fn return_step(env: EnvModel, stack: Seq<KontModel>, kont: KontModel, value: Form)
    -> MachineModel {
    match kont {
        KontModel::Items { items, done, frame } => {
            let values = done.push(value);
            if values.len() >= items.len() {
                apply_step(env, stack, values)
            } else {
                evaluates(
                    env,
                    stack.push(KontModel::Items { items, done: values, frame }),
                    items[values.len() as int],
                    frame,
                )
            }
        },
        KontModel::Entries { entries, done, frame } => if done.len() >= entries.len() {
            yields(env, stack, hash_form(done))
        } else {
            let evaluated = done.push((entries[done.len() as int].0, value));
            if evaluated.len() >= entries.len() {
                yields(env, stack, hash_form(evaluated))
            } else {
                evaluates(
                    env,
                    stack.push(KontModel::Entries { entries, done: evaluated, frame }),
                    entries[evaluated.len() as int].1,
                    frame,
                )
            }
        },
        KontModel::Define { key, frame } => yields(env.bind(frame, key, value), stack, value),
        KontModel::DefineMacro { key, frame } => match value {
            Form::Lambda { bindings, to_eval, env: captured, meta, .. } => {
                let flagged = Form::Lambda {
                    bindings,
                    to_eval,
                    env: captured,
                    is_macro: true,
                    meta,
                };
                yields(env.bind(frame, key, flagged), stack, flagged)
            },
            _ => raises(env, stack, incorrect_type("defmacro! second arg must be a lambda"@)),
        },
        KontModel::Bind { bindings, index, body, frame } => if index + 2 > bindings.len() || !(
        bindings[index as int] is Symbol) {
            evaluates(env, stack, body, frame)
        } else {
            bind_step(
                env.bind(frame, bindings[index as int]->Symbol_value, value),
                stack,
                bindings,
                index + 2,
                body,
                frame,
            )
        },
        KontModel::Sequence { items, next, frame } => if next >= items.len() {
            yields(env, stack, value)
        } else {
            sequence_step(env, stack, items, next + 1, frame)
        },
        KontModel::Branch { items, frame } => if truthy(value) && items.len() > 2 {
            evaluates(env, stack, items[2], frame)
        } else if !truthy(value) && items.len() > 3 {
            evaluates(env, stack, items[3], frame)
        } else {
            yields(env, stack, nil_form())
        },
        KontModel::Again { frame } => evaluates(env, stack, value, frame),
        KontModel::Throw => raises(env, stack, value),
        KontModel::Try { .. } => yields(env, stack, value),
        KontModel::Expand { frame, evaluate } => if is_macro_call_model(value, env, frame) {
            expand_step(env, stack, value->List_collection, frame, evaluate)
        } else if evaluate {
            evaluates(env, stack, value, frame)
        } else {
            yields(env, stack, value)
        },
        KontModel::Program { frame } => match value {
            Form::List { collection, .. } => sequence_step(env, stack, collection, 1, frame),
            _ => yields(env, stack, value),
        },
    }
}

/// What follows when `error` reaches the continuation `kont`, which has been
/// taken off the stack: a `try*` walks its catch clauses, anything else is
/// given up.
pub open spec fn raise_step(env: EnvModel, stack: Seq<KontModel>, kont: KontModel, error: Form)
    -> MachineModel {
    match kont {
        KontModel::Try { items, frame } => catch_step(env, stack, items, 2, error, frame),
        _ => raises(env, stack, error),
    }
}

/// What moves a machine on: a step of its own, or an answer of its host.
pub ghost enum Move {
    Step,
    Answer(ReplyModel),
}

/// As many steps as `count`, and no answer.
pub open spec fn steps_alone(count: nat) -> Seq<Move> {
    Seq::new(count, |i: int| Move::Step)
}

/// The state that an environment, a control and a stack make up.
pub open spec fn state(env: EnvModel, control: ControlModel, stack: Seq<KontModel>) -> MachineModel {
    MachineModel { env, control, stack }
}

impl MachineModel {
    /// The machine holds a result: a value or a raised error, with nothing
    /// left to do with it.
    pub open spec fn finished(self) -> bool {
        (self.control is Value || self.control is Raise) && self.stack.len() == 0
    }

    /// The machine waits for its host.
    pub open spec fn waiting(self) -> bool {
        self.control is Request
    }

    /// The machine does not move by itself.
    pub open spec fn halted(self) -> bool {
        self.finished() || self.waiting()
    }

    /// The state after one step. A halted machine stays as it is.
    pub open spec fn step(self) -> MachineModel {
        if self.halted() {
            self
        } else {
            match self.control {
                ControlModel::Eval { expr, frame } => eval_step(self.env, self.stack, expr, frame),
                ControlModel::Value { value } => return_step(
                    self.env,
                    self.stack.drop_last(),
                    self.stack.last(),
                    value,
                ),
                ControlModel::Raise { error } => raise_step(
                    self.env,
                    self.stack.drop_last(),
                    self.stack.last(),
                    error,
                ),
                ControlModel::Request { .. } => self,
            }
        }
    }

    /// The state after `steps` steps.
    pub open spec fn run(self, steps: nat) -> MachineModel
        decreases steps,
    {
        if steps == 0 {
            self
        } else {
            self.step().run((steps - 1) as nat)
        }
    }

    /// The state after a move: after a step, or after an answer of the host.
    /// An answer that the machine does not wait for leaves it as it is.
    pub open spec fn advance(self, by: Move) -> MachineModel {
        match by {
            Move::Step => self.step(),
            Move::Answer(reply) => match self.resume(reply) {
                Some(next) => next,
                None => self,
            },
        }
    }

    /// The state after the moves, one after another.
    pub open spec fn play(self, moves: Seq<Move>) -> MachineModel
        decreases moves.len(),
    {
        if moves.len() == 0 {
            self
        } else {
            self.advance(moves[0]).play(moves.drop_first())
        }
    }

    /// The machine set to evaluate `expr` in the frame its environment works
    /// on, with nothing else to do.
    pub open spec fn begin(self, expr: Form) -> MachineModel {
        evaluates(self.env, Seq::empty(), expr, self.env.current)
    }

    /// The machine set to run a source text in the frame its environment
    /// works on: the host is asked for the numbers that the text spells, and
    /// the forms that are read are then evaluated one after another. The
    /// result is that of the last form, or the first error that is raised and
    /// not caught.
    pub open spec fn execute(self, source: Seq<char>) -> MachineModel {
        MachineModel {
            env: self.env,
            control: ControlModel::Request {
                request: RequestModel::Numbers { tokens: tokens_of(source) },
            },
            stack: seq![KontModel::Program { frame: self.env.current }],
        }
    }

    /// The state after the host has answered, where the answer is of the kind
    /// that the request asks for; `None` where it is not, or where the machine
    /// asked for nothing.
    pub open spec fn resume(self, reply: ReplyModel) -> Option<MachineModel> {
        match self.control {
            ControlModel::Request { request } => match (request, reply) {
                (RequestModel::Arithmetic { .. }, ReplyModel::Number(bits)) => Some(
                    yields(self.env, self.stack, number_form(bits)),
                ),
                (RequestModel::NumberOfCount { .. }, ReplyModel::Number(bits)) => Some(
                    yields(self.env, self.stack, number_form(bits)),
                ),
                (RequestModel::Write { .. }, ReplyModel::Written) => Some(
                    yields(self.env, self.stack, nil_form()),
                ),
                (RequestModel::ReadFile { path }, ReplyModel::File(content)) => match content {
                    Some(text) => Some(yields(self.env, self.stack, string_form(text))),
                    None => Some(
                        raises(
                            self.env,
                            self.stack,
                            system_error("File "@ + path + " not found"@),
                        ),
                    ),
                },
                (RequestModel::Call { .. }, ReplyModel::Value(value)) => Some(
                    yields(self.env, self.stack, value),
                ),
                (RequestModel::Call { .. }, ReplyModel::Raised(error)) => Some(
                    raises(self.env, self.stack, error),
                ),
                (RequestModel::Numbers { tokens }, ReplyModel::Numbers(numbers)) => {
                    if numbers.len() != count_numbers(tokens) {
                        None
                    } else {
                        match read_model(tokens, numbers) {
                            Ok(program) => Some(
                                yields(
                                    self.env,
                                    self.stack,
                                    list_form(seq![symbol_form("do"@)] + program),
                                ),
                            ),
                            Err(error) => Some(raises(self.env, self.stack, error)),
                        }
                    }
                },
                _ => None,
            },
            _ => None,
        }
    }

    /// The same machine with more to do once it is done: `base` lies under
    /// its stack.
    pub open spec fn above(self, base: Seq<KontModel>) -> MachineModel {
        MachineModel { env: self.env, control: self.control, stack: base + self.stack }
    }

    /// The result of a finished machine.
    pub open spec fn result(self) -> Result<Form, Form> {
        match self.control {
            ControlModel::Raise { error } => Err(error),
            ControlModel::Value { value } => Ok(value),
            _ => Ok(nil_form()),
        }
    }
}

/// A halted machine stays as it is, however many steps it is given.
pub proof fn lemma_halted_stays(machine: MachineModel, steps: nat)
    requires
        machine.halted(),
    ensures
        machine.run(steps) == machine,
    decreases steps,
{
    if steps > 0 {
        lemma_halted_stays(machine, (steps - 1) as nat);
    }
}

/// Running `first` steps and then `then` more is running them all.
pub proof fn lemma_run_split(machine: MachineModel, first: nat, then: nat)
    ensures
        machine.run(first).run(then) == machine.run(first + then),
    decreases first,
{
    if first > 0 {
        lemma_run_split(machine.step(), (first - 1) as nat, then);
    }
}

/// A finished machine stays as it is, whatever the moves.
pub proof fn lemma_finished_stays(machine: MachineModel, moves: Seq<Move>)
    requires
        machine.finished(),
    ensures
        machine.play(moves) == machine,
    decreases moves.len(),
{
    if moves.len() > 0 {
        lemma_finished_stays(machine, moves.drop_first());
    }
}

/// Playing moves and then more moves is playing them all.
pub proof fn lemma_play_split(machine: MachineModel, first: Seq<Move>, then: Seq<Move>)
    ensures
        machine.play(first + then) == machine.play(first).play(then),
    decreases first.len(),
{
    if first.len() == 0 {
        assert(first + then =~= then);
    } else {
        assert((first + then).drop_first() =~= first.drop_first() + then);
        lemma_play_split(machine.advance(first[0]), first.drop_first(), then);
    }
}

/// One move played is the machine advanced by it.
pub proof fn lemma_play_one(machine: MachineModel, by: Move)
    ensures
        machine.play(seq![by]) == machine.advance(by),
{
    assert(seq![by].drop_first() =~= Seq::<Move>::empty());
    reveal_with_fuel(MachineModel::play, 2);
}

/// Steps alone played are the run of as many steps.
pub proof fn lemma_steps_alone(machine: MachineModel, count: nat)
    ensures
        machine.play(steps_alone(count)) == machine.run(count),
    decreases count,
{
    if count > 0 {
        assert(steps_alone(count).drop_first() =~= steps_alone((count - 1) as nat));
        lemma_steps_alone(machine.step(), (count - 1) as nat);
    }
}

} // verus!
