//! The steps of the machine, one function for each kind of step.

use vstd::prelude::*;
use crate::core_ns::call_native;
use crate::env::{EnvModel, LispyEnv};
use crate::equality::values_equal;
use crate::errors::{
    incorrect_arity_error, incorrect_type, incorrect_type_error, not_a_function,
    not_a_function_error, not_defined_error, too_short_error,
};
use crate::machine::{kont_models, Control, Kont};
use crate::semantics::{
    all_symbols, apply_function_model, apply_lambda_model, apply_step, bind_each, bind_parameters,
    bind_step, catch_step, eval_step, expand_step, first_spread, heads_macro, is_spread,
    quasi_quote_from, quasi_quote_model, raise_step, return_step, second, sequence_step,
    special_head, special_step, spread_position, state, tagged, KontModel, Special,
};
use crate::types::{
    clone_items, forms, group_forms, list_form, pair_forms, symbol_form, tail_cloned, Form,
    LispyType,
};

verus! {

broadcast use group_forms;

/// Puts a continuation on the stack.
pub fn push_kont(stack: &mut Vec<Kont>, kont: Kont)
    ensures
        kont_models(final(stack)@) == kont_models(old(stack)@).push(kont@),
{
    stack.push(kont);
    assert(kont_models(stack@) =~= kont_models(old(stack)@).push(kont@));
}

/// Takes the top continuation off the stack.
pub fn pop_kont(stack: &mut Vec<Kont>) -> (kont: Kont)
    requires
        old(stack)@.len() > 0,
    ensures
        kont@ == kont_models(old(stack)@).last(),
        kont_models(final(stack)@) == kont_models(old(stack)@).drop_last(),
{
    let kont = stack.pop().unwrap();
    assert(kont_models(stack@) =~= kont_models(old(stack)@).drop_last());
    kont
}

/// Whether a form is a list of at least two items under the symbol `name`.
pub fn is_tagged(form: &LispyType, name: &str) -> (r: bool)
    ensures
        r == tagged(form@, name@),
{
    match form {
        LispyType::List { collection, .. } => {
            assert(form@->List_collection == forms(collection@));
            collection.len() >= 2 && collection[0].is_symbol_containing(name)
        },
        _ => false,
    }
}

/// Copies the second item of a list of at least two items.
fn second_of(form: &LispyType) -> (item: LispyType)
    requires
        form@ is List,
        form@->List_collection.len() >= 2,
    ensures
        item@ == second(form@),
{
    match form {
        LispyType::List { collection, .. } => {
            assert(form@->List_collection == forms(collection@));
            collection[1].clone()
        },
        _ => LispyType::create_nil(),
    }
}

fn quote_of(form: &LispyType) -> (quoted: LispyType)
    ensures
        quoted@ == list_form(seq![symbol_form("quote"@), form@]),
{
    let mut items: Vec<LispyType> = Vec::new();
    items.push(LispyType::create_symbol("quote"));
    items.push(form.clone());
    assert(forms(items@) =~= seq![symbol_form("quote"@), form@]);
    LispyType::create_list(items)
}

fn quasi_quote_items(items: &Vec<LispyType>) -> (template: LispyType)
    ensures
        template@ == quasi_quote_from(forms(items@), 0),
    decreases items, 0nat,
{
    let ghost model = forms(items@);
    let empty: Vec<LispyType> = Vec::new();
    assert(forms(empty@) =~= Seq::<Form>::empty());
    let mut template = LispyType::create_list(empty);
    let mut i: usize = items.len();
    while i > 0
        invariant
            i <= items.len(),
            model == forms(items@),
            template@ == quasi_quote_from(model, i as nat),
        decreases i,
    {
        i -= 1;
        let mut parts: Vec<LispyType> = Vec::new();
        if is_tagged(&items[i], "splice-unquote") {
            parts.push(LispyType::create_symbol("concat"));
            parts.push(second_of(&items[i]));
            parts.push(template);
            assert(forms(parts@) =~= seq![
                symbol_form("concat"@),
                second(model[i as int]),
                quasi_quote_from(model, (i + 1) as nat),
            ]);
        } else {
            parts.push(LispyType::create_symbol("cons"));
            parts.push(quasi_quote(&items[i]));
            parts.push(template);
            assert(forms(parts@) =~= seq![
                symbol_form("cons"@),
                quasi_quote_model(model[i as int]),
                quasi_quote_from(model, (i + 1) as nat),
            ]);
        }
        template = LispyType::create_list(parts);
    }
    template
}

/// Builds the template that stands for `ast` under `quasi-quote`.
pub fn quasi_quote(ast: &LispyType) -> (template: LispyType)
    ensures
        template@ == quasi_quote_model(ast@),
    decreases ast, 1nat,
{
    if is_tagged(ast, "unquote") {
        return second_of(ast);
    }
    match ast {
        LispyType::List { collection, .. } => {
            assert(ast@->List_collection == forms(collection@));
            quasi_quote_items(collection)
        },
        LispyType::Hash { .. } => quote_of(ast),
        LispyType::Symbol { .. } => quote_of(ast),
        _ => ast.clone(),
    }
}

/// Whether the head of the items names a macro, seen from `frame`.
pub fn names_macro(items: &Vec<LispyType>, env: &LispyEnv, frame: usize) -> (r: bool)
    ensures
        r == heads_macro(forms(items@), env@, frame),
{
    if items.len() == 0 {
        return false;
    }
    match &items[0] {
        LispyType::Symbol { value, .. } => match env.lookup(frame, value.as_str()) {
            Some(found) => found.is_macro(),
            None => false,
        },
        _ => false,
    }
}

/// Finds the first parameter that is the symbol `&`.
fn find_spread(params: &Vec<LispyType>) -> (r: Option<usize>)
    ensures
        match r {
            Some(i) => spread_position(forms(params@)) == Some(i as int) && i < params.len(),
            None => spread_position(forms(params@)) is None,
        },
{
    let ghost model = forms(params@);
    let mut i: usize = 0;
    while i < params.len()
        invariant
            i <= params.len(),
            model == forms(params@),
            forall|j: int| 0 <= j < i ==> !is_spread(#[trigger] model[j]),
        decreases params.len() - i,
    {
        if params[i].is_symbol_containing("&") {
            proof {
                let k = choose|k: int| first_spread(model, k);
                assert(first_spread(model, i as int));
                assert(first_spread(model, k));
                if k < i {
                    assert(!is_spread(model[k]));
                }
                if i < k {
                    assert(!is_spread(model[i as int]));
                }
            }
            return Some(i);
        }
        i += 1;
    }
    proof {
        if exists|k: int| first_spread(model, k) {
            let k = choose|k: int| first_spread(model, k);
            assert(!is_spread(model[k]));
        }
    }
    None
}

fn only_symbols(params: &Vec<LispyType>) -> (r: bool)
    ensures
        r == all_symbols(forms(params@)),
{
    let ghost model = forms(params@);
    let mut i: usize = 0;
    while i < params.len()
        invariant
            i <= params.len(),
            model == forms(params@),
            forall|j: int| 0 <= j < i ==> (#[trigger] model[j]) is Symbol,
        decreases params.len() - i,
    {
        if !params[i].is_symbol() {
            assert(!(model[i as int] is Symbol));
            return false;
        }
        i += 1;
    }
    true
}

/// Binds the first `upto` parameters to the arguments at their places.
fn bind_positional(
    env: &mut LispyEnv,
    frame: usize,
    params: &Vec<LispyType>,
    args: &Vec<LispyType>,
    upto: usize,
)
    requires
        upto <= params.len(),
        upto <= args.len(),
        all_symbols(forms(params@)),
    ensures
        final(env)@ == bind_each(old(env)@, frame, forms(params@), forms(args@), upto as nat),
{
    let mut i: usize = 0;
    while i < upto
        invariant
            i <= upto,
            upto <= params.len(),
            upto <= args.len(),
            all_symbols(forms(params@)),
            env@ == bind_each(old(env)@, frame, forms(params@), forms(args@), i as nat),
        decreases upto - i,
    {
        assert(forms(params@)[i as int] is Symbol);
        match &params[i] {
            LispyType::Symbol { value, .. } => {
                env.bind(frame, value.clone(), args[i].clone());
            },
            _ => {},
        }
        i += 1;
    }
}

/// Opens a frame under `captured` and binds the parameters to the arguments.
pub fn bind_arguments(
    env: &mut LispyEnv,
    params: &Vec<LispyType>,
    args: &Vec<LispyType>,
    captured: usize,
) -> (r: Result<usize, LispyType>)
    ensures
        match bind_parameters(old(env)@, forms(params@), forms(args@), captured) {
            Ok((bound, frame)) => r == Ok::<usize, LispyType>(frame) && final(env)@ == bound,
            Err(error) => r is Err && r->Err_0@ == error && final(env)@ == old(env)@,
        },
{
    match find_spread(params) {
        None => {
            if params.len() != args.len() {
                return Err(incorrect_arity_error("Wrong number of arguments"));
            }
            if !only_symbols(params) {
                return Err(incorrect_type_error("Bindings should consist of symbols"));
            }
            let frame = env.push_frame(captured);
            bind_positional(env, frame, params, args, params.len());
            Ok(frame)
        },
        Some(spread) => {
            if params.len() - spread != 2 {
                return Err(incorrect_type_error("& must be followed by exactly one symbol"));
            }
            if args.len() < spread {
                return Err(incorrect_arity_error("Wrong number of arguments"));
            }
            if !only_symbols(params) {
                return Err(incorrect_type_error("Bindings should consist of symbols"));
            }
            let frame = env.push_frame(captured);
            bind_positional(env, frame, params, args, spread);
            assert(forms(params@)[spread + 1] is Symbol);
            match &params[spread + 1] {
                LispyType::Symbol { value, .. } => {
                    let rest = LispyType::create_list(tail_cloned(args, spread));
                    env.bind(frame, value.clone(), rest);
                },
                _ => {},
            }
            Ok(frame)
        },
    }
}

impl LispyType {
    /// Applies a native to its arguments.
    pub fn apply_function(&self, args: Vec<LispyType>) -> (control: Control)
        ensures
            control@ == apply_function_model(self@, forms(args@)),
    {
        match self {
            LispyType::Function { arity, func, .. } => {
                let fits = match arity {
                    Some(wanted) => *wanted >= 0 && *wanted as usize == args.len(),
                    None => true,
                };
                if fits {
                    call_native(*func, args)
                } else {
                    Control::Raise { error: incorrect_arity_error("Wrong number of arguments") }
                }
            },
            _ => Control::Raise { error: not_a_function_error() },
        }
    }

    /// Applies a lambda to its arguments: opens a frame under the frame the
    /// lambda closes over, binds the parameters there, and hands back the body
    /// and the new frame. Where the arguments do not fit, or the value is no
    /// lambda, the environment stays as it was.
    pub fn apply_lambda(&self, args: Vec<LispyType>, env: &mut LispyEnv) -> (r: Result<
        (LispyType, usize),
        LispyType,
    >)
        ensures
            match self@ {
                Form::Lambda { bindings, to_eval, env: captured, .. } => match bind_parameters(
                    old(env)@,
                    bindings,
                    forms(args@),
                    captured,
                ) {
                    Ok((bound, frame)) => r is Ok && r->Ok_0.0@ == *to_eval && r->Ok_0.1 == frame
                        && final(env)@ == bound,
                    Err(error) => r is Err && r->Err_0@ == error && final(env)@ == old(env)@,
                },
                _ => r is Err && r->Err_0@ == not_a_function() && final(env)@ == old(
                    env,
                )@,
            },
    {
        match self {
            LispyType::Lambda { bindings, to_eval, env: captured, .. } => {
                assert(self@->Lambda_bindings == forms(bindings@));
                match bind_arguments(env, bindings, &args, *captured) {
                    Ok(frame) => Ok(((**to_eval).clone(), frame)),
                    Err(error) => Err(error),
                }
            },
            _ => Err(not_a_function_error()),
        }
    }
}

/// Applies a lambda: its body is to be evaluated in a fresh frame.
pub fn apply_lambda_step(
    env: &mut LispyEnv,
    callee: &LispyType,
    args: &Vec<LispyType>,
) -> (control: Control)
    ensures
        forall|stack: Seq<KontModel>|
            state(final(env)@, control@, stack) == #[trigger] apply_lambda_model(
                old(env)@,
                stack,
                callee@,
                forms(args@),
            ),
{
    match callee {
        LispyType::Lambda { bindings, to_eval, env: captured, .. } => {
            assert(callee@->Lambda_bindings == forms(bindings@));
            match bind_arguments(env, bindings, args, *captured) {
                Ok(frame) => Control::Eval { expr: (**to_eval).clone(), frame },
                Err(error) => Control::Raise { error },
            }
        },
        _ => Control::Raise { error: not_a_function_error() },
    }
}

/// Starts one round of macro expansion on a form whose head names a macro.
pub fn expand(
    env: &mut LispyEnv,
    stack: &mut Vec<Kont>,
    items: &Vec<LispyType>,
    frame: usize,
    evaluate: bool,
) -> (control: Control)
    requires
        heads_macro(forms(items@), old(env)@, frame),
    ensures
        state(final(env)@, control@, kont_models(final(stack)@)) == expand_step(
            old(env)@,
            kont_models(old(stack)@),
            forms(items@),
            frame,
            evaluate,
        ),
{
    let ghost before = kont_models(stack@);
    let callee = match &items[0] {
        LispyType::Symbol { value, .. } => match env.lookup(frame, value.as_str()) {
            Some(found) => found.clone(),
            None => LispyType::create_nil(),
        },
        _ => LispyType::create_nil(),
    };
    let args = tail_cloned(items, 1);
    push_kont(stack, Kont::Expand { frame, evaluate });
    let control = apply_lambda_step(env, &callee, &args);
    assert(state(env@, control@, kont_models(stack@)) == apply_lambda_model(
        old(env)@,
        kont_models(stack@),
        callee@,
        forms(args@),
    ));
    control
}

/// Applies a callee to arguments that have been evaluated.
pub fn apply(env: &mut LispyEnv, values: &Vec<LispyType>) -> (control: Control)
    ensures
        forall|stack: Seq<KontModel>|
            state(final(env)@, control@, stack) == #[trigger] apply_step(
                old(env)@,
                stack,
                forms(values@),
            ),
{
    if values.len() == 0 {
        return Control::Raise { error: not_a_function_error() };
    }
    let args = tail_cloned(values, 1);
    match &values[0] {
        LispyType::Function { .. } => values[0].apply_function(args),
        _ => {
            let control = apply_lambda_step(env, &values[0], &args);
            assert forall|stack: Seq<KontModel>|
                state(env@, control@, stack) == #[trigger] apply_step(
                    old(env)@,
                    stack,
                    forms(values@),
                ) by {
                assert(state(env@, control@, stack) == apply_lambda_model(
                    old(env)@,
                    stack,
                    values[0]@,
                    forms(args@),
                ));
            }
            control
        },
    }
}


/// `let*` from the binding at `index` on.
pub fn bind_next(
    stack: &mut Vec<Kont>,
    bindings: Vec<LispyType>,
    index: usize,
    body: LispyType,
    frame: usize,
) -> (control: Control)
    ensures
        forall|env: EnvModel|
            state(env, control@, kont_models(final(stack)@)) == #[trigger] bind_step(
                env,
                kont_models(old(stack)@),
                forms(bindings@),
                index as nat,
                body@,
                frame,
            ),
{
    if index >= bindings.len() || bindings.len() - index < 2 {
        return Control::Eval { expr: body, frame };
    }
    if !bindings[index].is_symbol() {
        return Control::Raise { error: incorrect_type_error("let* bindings key must be a symbol") };
    }
    let value = bindings[index + 1].clone();
    push_kont(stack, Kont::Bind { bindings, index, body, frame });
    Control::Eval { expr: value, frame }
}

/// `do` from the item at `next` on.
pub fn sequence_next(stack: &mut Vec<Kont>, items: Vec<LispyType>, next: usize, frame: usize) -> (control:
    Control)
    ensures
        forall|env: EnvModel|
            state(env, control@, kont_models(final(stack)@)) == #[trigger] sequence_step(
                env,
                kont_models(old(stack)@),
                forms(items@),
                next as nat,
                frame,
            ),
{
    if next >= items.len() {
        return Control::Value { value: LispyType::create_nil() };
    }
    let item = items[next].clone();
    if items.len() - next == 1 {
        return Control::Eval { expr: item, frame };
    }
    push_kont(stack, Kont::Sequence { items, next, frame });
    Control::Eval { expr: item, frame }
}

/// Walks the catch clauses of a `try*` form with a raised error in hand.
pub fn catch(
    env: &mut LispyEnv,
    items: &Vec<LispyType>,
    raised: LispyType,
    frame: usize,
) -> (control: Control)
    ensures
        forall|stack: Seq<KontModel>|
            state(final(env)@, control@, stack) == #[trigger] catch_step(
                old(env)@,
                stack,
                forms(items@),
                2,
                raised@,
                frame,
            ),
{
    let ghost model = forms(items@);
    let mut index: usize = 2;
    while index < items.len()
        invariant
            2 <= index,
            model == forms(items@),
            env@ == old(env)@,
            forall|stack: Seq<KontModel>|
                catch_step(env@, stack, model, index as nat, raised@, frame)
                    == #[trigger] catch_step(env@, stack, model, 2, raised@, frame),
        decreases items.len() - index,
    {
        let ghost at = index as nat;
        match &items[index] {
            LispyType::List { collection: clause, .. } => {
                assert(model[index as int]->List_collection == forms(clause@));
                if clause.len() < 3 {
                    return Control::Raise {
                        error: incorrect_type_error("catch* takes a symbol and a handler"),
                    };
                }
                match &clause[1] {
                    LispyType::Symbol { value: name, .. } => {
                        let matched = match env.lookup(frame, name.as_str()) {
                            None => {
                                return Control::Raise { error: not_defined_error(name.as_str()) };
                            },
                            Some(template) => values_equal(template, &raised),
                        };
                        if matched {
                            let child = env.push_frame(frame);
                            env.bind(child, name.clone(), raised);
                            return Control::Eval { expr: clause[2].clone(), frame: child };
                        }
                    },
                    _ => {
                        return Control::Raise {
                            error: incorrect_type_error("catch* takes a symbol and a handler"),
                        };
                    },
                }
            },
            _ => {
                return Control::Raise {
                    error: incorrect_type_error("catch* takes a symbol and a handler"),
                };
            },
        }
        index += 1;
        assert forall|stack: Seq<KontModel>|
            catch_step(env@, stack, model, index as nat, raised@, frame) == #[trigger] catch_step(
                env@,
                stack,
                model,
                2,
                raised@,
                frame,
            ) by {
            assert(catch_step(env@, stack, model, at, raised@, frame) == catch_step(
                env@,
                stack,
                model,
                2,
                raised@,
                frame,
            ));
        }
    }
    Control::Raise { error: raised }
}

/// The special form that the head of a form names, if it names one.
pub fn special_kind(head: &LispyType) -> (r: Option<Special>)
    ensures
        r == special_head(head@),
{
    if !head.is_symbol() {
        None
    } else if head.is_symbol_containing("def!") {
        Some(Special::Def)
    } else if head.is_symbol_containing("defmacro!") {
        Some(Special::DefMacro)
    } else if head.is_symbol_containing("deferror!") {
        Some(Special::DefError)
    } else if head.is_symbol_containing("let*") {
        Some(Special::Let)
    } else if head.is_symbol_containing("do") {
        Some(Special::Do)
    } else if head.is_symbol_containing("if") {
        Some(Special::If)
    } else if head.is_symbol_containing("fn*") {
        Some(Special::Fn)
    } else if head.is_symbol_containing("eval") {
        Some(Special::Eval)
    } else if head.is_symbol_containing("quote") {
        Some(Special::Quote)
    } else if head.is_symbol_containing("quasi-quote-expand") {
        Some(Special::QuasiQuoteExpand)
    } else if head.is_symbol_containing("quasi-quote") {
        Some(Special::QuasiQuote)
    } else if head.is_symbol_containing("macro-expand") {
        Some(Special::MacroExpand)
    } else if head.is_symbol_containing("throw") {
        Some(Special::Throw)
    } else if head.is_symbol_containing("try*") {
        Some(Special::Try)
    } else {
        None
    }
}

/// The text of a symbol.
fn name_of(symbol: &LispyType) -> (name: String)
    requires
        symbol@ is Symbol,
    ensures
        name@ == symbol@->Symbol_value,
{
    match symbol {
        LispyType::Symbol { value, .. } => value.clone(),
        _ => String::new(),
    }
}

/// The two defining forms, `def!` and `defmacro!`.
fn define(stack: &mut Vec<Kont>, items: Vec<LispyType>, frame: usize, kind: Special) -> (control:
    Control)
    requires
        items@.len() >= 3,
        kind == Special::Def || kind == Special::DefMacro,
    ensures
        forall|env: EnvModel|
            state(env, control@, kont_models(final(stack)@)) == #[trigger] special_step(
                env,
                kont_models(old(stack)@),
                kind,
                forms(items@),
                frame,
            ),
{
    if !items[1].is_symbol() {
        return match kind {
            Special::Def => Control::Raise {
                error: incorrect_type_error("def! first arg must be a symbol"),
            },
            _ => Control::Raise {
                error: incorrect_type_error("defmacro! first arg must be a symbol"),
            },
        };
    }
    let key = name_of(&items[1]);
    let value = items[2].clone();
    match kind {
        Special::Def => push_kont(stack, Kont::Define { key, frame }),
        _ => push_kont(stack, Kont::DefineMacro { key, frame }),
    }
    Control::Eval { expr: value, frame }
}

fn define_error(env: &mut LispyEnv, items: Vec<LispyType>, frame: usize) -> (control: Control)
    requires
        items@.len() >= 3,
    ensures
        forall|stack: Seq<KontModel>|
            state(final(env)@, control@, stack) == #[trigger] special_step(
                old(env)@,
                stack,
                Special::DefError,
                forms(items@),
                frame,
            ),
{
    match (&items[1], &items[2]) {
        (LispyType::Symbol { value: name, .. }, LispyType::String { value: kind, .. }) => {
            let error = LispyType::create_error(name.as_str(), kind.as_str());
            env.bind(frame, name.clone(), error);
            Control::Value { value: LispyType::create_nil() }
        },
        _ => Control::Raise {
            error: incorrect_type_error("deferror! takes a symbol and a string"),
        },
    }
}

fn let_star(env: &mut LispyEnv, stack: &mut Vec<Kont>, items: Vec<LispyType>, frame: usize) -> (control:
    Control)
    requires
        items@.len() >= 3,
    ensures
        state(final(env)@, control@, kont_models(final(stack)@)) == special_step(
            old(env)@,
            kont_models(old(stack)@),
            Special::Let,
            forms(items@),
            frame,
        ),
{
    match &items[1] {
        LispyType::List { collection: bindings, .. } => {
            assert(forms(items@)[1]->List_collection == forms(bindings@));
            if bindings.len() % 2 != 0 {
                return Control::Raise {
                    error: incorrect_type_error("let* first arg must be a list of key value pairs"),
                };
            }
            let child = env.push_frame(frame);
            let control = bind_next(stack, clone_items(bindings), 0, items[2].clone(), child);
            assert(state(env@, control@, kont_models(stack@)) == bind_step(
                env@,
                kont_models(old(stack)@),
                forms(bindings@),
                0,
                forms(items@)[2],
                child,
            ));
            control
        },
        _ => Control::Raise {
            error: incorrect_type_error("let* first arg must be a list of key value pairs"),
        },
    }
}

fn lambda(items: Vec<LispyType>, frame: usize) -> (control: Control)
    requires
        items@.len() >= 3,
    ensures
        forall|env: EnvModel, stack: Seq<KontModel>|
            state(env, control@, stack) == #[trigger] special_step(
                env,
                stack,
                Special::Fn,
                forms(items@),
                frame,
            ),
{
    match &items[1] {
        LispyType::List { collection: params, .. } => {
            assert(forms(items@)[1]->List_collection == forms(params@));
            Control::Value {
                value: LispyType::create_lambda(clone_items(params), items[2].clone(), frame),
            }
        },
        _ => Control::Raise { error: incorrect_type_error("fn* first arg must be a list") },
    }
}

fn macro_expand_form(
    env: &mut LispyEnv,
    stack: &mut Vec<Kont>,
    items: Vec<LispyType>,
    frame: usize,
) -> (control: Control)
    requires
        items@.len() >= 2,
    ensures
        state(final(env)@, control@, kont_models(final(stack)@)) == special_step(
            old(env)@,
            kont_models(old(stack)@),
            Special::MacroExpand,
            forms(items@),
            frame,
        ),
{
    match &items[1] {
        LispyType::List { collection, .. } => {
            assert(forms(items@)[1]->List_collection == forms(collection@));
            if names_macro(collection, env, frame) {
                return expand(env, stack, collection, frame, false);
            }
        },
        _ => {},
    }
    Control::Value { value: items[1].clone() }
}

/// Starts a special form: `items` is the whole form, head included.
pub fn special(
    env: &mut LispyEnv,
    stack: &mut Vec<Kont>,
    kind: Special,
    items: Vec<LispyType>,
    frame: usize,
) -> (control: Control)
    ensures
        state(final(env)@, control@, kont_models(final(stack)@)) == special_step(
            old(env)@,
            kont_models(old(stack)@),
            kind,
            forms(items@),
            frame,
        ),
{
    let needed: usize = match kind {
        Special::Def | Special::DefMacro | Special::DefError | Special::Let | Special::If
        | Special::Fn => 2,
        Special::Do => 0,
        _ => 1,
    };
    if items.len() <= needed {
        return Control::Raise { error: too_short_error() };
    }
    match kind {
        Special::Def | Special::DefMacro => define(stack, items, frame, kind),
        Special::DefError => define_error(env, items, frame),
        Special::Let => let_star(env, stack, items, frame),
        Special::Do => {
            let control = sequence_next(stack, items, 1, frame);
            assert(state(env@, control@, kont_models(stack@)) == sequence_step(
                env@,
                kont_models(old(stack)@),
                forms(items@),
                1,
                frame,
            ));
            control
        },
        Special::If => {
            let condition = items[1].clone();
            push_kont(stack, Kont::Branch { items, frame });
            Control::Eval { expr: condition, frame }
        },
        Special::Fn => lambda(items, frame),
        Special::Eval => {
            push_kont(stack, Kont::Again { frame });
            Control::Eval { expr: items[1].clone(), frame }
        },
        Special::Quote => Control::Value { value: items[1].clone() },
        Special::QuasiQuoteExpand => Control::Value { value: quasi_quote(&items[1]) },
        Special::QuasiQuote => Control::Eval { expr: quasi_quote(&items[1]), frame },
        Special::MacroExpand => macro_expand_form(env, stack, items, frame),
        Special::Throw => {
            push_kont(stack, Kont::Throw);
            Control::Eval { expr: items[1].clone(), frame }
        },
        Special::Try => {
            let body = items[1].clone();
            push_kont(stack, Kont::Try { items, frame });
            Control::Eval { expr: body, frame }
        },
    }
}

/// Starts the evaluation of a form in a frame.
pub fn evaluate(env: &mut LispyEnv, stack: &mut Vec<Kont>, expr: LispyType, frame: usize) -> (control:
    Control)
    ensures
        state(final(env)@, control@, kont_models(final(stack)@)) == eval_step(
            old(env)@,
            kont_models(old(stack)@),
            expr@,
            frame,
        ),
{
    match expr {
        LispyType::Symbol { value, meta } => match env.lookup(frame, value.as_str()) {
            Some(found) => Control::Value { value: found.clone() },
            None => Control::Raise { error: not_defined_error(value.as_str()) },
        },
        LispyType::Hash { collection, meta } => {
            assert(expr@->Hash_collection == pair_forms(collection@));
            if collection.len() == 0 {
                Control::Value { value: LispyType::Hash { collection, meta } }
            } else {
                let first = collection[0].1.clone();
                let done: Vec<(LispyType, LispyType)> = Vec::new();
                assert(pair_forms(done@) =~= Seq::<(Form, Form)>::empty());
                push_kont(stack, Kont::Entries { entries: collection, done, frame });
                Control::Eval { expr: first, frame }
            }
        },
        LispyType::List { collection, meta } => {
            assert(expr@->List_collection == forms(collection@));
            if collection.len() == 0 {
                Control::Value { value: LispyType::List { collection, meta } }
            } else if names_macro(&collection, env, frame) {
                expand(env, stack, &collection, frame, true)
            } else {
                match special_kind(&collection[0]) {
                    Some(kind) => special(env, stack, kind, collection, frame),
                    None => {
                        let head = collection[0].clone();
                        let done: Vec<LispyType> = Vec::new();
                        assert(forms(done@) =~= Seq::<Form>::empty());
                        push_kont(stack, Kont::Items { items: collection, done, frame });
                        Control::Eval { expr: head, frame }
                    },
                }
            }
        },
        other => Control::Value { value: other },
    }
}


/// Flags a lambda as a macro; any other value is handed back as an error.
fn flag_macro(value: LispyType) -> (r: Result<LispyType, LispyType>)
    ensures
        match value@ {
            Form::Lambda { bindings, to_eval, env, meta, .. } => r is Ok && r->Ok_0@
                == (Form::Lambda { bindings, to_eval, env, is_macro: true, meta }),
            _ => r is Err && r->Err_0@ == incorrect_type(
                "defmacro! second arg must be a lambda"@,
            ),
        },
{
    match value {
        LispyType::Lambda { bindings, to_eval, env, is_macro, meta } => Ok(
            LispyType::Lambda { bindings, to_eval, env, is_macro: true, meta },
        ),
        _ => Err(incorrect_type_error("defmacro! second arg must be a lambda")),
    }
}

fn deliver_item(
    env: &mut LispyEnv,
    stack: &mut Vec<Kont>,
    items: Vec<LispyType>,
    done: Vec<LispyType>,
    frame: usize,
    value: LispyType,
) -> (control: Control)
    ensures
        state(final(env)@, control@, kont_models(final(stack)@)) == return_step(
            old(env)@,
            kont_models(old(stack)@),
            KontModel::Items { items: forms(items@), done: forms(done@), frame },
            value@,
        ),
{
    let mut done = done;
    let ghost before = forms(done@);
    done.push(value);
    assert(forms(done@) =~= before.push(value@));
    if done.len() >= items.len() {
        let control = apply(env, &done);
        assert(state(env@, control@, kont_models(stack@)) == apply_step(
            old(env)@,
            kont_models(stack@),
            forms(done@),
        ));
        control
    } else {
        let next = items[done.len()].clone();
        push_kont(stack, Kont::Items { items, done, frame });
        Control::Eval { expr: next, frame }
    }
}

fn deliver_entry(
    stack: &mut Vec<Kont>,
    entries: Vec<(LispyType, LispyType)>,
    done: Vec<(LispyType, LispyType)>,
    frame: usize,
    value: LispyType,
) -> (control: Control)
    ensures
        forall|env: EnvModel|
            state(env, control@, kont_models(final(stack)@)) == #[trigger] return_step(
                env,
                kont_models(old(stack)@),
                KontModel::Entries { entries: pair_forms(entries@), done: pair_forms(done@), frame },
                value@,
            ),
{
    let mut done = done;
    if done.len() >= entries.len() {
        return Control::Value { value: LispyType::create_hash(done) };
    }
    let ghost before = pair_forms(done@);
    let key = entries[done.len()].0.clone();
    done.push((key, value));
    assert(pair_forms(done@) =~= before.push((pair_forms(entries@)[before.len() as int].0, value@)));
    if done.len() >= entries.len() {
        Control::Value { value: LispyType::create_hash(done) }
    } else {
        let next = entries[done.len()].1.clone();
        push_kont(stack, Kont::Entries { entries, done, frame });
        Control::Eval { expr: next, frame }
    }
}

/// Hands a value to a continuation that has been taken off the stack.
pub fn deliver(env: &mut LispyEnv, stack: &mut Vec<Kont>, kont: Kont, value: LispyType) -> (control:
    Control)
    ensures
        state(final(env)@, control@, kont_models(final(stack)@)) == return_step(
            old(env)@,
            kont_models(old(stack)@),
            kont@,
            value@,
        ),
{
    match kont {
        Kont::Items { items, done, frame } => deliver_item(env, stack, items, done, frame, value),
        Kont::Entries { entries, done, frame } => {
            let control = deliver_entry(stack, entries, done, frame, value);
            assert(state(env@, control@, kont_models(stack@)) == return_step(
                env@,
                kont_models(old(stack)@),
                kont@,
                value@,
            ));
            control
        },
        Kont::Define { key, frame } => {
            env.bind(frame, key, value.clone());
            Control::Value { value }
        },
        Kont::DefineMacro { key, frame } => match flag_macro(value) {
            Ok(flagged) => {
                env.bind(frame, key, flagged.clone());
                Control::Value { value: flagged }
            },
            Err(error) => Control::Raise { error },
        },
        Kont::Bind { bindings, index, body, frame } => {
            if index >= bindings.len() || bindings.len() - index < 2 || !bindings[index].is_symbol() {
                return Control::Eval { expr: body, frame };
            }
            let key = name_of(&bindings[index]);
            env.bind(frame, key, value);
            let control = bind_next(stack, bindings, index + 2, body, frame);
            assert(state(env@, control@, kont_models(stack@)) == bind_step(
                env@,
                kont_models(old(stack)@),
                forms(bindings@),
                (index + 2) as nat,
                body@,
                frame,
            ));
            control
        },
        Kont::Sequence { items, next, frame } => {
            if next >= items.len() {
                return Control::Value { value };
            }
            let control = sequence_next(stack, items, next + 1, frame);
            assert(state(env@, control@, kont_models(stack@)) == sequence_step(
                env@,
                kont_models(old(stack)@),
                forms(items@),
                (next + 1) as nat,
                frame,
            ));
            control
        },
        Kont::Branch { items, frame } => {
            if value.is_truthy() && items.len() > 2 {
                Control::Eval { expr: items[2].clone(), frame }
            } else if !value.is_truthy() && items.len() > 3 {
                Control::Eval { expr: items[3].clone(), frame }
            } else {
                Control::Value { value: LispyType::create_nil() }
            }
        },
        Kont::Again { frame } => Control::Eval { expr: value, frame },
        Kont::Throw => Control::Raise { error: value },
        Kont::Try { items, frame } => Control::Value { value },
        Kont::Expand { frame, evaluate } => {
            match &value {
                LispyType::List { collection, .. } => {
                    assert(value@->List_collection == forms(collection@));
                    if names_macro(collection, env, frame) {
                        return expand(env, stack, collection, frame, evaluate);
                    }
                },
                _ => {},
            }
            if evaluate {
                Control::Eval { expr: value, frame }
            } else {
                Control::Value { value }
            }
        },
        Kont::Program { frame } => match value {
            LispyType::List { collection, meta } => {
                assert(value@->List_collection == forms(collection@));
                let control = sequence_next(stack, collection, 1, frame);
                assert(state(env@, control@, kont_models(stack@)) == sequence_step(
                    env@,
                    kont_models(old(stack)@),
                    forms(collection@),
                    1,
                    frame,
                ));
                control
            },
            other => Control::Value { value: other },
        },
    }
}

/// Hands a raised error to a continuation that has been taken off the stack.
pub fn unwind(env: &mut LispyEnv, stack: &mut Vec<Kont>, kont: Kont, error: LispyType) -> (control:
    Control)
    ensures
        state(final(env)@, control@, kont_models(final(stack)@)) == raise_step(
            old(env)@,
            kont_models(old(stack)@),
            kont@,
            error@,
        ),
        final(stack)@ == old(stack)@,
{
    match kont {
        Kont::Try { items, frame } => {
            let control = catch(env, &items, error, frame);
            assert(state(env@, control@, kont_models(stack@)) == catch_step(
                old(env)@,
                kont_models(stack@),
                forms(items@),
                2,
                error@,
                frame,
            ));
            control
        },
        _ => Control::Raise { error },
    }
}

} // verus!
