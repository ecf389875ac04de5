//! What holds of every evaluation, proved from the model of the machine.

use vstd::prelude::*;
use crate::env::{lemma_bind_wf, lemma_push_frame_wf, EnvModel};
use crate::semantics::{
    apply_lambda_model, bind_each, catch_step, eval_step, evaluates, expand_step,
    is_macro_call_model, lemma_finished_stays, lemma_play_one, lemma_play_split, lemma_run_split,
    lemma_steps_alone, raise_step, return_step, steps_alone,
    special_head, special_of, special_step, spread_position, yields, ControlModel, KontModel,
    MachineModel, Move, Special,
};
use crate::types::{error_form, list_form, symbol_form, truthy, Form};

verus! {

/// Putting a continuation on a stack that lies above a base is putting it on
/// the stack and then the whole above the base.
pub broadcast proof fn lemma_push_above(
    base: Seq<KontModel>,
    stack: Seq<KontModel>,
    kont: KontModel,
)
    ensures
        #[trigger] (base + stack).push(kont) == base + stack.push(kont),
{
    assert((base + stack).push(kont) =~= base + stack.push(kont));
}

proof fn lemma_apply_lambda_above(
    env: EnvModel,
    base: Seq<KontModel>,
    stack: Seq<KontModel>,
    callee: Form,
    args: Seq<Form>,
)
    ensures
        apply_lambda_model(env, base + stack, callee, args) == apply_lambda_model(
            env,
            stack,
            callee,
            args,
        ).above(base),
{
}

proof fn lemma_expand_above(
    env: EnvModel,
    base: Seq<KontModel>,
    stack: Seq<KontModel>,
    items: Seq<Form>,
    frame: usize,
    evaluate: bool,
)
    ensures
        expand_step(env, base + stack, items, frame, evaluate) == expand_step(
            env,
            stack,
            items,
            frame,
            evaluate,
        ).above(base),
{
    broadcast use lemma_push_above;

    match env.lookup(frame, items[0]->Symbol_value) {
        Some(callee) => {
            lemma_apply_lambda_above(
                env,
                base,
                stack.push(KontModel::Expand { frame, evaluate }),
                callee,
                items.subrange(1, items.len() as int),
            );
        },
        None => {},
    }
}

proof fn lemma_catch_above(
    env: EnvModel,
    base: Seq<KontModel>,
    stack: Seq<KontModel>,
    items: Seq<Form>,
    index: nat,
    raised: Form,
    frame: usize,
)
    ensures
        catch_step(env, base + stack, items, index, raised, frame) == catch_step(
            env,
            stack,
            items,
            index,
            raised,
            frame,
        ).above(base),
    decreases items.len() - index,
{
    if index < items.len() {
        lemma_catch_above(env, base, stack, items, index + 1, raised, frame);
    }
}

proof fn lemma_special_above(
    env: EnvModel,
    base: Seq<KontModel>,
    stack: Seq<KontModel>,
    kind: Special,
    items: Seq<Form>,
    frame: usize,
)
    ensures
        special_step(env, base + stack, kind, items, frame) == special_step(
            env,
            stack,
            kind,
            items,
            frame,
        ).above(base),
{
    broadcast use lemma_push_above;

    if items.len() >= 2 && kind == Special::MacroExpand && is_macro_call_model(
        items[1],
        env,
        frame,
    ) {
        lemma_expand_above(env, base, stack, items[1]->List_collection, frame, false);
    }
}

proof fn lemma_eval_above(
    env: EnvModel,
    base: Seq<KontModel>,
    stack: Seq<KontModel>,
    expr: Form,
    frame: usize,
)
    ensures
        eval_step(env, base + stack, expr, frame) == eval_step(env, stack, expr, frame).above(
            base,
        ),
{
    broadcast use lemma_push_above;

    match expr {
        Form::List { collection, .. } => {
            if collection.len() > 0 {
                if is_macro_call_model(expr, env, frame) {
                    lemma_expand_above(env, base, stack, collection, frame, true);
                } else if special_head(collection[0]) is Some {
                    lemma_special_above(
                        env,
                        base,
                        stack,
                        special_head(collection[0])->0,
                        collection,
                        frame,
                    );
                }
            }
        },
        _ => {},
    }
}

proof fn lemma_return_above(
    env: EnvModel,
    base: Seq<KontModel>,
    stack: Seq<KontModel>,
    kont: KontModel,
    value: Form,
)
    ensures
        return_step(env, base + stack, kont, value) == return_step(env, stack, kont, value).above(
            base,
        ),
{
    broadcast use lemma_push_above;

    match kont {
        KontModel::Items { items, done, frame } => {
            let values = done.push(value);
            if values.len() >= items.len() && values.len() > 0 {
                lemma_apply_lambda_above(
                    env,
                    base,
                    stack,
                    values[0],
                    values.subrange(1, values.len() as int),
                );
            }
        },
        KontModel::Expand { frame, evaluate } => {
            if is_macro_call_model(value, env, frame) {
                lemma_expand_above(env, base, stack, value->List_collection, frame, evaluate);
            }
        },
        _ => {},
    }
}

proof fn lemma_raise_above(
    env: EnvModel,
    base: Seq<KontModel>,
    stack: Seq<KontModel>,
    kont: KontModel,
    error: Form,
)
    ensures
        raise_step(env, base + stack, kont, error) == raise_step(env, stack, kont, error).above(
            base,
        ),
{
    match kont {
        KontModel::Try { items, frame } => {
            lemma_catch_above(env, base, stack, items, 2, error, frame);
        },
        _ => {},
    }
}

/// A step does not look at what lies under the stack: a machine that is not
/// finished takes the same step above any base.
pub proof fn lemma_step_above(machine: MachineModel, base: Seq<KontModel>)
    requires
        !machine.finished(),
    ensures
        machine.above(base).step() == machine.step().above(base),
{
    match machine.control {
        ControlModel::Eval { expr, frame } => {
            lemma_eval_above(machine.env, base, machine.stack, expr, frame);
        },
        ControlModel::Value { value } => {
            assert((base + machine.stack).drop_last() =~= base + machine.stack.drop_last());
            lemma_return_above(
                machine.env,
                base,
                machine.stack.drop_last(),
                machine.stack.last(),
                value,
            );
        },
        ControlModel::Raise { error } => {
            assert((base + machine.stack).drop_last() =~= base + machine.stack.drop_last());
            lemma_raise_above(
                machine.env,
                base,
                machine.stack.drop_last(),
                machine.stack.last(),
                error,
            );
        },
        ControlModel::Request { .. } => {},
    }
}

/// An answer does not look at what lies under the stack.
proof fn lemma_advance_above(machine: MachineModel, base: Seq<KontModel>, by: Move)
    requires
        !machine.finished(),
    ensures
        machine.above(base).advance(by) == machine.advance(by).above(base),
{
    match by {
        Move::Step => lemma_step_above(machine, base),
        Move::Answer(_) => {},
    }
}

/// What moves a machine does not look at what lies under its stack, as long
/// as the machine has not finished: above any base the machine goes through
/// the same states.
pub proof fn lemma_play_above(machine: MachineModel, base: Seq<KontModel>, moves: Seq<Move>)
    requires
        moves.len() > 0 ==> !machine.play(moves.drop_last()).finished(),
    ensures
        machine.above(base).play(moves) == machine.play(moves).above(base),
    decreases moves.len(),
{
    if moves.len() > 0 {
        if machine.finished() {
            lemma_finished_stays(machine, moves.drop_last());
        }
        lemma_advance_above(machine, base, moves[0]);
        let rest = moves.drop_first();
        if rest.len() > 0 {
            assert(moves.drop_last().drop_first() =~= rest.drop_last());
            assert(moves.drop_last()[0] == moves[0]);
        }
        lemma_play_above(machine.advance(moves[0]), base, rest);
    }
}

/// Each special form is found under its name.
pub proof fn lemma_special_names()
    ensures
        special_of("def!"@) == Some(Special::Def),
        special_of("defmacro!"@) == Some(Special::DefMacro),
        special_of("deferror!"@) == Some(Special::DefError),
        special_of("let*"@) == Some(Special::Let),
        special_of("do"@) == Some(Special::Do),
        special_of("if"@) == Some(Special::If),
        special_of("fn*"@) == Some(Special::Fn),
        special_of("eval"@) == Some(Special::Eval),
        special_of("quote"@) == Some(Special::Quote),
        special_of("quasi-quote-expand"@) == Some(Special::QuasiQuoteExpand),
        special_of("quasi-quote"@) == Some(Special::QuasiQuote),
        special_of("macro-expand"@) == Some(Special::MacroExpand),
        special_of("throw"@) == Some(Special::Throw),
        special_of("try*"@) == Some(Special::Try),
{
    reveal_strlit("def!");
    reveal_strlit("defmacro!");
    reveal_strlit("deferror!");
    reveal_strlit("let*");
    reveal_strlit("do");
    reveal_strlit("if");
    reveal_strlit("fn*");
    reveal_strlit("eval");
    reveal_strlit("quote");
    reveal_strlit("quasi-quote-expand");
    reveal_strlit("quasi-quote");
    reveal_strlit("macro-expand");
    reveal_strlit("throw");
    reveal_strlit("try*");
    assert("do"@.len() == 2);
    assert("if"@.len() == 2);
    assert("fn*"@.len() == 3);
    assert("def!"@.len() == 4);
    assert("let*"@.len() == 4);
    assert("eval"@.len() == 4);
    assert("try*"@.len() == 4);
    assert("quote"@.len() == 5);
    assert("throw"@.len() == 5);
    assert("defmacro!"@.len() == 9);
    assert("deferror!"@.len() == 9);
    assert("quasi-quote"@.len() == 11);
    assert("macro-expand"@.len() == 12);
    assert("quasi-quote-expand"@.len() == 18);
    assert("def!"@[0] == 'd');
    assert("let*"@[0] == 'l');
    assert("eval"@[0] == 'e');
    assert("try*"@[0] == 't');
    assert("do"@[0] == 'd');
    assert("if"@[0] == 'i');
    assert("quote"@[0] == 'q');
    assert("throw"@[0] == 't');
    assert("defmacro!"@[3] == 'm');
    assert("deferror!"@[3] == 'e');
}

/// Seen from `frame`, the symbol `name` does not name a macro.
pub open spec fn no_macro(env: EnvModel, frame: usize, name: Seq<char>) -> bool {
    !(env.lookup(frame, name) matches Some(Form::Lambda { is_macro: true, .. }))
}

/// The moves bring the machine from `from` to its end and no further: after
/// them it holds `value` over the environment `env`, and before the last of
/// them it was not finished.
pub open spec fn gives_after(from: MachineModel, moves: Seq<Move>, env: EnvModel, value: Form)
    -> bool {
    &&& from.play(moves) == yields(env, Seq::empty(), value)
    &&& moves.len() > 0 ==> !from.play(moves.drop_last()).finished()
}

/// The moves of a form that evaluates a part first: a step to begin, the moves
/// of the part, and a step to take the value of the part.
pub open spec fn around(moves: Seq<Move>) -> Seq<Move> {
    seq![Move::Step] + moves + seq![Move::Step]
}

/// A machine that, after a step, is another machine above a base, goes
/// through the moves of that machine and then takes one step more.
proof fn lemma_play_around(
    start: MachineModel,
    inner: MachineModel,
    base: Seq<KontModel>,
    moves: Seq<Move>,
)
    requires
        start.step() == inner.above(base),
        moves.len() > 0 ==> !inner.play(moves.drop_last()).finished(),
    ensures
        start.play(around(moves)) == inner.play(moves).above(base).step(),
{
    lemma_play_above(inner, base, moves);
    lemma_play_split(start, seq![Move::Step] + moves, seq![Move::Step]);
    lemma_play_split(start, seq![Move::Step], moves);
    lemma_play_one(start, Move::Step);
    lemma_play_one(inner.play(moves).above(base), Move::Step);
}

/// A quoted form evaluates to the form itself, and the environment stays as
/// it is: `(quote x)` gives `x` in one step. It holds wherever `quote` has not
/// been made the name of a macro.
pub proof fn law_quote(env: EnvModel, stack: Seq<KontModel>, frame: usize, x: Form)
    requires
        no_macro(env, frame, "quote"@),
    ensures
        evaluates(env, stack, list_form(seq![symbol_form("quote"@), x]), frame).step() == yields(
            env,
            stack,
            x,
        ),
{
    lemma_special_names();
}

/// Where the condition of an `if` gives a truthy value, the `if` goes on as
/// its first branch does: once the condition is evaluated, what is left is to
/// evaluate the branch, in the same frame, over the environment that the
/// condition left, with nothing more on the stack. It holds wherever `if` has
/// not been made the name of a macro.
///
/// `moves` are the moves that evaluate the condition: the steps of the
/// machine and, where the condition needs the host, the answers of the host,
/// whatever they are.
pub proof fn law_if_truthy(
    env: EnvModel,
    stack: Seq<KontModel>,
    frame: usize,
    condition: Form,
    first: Form,
    second: Form,
    moves: Seq<Move>,
    after: EnvModel,
    value: Form,
)
    requires
        no_macro(env, frame, "if"@),
        gives_after(evaluates(env, Seq::empty(), condition, frame), moves, after, value),
        truthy(value),
    ensures
        evaluates(
            env,
            stack,
            list_form(seq![symbol_form("if"@), condition, first, second]),
            frame,
        ).play(around(moves)) == evaluates(after, stack, first, frame),
{
    lemma_special_names();
    let items = seq![symbol_form("if"@), condition, first, second];
    let start = evaluates(env, stack, list_form(items), frame);
    let base = stack.push(KontModel::Branch { items, frame });
    let inner = evaluates(env, Seq::empty(), condition, frame);
    assert(start.step() == inner.above(base)) by {
        assert(base + Seq::<KontModel>::empty() =~= base);
    }
    lemma_play_around(start, inner, base, moves);
    let arrived = inner.play(moves).above(base);
    assert(arrived.stack =~= base);
    assert(arrived.step() == evaluates(after, stack, first, frame)) by {
        assert(base.drop_last() =~= stack);
    }
}

/// Where the condition of an `if` gives `nil` or `false`, the `if` goes on as
/// its second branch does.
pub proof fn law_if_falsy(
    env: EnvModel,
    stack: Seq<KontModel>,
    frame: usize,
    condition: Form,
    first: Form,
    second: Form,
    moves: Seq<Move>,
    after: EnvModel,
    value: Form,
)
    requires
        no_macro(env, frame, "if"@),
        gives_after(evaluates(env, Seq::empty(), condition, frame), moves, after, value),
        !truthy(value),
    ensures
        evaluates(
            env,
            stack,
            list_form(seq![symbol_form("if"@), condition, first, second]),
            frame,
        ).play(around(moves)) == evaluates(after, stack, second, frame),
{
    lemma_special_names();
    let items = seq![symbol_form("if"@), condition, first, second];
    let start = evaluates(env, stack, list_form(items), frame);
    let base = stack.push(KontModel::Branch { items, frame });
    let inner = evaluates(env, Seq::empty(), condition, frame);
    assert(start.step() == inner.above(base)) by {
        assert(base + Seq::<KontModel>::empty() =~= base);
    }
    lemma_play_around(start, inner, base, moves);
    let arrived = inner.play(moves).above(base);
    assert(arrived.stack =~= base);
    assert(arrived.step() == evaluates(after, stack, second, frame)) by {
        assert(base.drop_last() =~= stack);
    }
}

/// Machines that come to the same state go on alike: where one machine is,
/// after some moves, in the state of another, each later state of the one is
/// the state of the other after the same moves more. So, given the same
/// answers, they finish alike or not at all, and with the same result.
pub proof fn law_later_moves_agree(
    one: MachineModel,
    moves: Seq<Move>,
    other: MachineModel,
    more: Seq<Move>,
)
    requires
        one.play(moves) == other,
    ensures
        one.play(moves + more) == other.play(more),
{
    lemma_play_split(one, moves, more);
}

/// A value that evaluates to itself: anything but a symbol, a list and a hash.
pub open spec fn self_evaluating(form: Form) -> bool {
    !(form is Symbol) && !(form is List) && !(form is Hash)
}

/// With a truthy value for its condition, an `if` evaluates as its first
/// branch does, over the same environment: after three steps it is where the
/// evaluation of the branch begins, and from there on the two go alike.
pub proof fn law_if_truthy_value(
    env: EnvModel,
    stack: Seq<KontModel>,
    frame: usize,
    value: Form,
    first: Form,
    second: Form,
    more: nat,
)
    requires
        no_macro(env, frame, "if"@),
        self_evaluating(value),
        truthy(value),
    ensures
        evaluates(
            env,
            stack,
            list_form(seq![symbol_form("if"@), value, first, second]),
            frame,
        ).run(3 + more) == evaluates(env, stack, first, frame).run(more),
{
    lemma_run_split(
        evaluates(env, stack, list_form(seq![symbol_form("if"@), value, first, second]), frame),
        3,
        more,
    );
    let inner = evaluates(env, Seq::empty(), value, frame);
    let start = evaluates(
        env,
        stack,
        list_form(seq![symbol_form("if"@), value, first, second]),
        frame,
    );
    let one = seq![Move::Step];
    lemma_play_one(inner, Move::Step);
    assert(one.drop_last() =~= Seq::<Move>::empty());
    law_if_truthy(env, stack, frame, value, first, second, one, env, value);
    assert(around(one) =~= steps_alone(3));
    lemma_steps_alone(start, 3);
}

/// Where the body of a `try*` gives a value, the `try*` gives that value and
/// leaves the environment as the body left it, whatever its catch clauses
/// are. It holds wherever `try*` has not been made the name of a macro.
pub proof fn law_try_identity(
    env: EnvModel,
    stack: Seq<KontModel>,
    frame: usize,
    body: Form,
    clauses: Seq<Form>,
    moves: Seq<Move>,
    after: EnvModel,
    value: Form,
)
    requires
        no_macro(env, frame, "try*"@),
        gives_after(evaluates(env, Seq::empty(), body, frame), moves, after, value),
    ensures
        evaluates(
            env,
            stack,
            list_form(seq![symbol_form("try*"@), body] + clauses),
            frame,
        ).play(around(moves)) == yields(after, stack, value),
{
    lemma_special_names();
    let items = seq![symbol_form("try*"@), body] + clauses;
    let start = evaluates(env, stack, list_form(items), frame);
    let base = stack.push(KontModel::Try { items, frame });
    let inner = evaluates(env, Seq::empty(), body, frame);
    assert(start.step() == inner.above(base)) by {
        assert(base + Seq::<KontModel>::empty() =~= base);
    }
    lemma_play_around(start, inner, base, moves);
    let arrived = inner.play(moves).above(base);
    assert(arrived.stack =~= base);
    assert(arrived.step() == yields(after, stack, value)) by {
        assert(base.drop_last() =~= stack);
    }
}

/// How far the evaluation of a form has gone when a macro call comes to it:
/// a form that is a macro call in its turn has had its first step taken.
pub open spec fn head_start(expansion: Form, env: EnvModel, frame: usize) -> nat {
    if is_macro_call_model(expansion, env, frame) {
        1
    } else {
        0
    }
}

/// A macro call is the macro's lambda applied to the operands as they stand,
/// unevaluated, and then the evaluation of what the application gave: where
/// applying the lambda to the operands gives the form `expansion`, the macro
/// call goes on as the evaluation of `expansion` does, in the frame of the
/// call, over the environment that the application left.
pub proof fn law_macro_call(
    env: EnvModel,
    stack: Seq<KontModel>,
    frame: usize,
    name: Seq<char>,
    operands: Seq<Form>,
    moves: Seq<Move>,
    after: EnvModel,
    expansion: Form,
)
    requires
        env.lookup(frame, name) matches Some(Form::Lambda { is_macro: true, .. }),
        gives_after(
            apply_lambda_model(env, Seq::empty(), env.lookup(frame, name)->0, operands),
            moves,
            after,
            expansion,
        ),
    ensures
        evaluates(env, stack, list_form(seq![symbol_form(name)] + operands), frame).play(
            around(moves),
        ) == evaluates(after, stack, expansion, frame).run(head_start(expansion, after, frame)),
{
    let items = seq![symbol_form(name)] + operands;
    let start = evaluates(env, stack, list_form(items), frame);
    let base = stack.push(KontModel::Expand { frame, evaluate: true });
    let callee = env.lookup(frame, name)->0;
    let inner = apply_lambda_model(env, Seq::empty(), callee, operands);
    assert(items.subrange(1, items.len() as int) =~= operands);
    assert(start.step() == inner.above(base)) by {
        lemma_apply_lambda_above(env, base, Seq::empty(), callee, operands);
        assert(base + Seq::<KontModel>::empty() =~= base);
    }
    lemma_play_around(start, inner, base, moves);
    let arrived = inner.play(moves).above(base);
    assert(arrived.stack =~= base);
    let begun = evaluates(after, stack, expansion, frame);
    assert(arrived.step() == begun.run(head_start(expansion, after, frame))) by {
        assert(base.drop_last() =~= stack);
        reveal_with_fuel(MachineModel::run, 2);
    }
}

/// A call in tail position puts nothing on the stack: applying a lambda
/// leaves the stack as it is, and so does the choice of a branch by `if`.
pub proof fn law_tail_calls_keep_the_stack(
    env: EnvModel,
    stack: Seq<KontModel>,
    callee: Form,
    args: Seq<Form>,
    items: Seq<Form>,
    frame: usize,
    value: Form,
)
    ensures
        apply_lambda_model(env, stack, callee, args).stack == stack,
        return_step(env, stack, KontModel::Branch { items, frame }, value).stack == stack,
        return_step(env, stack, KontModel::Again { frame }, value).stack == stack,
{
}


/// Each form under `quote`.
pub open spec fn quoted(forms: Seq<Form>) -> Seq<Form> {
    Seq::new(forms.len(), |i: int| list_form(seq![symbol_form("quote"@), forms[i]]))
}

/// The state in which the call `items` has its callee and its first `ready`
/// operands evaluated and goes on to evaluate the next operand.
pub open spec fn call_in_progress(
    env: EnvModel,
    stack: Seq<KontModel>,
    frame: usize,
    items: Seq<Form>,
    callee: Form,
    operands: Seq<Form>,
    ready: int,
) -> MachineModel {
    evaluates(
        env,
        stack.push(
            KontModel::Items { items, done: seq![callee] + operands.subrange(0, ready), frame },
        ),
        items[ready + 1],
        frame,
    )
}

proof fn lemma_quoted_operands(
    env: EnvModel,
    stack: Seq<KontModel>,
    frame: usize,
    name: Seq<char>,
    callee: Form,
    operands: Seq<Form>,
    ready: int,
)
    requires
        no_macro(env, frame, "quote"@),
        callee is Lambda,
        0 <= ready < operands.len(),
    ensures
        call_in_progress(
            env,
            stack,
            frame,
            seq![symbol_form(name)] + quoted(operands),
            callee,
            operands,
            ready,
        ).run((2 * (operands.len() - ready)) as nat) == apply_lambda_model(
            env,
            stack,
            callee,
            operands,
        ),
    decreases operands.len() - ready,
{
    let items = seq![symbol_form(name)] + quoted(operands);
    let done = seq![callee] + operands.subrange(0, ready);
    let kont = KontModel::Items { items, done, frame };
    let here = call_in_progress(env, stack, frame, items, callee, operands, ready);
    assert(items[ready + 1] == list_form(seq![symbol_form("quote"@), operands[ready]]));
    law_quote(env, stack.push(kont), frame, operands[ready]);
    let handed = yields(env, stack.push(kont), operands[ready]);
    assert(here.step() == handed);
    assert(stack.push(kont).drop_last() =~= stack);
    let values = done.push(operands[ready]);
    assert(values =~= seq![callee] + operands.subrange(0, ready + 1));
    let next = handed.step();
    assert(next == return_step(env, stack, kont, operands[ready]));
    assert(here.run(2) == next) by {
        reveal_with_fuel(MachineModel::run, 3);
    }
    if ready + 1 == operands.len() {
        assert(values.subrange(1, values.len() as int) =~= operands);
        assert(next == apply_lambda_model(env, stack, callee, operands));
    } else {
        assert(next == call_in_progress(env, stack, frame, items, callee, operands, ready + 1));
        lemma_quoted_operands(env, stack, frame, name, callee, operands, ready + 1);
        lemma_run_split(here, 2, (2 * (operands.len() - ready - 1)) as nat);
    }
}

/// A call of a lambda by its name, with every operand under `quote`, applies
/// the lambda to the operands as they stand. It holds wherever the name is
/// that of no special form and `quote` has not been made the name of a macro.
///
/// With `law_macro_call` this says what a macro is: a call of the macro goes
/// on as the form does that such a call of its lambda gives.
pub proof fn law_quoted_call(
    env: EnvModel,
    stack: Seq<KontModel>,
    frame: usize,
    name: Seq<char>,
    operands: Seq<Form>,
)
    requires
        env.lookup(frame, name) matches Some(Form::Lambda { is_macro: false, .. }),
        special_of(name) is None,
        no_macro(env, frame, "quote"@),
    ensures
        evaluates(env, stack, list_form(seq![symbol_form(name)] + quoted(operands)), frame).run(
            (2 * operands.len() + 3) as nat,
        ) == apply_lambda_model(env, stack, env.lookup(frame, name)->0, operands),
{
    let callee = env.lookup(frame, name)->0;
    let items = seq![symbol_form(name)] + quoted(operands);
    let start = evaluates(env, stack, list_form(items), frame);
    let empty = KontModel::Items { items, done: Seq::empty(), frame };
    let looked = evaluates(env, stack.push(empty), items[0], frame);
    assert(start.step() == looked);
    let found = yields(env, stack.push(empty), callee);
    assert(looked.step() == found);
    assert(stack.push(empty).drop_last() =~= stack);
    let values = Seq::<Form>::empty().push(callee);
    assert(values =~= seq![callee] + operands.subrange(0, 0));
    let next = found.step();
    assert(next == return_step(env, stack, empty, callee));
    assert(start.run(3) == next) by {
        reveal_with_fuel(MachineModel::run, 4);
    }
    if operands.len() == 0 {
        assert(values.subrange(1, values.len() as int) =~= operands);
    } else {
        assert(next == call_in_progress(env, stack, frame, items, callee, operands, 0));
        lemma_quoted_operands(env, stack, frame, name, callee, operands, 0);
        lemma_run_split(start, 3, (2 * operands.len()) as nat);
    }
}

/// Applying a lambda does not ask whether it is flagged as a macro.
pub proof fn law_macro_flag_is_not_applied(
    env: EnvModel,
    stack: Seq<KontModel>,
    bindings: Seq<Form>,
    body: Form,
    captured: usize,
    meta: Seq<(Seq<char>, Form)>,
    operands: Seq<Form>,
)
    ensures
        apply_lambda_model(
            env,
            stack,
            Form::Lambda { bindings, to_eval: Box::new(body), env: captured, is_macro: true, meta },
            operands,
        ) == apply_lambda_model(
            env,
            stack,
            Form::Lambda { bindings, to_eval: Box::new(body), env: captured, is_macro: false, meta },
            operands,
        ),
{
}


proof fn lemma_bind_each_wf(
    env: EnvModel,
    frame: usize,
    params: Seq<Form>,
    args: Seq<Form>,
    upto: nat,
)
    requires
        env.wf(),
    ensures
        bind_each(env, frame, params, args, upto).wf(),
    decreases upto,
{
    if !(upto == 0 || upto > params.len() || upto > args.len()) {
        lemma_bind_each_wf(env, frame, params, args, (upto - 1) as nat);
        lemma_bind_wf(
            bind_each(env, frame, params, args, (upto - 1) as nat),
            frame,
            params[upto - 1]->Symbol_value,
            args[upto - 1],
        );
    }
}

proof fn lemma_apply_lambda_wf(env: EnvModel, stack: Seq<KontModel>, callee: Form, args: Seq<Form>)
    requires
        env.wf(),
    ensures
        apply_lambda_model(env, stack, callee, args).env.wf(),
{
    match callee {
        Form::Lambda { bindings, to_eval, env: captured, .. } => {
            let frame = env.frames.len() as usize;
            lemma_push_frame_wf(env, captured);
            lemma_bind_each_wf(env.push_frame(captured), frame, bindings, args, bindings.len());
            match spread_position(bindings) {
                Some(spread) => {
                    if spread >= 0 {
                        lemma_bind_each_wf(
                            env.push_frame(captured),
                            frame,
                            bindings,
                            args,
                            spread as nat,
                        );
                        lemma_bind_wf(
                            bind_each(env.push_frame(captured), frame, bindings, args, spread as nat),
                            frame,
                            bindings[spread + 1]->Symbol_value,
                            list_form(args.subrange(spread, args.len() as int)),
                        );
                    }
                },
                None => {},
            }
        },
        _ => {},
    }
}

proof fn lemma_expand_wf(
    env: EnvModel,
    stack: Seq<KontModel>,
    items: Seq<Form>,
    frame: usize,
    evaluate: bool,
)
    requires
        env.wf(),
    ensures
        expand_step(env, stack, items, frame, evaluate).env.wf(),
{
    match env.lookup(frame, items[0]->Symbol_value) {
        Some(callee) => {
            lemma_apply_lambda_wf(
                env,
                stack.push(KontModel::Expand { frame, evaluate }),
                callee,
                items.subrange(1, items.len() as int),
            );
        },
        None => {},
    }
}

proof fn lemma_catch_wf(
    env: EnvModel,
    stack: Seq<KontModel>,
    items: Seq<Form>,
    index: nat,
    raised: Form,
    frame: usize,
)
    requires
        env.wf(),
    ensures
        catch_step(env, stack, items, index, raised, frame).env.wf(),
    decreases items.len() - index,
{
    if index < items.len() {
        lemma_catch_wf(env, stack, items, index + 1, raised, frame);
        match items[index as int] {
            Form::List { collection: clause, .. } => {
                if clause.len() >= 3 && clause[1] is Symbol {
                    lemma_push_frame_wf(env, frame);
                    lemma_bind_wf(
                        env.push_frame(frame),
                        env.frames.len() as usize,
                        clause[1]->Symbol_value,
                        raised,
                    );
                }
            },
            _ => {},
        }
    }
}

proof fn lemma_special_wf(
    env: EnvModel,
    stack: Seq<KontModel>,
    kind: Special,
    items: Seq<Form>,
    frame: usize,
)
    requires
        env.wf(),
    ensures
        special_step(env, stack, kind, items, frame).env.wf(),
{
    if items.len() >= 3 {
        lemma_bind_wf(
            env,
            frame,
            items[1]->Symbol_value,
            error_form(items[2]->String_value, items[1]->Symbol_value),
        );
    }
    lemma_push_frame_wf(env, frame);
    if items.len() >= 2 && kind == Special::MacroExpand && is_macro_call_model(
        items[1],
        env,
        frame,
    ) {
        lemma_expand_wf(env, stack, items[1]->List_collection, frame, false);
    }
}

proof fn lemma_eval_wf(env: EnvModel, stack: Seq<KontModel>, expr: Form, frame: usize)
    requires
        env.wf(),
    ensures
        eval_step(env, stack, expr, frame).env.wf(),
{
    match expr {
        Form::List { collection, .. } => {
            if collection.len() > 0 {
                if is_macro_call_model(expr, env, frame) {
                    lemma_expand_wf(env, stack, collection, frame, true);
                } else if special_head(collection[0]) is Some {
                    lemma_special_wf(
                        env,
                        stack,
                        special_head(collection[0])->0,
                        collection,
                        frame,
                    );
                }
            }
        },
        _ => {},
    }
}

proof fn lemma_return_wf(env: EnvModel, stack: Seq<KontModel>, kont: KontModel, value: Form)
    requires
        env.wf(),
    ensures
        return_step(env, stack, kont, value).env.wf(),
{
    match kont {
        KontModel::Items { items, done, frame } => {
            let values = done.push(value);
            if values.len() >= items.len() && values.len() > 0 {
                lemma_apply_lambda_wf(
                    env,
                    stack,
                    values[0],
                    values.subrange(1, values.len() as int),
                );
            }
        },
        KontModel::Define { key, frame } => {
            lemma_bind_wf(env, frame, key, value);
        },
        KontModel::DefineMacro { key, frame } => {
            match value {
                Form::Lambda { bindings, to_eval, env: captured, meta, .. } => {
                    lemma_bind_wf(
                        env,
                        frame,
                        key,
                        Form::Lambda { bindings, to_eval, env: captured, is_macro: true, meta },
                    );
                },
                _ => {},
            }
        },
        KontModel::Bind { bindings, index, body, frame } => {
            if !(index + 2 > bindings.len() || !(bindings[index as int] is Symbol)) {
                lemma_bind_wf(env, frame, bindings[index as int]->Symbol_value, value);
            }
        },
        KontModel::Expand { frame, evaluate } => {
            if is_macro_call_model(value, env, frame) {
                lemma_expand_wf(env, stack, value->List_collection, frame, evaluate);
            }
        },
        _ => {},
    }
}

/// No step binds a key twice in one frame: where the keys of every frame
/// differ, they differ after a step.
pub proof fn law_step_keeps_keys_distinct(machine: MachineModel)
    requires
        machine.env.wf(),
    ensures
        machine.step().env.wf(),
{
    if !machine.halted() {
        match machine.control {
            ControlModel::Eval { expr, frame } => {
                lemma_eval_wf(machine.env, machine.stack, expr, frame);
            },
            ControlModel::Value { value } => {
                lemma_return_wf(
                    machine.env,
                    machine.stack.drop_last(),
                    machine.stack.last(),
                    value,
                );
            },
            ControlModel::Raise { error } => {
                match machine.stack.last() {
                    KontModel::Try { items, frame } => {
                        lemma_catch_wf(
                            machine.env,
                            machine.stack.drop_last(),
                            items,
                            2,
                            error,
                            frame,
                        );
                    },
                    _ => {},
                }
            },
            ControlModel::Request { .. } => {},
        }
    }
}

/// The same of any moves: steps, and answers of the host.
pub proof fn law_play_keeps_keys_distinct(machine: MachineModel, moves: Seq<Move>)
    requires
        machine.env.wf(),
    ensures
        machine.play(moves).env.wf(),
    decreases moves.len(),
{
    if moves.len() > 0 {
        law_step_keeps_keys_distinct(machine);
        law_play_keeps_keys_distinct(machine.advance(moves[0]), moves.drop_first());
    }
}

} // verus!
