//! The machine: an environment, a control and a stack of continuations. It
//! runs by steps, in constant host stack, and stops when it holds a result or
//! needs its host: for arithmetic on doubles, for reading and for writing.

use vstd::prelude::*;
use vstd::string::StringExecFns;
pub use crate::evaluator::quasi_quote;
use crate::compiler::{build_from_tokens, number_count, TokenReader};
use crate::env::{root_model, EnvModel, LispyEnv};
use crate::errors::system_failure;
use crate::evaluator::{deliver, evaluate, expand, names_macro, pop_kont, unwind};
use crate::lexer::{token_models, tokenize, LexerToken};
use crate::printer::{piece_models, Piece};
use crate::semantics::{
    expand_step, is_macro_call_model, lemma_halted_stays, lemma_run_split, state, yields,
    ControlModel, KontModel, MachineModel, ReplyModel, RequestModel,
};
use crate::types::{
    extend_cloned, forms, group_forms, nil_form, pair_forms, symbol_form, Builtin, Form, LispyType,
};

verus! {

broadcast use group_forms;

/// Work that only the host of the machine can do.
#[derive(Debug)]
pub enum HostRequest {
    /// `left op right` on doubles, where `op` is one of the four arithmetic
    /// natives. The reply is the number.
    Arithmetic { op: Builtin, left: u64, right: u64 },
    /// The double nearest to `count`. The reply is the number.
    NumberOfCount { count: usize },
    /// Writing the pieces, and a newline after them if asked.
    Write { pieces: Vec<Piece>, newline: bool },
    /// The text of a file, if it can be read.
    ReadFile { path: String },
    /// The doubles that the `Number` tokens spell, in the order of the tokens.
    Numbers { tokens: Vec<LexerToken> },
    /// What the host's native of this number makes of the arguments: a value,
    /// or an error that it raises.
    Call { native: u32, args: Vec<LispyType> },
}

/// The host's answer to a request.
#[derive(Debug)]
pub enum HostReply {
    Number(u64),
    Written,
    File(Option<String>),
    Numbers(Vec<u64>),
    Value(LispyType),
    Raised(LispyType),
}

/// What the machine is doing.
#[derive(Debug)]
pub enum Control {
    /// Evaluating a form in a frame.
    Eval { expr: LispyType, frame: usize },
    /// Handing a value to the continuation on top of the stack.
    Value { value: LispyType },
    /// Handing a raised error down the stack.
    Raise { error: LispyType },
    /// Waiting for the host.
    Request { request: HostRequest },
}

/// What is left to do with a value once it is there.
#[allow(inconsistent_fields)]
#[derive(Debug)]
pub enum Kont {
    /// The items of an application are evaluated left to right.
    Items { items: Vec<LispyType>, done: Vec<LispyType>, frame: usize },
    /// The values of a hash are evaluated in order.
    Entries { entries: Vec<(LispyType, LispyType)>, done: Vec<(LispyType, LispyType)>, frame: usize },
    /// `def!` binds the value.
    Define { key: String, frame: usize },
    /// `defmacro!` binds the lambda, flagged.
    DefineMacro { key: String, frame: usize },
    /// `let*` binds the value to the symbol at `index`.
    Bind { bindings: Vec<LispyType>, index: usize, body: LispyType, frame: usize },
    /// `do` goes on after the item at `next`.
    Sequence { items: Vec<LispyType>, next: usize, frame: usize },
    /// `if` picks a branch.
    Branch { items: Vec<LispyType>, frame: usize },
    /// `eval` evaluates the value.
    Again { frame: usize },
    /// `throw` raises the value.
    Throw,
    /// `try*` lets a value pass and catches an error.
    Try { items: Vec<LispyType>, frame: usize },
    /// Macro expansion looks at what a macro's body gave.
    Expand { frame: usize, evaluate: bool },
    /// The forms of a source text, once read, are evaluated one after another.
    Program { frame: usize },
}

pub struct LispyMachine {
    pub env: LispyEnv,
    pub control: Control,
    pub stack: Vec<Kont>,
}

impl View for HostRequest {
    type V = RequestModel;

    open spec fn view(&self) -> RequestModel {
        match self {
            HostRequest::Arithmetic { op, left, right } => RequestModel::Arithmetic {
                op: *op,
                left: *left,
                right: *right,
            },
            HostRequest::NumberOfCount { count } => RequestModel::NumberOfCount { count: *count },
            HostRequest::Write { pieces, newline } => RequestModel::Write {
                pieces: piece_models(pieces@),
                newline: *newline,
            },
            HostRequest::ReadFile { path } => RequestModel::ReadFile { path: path@ },
            HostRequest::Numbers { tokens } => RequestModel::Numbers {
                tokens: token_models(tokens@),
            },
            HostRequest::Call { native, args } => RequestModel::Call {
                native: *native,
                args: forms(args@),
            },
        }
    }
}

impl View for HostReply {
    type V = ReplyModel;

    open spec fn view(&self) -> ReplyModel {
        match self {
            HostReply::Number(bits) => ReplyModel::Number(*bits),
            HostReply::Written => ReplyModel::Written,
            HostReply::File(content) => ReplyModel::File(
                match content {
                    Some(text) => Some(text@),
                    None => None,
                },
            ),
            HostReply::Numbers(numbers) => ReplyModel::Numbers(numbers@),
            HostReply::Value(value) => ReplyModel::Value(value@),
            HostReply::Raised(error) => ReplyModel::Raised(error@),
        }
    }
}

impl View for Control {
    type V = ControlModel;

    open spec fn view(&self) -> ControlModel {
        match self {
            Control::Eval { expr, frame } => ControlModel::Eval { expr: expr@, frame: *frame },
            Control::Value { value } => ControlModel::Value { value: value@ },
            Control::Raise { error } => ControlModel::Raise { error: error@ },
            Control::Request { request } => ControlModel::Request { request: request@ },
        }
    }
}

impl View for Kont {
    type V = KontModel;

    open spec fn view(&self) -> KontModel {
        match self {
            Kont::Items { items, done, frame } => KontModel::Items {
                items: forms(items@),
                done: forms(done@),
                frame: *frame,
            },
            Kont::Entries { entries, done, frame } => KontModel::Entries {
                entries: pair_forms(entries@),
                done: pair_forms(done@),
                frame: *frame,
            },
            Kont::Define { key, frame } => KontModel::Define { key: key@, frame: *frame },
            Kont::DefineMacro { key, frame } => KontModel::DefineMacro { key: key@, frame: *frame },
            Kont::Bind { bindings, index, body, frame } => KontModel::Bind {
                bindings: forms(bindings@),
                index: *index as nat,
                body: body@,
                frame: *frame,
            },
            Kont::Sequence { items, next, frame } => KontModel::Sequence {
                items: forms(items@),
                next: *next as nat,
                frame: *frame,
            },
            Kont::Branch { items, frame } => KontModel::Branch {
                items: forms(items@),
                frame: *frame,
            },
            Kont::Again { frame } => KontModel::Again { frame: *frame },
            Kont::Throw => KontModel::Throw,
            Kont::Try { items, frame } => KontModel::Try { items: forms(items@), frame: *frame },
            Kont::Expand { frame, evaluate } => KontModel::Expand {
                frame: *frame,
                evaluate: *evaluate,
            },
            Kont::Program { frame } => KontModel::Program { frame: *frame },
        }
    }
}

/// The models of a stack of continuations, one for one.
pub open spec fn kont_models(stack: Seq<Kont>) -> Seq<KontModel> {
    Seq::new(stack.len(), |i: int| stack[i]@)
}

impl View for LispyMachine {
    type V = MachineModel;

    open spec fn view(&self) -> MachineModel {
        MachineModel { env: self.env@, control: self.control@, stack: kont_models(self.stack@) }
    }
}


/// Where a machine stands.
#[derive(Clone, Copy, Debug, PartialEq, Eq, Structural)]
pub enum Status {
    /// It holds a result.
    Finished,
    /// It waits for its host to answer a request.
    Waiting,
    /// It has steps left to take.
    Running,
}

/// Where a machine in this state stands.
pub open spec fn status_of(machine: MachineModel) -> Status {
    if machine.waiting() {
        Status::Waiting
    } else if machine.finished() {
        Status::Finished
    } else {
        Status::Running
    }
}

/// Whether a form is a macro call, seen from the frame that `env` works on.
pub fn is_macro_call(ast: &LispyType, env: &LispyEnv) -> (r: bool)
    ensures
        r == is_macro_call_model(ast@, env@, env.current),
{
    match ast {
        LispyType::List { collection, .. } => {
            assert(ast@->List_collection == forms(collection@));
            names_macro(collection, env, env.current)
        },
        _ => false,
    }
}

impl LispyMachine {
    /// A machine on a root environment. It holds the result `nil`.
    pub fn new() -> (machine: Self)
        ensures
            machine@ == yields(root_model(), Seq::empty(), nil_form()),
    {
        let machine = Self {
            env: LispyEnv::root(),
            control: Control::Value { value: LispyType::create_nil() },
            stack: Vec::new(),
        };
        assert(kont_models(machine.stack@) =~= Seq::<KontModel>::empty());
        machine
    }

/// The environment.
    pub fn get_env(&self) -> (env: &LispyEnv)
        ensures
            env == &self.env,
    {
        &self.env
    }

    /// The environment, to bind in or to make work on another frame. What the
    /// machine is doing stays as it is.
    pub fn get_env_mut(&mut self) -> (env: &mut LispyEnv)
        ensures
            *env == old(self).env,
            final(self).env == *final(env),
            final(self).control == old(self).control,
            final(self).stack == old(self).stack,
    {
        &mut self.env
    }

    /// Where the machine stands.
    pub fn status(&self) -> (status: Status)
        ensures
            status == status_of(self@),
    {
        match &self.control {
            Control::Request { .. } => Status::Waiting,
            Control::Eval { .. } => Status::Running,
            _ => if self.stack.len() == 0 {
                Status::Finished
            } else {
                Status::Running
            },
        }
    }

    /// The request that the machine waits on, if it waits.
    pub fn request(&self) -> (request: Option<&HostRequest>)
        ensures
            match request {
                Some(asked) => self@.control == (ControlModel::Request { request: asked@ }),
                None => !self@.waiting(),
            },
    {
        match &self.control {
            Control::Request { request } => Some(request),
            _ => None,
        }
    }

    /// The result that the machine holds, if it is finished: the value, or the
    /// error that was raised and not caught.
    pub fn result(&self) -> (result: Option<Result<&LispyType, &LispyType>>)
        ensures
            match result {
                Some(Ok(value)) => self@.finished() && self@.result() == Ok::<Form, Form>(value@),
                Some(Err(error)) => self@.finished() && self@.result() == Err::<Form, Form>(
                    error@,
                ),
                None => !self@.finished(),
            },
    {
        if self.stack.len() != 0 {
            return None;
        }
        match &self.control {
            Control::Value { value } => Some(Ok(value)),
            Control::Raise { error } => Some(Err(error)),
            _ => None,
        }
    }

    /// Sets the machine to evaluate `expr` in the frame its environment works
    /// on. Whatever it was doing is dropped.
    pub fn begin(&mut self, expr: LispyType)
        ensures
            final(self)@ == old(self)@.begin(expr@),
    {
        self.stack = Vec::new();
        self.control = Control::Eval { expr, frame: self.env.current };
        assert(kont_models(self.stack@) =~= Seq::<KontModel>::empty());
    }

    /// Sets the machine to run a source text, form after form, in the frame
    /// its environment works on. Whatever it was doing is dropped.
    pub fn execute(&mut self, input_code: &str)
        ensures
            final(self)@ == old(self)@.execute(input_code@),
    {
        self.stack = Vec::new();
        self.stack.push(Kont::Program { frame: self.env.current });
        self.control = Control::Request {
            request: HostRequest::Numbers { tokens: tokenize(input_code) },
        };
        assert(kont_models(self.stack@) =~= seq![KontModel::Program { frame: self.env.current }]);
    }

    /// Takes one step. A machine that is finished or waits stays as it is.
    pub fn step(&mut self)
        ensures
            final(self)@ == old(self)@.step(),
    {
        match self.status() {
            Status::Running => {},
            _ => {
                return ;
            },
        }
        let mut control = Control::Value { value: LispyType::create_nil() };
        core::mem::swap(&mut self.control, &mut control);
        match control {
            Control::Eval { expr, frame } => {
                let next = evaluate(&mut self.env, &mut self.stack, expr, frame);
                self.control = next;
            },
            Control::Value { value } => {
                let kont = pop_kont(&mut self.stack);
                let next = deliver(&mut self.env, &mut self.stack, kont, value);
                self.control = next;
            },
            Control::Raise { error } => {
                let kont = pop_kont(&mut self.stack);
                let next = unwind(&mut self.env, &mut self.stack, kont, error);
                self.control = next;
            },
            Control::Request { request } => {
                self.control = Control::Request { request };
            },
        }
    }

    /// Takes steps until the machine is finished or waits, and `max_steps` of
    /// them at most.
    pub fn run(&mut self, max_steps: u64) -> (status: Status)
        ensures
            final(self)@ == old(self)@.run(max_steps as nat),
            status == status_of(final(self)@),
    {
        let mut taken: u64 = 0;
        loop
            invariant
                taken <= max_steps,
                self@ == old(self)@.run(taken as nat),
            decreases max_steps - taken,
        {
            let status = self.status();
            if status != Status::Running {
                proof {
                    lemma_halted_stays(self@, (max_steps - taken) as nat);
                    lemma_run_split(old(self)@, taken as nat, (max_steps - taken) as nat);
                }
                return status;
            }
            if taken == max_steps {
                return status;
            }
            self.step();
            proof {
                lemma_run_split(old(self)@, taken as nat, 1);
                assert(old(self)@.run(taken as nat).run(1) == old(self)@.run(taken as nat).step())
                    by {
                    reveal_with_fuel(MachineModel::run, 2);
                }
            }
            taken += 1;
        }
    }

    /// Whether the reply is of the kind that the machine waits for.
    fn fits(&self, reply: &HostReply) -> (r: bool)
        ensures
            r == (self@.resume(reply@) is Some),
    {
        match &self.control {
            Control::Request { request } => match (request, reply) {
                (HostRequest::Arithmetic { .. }, HostReply::Number(_)) => true,
                (HostRequest::NumberOfCount { .. }, HostReply::Number(_)) => true,
                (HostRequest::Write { .. }, HostReply::Written) => true,
                (HostRequest::ReadFile { .. }, HostReply::File(_)) => true,
                (HostRequest::Call { .. }, HostReply::Value(_)) => true,
                (HostRequest::Call { .. }, HostReply::Raised(_)) => true,
                (HostRequest::Numbers { tokens }, HostReply::Numbers(numbers)) => numbers.len()
                    == number_count(tokens),
                _ => false,
            },
            _ => false,
        }
    }

    /// Hands the host's answer to the machine. An answer of a kind that the
    /// machine does not wait for is refused, and the machine stays as it is.
    pub fn resume(&mut self, reply: HostReply) -> (accepted: bool)
        ensures
            match old(self)@.resume(reply@) {
                Some(next) => accepted && final(self)@ == next,
                None => !accepted && final(self)@ == old(self)@,
            },
    {
        if !self.fits(&reply) {
            return false;
        }
        let ghost before = self@;
        let ghost answered = reply@;
        let mut control = Control::Value { value: LispyType::create_nil() };
        core::mem::swap(&mut self.control, &mut control);
        let next = match control {
            Control::Request { request } => {
                let next = answer(request, reply);
                assert(state(before.env, ControlModel::Request { request: request@ }, before.stack)
                    == before);
                assert(before.resume(answered) == Some(state(before.env, next@, before.stack)));
                next
            },
            other => other,
        };
        self.control = next;
        true
    }
}

/// What an answer of the right kind makes of a request.
fn answer(request: HostRequest, reply: HostReply) -> (control: Control)
    ensures
        forall|env: EnvModel, stack: Seq<KontModel>|
            #![trigger state(env, control@, stack)]
            state(env, ControlModel::Request { request: request@ }, stack).resume(reply@)
                is Some ==> state(env, ControlModel::Request { request: request@ }, stack).resume(
                reply@,
            ) == Some(state(env, control@, stack)),
{
    match (request, reply) {
        (HostRequest::Arithmetic { .. }, HostReply::Number(bits)) => Control::Value {
            value: LispyType::create_number(bits),
        },
        (HostRequest::NumberOfCount { .. }, HostReply::Number(bits)) => Control::Value {
            value: LispyType::create_number(bits),
        },
        (HostRequest::Write { .. }, HostReply::Written) => Control::Value {
            value: LispyType::create_nil(),
        },
        (HostRequest::ReadFile { path }, HostReply::File(content)) => match content {
            Some(text) => Control::Value { value: LispyType::create_string(text.as_str()) },
            None => {
                let message = String::from_str("File ").concat(path.as_str()).concat(" not found");
                Control::Raise { error: system_failure(message.as_str()) }
            },
        },
        (HostRequest::Call { .. }, HostReply::Value(value)) => Control::Value { value },
        (HostRequest::Call { .. }, HostReply::Raised(error)) => Control::Raise { error },
        (HostRequest::Numbers { tokens }, HostReply::Numbers(numbers)) => {
            let ghost model = token_models(tokens@);
            let mut reader = TokenReader::new(tokens, numbers);
            match build_from_tokens(&mut reader) {
                Ok(program) => {
                    let mut items: Vec<LispyType> = Vec::new();
                    items.push(LispyType::create_symbol("do"));
                    assert(forms(items@) =~= seq![symbol_form("do"@)]);
                    extend_cloned(&mut items, &program, 0, program.len());
                    assert(forms(items@) =~= seq![symbol_form("do"@)] + forms(
                        program@,
                    ));
                    Control::Value { value: LispyType::create_list(items) }
                },
                Err(error) => Control::Raise { error },
            }
        },
        (_, _) => Control::Value { value: LispyType::create_nil() },
    }
}

/// Sets the machine to evaluate `expr` and runs it, `max_steps` steps at most.
pub fn eval(passed_expression: &LispyType, machine: &mut LispyMachine, max_steps: u64) -> (status:
    Status)
    ensures
        final(machine)@ == old(machine)@.begin(passed_expression@).run(max_steps as nat),
        status == status_of(final(machine)@),
{
    machine.begin(passed_expression.clone());
    machine.run(max_steps)
}

/// The state in which `ast` is being macro-expanded and nothing more: a form
/// that is no macro call is the result as it stands.
pub open spec fn macro_expand_model(machine: MachineModel, ast: Form) -> MachineModel {
    if is_macro_call_model(ast, machine.env, machine.env.current) {
        expand_step(machine.env, Seq::empty(), ast->List_collection, machine.env.current, false)
    } else {
        yields(machine.env, Seq::empty(), ast)
    }
}

/// Sets the machine to macro-expand `ast` without evaluating what comes of it,
/// and runs it, `max_steps` steps at most.
pub fn macro_expand(ast: &LispyType, machine: &mut LispyMachine, max_steps: u64) -> (status: Status)
    ensures
        final(machine)@ == macro_expand_model(old(machine)@, ast@).run(max_steps as nat),
        status == status_of(final(machine)@),
{
    machine.stack = Vec::new();
    assert(kont_models(machine.stack@) =~= Seq::<KontModel>::empty());
    let frame = machine.env.current;
    let control = match ast {
        LispyType::List { collection, .. } => {
            assert(ast@->List_collection == forms(collection@));
            if names_macro(collection, &machine.env, frame) {
                expand(&mut machine.env, &mut machine.stack, collection, frame, false)
            } else {
                Control::Value { value: ast.clone() }
            }
        },
        _ => Control::Value { value: ast.clone() },
    };
    machine.control = control;
    machine.run(max_steps)
}

} // verus!
