use lispy::compiler::number_literals;
use lispy::machine::{HostReply, HostRequest, LispyMachine, Status};
use lispy::printer::Piece;
use lispy::types::{Builtin, LispyType};

fn answer(request: &HostRequest, out: &mut String) -> HostReply {
    match request {
        HostRequest::Arithmetic { op, left, right } => {
            let a = f64::from_bits(*left);
            let b = f64::from_bits(*right);
            let r = match op {
                Builtin::Add => a + b,
                Builtin::Subtract => a - b,
                Builtin::Multiply => a * b,
                _ => a / b,
            };
            HostReply::Number(r.to_bits())
        }
        HostRequest::NumberOfCount { count } => HostReply::Number((*count as f64).to_bits()),
        HostRequest::Write { pieces, newline } => {
            for piece in pieces {
                match piece {
                    Piece::Text(text) => out.push_str(text),
                    Piece::Number(bits) => out.push_str(&format!("{}", f64::from_bits(*bits))),
                }
            }
            if *newline {
                out.push('\n');
            }
            HostReply::Written
        }
        HostRequest::ReadFile { .. } => HostReply::File(None),
        HostRequest::Numbers { tokens } => HostReply::Numbers(
            number_literals(tokens)
                .iter()
                .map(|text| text.parse::<f64>().unwrap().to_bits())
                .collect(),
        ),
        HostRequest::Call { native, args } => match native {
            0 => HostReply::Value(LispyType::create_list(args.iter().rev().cloned().collect())),
            _ => HostReply::Raised(LispyType::create_error("no such native", "NOT_A_FUNCTION")),
        },
    }
}

fn serve(machine: &mut LispyMachine, out: &mut String) -> Result<LispyType, LispyType> {
    loop {
        match machine.run(1_000_000) {
            Status::Finished => {
                return match machine.result().unwrap() {
                    Ok(value) => Ok(value.clone()),
                    Err(error) => Err(error.clone()),
                };
            }
            Status::Waiting => {
                let reply = answer(machine.request().unwrap(), out);
                assert!(machine.resume(reply));
            }
            Status::Running => {}
        }
    }
}

fn run(machine: &mut LispyMachine, code: &str) -> Result<LispyType, LispyType> {
    let mut out = String::new();
    machine.execute(code);
    serve(machine, &mut out)
}

fn number(value: f64) -> LispyType {
    LispyType::create_number(value.to_bits())
}

fn kind_of(error: &LispyType) -> String {
    error.as_error().unwrap().error_type
}

#[test]
fn nested_arithmetic_gives_seven() {
    let mut machine = LispyMachine::new();
    assert_eq!(run(&mut machine, "(+ 1 (* 2 3))"), Ok(number(7.0)));
}

#[test]
fn let_binds_in_sequence() {
    let mut machine = LispyMachine::new();
    assert_eq!(run(&mut machine, "(let* (a 1 b 2) (+ a b))"), Ok(number(3.0)));
    assert_eq!(run(&mut machine, "(let* (a 1 b (+ a 1)) (* a b))"), Ok(number(2.0)));
}

#[test]
fn lambda_applied_in_place_gives_nine() {
    let mut machine = LispyMachine::new();
    assert_eq!(run(&mut machine, "((fn* (x y) (+ x y)) 4 5)"), Ok(number(9.0)));
}

#[test]
fn recursive_sum_gives_500500() {
    let mut machine = LispyMachine::new();
    let code = "(def! f (fn* (n acc) (if (= n 0) acc (f (- n 1) (+ acc n))))) (f 1000 0)";
    assert_eq!(run(&mut machine, code), Ok(number(500500.0)));
}

#[test]
fn unless_macro_gives_one() {
    let mut machine = LispyMachine::new();
    let code = "(defmacro! unless (fn* (c a b) (quasi-quote (if (unquote c) (unquote b) (unquote a))))) (unless false 1 2)";
    assert_eq!(run(&mut machine, code), Ok(number(1.0)));
}

#[test]
fn reader_shortcuts_are_not_read() {
    let mut machine = LispyMachine::new();
    let code = "(defmacro! unless (fn* (c a b) `(if ~c ~b ~a))) (unless false 1 2)";
    let error = run(&mut machine, code).unwrap_err();
    assert_eq!(kind_of(&error), "READ_ERROR");
}

#[test]
fn catch_binds_what_was_thrown() {
    let mut machine = LispyMachine::new();
    let code = "(def! e (list \"oops\")) (try* (throw (list \"oops\")) (catch* e e))";
    let expected = LispyType::create_list(vec![LispyType::create_string("oops")]);
    assert_eq!(run(&mut machine, code), Ok(expected));
}

#[test]
fn catch_symbol_without_a_binding_is_not_defined() {
    let mut machine = LispyMachine::new();
    let error = run(&mut machine, "(try* (throw (list \"oops\")) (catch* e e))").unwrap_err();
    assert_eq!(kind_of(&error), "NOT_DEFINED");
}

#[test]
fn closure_keeps_its_own_binding() {
    let mut machine = LispyMachine::new();
    assert!(run(&mut machine, "(def! inc (let* (n 0) (fn* (x) (+ x n))))").is_ok());
    assert_eq!(run(&mut machine, "(inc 5)"), Ok(number(5.0)));
    assert!(run(&mut machine, "(def! n 100)").is_ok());
    assert_eq!(run(&mut machine, "(inc 5)"), Ok(number(5.0)));
}

#[test]
fn tail_calls_do_not_grow_the_stack() {
    let mut machine = LispyMachine::new();
    let code = "(def! loop (fn* (n) (if (= n 0) 0 (loop (- n 1))))) (loop 100000)";
    machine.execute(code);
    let mut out = String::new();
    let mut deepest = 0;
    let result = loop {
        match machine.run(1000) {
            Status::Finished => break machine.result().unwrap().map(|v| v.clone()).map_err(|e| e.clone()),
            Status::Waiting => {
                let reply = answer(machine.request().unwrap(), &mut out);
                assert!(machine.resume(reply));
            }
            Status::Running => {}
        }
        deepest = deepest.max(machine.stack.len());
    };
    assert_eq!(result, Ok(number(0.0)));
    assert!(deepest < 16);
}

fn eval_form(machine: &mut LispyMachine, form: LispyType) -> Result<LispyType, LispyType> {
    let mut out = String::new();
    machine.begin(form);
    serve(machine, &mut out)
}

fn call(name: &str, args: Vec<LispyType>) -> Result<LispyType, LispyType> {
    let mut machine = LispyMachine::new();
    let mut items = vec![LispyType::create_symbol(name)];
    items.extend(args);
    eval_form(&mut machine, LispyType::create_list(items))
}

fn value_of(code: &str) -> LispyType {
    let mut machine = LispyMachine::new();
    run(&mut machine, code).unwrap()
}

fn kind_raised_by(code: &str) -> String {
    let mut machine = LispyMachine::new();
    kind_of(&run(&mut machine, code).unwrap_err())
}

fn list(items: Vec<LispyType>) -> LispyType {
    LispyType::create_list(items)
}

fn symbol(name: &str) -> LispyType {
    LispyType::create_symbol(name)
}

fn printed_by(code: &str) -> String {
    let mut machine = LispyMachine::new();
    let mut out = String::new();
    machine.execute(code);
    serve(&mut machine, &mut out).unwrap();
    out
}

#[test]
fn quote_gives_the_form_itself() {
    assert_eq!(value_of("(quote (+ 1 2))"), list(vec![symbol("+"), number(1.0), number(2.0)]));
    assert_eq!(value_of("(quote x)"), symbol("x"));
}

#[test]
fn if_takes_the_first_branch_for_any_truthy_value() {
    assert_eq!(value_of("(if 0 1 2)"), number(1.0));
    assert_eq!(value_of("(if \"\" 1 2)"), number(1.0));
    assert_eq!(value_of("(if (list) 1 2)"), number(1.0));
    assert_eq!(value_of("(if {} 1 2)"), number(1.0));
    assert_eq!(value_of("(if true 1 2)"), number(1.0));
    assert_eq!(value_of("(if :k (+ 1 1) 2)"), value_of("(+ 1 1)"));
}

#[test]
fn if_takes_the_second_branch_for_nil_and_false() {
    assert_eq!(value_of("(if nil 1 2)"), number(2.0));
    assert_eq!(value_of("(if false 1 2)"), number(2.0));
    assert!(value_of("(if false 1)").is_nil());
}

#[test]
fn try_gives_what_its_body_gives() {
    assert_eq!(value_of("(try* (+ 1 2) (catch* e 0))"), value_of("(+ 1 2)"));
    assert_eq!(value_of("(try* 7)"), number(7.0));
}

#[test]
fn try_catches_an_error_of_the_kind_it_names() {
    let code = "(deferror! NotDefined \"NOT_DEFINED\") (try* missing (catch* NotDefined 42))";
    assert_eq!(value_of(code), number(42.0));
}

#[test]
fn catch_binds_the_raised_error_under_the_symbol() {
    let code = "(deferror! Mine \"MINE\") (try* (throw Mine) (catch* Mine (list Mine)))";
    let caught = value_of(code);
    let items = caught.as_list().unwrap();
    assert_eq!(items[0].as_error().unwrap().error_type, "MINE");
    assert_eq!(items[0].as_error().unwrap().message, "Mine");
}

#[test]
fn try_raises_again_what_no_clause_catches() {
    let code = "(deferror! Other \"OTHER\") (try* missing (catch* Other 42))";
    assert_eq!(kind_raised_by(code), "NOT_DEFINED");
}

#[test]
fn try_walks_its_clauses_in_order() {
    let code = "(deferror! A \"NOT_DEFINED\") (deferror! B \"NOT_DEFINED\") \
                (try* missing (catch* A 1) (catch* B 2))";
    assert_eq!(value_of(code), number(1.0));
}

#[test]
fn throw_raises_any_value() {
    let mut machine = LispyMachine::new();
    assert_eq!(run(&mut machine, "(throw 5)"), Err(number(5.0)));
    assert_eq!(kind_raised_by("(throw missing)"), "NOT_DEFINED");
}

#[test]
fn def_binds_and_gives_the_value() {
    let mut machine = LispyMachine::new();
    assert_eq!(run(&mut machine, "(def! x 3)"), Ok(number(3.0)));
    assert_eq!(run(&mut machine, "x"), Ok(number(3.0)));
    assert_eq!(
        machine.get_env().get_item(&"x".to_string()).cloned(),
        Some(number(3.0))
    );
}

#[test]
fn def_takes_a_symbol() {
    assert_eq!(kind_raised_by("(def! 1 2)"), "INCORRECT_TYPE");
    assert_eq!(kind_raised_by("(def! x)"), "INCORRECT_ARITY");
}

#[test]
fn defmacro_takes_a_lambda() {
    assert_eq!(kind_raised_by("(defmacro! m 1)"), "INCORRECT_TYPE");
    assert_eq!(kind_raised_by("(defmacro! 1 (fn* () 1))"), "INCORRECT_TYPE");
    assert!(value_of("(defmacro! m (fn* () 1))").is_macro());
    assert!(!value_of("(fn* () 1)").is_macro());
}

#[test]
fn deferror_binds_an_error_and_gives_nil() {
    let mut machine = LispyMachine::new();
    assert!(run(&mut machine, "(deferror! Boom \"BOOM\")").unwrap().is_nil());
    let bound = run(&mut machine, "Boom").unwrap();
    assert_eq!(bound.as_error().unwrap().error_type, "BOOM");
    assert_eq!(bound.as_error().unwrap().message, "Boom");
    assert_eq!(kind_raised_by("(deferror! 1 \"K\")"), "INCORRECT_TYPE");
    assert_eq!(kind_raised_by("(deferror! K k)"), "INCORRECT_TYPE");
}

#[test]
fn let_needs_pairs_of_symbols_and_forms() {
    assert_eq!(kind_raised_by("(let* (a) a)"), "INCORRECT_TYPE");
    assert_eq!(kind_raised_by("(let* (1 2) 3)"), "INCORRECT_TYPE");
    assert_eq!(kind_raised_by("(let* a a)"), "INCORRECT_TYPE");
    assert_eq!(value_of("(let* () 4)"), number(4.0));
}

#[test]
fn let_scope_ends_with_the_form() {
    let mut machine = LispyMachine::new();
    assert_eq!(run(&mut machine, "(let* (inner 1) inner)"), Ok(number(1.0)));
    assert_eq!(kind_of(&run(&mut machine, "inner").unwrap_err()), "NOT_DEFINED");
}

#[test]
fn do_gives_its_last_value() {
    assert!(value_of("(do)").is_nil());
    assert_eq!(value_of("(do 1)"), number(1.0));
    assert_eq!(value_of("(do (def! a 1) (def! b 2) (+ a b))"), number(3.0));
    assert_eq!(kind_raised_by("(do missing 2)"), "NOT_DEFINED");
}

#[test]
fn eval_evaluates_what_its_operand_gives() {
    assert_eq!(value_of("(eval (list + 1 2))"), number(3.0));
    assert_eq!(value_of("(eval (quote (+ 1 2)))"), number(3.0));
}

#[test]
fn lambda_takes_the_rest_of_its_arguments_after_the_spread() {
    assert_eq!(
        value_of("((fn* (a & more) more) 1 2 3)"),
        list(vec![number(2.0), number(3.0)])
    );
    assert_eq!(value_of("((fn* (a & more) more) 1)"), list(vec![]));
    assert_eq!(value_of("((fn* (& all) all) 1 2)"), list(vec![number(1.0), number(2.0)]));
    assert_eq!(kind_raised_by("((fn* (a b & more) more) 1)"), "INCORRECT_ARITY");
    assert_eq!(kind_raised_by("((fn* (a &) a) 1)"), "INCORRECT_TYPE");
    assert_eq!(kind_raised_by("((fn* (a & b c) a) 1 2 3)"), "INCORRECT_TYPE");
}

#[test]
fn lambda_checks_count_then_symbols() {
    assert_eq!(kind_raised_by("((fn* (a b) a) 1)"), "INCORRECT_ARITY");
    assert_eq!(kind_raised_by("((fn* (a 1) a) 1 2)"), "INCORRECT_TYPE");
    assert_eq!(kind_raised_by("(fn* a a)"), "INCORRECT_TYPE");
}

#[test]
fn what_is_no_function_cannot_be_applied() {
    assert_eq!(kind_raised_by("(1 2 3)"), "NOT_A_FUNCTION");
    assert_eq!(kind_raised_by("(\"f\")"), "NOT_A_FUNCTION");
}

#[test]
fn native_with_a_fixed_arity_checks_the_count() {
    assert_eq!(kind_raised_by("(+ 1)"), "INCORRECT_ARITY");
    assert_eq!(kind_raised_by("(+ 1 2 3)"), "INCORRECT_ARITY");
    assert_eq!(kind_raised_by("(count)"), "INCORRECT_ARITY");
}

#[test]
fn empty_list_evaluates_to_itself() {
    assert_eq!(value_of("()"), list(vec![]));
}

#[test]
fn symbol_without_a_binding_is_not_defined() {
    assert_eq!(kind_raised_by("missing"), "NOT_DEFINED");
    assert_eq!(kind_raised_by("(+ 1 missing)"), "NOT_DEFINED");
}

#[test]
fn hash_has_its_values_evaluated_and_its_keys_kept() {
    let hash = value_of("{a (+ 1 2) :k (list)}");
    let entries = hash.as_hash().unwrap();
    assert_eq!(entries.len(), 2);
    assert_eq!(entries[0].0, symbol("a"));
    assert_eq!(entries[0].1, number(3.0));
    assert_eq!(entries[1].1, list(vec![]));
    assert_eq!(kind_raised_by("{a missing}"), "NOT_DEFINED");
}

#[test]
fn arithmetic_on_what_is_no_number_gives_an_error_value() {
    let value = value_of("(+ 1 \"a\")");
    assert_eq!(value.as_error().unwrap().error_type, "INCORRECT_TYPE");
    assert_eq!(value_of("(- 5 3)"), number(2.0));
    assert_eq!(value_of("(/ 1 4)"), number(0.25));
    assert_eq!(value_of("(* 1.5 2)"), number(3.0));
}

#[test]
fn quasi_quote_fills_in_what_is_unquoted() {
    assert_eq!(
        value_of("(def! x 5) (quasi-quote (a (unquote x) b))"),
        list(vec![symbol("a"), number(5.0), symbol("b")])
    );
    assert_eq!(
        value_of("(def! xs (list 1 2)) (quasi-quote (a (splice-unquote xs) b))"),
        list(vec![symbol("a"), number(1.0), number(2.0), symbol("b")])
    );
    assert_eq!(value_of("(quasi-quote 7)"), number(7.0));
    assert_eq!(value_of("(quasi-quote x)"), symbol("x"));
}

#[test]
fn quasi_quote_expand_gives_the_template() {
    assert_eq!(
        value_of("(quasi-quote-expand (a (unquote x)))"),
        list(vec![
            symbol("cons"),
            list(vec![symbol("quote"), symbol("a")]),
            list(vec![symbol("cons"), symbol("x"), list(vec![])]),
        ])
    );
    assert_eq!(
        value_of("(quasi-quote-expand ((splice-unquote xs)))"),
        list(vec![symbol("concat"), symbol("xs"), list(vec![])])
    );
    assert_eq!(value_of("(quasi-quote-expand (unquote y))"), symbol("y"));
}

#[test]
fn macro_sees_its_operands_unevaluated() {
    let code = "(defmacro! first-form (fn* (a b) (list (quote quote) a))) (first-form (x y) z)";
    assert_eq!(value_of(code), list(vec![symbol("x"), symbol("y")]));
}

#[test]
fn macro_call_equals_evaluating_what_its_lambda_gives_for_quoted_operands() {
    let mut machine = LispyMachine::new();
    let lambda = "(fn* (c a b) (list (quote if) c b a))";
    run(&mut machine, &format!("(def! unless-fn {})", lambda)).unwrap();
    run(&mut machine, &format!("(defmacro! unless {})", lambda)).unwrap();
    let by_macro = run(&mut machine, "(unless false (+ 1 1) 3)").unwrap();
    let expansion =
        run(&mut machine, "(unless-fn (quote false) (quote (+ 1 1)) (quote 3))").unwrap();
    let by_hand = eval_form(&mut machine, expansion).unwrap();
    assert_eq!(by_macro, by_hand);
    assert_eq!(by_macro, number(2.0));
}

#[test]
fn macro_expand_stops_before_evaluating() {
    let code = "(defmacro! unless (fn* (c a b) (list (quote if) c b a))) \
                (macro-expand (unless false 1 2))";
    assert_eq!(
        value_of(code),
        list(vec![symbol("if"), LispyType::create_bool(false), number(2.0), number(1.0)])
    );
    assert_eq!(value_of("(macro-expand (+ 1 2))"), list(vec![symbol("+"), number(1.0), number(2.0)]));
}

#[test]
fn list_natives() {
    assert_eq!(value_of("(list 1 2)"), list(vec![number(1.0), number(2.0)]));
    assert_eq!(value_of("(list)"), list(vec![]));
    assert_eq!(value_of("(cons 1 2 (list 3))"), list(vec![number(1.0), number(2.0), number(3.0)]));
    assert_eq!(value_of("(cons (list))"), list(vec![]));
    assert_eq!(value_of("(concat (list 1) (list) (list 2 3))"), list(vec![
        number(1.0),
        number(2.0),
        number(3.0)
    ]));
    assert_eq!(value_of("(concat)"), list(vec![]));
    assert_eq!(value_of("(first (list 4 5))"), number(4.0));
    assert!(value_of("(first (list))").is_nil());
    assert_eq!(value_of("(rest (list 4 5 6))"), list(vec![number(5.0), number(6.0)]));
    assert_eq!(value_of("(rest (list))"), list(vec![]));
    assert_eq!(value_of("(nth (list 4 5 6) 1)"), number(5.0));
    assert_eq!(value_of("(nth (list 4 5 6) 2.9)"), number(6.0));
    assert!(value_of("(nth (list 4 5 6) 3)").is_nil());
}

#[test]
fn list_natives_take_lists() {
    assert_eq!(kind_raised_by("(cons 1 2)"), "INCORRECT_TYPE");
    assert_eq!(kind_raised_by("(cons)"), "INCORRECT_ARITY");
    assert_eq!(kind_raised_by("(concat (list) 1)"), "INCORRECT_TYPE");
    assert_eq!(kind_raised_by("(first 1)"), "INCORRECT_TYPE");
    assert_eq!(kind_raised_by("(rest 1)"), "INCORRECT_TYPE");
    assert_eq!(kind_raised_by("(nth 1 1)"), "INCORRECT_TYPE");
    assert_eq!(kind_raised_by("(nth (list) :k)"), "INCORRECT_TYPE");
}

#[test]
fn count_measures_strings_lists_and_hashes() {
    assert_eq!(value_of("(count (list 1 2 3))"), number(3.0));
    assert_eq!(value_of("(count \"abcd\")"), number(4.0));
    assert_eq!(value_of("(count \"é\")"), number(2.0));
    assert_eq!(value_of("(count {a 1 b 2})"), number(2.0));
    assert_eq!(value_of("(count (list))"), number(0.0));
    assert_eq!(kind_raised_by("(count 5)"), "INCORRECT_TYPE");
}

#[test]
fn type_predicates() {
    let yes = LispyType::create_bool(true);
    let no = LispyType::create_bool(false);
    assert_eq!(value_of("(nil? nil)"), yes);
    assert_eq!(value_of("(nil? false)"), no);
    assert_eq!(value_of("(bool? false)"), yes);
    assert_eq!(value_of("(symbol? (quote a))"), yes);
    assert_eq!(value_of("(number? 1)"), yes);
    assert_eq!(value_of("(string? \"s\")"), yes);
    assert_eq!(value_of("(list? (list))"), yes);
    assert_eq!(value_of("(list? true)"), no);
    assert_eq!(value_of("(hash? {})"), yes);
    assert_eq!(value_of("(function? +)"), yes);
    assert_eq!(value_of("(function? (fn* () 1))"), yes);
    assert_eq!(value_of("(function? 1)"), no);
    assert_eq!(value_of("(macro? (fn* () 1))"), no);
    assert_eq!(value_of("(macro? (defmacro! m (fn* () 1)))"), yes);
}

#[test]
fn equality_native() {
    let yes = LispyType::create_bool(true);
    let no = LispyType::create_bool(false);
    assert_eq!(value_of("(= 1 1)"), yes);
    assert_eq!(value_of("(= 1 2)"), no);
    assert_eq!(value_of("(= (list 1 (list 2)) (list 1 (list 2)))"), yes);
    assert_eq!(value_of("(= (list 1 2) (list 1 3))"), no);
    assert_eq!(value_of("(= (list 1 2) (list 1))"), no);
    assert_eq!(value_of("(= {a 1 b 2} {b 2 a 1})"), yes);
    assert_eq!(value_of("(= {a 1} {a 2})"), no);
    assert_eq!(value_of("(= + +)"), no);
    assert_eq!(value_of("(= \"a\" (quote a))"), no);
}

#[test]
fn ordering_natives() {
    let yes = LispyType::create_bool(true);
    let no = LispyType::create_bool(false);
    assert_eq!(call("<", vec![number(1.0), number(2.0)]), Ok(yes.clone()));
    assert_eq!(call("<", vec![number(2.0), number(2.0)]), Ok(no.clone()));
    assert_eq!(call("<=", vec![number(2.0), number(2.0)]), Ok(yes.clone()));
    assert_eq!(call(">", vec![number(3.0), number(2.0)]), Ok(yes.clone()));
    assert_eq!(call(">=", vec![number(1.0), number(2.0)]), Ok(no.clone()));
    assert_eq!(call("<", vec![number(f64::NAN), number(2.0)]), Ok(no.clone()));
    assert_eq!(call(">=", vec![number(f64::NAN), number(f64::NAN)]), Ok(no.clone()));
    assert_eq!(call("<", vec![LispyType::create_string("a"), number(2.0)]), Ok(no));
}

#[test]
fn print_writes_display_forms() {
    assert_eq!(printed_by("(println 1 \"a\" (list 1 (quote b)) nil true)"), "1\"a\"(1 b)niltrue\n");
    assert_eq!(printed_by("(print :k {a 1.5})"), ":k{a 1.5}");
    assert_eq!(printed_by("(println)"), "\n");
    assert_eq!(printed_by("(print + (fn* () 1))"), "#<function>#<lambda-function>");
    assert!(value_of("(println 1)").is_nil());
}

#[test]
fn compile_string_wraps_the_forms_in_do() {
    assert_eq!(
        value_of("(compile-string \"(+ 1 2) x\")"),
        list(vec![symbol("do"), list(vec![symbol("+"), number(1.0), number(2.0)]), symbol("x")])
    );
    assert_eq!(value_of("(eval (compile-string \"(def! a 2) (* a 3)\"))"), number(6.0));
    assert_eq!(kind_raised_by("(compile-string \"(\")"), "READ_ERROR");
    assert_eq!(kind_raised_by("(compile-string 1)"), "INCORRECT_TYPE");
}

#[test]
fn slurp_of_a_missing_file_is_a_system_error() {
    assert_eq!(kind_raised_by("(slurp \"no-such-file\")"), "SYSTEM_ERROR");
    assert_eq!(kind_raised_by("(slurp 1)"), "INCORRECT_TYPE");
}

#[test]
fn slurp_gives_what_the_host_read() {
    let mut machine = LispyMachine::new();
    machine.execute("(slurp \"notes.txt\")");
    assert_eq!(machine.run(100), Status::Waiting);
    assert!(machine.result().is_none());
    assert!(matches!(machine.request(), Some(HostRequest::Numbers { .. })));
    assert!(machine.resume(HostReply::Numbers(vec![])));
    assert_eq!(machine.run(100), Status::Waiting);
    match machine.request() {
        Some(HostRequest::ReadFile { path }) => assert_eq!(path, "notes.txt"),
        _ => panic!("no file was asked for"),
    }
    assert!(machine.resume(HostReply::File(Some("text".to_string()))));
    assert_eq!(machine.run(100), Status::Finished);
    assert_eq!(machine.result(), Some(Ok(&LispyType::create_string("text"))));
}

#[test]
fn answer_of_the_wrong_kind_is_refused() {
    let mut machine = LispyMachine::new();
    machine.execute("(+ 1 2)");
    assert!(!machine.resume(HostReply::Written));
    assert!(!machine.resume(HostReply::Numbers(vec![0])));
    assert!(matches!(machine.request(), Some(HostRequest::Numbers { .. })));
    assert!(machine.resume(HostReply::Numbers(vec![1.0f64.to_bits(), 2.0f64.to_bits()])));
    assert_eq!(machine.run(1000), Status::Waiting);
    assert!(!machine.resume(HostReply::File(None)));
    assert!(machine.resume(HostReply::Number(3.0f64.to_bits())));
    assert_eq!(machine.run(1000), Status::Finished);
    assert!(!machine.resume(HostReply::Written));
}

#[test]
fn run_stops_when_its_steps_are_used() {
    let mut machine = LispyMachine::new();
    machine.begin(list(vec![symbol("quote"), symbol("x")]));
    assert_eq!(machine.run(0), Status::Running);
    assert_eq!(machine.status(), Status::Running);
    assert_eq!(machine.run(1), Status::Finished);
    assert_eq!(machine.result(), Some(Ok(&symbol("x"))));
    machine.step();
    assert_eq!(machine.result(), Some(Ok(&symbol("x"))));
}

#[test]
fn execute_stops_at_the_first_error() {
    let mut machine = LispyMachine::new();
    assert_eq!(kind_of(&run(&mut machine, "(def! a 1) missing (def! b 2)").unwrap_err()), "NOT_DEFINED");
    assert_eq!(run(&mut machine, "a"), Ok(number(1.0)));
    assert_eq!(kind_of(&run(&mut machine, "b").unwrap_err()), "NOT_DEFINED");
}

#[test]
fn execute_of_an_empty_text_gives_nil() {
    assert!(value_of("").is_nil());
}

#[test]
fn native_of_the_host_is_called_with_evaluated_arguments() {
    let mut machine = LispyMachine::new();
    machine
        .get_env_mut()
        .set("reversed", LispyType::create_function(None, Builtin::Host(0)));
    machine
        .get_env_mut()
        .set("unknown", LispyType::create_function(Some(1), Builtin::Host(9)));
    assert_eq!(
        run(&mut machine, "(reversed 1 (+ 1 1) (quote x))"),
        Ok(list(vec![symbol("x"), number(2.0), number(1.0)]))
    );
    assert_eq!(kind_of(&run(&mut machine, "(unknown 1)").unwrap_err()), "NOT_A_FUNCTION");
    assert_eq!(kind_of(&run(&mut machine, "(unknown 1 2)").unwrap_err()), "INCORRECT_ARITY");
    assert_eq!(
        run(&mut machine, "(try* (unknown 1) (catch* unknown 5))"),
        Err(LispyType::create_error("", "NOT_A_FUNCTION"))
    );
}
