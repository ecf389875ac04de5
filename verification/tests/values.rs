use lispy::env::LispyEnv;
use lispy::equality::{find_key, insert_entry, keys_match, values_equal};
use lispy::errors::{
    incorrect_arity_error, incorrect_type_error, not_a_function_error, not_defined_error,
    read_failure, system_failure, too_short_error,
};
use lispy::machine::{eval, is_macro_call, macro_expand, quasi_quote, Control, LispyMachine, Status};
use lispy::printer::{display, display_values, Piece};
use lispy::types::{Builtin, LispyType};

fn number(value: f64) -> LispyType {
    LispyType::create_number(value.to_bits())
}

fn symbol(name: &str) -> LispyType {
    LispyType::create_symbol(name)
}

fn list(items: Vec<LispyType>) -> LispyType {
    LispyType::create_list(items)
}

fn shown(value: &LispyType) -> String {
    let mut pieces = Vec::new();
    display(value, &mut pieces);
    pieces
        .iter()
        .map(|piece| match piece {
            Piece::Text(text) => text.clone(),
            Piece::Number(bits) => format!("{}", f64::from_bits(*bits)),
        })
        .collect()
}

fn samples() -> Vec<LispyType> {
    vec![
        LispyType::create_nil(),
        LispyType::create_bool(true),
        number(1.0),
        symbol("s"),
        LispyType::create_keyword(":k"),
        LispyType::create_string("t"),
        list(vec![]),
        LispyType::create_hash(vec![]),
        LispyType::create_error("m", "K"),
        LispyType::create_function(Some(2), Builtin::Add),
        LispyType::create_lambda(vec![symbol("x")], symbol("x"), 0),
    ]
}

#[test]
fn each_predicate_holds_of_its_variant_alone() {
    let values = samples();
    let checks: Vec<fn(&LispyType) -> bool> = vec![
        LispyType::is_nil,
        LispyType::is_bool,
        LispyType::is_number,
        LispyType::is_symbol,
        LispyType::is_keyword,
        LispyType::is_string,
        LispyType::is_list,
        LispyType::is_hash,
        LispyType::is_error,
    ];
    for (at, check) in checks.iter().enumerate() {
        for (index, value) in values.iter().enumerate() {
            assert_eq!(check(value), at == index, "check {} on value {}", at, index);
        }
    }
    for (index, value) in values.iter().enumerate() {
        assert_eq!(value.is_function(), index >= 9);
        assert_eq!(value.is_lambda(), index == 10);
        assert_eq!(value.is_hashable(), index <= 5);
        assert!(!value.is_macro());
    }
}

#[test]
fn accessors_give_the_payload() {
    assert_eq!(LispyType::create_bool(false).as_bool(), Some(&false));
    assert_eq!(number(2.5).as_number(), Some(&2.5f64.to_bits()));
    assert_eq!(symbol("a").as_symbol(), Some(&"a".to_string()));
    assert_eq!(LispyType::create_keyword(":a").as_keyword(), Some(&":a".to_string()));
    assert_eq!(LispyType::create_string("a").as_string(), Some(&"a".to_string()));
    assert_eq!(list(vec![number(1.0)]).as_list().unwrap().len(), 1);
    assert_eq!(LispyType::create_hash(vec![(symbol("a"), number(1.0))]).as_hash().unwrap().len(), 1);
    let error = LispyType::create_error("message", "KIND").as_error().unwrap();
    assert_eq!(error.message, "message");
    assert_eq!(error.error_type, "KIND");
    assert!(symbol("a").as_bool().is_none());
    assert!(symbol("a").as_number().is_none());
    assert!(number(1.0).as_symbol().is_none());
    assert!(symbol("a").as_keyword().is_none());
    assert!(symbol("a").as_string().is_none());
    assert!(symbol("a").as_list().is_none());
    assert!(symbol("a").as_hash().is_none());
    assert!(symbol("a").as_error().is_none());
}

#[test]
fn only_nil_and_false_are_falsy() {
    assert!(!LispyType::create_nil().is_truthy());
    assert!(!LispyType::create_bool(false).is_truthy());
    assert!(LispyType::create_bool(true).is_truthy());
    assert!(number(0.0).is_truthy());
    assert!(number(f64::NAN).is_truthy());
    assert!(LispyType::create_string("").is_truthy());
    assert!(list(vec![]).is_truthy());
    assert!(LispyType::create_hash(vec![]).is_truthy());
    assert!(LispyType::create_error("m", "K").is_truthy());
}

#[test]
fn len_is_bytes_items_or_entries() {
    assert_eq!(LispyType::create_string("héllo").len(), Some(6));
    assert_eq!(list(vec![number(1.0), number(2.0)]).len(), Some(2));
    assert_eq!(LispyType::create_hash(vec![(symbol("a"), number(1.0))]).len(), Some(1));
    assert_eq!(number(1.0).len(), None);
    assert_eq!(LispyType::create_nil().len(), None);
}

#[test]
fn symbol_is_told_by_its_text() {
    assert!(symbol("unquote").is_symbol_containing("unquote"));
    assert!(!symbol("unquote").is_symbol_containing("quote"));
    assert!(!LispyType::create_string("unquote").is_symbol_containing("unquote"));
}

#[test]
fn clone_is_deep_and_keeps_metadata() {
    let tagged = LispyType::Symbol {
        value: "a".to_string(),
        meta: vec![("doc".to_string(), LispyType::create_string("note"))],
    };
    let nested = list(vec![tagged, LispyType::create_hash(vec![(symbol("k"), list(vec![number(1.0)]))])]);
    let copy = nested.clone();
    assert_eq!(copy, nested);
    match &copy.as_list().unwrap()[0] {
        LispyType::Symbol { meta, .. } => {
            assert_eq!(meta.len(), 1);
            assert_eq!(meta[0].0, "doc");
            assert_eq!(meta[0].1, LispyType::create_string("note"));
        }
        _ => panic!("not a symbol"),
    }
    let lambda = LispyType::create_lambda(vec![symbol("x")], list(vec![symbol("x")]), 3);
    match lambda.clone() {
        LispyType::Lambda { bindings, to_eval, env, is_macro, .. } => {
            assert_eq!(bindings, vec![symbol("x")]);
            assert_eq!(*to_eval, list(vec![symbol("x")]));
            assert_eq!(env, 3);
            assert!(!is_macro);
        }
        _ => panic!("not a lambda"),
    }
}

#[test]
fn equality_is_structural() {
    assert_eq!(LispyType::create_nil(), LispyType::create_nil());
    assert_eq!(number(1.0), number(1.0));
    assert_ne!(number(1.0), number(2.0));
    assert_eq!(number(0.0), number(-0.0));
    assert_ne!(number(f64::NAN), number(f64::NAN));
    assert_ne!(symbol("a"), LispyType::create_string("a"));
    assert_ne!(symbol("a"), LispyType::create_keyword("a"));
    assert_eq!(list(vec![number(1.0), symbol("a")]), list(vec![number(1.0), symbol("a")]));
    assert_ne!(list(vec![number(1.0), symbol("a")]), list(vec![number(1.0), symbol("b")]));
    assert_ne!(list(vec![number(1.0)]), list(vec![number(1.0), number(1.0)]));
    assert_ne!(list(vec![]), LispyType::create_nil());
}

#[test]
fn metadata_does_not_count_for_equality() {
    let tagged = LispyType::Nil { meta: vec![("doc".to_string(), number(1.0))] };
    assert_eq!(tagged, LispyType::create_nil());
}

#[test]
fn hashes_are_equal_as_mappings() {
    let ab = LispyType::create_hash(vec![(symbol("a"), number(1.0)), (symbol("b"), number(2.0))]);
    let ba = LispyType::create_hash(vec![(symbol("b"), number(2.0)), (symbol("a"), number(1.0))]);
    let ac = LispyType::create_hash(vec![(symbol("a"), number(1.0)), (symbol("c"), number(2.0))]);
    let a = LispyType::create_hash(vec![(symbol("a"), number(1.0))]);
    assert_eq!(ab, ba);
    assert_ne!(ab, ac);
    assert_ne!(ab, a);
    assert_ne!(a, ab);
}

#[test]
fn errors_are_equal_by_kind_alone() {
    assert_eq!(LispyType::create_error("one", "KIND"), LispyType::create_error("two", "KIND"));
    assert_ne!(LispyType::create_error("one", "KIND"), LispyType::create_error("one", "OTHER"));
}

#[test]
fn functions_and_lambdas_equal_nothing() {
    let native = LispyType::create_function(Some(2), Builtin::Add);
    let lambda = LispyType::create_lambda(vec![], number(1.0), 0);
    assert!(!values_equal(&native, &native));
    assert!(!values_equal(&lambda, &lambda));
    assert!(native != native.clone());
}

#[test]
fn hash_keys_are_told_by_variant_and_payload() {
    assert!(keys_match(&symbol("a"), &symbol("a")));
    assert!(!keys_match(&symbol("a"), &LispyType::create_string("a")));
    assert!(keys_match(&LispyType::create_nil(), &LispyType::create_nil()));
    assert!(!keys_match(&LispyType::create_nil(), &LispyType::create_bool(false)));
    assert!(keys_match(&number(1.0), &number(1.0)));
    assert!(!keys_match(&number(0.0), &number(-0.0)));
    assert!(!keys_match(&number(f64::NAN), &number(f64::NAN)));
    assert!(!keys_match(&list(vec![]), &list(vec![])));
}

#[test]
fn insert_replaces_the_value_under_a_key() {
    let mut entries = Vec::new();
    insert_entry(&mut entries, symbol("a"), number(1.0));
    insert_entry(&mut entries, symbol("b"), number(2.0));
    insert_entry(&mut entries, symbol("a"), number(3.0));
    assert_eq!(entries.len(), 2);
    assert_eq!(find_key(&entries, &symbol("a")), Some(0));
    assert_eq!(find_key(&entries, &symbol("b")), Some(1));
    assert_eq!(find_key(&entries, &symbol("c")), None);
    assert_eq!(entries[0].1, number(3.0));
    insert_entry(&mut entries, number(f64::NAN), number(4.0));
    insert_entry(&mut entries, number(f64::NAN), number(5.0));
    assert_eq!(entries.len(), 4);
}

#[test]
fn display_forms() {
    assert_eq!(shown(&LispyType::create_nil()), "nil");
    assert_eq!(shown(&LispyType::create_bool(true)), "true");
    assert_eq!(shown(&LispyType::create_bool(false)), "false");
    assert_eq!(shown(&number(1.5)), "1.5");
    assert_eq!(shown(&symbol("abc")), "abc");
    assert_eq!(shown(&LispyType::create_keyword(":k")), ":k");
    assert_eq!(shown(&LispyType::create_string("a b")), "\"a b\"");
    assert_eq!(shown(&list(vec![])), "()");
    assert_eq!(shown(&list(vec![number(1.0), list(vec![symbol("a"), symbol("b")])])), "(1 (a b))");
    assert_eq!(shown(&LispyType::create_hash(vec![])), "{}");
    assert_eq!(
        shown(&LispyType::create_hash(vec![(symbol("a"), number(1.0)), (symbol("b"), list(vec![]))])),
        "{a 1 b ()}"
    );
    assert_eq!(shown(&LispyType::create_error("went wrong", "KIND")), "went wrong");
    assert_eq!(shown(&LispyType::create_function(None, Builtin::List)), "#<function>");
    assert_eq!(shown(&LispyType::create_lambda(vec![], number(1.0), 0)), "#<lambda-function>");
}

#[test]
fn display_of_several_values_puts_nothing_between_them() {
    let pieces = display_values(&vec![symbol("a"), number(2.0), symbol("b")]);
    assert_eq!(pieces.len(), 3);
    assert!(matches!(&pieces[0], Piece::Text(text) if text == "a"));
    assert!(matches!(&pieces[1], Piece::Number(bits) if *bits == 2.0f64.to_bits()));
    assert!(matches!(&pieces[2], Piece::Text(text) if text == "b"));
}

#[test]
fn error_kinds() {
    let kind = |error: LispyType| error.as_error().unwrap().error_type;
    assert_eq!(kind(not_defined_error("x")), "NOT_DEFINED");
    assert_eq!(not_defined_error("x").as_error().unwrap().message, "Symbol x is not defined");
    assert_eq!(kind(incorrect_type_error("m")), "INCORRECT_TYPE");
    assert_eq!(kind(incorrect_arity_error("m")), "INCORRECT_ARITY");
    assert_eq!(kind(too_short_error()), "INCORRECT_ARITY");
    assert_eq!(kind(not_a_function_error()), "NOT_A_FUNCTION");
    assert_eq!(kind(system_failure("m")), "SYSTEM_ERROR");
    assert_eq!(kind(read_failure("m")), "READ_ERROR");
}

#[test]
fn root_holds_the_core_namespace() {
    let env = LispyEnv::root();
    assert_eq!(env.frames.len(), 1);
    assert_eq!(env.current, 0);
    let expected = [
        ("+", Some(2), Builtin::Add),
        ("-", Some(2), Builtin::Subtract),
        ("*", Some(2), Builtin::Multiply),
        ("/", Some(2), Builtin::Divide),
        ("=", Some(2), Builtin::Equal),
        ("<", Some(2), Builtin::Less),
        ("<=", Some(2), Builtin::LessOrEqual),
        (">", Some(2), Builtin::Greater),
        (">=", Some(2), Builtin::GreaterOrEqual),
        ("println", None, Builtin::Println),
        ("print", None, Builtin::Print),
        ("list", None, Builtin::List),
        ("count", Some(1), Builtin::Count),
        ("cons", None, Builtin::Cons),
        ("concat", None, Builtin::Concat),
        ("first", Some(1), Builtin::First),
        ("rest", Some(1), Builtin::Rest),
        ("nth", Some(2), Builtin::Nth),
        ("nil?", Some(1), Builtin::IsNil),
        ("bool?", Some(1), Builtin::IsBool),
        ("symbol?", Some(1), Builtin::IsSymbol),
        ("number?", Some(1), Builtin::IsNumber),
        ("string?", Some(1), Builtin::IsString),
        ("list?", Some(1), Builtin::IsList),
        ("hash?", Some(1), Builtin::IsHash),
        ("function?", Some(1), Builtin::IsFunction),
        ("macro?", Some(1), Builtin::IsMacro),
        ("compile-string", Some(1), Builtin::CompileString),
        ("slurp", Some(1), Builtin::Slurp),
    ];
    assert_eq!(env.frames[0].store.len(), expected.len());
    for (name, arity, native) in expected {
        match env.get_item(&name.to_string()) {
            Some(LispyType::Function { arity: found, func, .. }) => {
                assert_eq!(*found, arity, "{}", name);
                assert_eq!(*func, native, "{}", name);
            }
            _ => panic!("{} is not bound to a native", name),
        }
    }
    assert!(env.get_item(&"missing".to_string()).is_none());
}

#[test]
fn binding_is_seen_from_the_frame_and_from_its_children() {
    let mut env = LispyEnv::root();
    env.set("a", number(1.0));
    env.set_item("b".to_string(), number(2.0));
    let child = env.push_frame(0);
    env.bind(child, "a".to_string(), number(10.0));
    assert_eq!(env.lookup(child, "a"), Some(&number(10.0)));
    assert_eq!(env.lookup(child, "b"), Some(&number(2.0)));
    assert_eq!(env.lookup(0, "a"), Some(&number(1.0)));
    assert_eq!(env.get_item(&"a".to_string()), Some(&number(1.0)));
    assert_eq!(env.lookup(child, "c"), None);
    assert_eq!(env.lookup(99, "a"), None);
}

#[test]
fn binding_again_replaces_the_value() {
    let mut env = LispyEnv::root();
    let before = env.frames[0].store.len();
    env.set("a", number(1.0));
    env.set("a", number(2.0));
    assert_eq!(env.frames[0].store.len(), before + 1);
    assert_eq!(env.get_item(&"a".to_string()), Some(&number(2.0)));
    env.bind(99, "a".to_string(), number(3.0));
    assert_eq!(env.frames.len(), 1);
}

#[test]
fn child_works_on_a_fresh_frame_of_a_copy() {
    let mut parent = LispyEnv::root();
    parent.set("a", number(1.0));
    let mut child = LispyEnv::child(&mut parent);
    assert_eq!(child.current, 1);
    assert_eq!(child.frames.len(), 2);
    assert_eq!(parent.frames.len(), 1);
    child.set("a", number(2.0));
    child.set("b", number(3.0));
    assert_eq!(child.get_item(&"a".to_string()), Some(&number(2.0)));
    assert_eq!(parent.get_item(&"a".to_string()), Some(&number(1.0)));
    assert!(parent.get_item(&"b".to_string()).is_none());
    let grandchild = LispyEnv::child_lambda(Box::new(child));
    assert_eq!(grandchild.current, 2);
    assert_eq!(grandchild.get_item(&"b".to_string()), Some(&number(3.0)));
}

#[test]
fn quasi_quote_builds_the_template() {
    let unquoted = list(vec![symbol("unquote"), symbol("y")]);
    assert_eq!(quasi_quote(&unquoted), symbol("y"));
    assert_eq!(quasi_quote(&number(1.0)), number(1.0));
    assert_eq!(quasi_quote(&symbol("a")), list(vec![symbol("quote"), symbol("a")]));
    assert_eq!(quasi_quote(&list(vec![])), list(vec![]));
    let hash = LispyType::create_hash(vec![]);
    assert_eq!(quasi_quote(&hash), list(vec![symbol("quote"), LispyType::create_hash(vec![])]));
    let spliced = list(vec![list(vec![symbol("splice-unquote"), symbol("xs")]), number(1.0)]);
    assert_eq!(
        quasi_quote(&spliced),
        list(vec![
            symbol("concat"),
            symbol("xs"),
            list(vec![symbol("cons"), number(1.0), list(vec![])]),
        ])
    );
    let lone = list(vec![symbol("unquote")]);
    assert_eq!(
        quasi_quote(&lone),
        list(vec![symbol("cons"), list(vec![symbol("quote"), symbol("unquote")]), list(vec![])])
    );
}

#[test]
fn apply_function_checks_the_arity_and_runs_the_native() {
    let native = LispyType::create_function(Some(1), Builtin::First);
    match native.apply_function(vec![list(vec![number(7.0)])]) {
        Control::Value { value } => assert_eq!(value, number(7.0)),
        _ => panic!("no value"),
    }
    match native.apply_function(vec![]) {
        Control::Raise { error } => assert_eq!(error.as_error().unwrap().error_type, "INCORRECT_ARITY"),
        _ => panic!("no error"),
    }
    match number(1.0).apply_function(vec![]) {
        Control::Raise { error } => assert_eq!(error.as_error().unwrap().error_type, "NOT_A_FUNCTION"),
        _ => panic!("no error"),
    }
    let negative = LispyType::create_function(Some(-1), Builtin::List);
    assert!(matches!(negative.apply_function(vec![]), Control::Raise { .. }));
    let any = LispyType::create_function(None, Builtin::List);
    assert!(matches!(any.apply_function(vec![number(1.0), number(2.0)]), Control::Value { .. }));
}

#[test]
fn apply_lambda_binds_in_a_fresh_frame() {
    let mut env = LispyEnv::root();
    let lambda = LispyType::create_lambda(vec![symbol("x"), symbol("y")], symbol("y"), 0);
    let (body, frame) = lambda.apply_lambda(vec![number(1.0), number(2.0)], &mut env).unwrap();
    assert_eq!(body, symbol("y"));
    assert_eq!(frame, 1);
    assert_eq!(env.frames.len(), 2);
    assert_eq!(env.lookup(frame, "x"), Some(&number(1.0)));
    assert_eq!(env.lookup(frame, "y"), Some(&number(2.0)));
    assert!(env.lookup(frame, "+").is_some());
    let error = lambda.apply_lambda(vec![number(1.0)], &mut env).unwrap_err();
    assert_eq!(error.as_error().unwrap().error_type, "INCORRECT_ARITY");
    assert_eq!(env.frames.len(), 2);
    let error = number(1.0).apply_lambda(vec![], &mut env).unwrap_err();
    assert_eq!(error.as_error().unwrap().error_type, "NOT_A_FUNCTION");
}

#[test]
fn eval_runs_a_form_that_needs_no_host() {
    let mut machine = LispyMachine::new();
    let form = list(vec![symbol("if"), LispyType::create_nil(), symbol("a"), list(vec![symbol("quote"), symbol("b")])]);
    assert_eq!(eval(&form, &mut machine, 100), Status::Finished);
    assert_eq!(machine.result(), Some(Ok(&symbol("b"))));
    assert_eq!(eval(&form, &mut machine, 2), Status::Running);
    assert!(machine.result().is_none());
    assert_eq!(machine.run(100), Status::Finished);
}

#[test]
fn macro_call_is_told_by_the_binding_of_its_head() {
    let mut machine = LispyMachine::new();
    let define = list(vec![
        symbol("defmacro!"),
        symbol("twice"),
        list(vec![symbol("fn*"), list(vec![symbol("x")]), list(vec![symbol("list"), list(vec![symbol("quote"), symbol("do")]), symbol("x"), symbol("x")])]),
    ]);
    assert_eq!(eval(&define, &mut machine, 1000), Status::Finished);
    let call = list(vec![symbol("twice"), symbol("a")]);
    assert!(is_macro_call(&call, machine.get_env()));
    assert!(!is_macro_call(&list(vec![symbol("list"), symbol("a")]), machine.get_env()));
    assert!(!is_macro_call(&list(vec![]), machine.get_env()));
    assert!(!is_macro_call(&symbol("twice"), machine.get_env()));
    assert_eq!(macro_expand(&call, &mut machine, 1000), Status::Finished);
    assert_eq!(machine.result(), Some(Ok(&list(vec![symbol("do"), symbol("a"), symbol("a")]))));
    assert_eq!(macro_expand(&symbol("a"), &mut machine, 1000), Status::Finished);
    assert_eq!(machine.result(), Some(Ok(&symbol("a"))));
}

#[test]
fn new_machine_holds_nil_over_a_root_environment() {
    let mut machine = LispyMachine::new();
    assert_eq!(machine.status(), Status::Finished);
    assert!(machine.result().unwrap().unwrap().is_nil());
    assert!(machine.request().is_none());
    machine.get_env_mut().set("a", number(1.0));
    assert_eq!(machine.get_env().get_item(&"a".to_string()), Some(&number(1.0)));
}
